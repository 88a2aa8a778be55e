use vstd::prelude::*;
use crate::bytes::{matches_at, copy_range, occurs_at};

verus! {

/// Length of the fixed header of a portable-format (odc) cpio record.
pub const HEADER_LEN: usize = 76;

/// The magic number that opens each odc header, `"070707"`.
pub open spec fn odc_magic() -> Seq<u8> {
    seq![48u8, 55u8, 48u8, 55u8, 48u8, 55u8]
}

/// The name of the record that closes an odc stream, `"TRAILER!!!"`.
pub open spec fn trailer_name() -> Seq<u8> {
    seq![84u8, 82u8, 65u8, 73u8, 76u8, 69u8, 82u8, 33u8, 33u8, 33u8]
}

pub open spec fn is_octal_digit(b: u8) -> bool {
    48 <= b <= 55
}

/// The number that an ASCII octal field spells, if every byte is an octal digit.
pub open spec fn octal_value(s: Seq<u8>) -> Option<nat>
    decreases s.len(),
{
    if s.len() == 0 {
        Some(0)
    } else {
        match octal_value(s.drop_last()) {
            Some(v) => if is_octal_digit(s.last()) {
                Some(v * 8 + (s.last() - 48) as nat)
            } else {
                None
            },
            None => None,
        }
    }
}

pub open spec fn pow8(n: nat) -> nat
    decreases n,
{
    if n == 0 {
        1
    } else {
        8 * pow8((n - 1) as nat)
    }
}

/// The name size and file size that a well-formed header at `pos` declares.
pub open spec fn header_at(s: Seq<u8>, pos: int) -> Option<(nat, nat)> {
    if pos + 76 <= s.len() && occurs_at(s, pos, odc_magic()) {
        match (octal_value(s.subrange(pos + 59, pos + 65)), octal_value(s.subrange(pos + 65, pos + 76))) {
            (Some(ns), Some(fs)) => Some((ns, fs)),
            _ => None,
        }
    } else {
        None
    }
}

/// The records of an odc stream read from `pos` on: for each, its name (without the
/// closing NUL), where its data starts and how many bytes it holds. The stream ends
/// at the trailer record or exactly at the end of the bytes; anything else is malformed.
pub open spec fn records_from(s: Seq<u8>, pos: int) -> Option<Seq<(Seq<u8>, nat, nat)>>
    decreases s.len() - pos,
{
    if pos < 0 || pos > s.len() {
        None
    } else if pos == s.len() {
        Some(Seq::empty())
    } else {
        match header_at(s, pos) {
            None => None,
            Some((ns, fs)) => {
                let name_end = pos + 76 + ns;
                let data_end = name_end + fs;
                if ns == 0 || data_end > s.len() {
                    None
                } else {
                    let name = s.subrange(pos + 76, name_end - 1);
                    if name == trailer_name() {
                        Some(Seq::empty())
                    } else {
                        match records_from(s, data_end) {
                            Some(rest) => Some(seq![(name, name_end as nat, fs)] + rest),
                            None => None,
                        }
                    }
                }
            },
        }
    }
}

pub open spec fn odc_records(s: Seq<u8>) -> Option<Seq<(Seq<u8>, nat, nat)>> {
    records_from(s, 0)
}

/// One record of an odc stream: its name, and the place of its data in the stream.
#[derive(Debug)]
pub struct OdcRecord {
    pub name: Vec<u8>,
    pub data_start: usize,
    pub size: usize,
}

impl OdcRecord {
    pub open spec fn view(&self) -> (Seq<u8>, nat, nat) {
        (self.name@, self.data_start as nat, self.size as nat)
    }
}

pub open spec fn records_view(v: Seq<OdcRecord>) -> Seq<(Seq<u8>, nat, nat)> {
    v.map_values(|r: OdcRecord| r.view())
}

proof fn lemma_octal_prefix_none(s: Seq<u8>, k: int)
    requires
        0 <= k <= s.len(),
        octal_value(s.take(k)) is None,
    ensures
        octal_value(s) is None,
    decreases s.len(),
{
    if k == s.len() {
        assert(s.take(k) =~= s);
    } else {
        assert(s.drop_last().take(k) =~= s.take(k));
        lemma_octal_prefix_none(s.drop_last(), k);
    }
}

/// Reads the octal field `s[start..start + width]`.
pub fn parse_octal(s: &[u8], start: usize, width: usize) -> (r: Option<u64>)
    requires
        start + width <= s@.len(),
        width <= 11,
    ensures
        match r {
            Some(v) => octal_value(s@.subrange(start as int, start + width)) == Some(v as nat),
            None => octal_value(s@.subrange(start as int, start + width)) is None,
        },
{
    let ghost field = s@.subrange(start as int, start + width);
    let n = s.len();
    let mut v: u64 = 0;
    let mut i: usize = 0;
    assert(field.take(0) =~= Seq::<u8>::empty());
    proof {
        reveal_with_fuel(pow8, 12);
    }
    assert(pow8(11) == 8589934592);
    while i < width
        invariant
            n == s@.len(),
            start + width <= n,
            width <= 11,
            i <= width,
            field == s@.subrange(start as int, start + width),
            octal_value(field.take(i as int)) == Some(v as nat),
            v < pow8(i as nat),
            pow8(11) == 8589934592,
        decreases width - i,
    {
        let b = s[start + i];
        assert(field.take(i + 1).drop_last() =~= field.take(i as int));
        assert(field[i as int] == b);
        if b < 48 || b > 55 {
            proof {
                lemma_octal_prefix_none(field, i + 1);
            }
            return None;
        }
        proof {
            lemma_pow8_mono(i as nat, 11);
            assert(v * 8 + 7 < pow8(i as nat) * 8) by (nonlinear_arith)
                requires v < pow8(i as nat);
        }
        v = v * 8 + (b - 48) as u64;
        i = i + 1;
    }
    assert(field.take(width as int) =~= field);
    Some(v)
}

/// Splits an odc stream into its records, or `None` where it is malformed.
pub fn parse_odc(s: &[u8]) -> (r: Option<Vec<OdcRecord>>)
    ensures
        match r {
            Some(v) => odc_records(s@) == Some(records_view(v@)),
            None => odc_records(s@) is None,
        },
{
    let n = s.len();
    let magic: [u8; 6] = [48u8, 55u8, 48u8, 55u8, 48u8, 55u8];
    let trailer: [u8; 10] = [84u8, 82u8, 65u8, 73u8, 76u8, 69u8, 82u8, 33u8, 33u8, 33u8];
    assert(magic@ =~= odc_magic());
    assert(trailer@ =~= trailer_name());
    let mut out: Vec<OdcRecord> = Vec::new();
    let mut pos: usize = 0;
    assert(records_view(out@) =~= Seq::empty());
    assert(records_view(out@) + Seq::<(Seq<u8>, nat, nat)>::empty() =~= Seq::<(Seq<u8>, nat, nat)>::empty());
    while pos < n
        invariant
            n == s@.len(),
            pos <= n,
            magic@ == odc_magic(),
            trailer@ == trailer_name(),
            odc_records(s@) == match records_from(s@, pos as int) {
                Some(rest) => Some(records_view(out@) + rest),
                None => None::<Seq<(Seq<u8>, nat, nat)>>,
            },
        decreases n - pos,
    {
        if n - pos < HEADER_LEN || !matches_at(s, pos, magic.as_slice()) {
            return None;
        }
        let ns = parse_octal(s, pos + 59, 6);
        let fs = parse_octal(s, pos + 65, 11);
        let (ns, fs) = match (ns, fs) {
            (Some(a), Some(b)) => (a, b),
            _ => {
                return None;
            },
        };
        let body = pos + HEADER_LEN;
        if ns == 0 || ns > (n - body) as u64 || fs > (n - body) as u64 - ns {
            return None;
        }
        let name_end = body + ns as usize;
        let data_end = name_end + fs as usize;
        assert(header_at(s@, pos as int) == Some((ns as nat, fs as nat)));
        let name = copy_range(s, body, name_end - 1);
        if name.len() == 10 && matches_at(name.as_slice(), 0, trailer.as_slice()) {
            assert(name@ =~= trailer_name());
            assert(records_view(out@) + Seq::<(Seq<u8>, nat, nat)>::empty() =~= records_view(out@));
            return Some(out);
        }
        proof {
            if name@ == trailer_name() {
                assert(name@.subrange(0, 10) =~= name@);
            }
        }
        let ghost old_out = out@;
        out.push(OdcRecord { name, data_start: name_end, size: fs as usize });
        proof {
            assert(records_view(out@) =~= records_view(old_out).push((name@, name_end as nat, fs as nat)));
            match records_from(s@, data_end as int) {
                Some(rest) => {
                    assert(records_view(old_out) + (seq![(name@, name_end as nat, fs as nat)] + rest)
                        =~= records_view(out@) + rest);
                },
                None => {},
            }
        }
        pos = data_end;
    }
    assert(records_view(out@) + Seq::<(Seq<u8>, nat, nat)>::empty() =~= records_view(out@));
    Some(out)
}

proof fn lemma_pow8_mono(a: nat, b: nat)
    requires
        a <= b,
    ensures
        pow8(a) <= pow8(b),
    decreases b,
{
    if a < b {
        lemma_pow8_mono(a, (b - 1) as nat);
    }
}

/// Each record's data lies within the stream.
pub proof fn lemma_records_in_bounds(s: Seq<u8>, pos: int)
    ensures
        records_from(s, pos) matches Some(recs) ==> forall|j: int|
            0 <= j < recs.len() ==> #[trigger] recs[j].1 + recs[j].2 <= s.len(),
    decreases s.len() - pos,
{
    if 0 <= pos < s.len() {
        match header_at(s, pos) {
            Some((ns, fs)) => {
                let data_end = pos + 76 + ns + fs;
                if ns != 0 && data_end <= s.len() {
                    lemma_records_in_bounds(s, data_end);
                    match records_from(s, pos) {
                        Some(recs) => {
                            if recs.len() > 0 {
                                let rest = records_from(s, data_end).unwrap();
                                assert forall|j: int| 0 <= j < recs.len() implies #[trigger] recs[j].1 + recs[j].2 <= s.len() by {
                                    if j > 0 {
                                        assert(recs[j] == rest[j - 1]);
                                    }
                                }
                            }
                        },
                        None => {},
                    }
                }
            },
            None => {},
        }
    }
}

} // verus!
