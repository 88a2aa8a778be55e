use vstd::prelude::*;
use crate::archive::{gunzip, gunzip_of, payload_plan, plan_payload, extraction_view, Extraction, FileView};
use crate::bytes::{matches_at, copy_range, occurs_at};
use crate::error::AcquireError;
use vstd::slice::slice_subrange;

verus! {

/// What the zlib decoder makes of a byte stream: the decoded bytes, or `None` for
/// a malformed stream.
pub uninterp spec fn inflate_of(b: Seq<u8>) -> Option<Seq<u8>>;

/// Relies on flate2::read::ZlibDecoder read to its end: it decodes the zlib stream
/// in `b` or fails, and what it gives depends on the bytes alone.
#[verifier::external_body]
fn inflate(b: &[u8]) -> (r: Option<Vec<u8>>)
    ensures
        match r {
            Some(v) => inflate_of(b@) == Some(v@),
            None => inflate_of(b@) is None,
        },
{
    let mut out: Vec<u8> = Vec::new();
    match std::io::Read::read_to_end(&mut flate2::read::ZlibDecoder::new(b), &mut out) {
        Ok(_) => Some(out),
        Err(_) => None,
    }
}

/// Length of the fixed part of a xar header.
pub const XAR_HEADER_MIN: usize = 28;

/// A big-endian unsigned integer read from `s`.
pub open spec fn be_value(s: Seq<u8>) -> nat
    decreases s.len(),
{
    if s.len() == 0 {
        0
    } else {
        be_value(s.drop_last()) * 256 + s.last() as nat
    }
}

/// The bytes `xar!` that open a package.
pub open spec fn xar_magic() -> Seq<u8> {
    seq![120u8, 97u8, 114u8, 33u8]
}

/// The bytes of `<name>Payload</name>`.
pub open spec fn payload_name_tag() -> Seq<u8> {
    seq![60u8, 110u8, 97u8, 109u8, 101u8, 62u8, 80u8, 97u8, 121u8, 108u8, 111u8, 97u8, 100u8, 60u8, 47u8, 110u8, 97u8, 109u8, 101u8, 62u8]
}

/// The bytes of `<file`.
pub open spec fn file_open_tag() -> Seq<u8> {
    seq![60u8, 102u8, 105u8, 108u8, 101u8]
}

/// The bytes of `</file>`.
pub open spec fn file_close_tag() -> Seq<u8> {
    seq![60u8, 47u8, 102u8, 105u8, 108u8, 101u8, 62u8]
}

/// The bytes of `<offset>`.
pub open spec fn offset_tag() -> Seq<u8> {
    seq![60u8, 111u8, 102u8, 102u8, 115u8, 101u8, 116u8, 62u8]
}

/// The bytes of `<length>`.
pub open spec fn length_tag() -> Seq<u8> {
    seq![60u8, 108u8, 101u8, 110u8, 103u8, 116u8, 104u8, 62u8]
}

/// The header of a package: where its table of contents starts and how many
/// compressed bytes it holds. The contents end where the heap begins.
pub open spec fn xar_header(s: Seq<u8>) -> Option<(nat, nat)> {
    if s.len() >= 28 && occurs_at(s, 0, xar_magic()) {
        let hs = be_value(s.subrange(4, 6));
        let tc = be_value(s.subrange(8, 16));
        if 28 <= hs && hs + tc <= s.len() {
            Some((hs, tc))
        } else {
            None
        }
    } else {
        None
    }
}

/// The first place at or after `i` where `pat` occurs in `s`.
pub open spec fn find_after(s: Seq<u8>, pat: Seq<u8>, i: int) -> Option<nat>
    decreases s.len() - i,
{
    if i < 0 || i >= s.len() || i + pat.len() > s.len() {
        None
    } else if occurs_at(s, i, pat) {
        Some(i as nat)
    } else {
        find_after(s, pat, i + 1)
    }
}

/// The last place before `i` where an occurrence of `pat` in `s` starts.
pub open spec fn find_before(s: Seq<u8>, pat: Seq<u8>, i: int) -> Option<nat>
    decreases i,
{
    if i <= 0 {
        None
    } else if occurs_at(s, i - 1, pat) {
        Some((i - 1) as nat)
    } else {
        find_before(s, pat, i - 1)
    }
}

pub open spec fn is_decimal_digit(b: u8) -> bool {
    48 <= b <= 57
}

/// The number that a run of one to eighteen decimal digits spells.
pub open spec fn decimal_value(s: Seq<u8>) -> Option<nat>
    decreases s.len(),
{
    if s.len() == 0 || s.len() > 18 || !is_decimal_digit(s.last()) {
        None
    } else if s.len() == 1 {
        Some((s.last() - 48) as nat)
    } else {
        match decimal_value(s.drop_last()) {
            Some(v) => Some(v * 10 + (s.last() - 48) as nat),
            None => None,
        }
    }
}

/// The number written after the first `tag` in `toc[from..to]`, up to the next `<`.
pub open spec fn tag_number(toc: Seq<u8>, tag: Seq<u8>, from: int, to: int) -> Option<nat> {
    match find_after(toc, tag, from) {
        Some(o) => if o + tag.len() <= to {
            match find_after(toc, seq![60u8], (o + tag.len()) as int) {
                Some(c) => if c <= to {
                    decimal_value(toc.subrange((o + tag.len()) as int, c as int))
                } else {
                    None
                },
                None => None,
            }
        } else {
            None
        },
        None => None,
    }
}

/// Where the data of the `Payload` member lies in the heap: its offset and length,
/// read from the `file` element of the table of contents that names it.
pub open spec fn payload_span(toc: Seq<u8>) -> Result<(nat, nat), AcquireError> {
    match find_after(toc, payload_name_tag(), 0) {
        None => Err(AcquireError::PayloadNotFound),
        Some(n) => match (find_before(toc, file_open_tag(), n as int), find_after(toc, file_close_tag(), n as int)) {
            (Some(a), Some(z)) => match (tag_number(toc, offset_tag(), a as int, z as int),
                tag_number(toc, length_tag(), a as int, z as int)) {
                (Some(off), Some(len)) => Ok((off, len)),
                _ => Err(AcquireError::ArchiveFormat),
            },
            _ => Err(AcquireError::PayloadNotFound),
        },
    }
}

/// The plan for a package: its payload, decompressed and unpacked.
pub open spec fn xar_plan(s: Seq<u8>, tool: Seq<u8>) -> Result<(Seq<FileView>, nat), AcquireError> {
    match xar_header(s) {
        None => Err(AcquireError::ArchiveFormat),
        Some((hs, tc)) => match inflate_of(s.subrange(hs as int, (hs + tc) as int)) {
            None => Err(AcquireError::ArchiveFormat),
            Some(toc) => match payload_span(toc) {
                Err(e) => Err(e),
                Ok((off, len)) => if hs + tc + off + len > s.len() {
                    Err(AcquireError::ArchiveFormat)
                } else {
                    match gunzip_of(s.subrange((hs + tc + off) as int, (hs + tc + off + len) as int)) {
                        None => Err(AcquireError::ArchiveFormat),
                        Some(p) => payload_plan(p, tool),
                    }
                },
            },
        },
    }
}

/// The first place at or after `i` where `pat` occurs in `s`.
pub fn find_from(s: &[u8], pat: &[u8], i: usize) -> (r: Option<usize>)
    ensures
        match r {
            Some(k) => find_after(s@, pat@, i as int) == Some(k as nat),
            None => find_after(s@, pat@, i as int) is None,
        },
{
    let n = s.len();
    let mut k: usize = i;
    while k < n
        invariant
            n == s@.len(),
            i <= k,
            find_after(s@, pat@, i as int) == find_after(s@, pat@, k as int),
        decreases n - k,
    {
        if pat.len() > n - k {
            return None;
        }
        if matches_at(s, k, pat) {
            return Some(k);
        }
        k = k + 1;
    }
    None
}

/// The last place before `i` where an occurrence of `pat` in `s` starts.
pub fn find_back(s: &[u8], pat: &[u8], i: usize) -> (r: Option<usize>)
    ensures
        match r {
            Some(k) => find_before(s@, pat@, i as int) == Some(k as nat),
            None => find_before(s@, pat@, i as int) is None,
        },
{
    let mut k: usize = i;
    while k > 0
        invariant
            k <= i,
            find_before(s@, pat@, i as int) == find_before(s@, pat@, k as int),
        decreases k,
    {
        if matches_at(s, k - 1, pat) {
            return Some(k - 1);
        }
        k = k - 1;
    }
    None
}

pub open spec fn pow10(n: nat) -> nat
    decreases n,
{
    if n == 0 {
        1
    } else {
        10 * pow10((n - 1) as nat)
    }
}

proof fn lemma_decimal_prefix_none(s: Seq<u8>, k: int)
    requires
        1 <= k <= s.len() <= 18,
        decimal_value(s.take(k)) is None,
    ensures
        decimal_value(s) is None,
    decreases s.len(),
{
    if k == s.len() {
        assert(s.take(k) =~= s);
    } else {
        assert(s.drop_last().take(k) =~= s.take(k));
        lemma_decimal_prefix_none(s.drop_last(), k);
    }
}

/// Reads the decimal number `s[start..end]`.
pub fn parse_decimal(s: &[u8], start: usize, end: usize) -> (r: Option<u64>)
    requires
        start <= end <= s@.len(),
    ensures
        match r {
            Some(v) => decimal_value(s@.subrange(start as int, end as int)) == Some(v as nat),
            None => decimal_value(s@.subrange(start as int, end as int)) is None,
        },
{
    let ghost field = s@.subrange(start as int, end as int);
    if end == start || end - start > 18 {
        return None;
    }
    let w = end - start;
    let mut v: u64 = 0;
    let mut i: usize = 0;
    proof {
        reveal_with_fuel(pow10, 19);
    }
    assert(pow10(18) == 1000000000000000000);
    while i < w
        invariant
            end <= s@.len(),
            w == end - start,
            1 <= w <= 18,
            i <= w,
            field == s@.subrange(start as int, end as int),
            i > 0 ==> decimal_value(field.take(i as int)) == Some(v as nat),
            i == 0 ==> v == 0,
            v < pow10(i as nat),
            pow10(18) == 1000000000000000000,
        decreases w - i,
    {
        let b = s[start + i];
        assert(field[i as int] == b);
        assert(field.take(i + 1).drop_last() =~= field.take(i as int));
        assert(field.take(i + 1).last() == b);
        if b < 48 || b > 57 {
            proof {
                lemma_decimal_prefix_none(field, i + 1);
            }
            return None;
        }
        proof {
            lemma_pow10_mono(i as nat, 17);
            assert(v * 10 + 9 < pow10(i as nat) * 10) by (nonlinear_arith)
                requires v < pow10(i as nat);
        }
        v = v * 10 + (b - 48) as u64;
        i = i + 1;
    }
    assert(field.take(w as int) =~= field);
    Some(v)
}

proof fn lemma_pow10_mono(a: nat, b: nat)
    requires
        a <= b,
    ensures
        pow10(a) <= pow10(b),
    decreases b,
{
    if a < b {
        lemma_pow10_mono(a, (b - 1) as nat);
    }
}

/// Reads the number written after the first `tag` in `toc[from..to]`.
pub fn read_tag_number(toc: &[u8], tag: &[u8], from: usize, to: usize) -> (r: Option<u64>)
    requires
        to <= toc@.len(),
    ensures
        match r {
            Some(v) => tag_number(toc@, tag@, from as int, to as int) == Some(v as nat),
            None => tag_number(toc@, tag@, from as int, to as int) is None,
        },
{
    let lt: [u8; 1] = [60u8];
    assert(lt@ =~= seq![60u8]);
    let o = match find_from(toc, tag, from) {
        Some(o) => o,
        None => {
            return None;
        },
    };
    if tag.len() > to || o > to - tag.len() {
        return None;
    }
    let c = match find_from(toc, lt.as_slice(), o + tag.len()) {
        Some(c) => c,
        None => {
            return None;
        },
    };
    if c > to {
        return None;
    }
    proof {
        lemma_find_after_ok(toc@, seq![60u8], (o + tag@.len()) as int);
    }
    parse_decimal(toc, o + tag.len(), c)
}

proof fn lemma_find_after_ok(s: Seq<u8>, pat: Seq<u8>, i: int)
    ensures
        find_after(s, pat, i) matches Some(k) ==> i <= k && k + pat.len() <= s.len(),
    decreases s.len() - i,
{
    if !(i < 0 || i >= s.len() || i + pat.len() > s.len()) && !occurs_at(s, i, pat) {
        lemma_find_after_ok(s, pat, i + 1);
    }
}

/// Finds the heap offset and length of the `Payload` member in a table of contents.
pub fn locate_payload(toc: &[u8]) -> (r: Result<(u64, u64), AcquireError>)
    ensures
        match r {
            Ok((off, len)) => payload_span(toc@) == Ok::<(nat, nat), AcquireError>((off as nat, len as nat)),
            Err(e) => payload_span(toc@) == Err::<(nat, nat), AcquireError>(e),
        },
{
    let payload_name_tag_b: [u8; 20] = [60u8, 110u8, 97u8, 109u8, 101u8, 62u8, 80u8, 97u8, 121u8, 108u8, 111u8, 97u8, 100u8, 60u8, 47u8, 110u8, 97u8, 109u8, 101u8, 62u8];
    assert(payload_name_tag_b@ =~= payload_name_tag());
    let file_open_tag_b: [u8; 5] = [60u8, 102u8, 105u8, 108u8, 101u8];
    assert(file_open_tag_b@ =~= file_open_tag());
    let file_close_tag_b: [u8; 7] = [60u8, 47u8, 102u8, 105u8, 108u8, 101u8, 62u8];
    assert(file_close_tag_b@ =~= file_close_tag());
    let offset_tag_b: [u8; 8] = [60u8, 111u8, 102u8, 102u8, 115u8, 101u8, 116u8, 62u8];
    assert(offset_tag_b@ =~= offset_tag());
    let length_tag_b: [u8; 8] = [60u8, 108u8, 101u8, 110u8, 103u8, 116u8, 104u8, 62u8];
    assert(length_tag_b@ =~= length_tag());
    let n = match find_from(toc, payload_name_tag_b.as_slice(), 0) {
        Some(n) => n,
        None => {
            return Err(AcquireError::PayloadNotFound);
        },
    };
    let a = find_back(toc, file_open_tag_b.as_slice(), n);
    let z = find_from(toc, file_close_tag_b.as_slice(), n);
    let (a, z) = match (a, z) {
        (Some(a), Some(z)) => (a, z),
        _ => {
            return Err(AcquireError::PayloadNotFound);
        },
    };
    proof {
        lemma_find_after_ok(toc@, file_close_tag(), n as int);
    }
    let off = read_tag_number(toc, offset_tag_b.as_slice(), a, z);
    let len = read_tag_number(toc, length_tag_b.as_slice(), a, z);
    match (off, len) {
        (Some(off), Some(len)) => Ok((off, len)),
        _ => Err(AcquireError::ArchiveFormat),
    }
}

/// Reads a big-endian number from `s[start..start + width]`.
fn read_be(s: &[u8], start: usize, width: usize) -> (r: u64)
    requires
        start + width <= s@.len(),
        width <= 8,
    ensures
        r as nat == be_value(s@.subrange(start as int, start + width)),
{
    let ghost field = s@.subrange(start as int, start + width);
    let n = s.len();
    let mut v: u64 = 0;
    let mut i: usize = 0;
    assert(field.take(0) =~= Seq::<u8>::empty());
    proof {
        reveal_with_fuel(pow256, 9);
    }
    while i < width
        invariant
            n == s@.len(),
            start + width <= s@.len(),
            width <= 8,
            i <= width,
            field == s@.subrange(start as int, start + width),
            be_value(field.take(i as int)) == v as nat,
            v < pow256(i as nat),
            pow256(8) == 0x1_0000_0000_0000_0000,
        decreases width - i,
    {
        let b = s[start + i];
        assert(field.take(i + 1).drop_last() =~= field.take(i as int));
        assert(field.take(i + 1).last() == b);
        proof {
            lemma_pow256_mono((i + 1) as nat, 8);
            assert(v * 256 + 255 < pow256(i as nat) * 256) by (nonlinear_arith)
                requires v < pow256(i as nat);
        }
        v = v * 256 + b as u64;
        i = i + 1;
    }
    assert(field.take(width as int) =~= field);
    v
}

pub open spec fn pow256(n: nat) -> nat
    decreases n,
{
    if n == 0 {
        1
    } else {
        256 * pow256((n - 1) as nat)
    }
}

proof fn lemma_pow256_mono(a: nat, b: nat)
    requires
        a <= b,
    ensures
        pow256(a) <= pow256(b),
    decreases b,
{
    if a < b {
        lemma_pow256_mono(a, (b - 1) as nat);
    }
}

/// Unpacks an installer package: reads its header, decompresses its table of
/// contents, finds the `Payload` member there, decompresses it and unpacks the odc
/// records it holds. A malformed package is an `ArchiveFormat` error, one without a
/// `Payload` member a `PayloadNotFound` error, one without a candidate a
/// `BinaryNotFound` error.
pub fn extract_xar_package(pkg: &[u8], tool: &[u8]) -> (r: Result<Extraction, AcquireError>)
    ensures
        extraction_view(r) == xar_plan(pkg@, tool@),
{
    let magic: [u8; 4] = [120u8, 97u8, 114u8, 33u8];
    assert(magic@ =~= xar_magic());
    let n = pkg.len();
    if n < XAR_HEADER_MIN || !matches_at(pkg, 0, magic.as_slice()) {
        return Err(AcquireError::ArchiveFormat);
    }
    let hs = read_be(pkg, 4, 2);
    let tc = read_be(pkg, 8, 8);
    if hs < 28 || hs > n as u64 || tc > n as u64 - hs {
        return Err(AcquireError::ArchiveFormat);
    }
    let hs = hs as usize;
    let tc = tc as usize;
    let heap = hs + tc;
    let toc = match inflate(slice_subrange(pkg, hs, heap)) {
        Some(t) => t,
        None => {
            return Err(AcquireError::ArchiveFormat);
        },
    };
    let (off, len) = match locate_payload(toc.as_slice()) {
        Ok(span) => span,
        Err(e) => {
            return Err(e);
        },
    };
    if off > (n - heap) as u64 || len > (n - heap) as u64 - off {
        return Err(AcquireError::ArchiveFormat);
    }
    let start = heap + off as usize;
    let end = start + len as usize;
    let payload = match gunzip(slice_subrange(pkg, start, end)) {
        Some(p) => p,
        None => {
            return Err(AcquireError::ArchiveFormat);
        },
    };
    plan_payload(payload.as_slice(), tool)
}

} // verus!
