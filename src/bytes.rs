use vstd::prelude::*;

verus! {

/// Whether `pat` occurs in `s` at position `pos`.
pub open spec fn occurs_at(s: Seq<u8>, pos: int, pat: Seq<u8>) -> bool {
    0 <= pos && pos + pat.len() <= s.len() && s.subrange(pos, pos + pat.len()) == pat
}

pub open spec fn has_prefix(s: Seq<u8>, pat: Seq<u8>) -> bool {
    occurs_at(s, 0, pat)
}

pub open spec fn has_suffix(s: Seq<u8>, pat: Seq<u8>) -> bool {
    pat.len() <= s.len() && occurs_at(s, s.len() - pat.len(), pat)
}

/// Whether `pat` occurs in `s` at `pos`.
pub fn matches_at(s: &[u8], pos: usize, pat: &[u8]) -> (r: bool)
    ensures
        r == occurs_at(s@, pos as int, pat@),
{
    if pos > s.len() || pat.len() > s.len() - pos {
        return false;
    }
    let n = s.len();
    let mut i: usize = 0;
    while i < pat.len()
        invariant
            n == s@.len(),
            pos + pat@.len() <= s@.len(),
            i <= pat@.len(),
            forall|j: int| 0 <= j < i ==> s@[pos + j] == pat@[j],
        decreases pat.len() - i,
    {
        if s[pos + i] != pat[i] {
            assert(s@.subrange(pos as int, pos + pat@.len())[i as int] != pat@[i as int]);
            return false;
        }
        i = i + 1;
    }
    assert(s@.subrange(pos as int, pos + pat@.len()) =~= pat@);
    true
}

pub fn starts_with(s: &[u8], pat: &[u8]) -> (r: bool)
    ensures
        r == has_prefix(s@, pat@),
{
    matches_at(s, 0, pat)
}

pub fn ends_with(s: &[u8], pat: &[u8]) -> (r: bool)
    ensures
        r == has_suffix(s@, pat@),
{
    if pat.len() > s.len() {
        false
    } else {
        matches_at(s, s.len() - pat.len(), pat)
    }
}

/// A copy of `s[start..end]`.
pub fn copy_range(s: &[u8], start: usize, end: usize) -> (r: Vec<u8>)
    requires
        start <= end <= s@.len(),
    ensures
        r@ == s@.subrange(start as int, end as int),
{
    let mut out: Vec<u8> = Vec::new();
    let mut i: usize = start;
    while i < end
        invariant
            start <= i <= end <= s@.len(),
            out@ == s@.subrange(start as int, i as int),
        decreases end - i,
    {
        out.push(s[i]);
        assert(out@ =~= s@.subrange(start as int, i + 1));
        i = i + 1;
    }
    out
}

} // verus!
