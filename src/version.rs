use vstd::prelude::*;
use vstd::string::*;

verus! {

/// Position of the first hyphen in `s`, or its length when it holds none.
pub open spec fn first_hyphen(s: Seq<char>) -> nat
    decreases s.len(),
{
    if s.len() == 0 {
        0
    } else if s[0] == '-' {
        0
    } else {
        1 + first_hyphen(s.drop_first())
    }
}

/// The canonical form of a version: everything before the first hyphen.
pub open spec fn normalized(s: Seq<char>) -> Seq<char> {
    s.take(first_hyphen(s) as int)
}

pub proof fn lemma_first_hyphen(s: Seq<char>)
    ensures
        first_hyphen(s) <= s.len(),
        forall|j: int| 0 <= j < first_hyphen(s) ==> s[j] != '-',
        first_hyphen(s) < s.len() ==> s[first_hyphen(s) as int] == '-',
    decreases s.len(),
{
    if s.len() > 0 && s[0] != '-' {
        lemma_first_hyphen(s.drop_first());
        assert forall|j: int| 0 <= j < first_hyphen(s) implies s[j] != '-' by {
            if j > 0 {
                assert(s[j] == s.drop_first()[j - 1]);
            }
        }
    }
}

/// Strips a hotfix suffix from a version string: `"0.154.5-hf1"` gives
/// `"0.154.5"`, and a string without a hyphen comes back unchanged.
pub fn normalize(raw: &str) -> (r: String)
    ensures
        r@ == normalized(raw@),
{
    proof {
        lemma_first_hyphen(raw@);
    }
    let n = raw.unicode_len();
    let mut i: usize = 0;
    while i < n
        invariant
            n == raw@.len(),
            i <= n,
            forall|j: int| 0 <= j < i ==> raw@[j] != '-',
            first_hyphen(raw@) >= i,
            first_hyphen(raw@) <= raw@.len(),
            forall|j: int| 0 <= j < first_hyphen(raw@) ==> raw@[j] != '-',
            first_hyphen(raw@) < raw@.len() ==> raw@[first_hyphen(raw@) as int] == '-',
        ensures
            i <= n,
            i < n ==> raw@[i as int] == '-',
            forall|j: int| 0 <= j < i ==> raw@[j] != '-',
        decreases n - i,
    {
        if raw.get_char(i) == '-' {
            break;
        }
        i = i + 1;
    }
    proof {
        if i < n {
            assert(raw@[i as int] == '-');
        }
        assert(first_hyphen(raw@) == i);
    }
    String::from_str(raw.substring_char(0, i))
}

/// A version with a hyphen normalizes to the text before its first hyphen, which
/// holds no hyphen itself; a version without one normalizes to itself.
pub proof fn lemma_normalize_law(v: Seq<char>)
    ensures
        v.contains('-') ==> {
            let r = normalized(v);
            &&& !r.contains('-')
            &&& r.len() < v.len()
            &&& v[r.len() as int] == '-'
            &&& v.take(r.len() as int) == r
        },
        !v.contains('-') ==> normalized(v) == v,
{
    lemma_first_hyphen(v);
    let k = first_hyphen(v) as int;
    if v.contains('-') {
        let w = choose|w: int| 0 <= w < v.len() && v[w] == '-';
        assert(k <= w);
        assert(k < v.len());
        assert(!normalized(v).contains('-'));
    } else {
        if k < v.len() {
            assert(v[k] == '-');
        }
        assert(normalized(v) =~= v);
    }
}

} // verus!
