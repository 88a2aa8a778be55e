use vstd::prelude::*;

verus! {

/// One immediate entry of the install directory: its file name, and whether it is
/// a regular file.
#[derive(Debug)]
pub struct DirEntry {
    pub name: String,
    pub is_file: bool,
}

pub open spec fn entries_view(v: Seq<DirEntry>) -> Seq<(Seq<char>, bool)> {
    v.map_values(|e: DirEntry| (e.name@, e.is_file))
}

/// Whether an entry is the installed binary: a regular file with exactly the
/// expected name.
pub open spec fn is_installed_binary(e: (Seq<char>, bool), expected: Seq<char>) -> bool {
    e.1 && e.0 == expected
}

/// The index of the last entry that is the installed binary.
pub open spec fn cache_hit(entries: Seq<(Seq<char>, bool)>, expected: Seq<char>) -> Option<nat>
    decreases entries.len(),
{
    if entries.len() == 0 {
        None
    } else if is_installed_binary(entries.last(), expected) {
        Some((entries.len() - 1) as nat)
    } else {
        cache_hit(entries.drop_last(), expected)
    }
}

/// Looks through a directory listing for an already installed binary: the last
/// regular file whose name equals `expected`.
pub fn probe(entries: &Vec<DirEntry>, expected: &String) -> (r: Option<usize>)
    ensures
        match r {
            Some(i) => cache_hit(entries_view(entries@), expected@) == Some(i as nat),
            None => cache_hit(entries_view(entries@), expected@) is None,
        },
{
    let ghost ev = entries_view(entries@);
    let n = entries.len();
    let mut i: usize = n;
    assert(ev.take(n as int) =~= ev);
    while i > 0
        invariant
            i <= n == entries@.len() == ev.len(),
            ev == entries_view(entries@),
            cache_hit(ev, expected@) == cache_hit(ev.take(i as int), expected@),
        decreases i,
    {
        let e = &entries[i - 1];
        assert(ev[i - 1] == (e.name@, e.is_file));
        assert(ev.take(i as int).last() == ev[i - 1]);
        if e.is_file && e.name == *expected {
            return Some(i - 1);
        }
        assert(ev.take(i as int).drop_last() =~= ev.take(i - 1));
        i = i - 1;
    }
    None
}

pub proof fn lemma_cache_hit(entries: Seq<(Seq<char>, bool)>, expected: Seq<char>)
    ensures
        match cache_hit(entries, expected) {
            Some(i) => i < entries.len() && is_installed_binary(entries[i as int], expected)
                && forall|j: int| i < j < entries.len() ==> !is_installed_binary(#[trigger] entries[j], expected),
            None => forall|j: int| 0 <= j < entries.len() ==> !is_installed_binary(#[trigger] entries[j], expected),
        },
    decreases entries.len(),
{
    if entries.len() > 0 && !is_installed_binary(entries.last(), expected) {
        lemma_cache_hit(entries.drop_last(), expected);
        let d = entries.drop_last();
        assert(forall|j: int| 0 <= j < d.len() ==> d[j] == entries[j]);
    }
}

} // verus!
