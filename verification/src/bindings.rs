use vstd::prelude::*;

verus! {

/// The map a sequence of (name, entry) pairs denotes: later pairs overwrite
/// earlier ones, exactly as rebinding a variable overwrites its entry.  Both
/// environments of the pipeline (name to type, name to value) are Vec-backed
/// and denote one of these maps.
pub open spec fn bindings_map<V>(s: Seq<(String, V)>) -> Map<Seq<char>, V>
    decreases s.len(),
{
    if s.len() == 0 {
        Map::empty()
    } else {
        bindings_map(s.drop_last()).insert(s.last().0@, s.last().1)
    }
}

/// If every pair at a position after `i` has a different name, and the pair
/// at `i` has the name, then the map gives that pair's entry.
pub proof fn lemma_bindings_map_found<V>(s: Seq<(String, V)>, n: Seq<char>, i: int)
    requires
        0 <= i < s.len(),
        s[i].0@ == n,
        forall|k: int| i < k < s.len() ==> s[k].0@ != n,
    ensures
        bindings_map(s).contains_key(n),
        bindings_map(s)[n] == s[i].1,
    decreases s.len(),
{
    if i == s.len() - 1 {
    } else {
        lemma_bindings_map_found(s.drop_last(), n, i);
    }
}

/// If no pair has the name, the map has no key for it.
pub proof fn lemma_bindings_map_absent<V>(s: Seq<(String, V)>, n: Seq<char>)
    requires
        forall|k: int| 0 <= k < s.len() ==> s[k].0@ != n,
    ensures
        !bindings_map(s).contains_key(n),
    decreases s.len(),
{
    if s.len() > 0 {
        lemma_bindings_map_absent(s.drop_last(), n);
    }
}

} // verus!
