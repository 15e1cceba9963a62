use vstd::prelude::*;

verus! {

/// The map that a list of bindings denotes: a later binding of a key replaces
/// an earlier one.
pub open spec fn bindings_map<K, V>(s: Seq<(K, V)>) -> Map<K, V>
    decreases s.len(),
{
    if s.len() == 0 {
        Map::empty()
    } else {
        bindings_map(s.drop_last()).insert(s.last().0, s.last().1)
    }
}

/// No binding after position `i` names `k`.
pub open spec fn last_binding<K, V>(s: Seq<(K, V)>, k: K, i: int) -> bool {
    &&& 0 <= i < s.len()
    &&& s[i].0 == k
    &&& forall|j: int| i < j < s.len() ==> s[j].0 != k
}

/// The value of a key is that of its last binding.
pub proof fn lemma_bindings_map_last<K, V>(s: Seq<(K, V)>, k: K, i: int)
    requires
        last_binding(s, k, i),
    ensures
        bindings_map(s).dom().contains(k),
        bindings_map(s)[k] == s[i].1,
    decreases s.len(),
{
    if i < s.len() - 1 {
        lemma_bindings_map_last(s.drop_last(), k, i);
    }
}

/// A key that no binding names is outside the domain.
pub proof fn lemma_bindings_map_absent<K, V>(s: Seq<(K, V)>, k: K)
    requires
        forall|j: int| 0 <= j < s.len() ==> s[j].0 != k,
    ensures
        !bindings_map(s).dom().contains(k),
    decreases s.len(),
{
    if s.len() > 0 {
        lemma_bindings_map_absent(s.drop_last(), k);
    }
}

/// Every key of the domain has a last binding.
pub proof fn lemma_bindings_map_dom<K, V>(s: Seq<(K, V)>, k: K)
    requires
        bindings_map(s).dom().contains(k),
    ensures
        exists|i: int| last_binding(s, k, i),
    decreases s.len(),
{
    if s.last().0 == k {
        assert(last_binding(s, k, s.len() - 1));
    } else {
        lemma_bindings_map_dom(s.drop_last(), k);
        let i = choose|i: int| last_binding(s.drop_last(), k, i);
        assert forall|j: int| i < j < s.len() implies s[j].0 != k by {
            if j < s.len() - 1 {
                assert(s.drop_last()[j] == s[j]);
            }
        }
        assert(last_binding(s, k, i));
    }
}

/// Rewriting every bound value rewrites the map's values.
pub proof fn lemma_bindings_map_values<K, V>(s: Seq<(K, V)>, f: spec_fn(V) -> V)
    ensures
        bindings_map(s.map_values(|p: (K, V)| (p.0, f(p.1)))) == bindings_map(s).map_values(f),
    decreases s.len(),
{
    let g = |p: (K, V)| (p.0, f(p.1));
    if s.len() > 0 {
        assert(s.map_values(g).drop_last() =~= s.drop_last().map_values(g));
        lemma_bindings_map_values(s.drop_last(), f);
    }
    assert(bindings_map(s.map_values(g)) =~= bindings_map(s).map_values(f));
}

} // verus!
