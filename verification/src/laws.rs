//! What holds of the containers across several operations.
//!
//! Each law is stated over the views of the containers: the `Map<u64, V>` of
//! a [`CollideMap`](crate::collidea::CollideMap) and the `Set<u64>` of a
//! [`CollideSet`](crate::collidea::CollideSet), with the same map and set
//! operations that the contracts of their methods use. Keys enter only by
//! their digests, so "two distinct keys" reads "two distinct digests" here.

use crate::collidea::symmetric_difference_of;
use vstd::prelude::*;

verus! {

/// The map that `m` becomes when `vs[i]` is inserted under `ds[i]` for each
/// `i` in turn.
pub open spec fn insert_each<V>(m: Map<u64, V>, ds: Seq<u64>, vs: Seq<V>) -> Map<u64, V>
    recommends
        ds.len() == vs.len(),
    decreases ds.len(),
{
    if ds.len() == 0 {
        m
    } else {
        insert_each(m, ds.drop_last(), vs.drop_last()).insert(ds.last(), vs.last())
    }
}

/// The set that `s` becomes when each digest of `ds` is removed in turn.
pub open spec fn remove_each(s: Set<u64>, ds: Seq<u64>) -> Set<u64>
    decreases ds.len(),
{
    if ds.len() == 0 {
        s
    } else {
        remove_each(s, ds.drop_last()).remove(ds.last())
    }
}

/// After a run of insertions the map holds the digests it held before and the
/// inserted ones, and no others.
pub proof fn lemma_insert_each_dom<V>(m: Map<u64, V>, ds: Seq<u64>, vs: Seq<V>)
    requires
        ds.len() == vs.len(),
    ensures
        insert_each(m, ds, vs).dom() == m.dom().union(ds.to_set()),
    decreases ds.len(),
{
    if ds.len() == 0 {
        assert(ds.to_set() =~= Set::<u64>::empty());
        assert(m.dom().union(ds.to_set()) =~= m.dom());
    } else {
        lemma_insert_each_dom(m, ds.drop_last(), vs.drop_last());
        let front = ds.drop_last();
        assert forall|d: u64| ds.to_set().contains(d) <==> front.to_set().contains(d) || d
            == ds.last() by {
            if ds.to_set().contains(d) {
                let i = choose|i: int| 0 <= i < ds.len() && ds[i] == d;
                if i < ds.len() - 1 {
                    assert(front[i] == d);
                }
            }
            if front.to_set().contains(d) {
                let i = choose|i: int| 0 <= i < front.len() && front[i] == d;
                assert(ds[i] == d);
            }
            if d == ds.last() {
                assert(ds[ds.len() - 1] == d);
            }
        }
        assert(insert_each(m, ds, vs).dom() =~= m.dom().union(ds.to_set()));
    }
}

/// After a run of insertions, a lookup gives the value that was inserted last
/// under that digest: if no later insertion has the digest of the `i`-th, the
/// map holds `vs[i]` under `ds[i]`.
pub proof fn lemma_insert_each_latest<V>(m: Map<u64, V>, ds: Seq<u64>, vs: Seq<V>, i: int)
    requires
        ds.len() == vs.len(),
        0 <= i < ds.len(),
        forall|j: int| i < j < ds.len() ==> ds[j] != ds[i],
    ensures
        insert_each(m, ds, vs).get(ds[i]) == Some(vs[i]),
    decreases ds.len(),
{
    if i < ds.len() - 1 {
        let front = ds.drop_last();
        assert forall|j: int| i < j < front.len() implies front[j] != front[i] by {
            assert(front[j] == ds[j]);
        }
        lemma_insert_each_latest(m, front, vs.drop_last(), i);
        assert(ds.last() == ds[ds.len() - 1]);
    }
}

/// Inserting under digests that are all different, into an empty map, gives
/// as many entries as there were insertions, and a lookup of each digest gives
/// the value inserted with it.
pub proof fn lemma_distinct_inserts<V>(ds: Seq<u64>, vs: Seq<V>)
    requires
        ds.len() == vs.len(),
        ds.no_duplicates(),
    ensures
        insert_each(Map::<u64, V>::empty(), ds, vs).len() == ds.len(),
        forall|i: int|
            0 <= i < ds.len() ==> insert_each(Map::<u64, V>::empty(), ds, vs).get(#[trigger] ds[i])
                == Some(vs[i]),
{
    let end = insert_each(Map::<u64, V>::empty(), ds, vs);
    lemma_insert_each_dom(Map::<u64, V>::empty(), ds, vs);
    assert(end.dom() =~= ds.to_set());
    ds.unique_seq_to_set();
    assert forall|i: int| 0 <= i < ds.len() implies end.get(#[trigger] ds[i]) == Some(vs[i]) by {
        lemma_insert_each_latest(Map::<u64, V>::empty(), ds, vs, i);
    }
}

/// A digest that is inserted and then removed is no longer there: a lookup
/// finds nothing, and the map has exactly one entry fewer than before the
/// removal.
pub proof fn lemma_insert_then_remove<V>(m: Map<u64, V>, d: u64, v: V)
    requires
        m.dom().finite(),
    ensures
        !m.insert(d, v).remove(d).contains_key(d),
        m.insert(d, v).remove(d).get(d) is None,
        m.insert(d, v).remove(d).len() == m.insert(d, v).len() - 1,
        m.insert(d, v).remove(d) == m.remove(d),
{
    assert(m.insert(d, v).remove(d) =~= m.remove(d));
}

/// Inserting under a digest that the map already holds hands back the value
/// that was there and leaves the number of entries as it was.
pub proof fn lemma_insert_present<V>(m: Map<u64, V>, d: u64, v: V)
    requires
        m.dom().finite(),
        m.contains_key(d),
    ensures
        m.get(d) == Some(m[d]),
        m.insert(d, v).len() == m.len(),
        m.insert(d, v).get(d) == Some(v),
{
    assert(m.insert(d, v).dom() =~= m.dom());
}

/// On an empty set the first insertion of a digest is new and the second is
/// not; removing a digest that the set holds finds it and leaves exactly one
/// digest fewer.
pub proof fn lemma_set_membership(s: Set<u64>, d: u64)
    requires
        s.finite(),
    ensures
        !Set::<u64>::empty().contains(d),
        Set::<u64>::empty().insert(d).contains(d),
        Set::<u64>::empty().insert(d).insert(d) == Set::<u64>::empty().insert(d),
        s.contains(d) ==> s.remove(d).len() == s.len() - 1,
        !s.remove(d).contains(d),
{
    assert(Set::<u64>::empty().insert(d).insert(d) =~= Set::<u64>::empty().insert(d));
}

/// Removing every digest of a set, in any order and however often, leaves the
/// empty set.
pub proof fn lemma_remove_all(s: Set<u64>, ds: Seq<u64>)
    requires
        s.subset_of(ds.to_set()),
    ensures
        remove_each(s, ds) == Set::<u64>::empty(),
{
    lemma_remove_each_contains(s, ds);
    assert forall|d: u64| !remove_each(s, ds).contains(d) by {
        if s.contains(d) {
            assert(ds.to_set().contains(d));
        }
    }
    assert(remove_each(s, ds) =~= Set::<u64>::empty());
}

/// After a run of removals the set holds what it held before, less the
/// removed digests.
pub proof fn lemma_remove_each_contains(s: Set<u64>, ds: Seq<u64>)
    ensures
        forall|d: u64| remove_each(s, ds).contains(d) <==> s.contains(d) && !ds.contains(d),
    decreases ds.len(),
{
    if ds.len() > 0 {
        let front = ds.drop_last();
        lemma_remove_each_contains(s, front);
        assert forall|d: u64| ds.contains(d) <==> front.contains(d) || d == ds.last() by {
            if ds.contains(d) {
                let i = choose|i: int| 0 <= i < ds.len() && ds[i] == d;
                if i < ds.len() - 1 {
                    assert(front[i] == d);
                }
            }
            if front.contains(d) {
                let i = choose|i: int| 0 <= i < front.len() && front[i] == d;
                assert(ds[i] == d);
            }
            if d == ds.last() {
                assert(ds[ds.len() - 1] == d);
            }
        }
    }
}

/// Union, intersection and symmetric difference do not depend on the order of
/// their operands.
pub proof fn lemma_commutative(a: Set<u64>, b: Set<u64>)
    ensures
        a.union(b) == b.union(a),
        a.intersect(b) == b.intersect(a),
        symmetric_difference_of(a, b) == symmetric_difference_of(b, a),
{
    assert(a.union(b) =~= b.union(a));
    assert(a.intersect(b) =~= b.intersect(a));
    assert(symmetric_difference_of(a, b) =~= symmetric_difference_of(b, a));
}

/// The intersection lies in both operands, and both operands lie in the union.
pub proof fn lemma_bounds(a: Set<u64>, b: Set<u64>)
    ensures
        a.intersect(b).subset_of(a),
        a.intersect(b).subset_of(b),
        a.subset_of(a.union(b)),
        b.subset_of(a.union(b)),
{
}

/// The two differences of a pair of sets share no digest, and each shares
/// none with the operand that was taken away.
pub proof fn lemma_differences_disjoint(a: Set<u64>, b: Set<u64>)
    ensures
        a.difference(b).disjoint(b.difference(a)),
        a.difference(b).disjoint(b),
        a.difference(b).subset_of(a),
{
}

/// The symmetric difference is the disjoint union of the two differences, and
/// it is the union less the intersection. Where the sets are finite, its size
/// is the sum of the sizes of the two differences.
pub proof fn lemma_symmetric_difference(a: Set<u64>, b: Set<u64>)
    ensures
        symmetric_difference_of(a, b) == a.difference(b).union(b.difference(a)),
        a.difference(b).disjoint(b.difference(a)),
        symmetric_difference_of(a, b) == a.union(b).difference(a.intersect(b)),
        a.finite() && b.finite() ==> symmetric_difference_of(a, b).len() == a.difference(b).len()
            + b.difference(a).len(),
{
    assert(symmetric_difference_of(a, b) =~= a.difference(b).union(b.difference(a)));
    assert(symmetric_difference_of(a, b) =~= a.union(b).difference(a.intersect(b)));
    if a.finite() && b.finite() {
        vstd::set_lib::lemma_set_disjoint_lens(a.difference(b), b.difference(a));
    }
}

/// Each digest of the union is in the intersection or in the symmetric
/// difference, and never in both.
pub proof fn lemma_intersection_or_symmetric_difference(a: Set<u64>, b: Set<u64>, d: u64)
    requires
        a.union(b).contains(d),
    ensures
        a.intersect(b).contains(d) != symmetric_difference_of(a, b).contains(d),
        a.intersect(b).disjoint(symmetric_difference_of(a, b)),
{
}

/// With an empty operand: the union and the symmetric difference are the
/// other operand, the intersection is empty, and so is what is left of the
/// empty set when anything is taken away.
pub proof fn lemma_empty_operand(a: Set<u64>)
    ensures
        a.union(Set::empty()) == a,
        symmetric_difference_of(a, Set::empty()) == a,
        a.intersect(Set::empty()) == Set::<u64>::empty(),
        a.difference(Set::empty()) == a,
        Set::<u64>::empty().difference(a) == Set::<u64>::empty(),
{
    assert(a.union(Set::empty()) =~= a);
    assert(symmetric_difference_of(a, Set::empty()) =~= a);
    assert(a.intersect(Set::empty()) =~= Set::<u64>::empty());
    assert(a.difference(Set::empty()) =~= a);
    assert(Set::<u64>::empty().difference(a) =~= Set::<u64>::empty());
}

/// With both operands the same set: union and intersection are that set, and
/// both differences are empty.
pub proof fn lemma_same_operand(a: Set<u64>)
    ensures
        a.union(a) == a,
        a.intersect(a) == a,
        a.difference(a) == Set::<u64>::empty(),
        symmetric_difference_of(a, a) == Set::<u64>::empty(),
{
    assert(a.union(a) =~= a);
    assert(a.intersect(a) =~= a);
    assert(a.difference(a) =~= Set::<u64>::empty());
    assert(symmetric_difference_of(a, a) =~= Set::<u64>::empty());
}

/// With operands that share no digest: the intersection is empty, each
/// difference is its first operand, and the symmetric difference is the union.
pub proof fn lemma_disjoint_operands(a: Set<u64>, b: Set<u64>)
    requires
        a.disjoint(b),
    ensures
        a.intersect(b) == Set::<u64>::empty(),
        a.difference(b) == a,
        b.difference(a) == b,
        symmetric_difference_of(a, b) == a.union(b),
{
    assert(a.intersect(b) =~= Set::<u64>::empty());
    assert(a.difference(b) =~= a);
    assert(b.difference(a) =~= b);
    assert(symmetric_difference_of(a, b) =~= a.union(b));
}

} // verus!
