//! The two containers.
//!
//! A [`CollideMap`] is viewed as the `Map<u64, V>` from digests to values that
//! it holds, a [`CollideSet`] as the `Set<u64>` of its digests. Each operation
//! that takes a key comes in two layers. The `*_digest` operation takes the
//! digest itself and is specified exactly. The keyed operation hashes the key
//! and hands the digest on; since nothing is assumed of the hash function, its
//! contract says what holds for whichever digest the key has.

use crate::digest::get_hash_xxh;
use crate::store::{
    map_capacity, map_get_mut, map_shrink_to_fit, map_values_mut, set_capacity, set_clone,
};
use std::collections::{HashMap, HashSet};
use std::hash::Hash;
use std::marker::PhantomData;
use vstd::prelude::*;
use vstd::std_specs::hash::{spec_hash_keys_iter, spec_hash_map_iter};
use vstd::std_specs::iter::IteratorSpec;

verus! {

/// Whether `ds` lists every digest of `m`, each once.
pub open spec fn lists_digests<V>(ds: Seq<u64>, m: Map<u64, V>) -> bool {
    ds.no_duplicates() && ds.to_set() == m.dom()
}

/// A map from keys to values that stores, for each key, its digest only.
pub struct CollideMap<K: Hash, V> {
    inner: HashMap<u64, V>,
    _marker: PhantomData<K>,
}

impl<K: Hash, V> View for CollideMap<K, V> {
    type V = Map<u64, V>;

    closed spec fn view(&self) -> Map<u64, V> {
        self.inner@
    }
}

impl<K: Hash, V> CollideMap<K, V> {
    /// A map holds finitely many digests.
    pub proof fn lemma_finite(&self)
        ensures
            self@.dom().finite(),
    {
    }

    /// An empty map.
    pub fn new() -> (m: CollideMap<K, V>)
        ensures
            m@ == Map::<u64, V>::empty(),
    {
        CollideMap { inner: HashMap::new(), _marker: PhantomData }
    }

    /// How many entries the map has room for before it allocates again.
    pub fn capacity(&self) -> (c: usize)
        ensures
            c >= self@.len(),
    {
        map_capacity(&self.inner)
    }

    /// Removes every entry.
    pub fn clear(&mut self)
        ensures
            final(self)@ == Map::<u64, V>::empty(),
    {
        self.inner.clear()
    }

    /// Whether an entry is stored under digest `d`.
    pub fn contains_digest(&self, d: u64) -> (b: bool)
        ensures
            b == self@.contains_key(d),
    {
        self.inner.contains_key(&d)
    }

    /// Whether an entry is stored under the digest of `k`.
    pub fn contains_key(&self, k: &K) -> (b: bool)
        ensures
            exists|d: u64| b == #[trigger] self@.contains_key(d),
            b ==> self@.len() > 0,
    {
        let d = get_hash_xxh(k);
        let b = self.contains_digest(d);
        proof {
            if b {
                self.lemma_finite();
                assert(self@.dom().contains(d));
            }
        }
        b
    }

    /// The value stored under digest `d`, if there is one.
    pub fn get_digest(&self, d: u64) -> (r: Option<&V>)
        ensures
            (match r {
                Some(v) => self@.contains_key(d) && *v == self@[d],
                None => !self@.contains_key(d),
            }),
    {
        self.inner.get(&d)
    }

    /// The value stored under the digest of `k`, if there is one.
    pub fn get(&self, k: &K) -> (r: Option<&V>)
        ensures
            exists|d: u64|
                (match r {
                    Some(v) => #[trigger] self@.contains_key(d) && *v == self@[d],
                    None => !self@.contains_key(d),
                }),
    {
        let d = get_hash_xxh(k);
        self.get_digest(d)
    }

    /// A mutable reference to the value stored under digest `d`, if there is
    /// one. What the caller leaves in it is the value under `d` afterwards.
    pub fn get_mut_digest(&mut self, d: u64) -> (r: Option<&mut V>)
        ensures
            (match r {
                Some(v) => old(self)@.contains_key(d) && *v == old(self)@[d]
                    && final(self)@ == old(self)@.insert(d, *final(v)),
                None => !old(self)@.contains_key(d) && final(self)@ == old(self)@,
            }),
    {
        map_get_mut(&mut self.inner, d)
    }

    /// A mutable reference to the value stored under the digest of `k`, if
    /// there is one.
    pub fn get_mut(&mut self, k: &K) -> (r: Option<&mut V>)
        ensures
            exists|d: u64|
                (match r {
                    Some(v) => #[trigger] old(self)@.contains_key(d) && *v == old(self)@[d]
                        && final(self)@ == old(self)@.insert(d, *final(v)),
                    None => !old(self)@.contains_key(d) && final(self)@ == old(self)@,
                }),
            final(self)@.dom() == old(self)@.dom(),
    {
        let d = get_hash_xxh(k);
        let r = self.get_mut_digest(d);
        proof {
            if old(self)@.contains_key(d) {
                assert forall|x: V| old(self)@.insert(d, x).dom() == old(self)@.dom() by {
                    assert(old(self)@.insert(d, x).dom() =~= old(self)@.dom());
                }
            }
        }
        r
    }

    /// Stores `v` under digest `d` and returns the value that was there.
    pub fn insert_digest(&mut self, d: u64, v: V) -> (prev: Option<V>)
        ensures
            final(self)@ == old(self)@.insert(d, v),
            prev == old(self)@.get(d),
            old(self)@.contains_key(d) ==> final(self)@.len() == old(self)@.len(),
            !old(self)@.contains_key(d) ==> final(self)@.len() == old(self)@.len() + 1,
    {
        self.inner.insert(d, v)
    }

    /// Stores `v` under the digest of `k` and returns the value that was there.
    pub fn insert(&mut self, k: &K, v: V) -> (prev: Option<V>)
        ensures
            exists|d: u64|
                final(self)@ == #[trigger] old(self)@.insert(d, v) && prev == old(self)@.get(d),
            final(self)@.len() == old(self)@.len() + (if prev is None { 1int } else { 0int }),
    {
        let d = get_hash_xxh(k);
        self.insert_digest(d, v)
    }

    /// Whether the map has no entry.
    pub fn is_empty(&self) -> (b: bool)
        ensures
            b == (self@.len() == 0),
            b == (self@ == Map::<u64, V>::empty()),
    {
        let b = self.inner.is_empty();
        proof {
            if b {
                assert(self@ =~= Map::<u64, V>::empty());
            }
        }
        b
    }

    /// The number of entries.
    pub fn len(&self) -> (n: usize)
        ensures
            n == self@.len(),
    {
        self.inner.len()
    }

    /// Removes the entry under digest `d` and returns its value.
    pub fn remove_digest(&mut self, d: u64) -> (prev: Option<V>)
        ensures
            final(self)@ == old(self)@.remove(d),
            prev == old(self)@.get(d),
            old(self)@.contains_key(d) ==> final(self)@.len() == old(self)@.len() - 1,
            !old(self)@.contains_key(d) ==> final(self)@ == old(self)@,
    {
        let prev = self.inner.remove(&d);
        proof {
            if !old(self)@.contains_key(d) {
                assert(final(self)@ =~= old(self)@);
            }
        }
        prev
    }

    /// Removes the entry under the digest of `k` and returns its value.
    pub fn remove(&mut self, k: &K) -> (prev: Option<V>)
        ensures
            exists|d: u64|
                final(self)@ == #[trigger] old(self)@.remove(d) && prev == old(self)@.get(d),
            final(self)@.len() == old(self)@.len() - (if prev is Some { 1int } else { 0int }),
    {
        let d = get_hash_xxh(k);
        self.remove_digest(d)
    }

    /// Makes room for `additional` more entries. The entries stay as they are.
    pub fn reserve(&mut self, additional: usize)
        ensures
            final(self)@ == old(self)@,
    {
        self.inner.reserve(additional)
    }

    /// Gives spare room back. The entries stay as they are.
    pub fn shrink_to_fit(&mut self)
        ensures
            final(self)@ == old(self)@,
    {
        map_shrink_to_fit(&mut self.inner)
    }

    /// The stored values, one reference per entry, in no particular order:
    /// some listing `ds` of the digests gives `r[i]` as the value under `ds[i]`.
    pub fn values(&self) -> (r: Vec<&V>)
        ensures
            r.len() == self@.len(),
            exists|ds: Seq<u64>|
                #[trigger] lists_digests(ds, self@) && ds.len() == r.len() && (forall|i: int|
                    0 <= i < r.len() ==> *r[i] == self@[#[trigger] ds[i]]),
    {
        let mut out: Vec<&V> = Vec::new();
        let ghost pairs = spec_hash_map_iter(&self.inner).remaining();
        for kv in it: self.inner.iter()
            invariant
                it.seq() == pairs,
                out.len() == it.index(),
                forall|j: int| 0 <= j < out.len() ==> *out[j] == *pairs[j].1,
        {
            out.push(kv.1);
        }
        proof {
            let ds = Seq::new(pairs.len(), |i: int| *pairs[i].0);
            assert forall|i: int, j: int|
                0 <= i < ds.len() && 0 <= j < ds.len() && i != j implies ds[i] != ds[j] by {
                if ds[i] == ds[j] {
                    assert(self@.contains_key(*pairs[i].0) && self@[*pairs[i].0] == *pairs[i].1);
                    assert(self@.contains_key(*pairs[j].0) && self@[*pairs[j].0] == *pairs[j].1);
                    assert(pairs[i] == pairs[j]);
                }
            }
            assert forall|d: u64| self@.dom().contains(d) implies ds.to_set().contains(d) by {
                assert(self@.contains_key(d));
                let p = (&d, &self@[d]);
                assert(pairs.contains(p));
                let i = choose|i: int| 0 <= i < pairs.len() && pairs[i] == p;
                assert(ds[i] == d);
            }
            assert forall|d: u64| ds.to_set().contains(d) implies self@.dom().contains(d) by {
                let i = choose|i: int| 0 <= i < ds.len() && ds[i] == d;
                assert(self@.contains_key(*pairs[i].0));
            }
            assert(ds.to_set() =~= self@.dom());
            assert(lists_digests(ds, self@));
            assert forall|i: int| 0 <= i < out.len() implies *out[i] == self@[#[trigger] ds[i]] by {
                assert(self@.contains_key(*pairs[i].0) && self@[*pairs[i].0] == *pairs[i].1);
            }
        }
        out
    }

    /// The stored values, one mutable reference per entry, in no particular
    /// order. The digests stay as they are; what the caller leaves in `r[i]`
    /// is afterwards the value of the entry that `r[i]` was taken from.
    pub fn values_mut(&mut self) -> (r: Vec<&mut V>)
        ensures
            final(self)@.dom() == old(self)@.dom(),
            r.len() == old(self)@.len(),
            exists|ds: Seq<u64>|
                #[trigger] lists_digests(ds, old(self)@) && ds.len() == r.len() && (forall|i: int|
                    0 <= i < r.len() ==> *r[i] == old(self)@[#[trigger] ds[i]]) && (forall|i: int|
                    0 <= i < r.len() ==> final(self)@[#[trigger] ds[i]] == *final(r[i])),
    {
        map_values_mut(&mut self.inner)
    }
}

impl<K: Hash + Clone, V: Clone> Clone for CollideMap<K, V> {
    /// A map of its own with the same digests, each with a clone of its value.
    fn clone(&self) -> (r: Self)
        ensures
            r@.dom() == self@.dom(),
            forall|d: u64| #[trigger] r@.contains_key(d) ==> cloned::<V>(self@[d], r@[d]),
    {
        CollideMap { inner: self.inner.clone(), _marker: PhantomData }
    }
}

/// The digests that exactly one of `a` and `b` holds.
pub open spec fn symmetric_difference_of(a: Set<u64>, b: Set<u64>) -> Set<u64> {
    Set::new(|d: u64| a.contains(d) != b.contains(d))
}

/// The digests of `src` that `other` holds, where `wanted`, or that it lacks,
/// where not.
pub open spec fn selected(src: Set<u64>, other: Set<u64>, wanted: bool) -> Set<u64> {
    Set::new(|d: u64| src.contains(d) && other.contains(d) == wanted)
}

/// A hash table holds finitely many digests.
proof fn lemma_table_finite(s: &HashSet<u64>)
    ensures
        s@.finite(),
{
    vstd::std_specs::hash::axiom_spec_hash_keys_iter(s);
    vstd::seq_lib::seq_to_set_is_finite(spec_hash_keys_iter(s).remaining().unref());
}

/// Walking a hash table meets its digests and nothing else.
proof fn lemma_walk_covers(s: &HashSet<u64>)
    ensures
        forall|x: u64|
            s@.contains(x) ==> exists|j: int|
                0 <= j < spec_hash_keys_iter(s).remaining().len() && *spec_hash_keys_iter(
                    s,
                ).remaining()[j] == x,
        forall|j: int|
            0 <= j < spec_hash_keys_iter(s).remaining().len() ==> s@.contains(
                *#[trigger] spec_hash_keys_iter(s).remaining()[j],
            ),
{
    let keys = spec_hash_keys_iter(s).remaining();
    assert(keys.unref().to_set() == s@);
    assert forall|x: u64| s@.contains(x) implies exists|j: int|
        0 <= j < keys.len() && *keys[j] == x by {
        let j = choose|j: int| 0 <= j < keys.unref().len() && keys.unref()[j] == x;
        assert(*keys[j] == x);
    }
    assert forall|j: int| 0 <= j < keys.len() implies s@.contains(*#[trigger] keys[j]) by {
        assert(keys.unref()[j] == *keys[j]);
    }
}

/// Adds to `out` each digest of `src`.
fn extend_all(out: &mut HashSet<u64>, src: &HashSet<u64>)
    ensures
        final(out)@ == old(out)@.union(src@),
{
    let ghost keys = spec_hash_keys_iter(src).remaining();
    for d in it: src.iter()
        invariant
            it.seq() == keys,
            forall|x: u64|
                out@.contains(x) <==> old(out)@.contains(x) || (exists|j: int|
                    0 <= j < it.index() && *keys[j] == x),
    {
        out.insert(*d);
    }
    proof {
        lemma_walk_covers(src);
        assert(out@ =~= old(out)@.union(src@));
    }
}

/// Adds to `out` each digest of `src` whose membership in `other` is `wanted`.
fn extend_selected(out: &mut HashSet<u64>, src: &HashSet<u64>, other: &HashSet<u64>, wanted: bool)
    ensures
        final(out)@ == old(out)@.union(selected(src@, other@, wanted)),
{
    let ghost keys = spec_hash_keys_iter(src).remaining();
    for d in it: src.iter()
        invariant
            it.seq() == keys,
            forall|x: u64|
                out@.contains(x) <==> old(out)@.contains(x) || (exists|j: int|
                    0 <= j < it.index() && *keys[j] == x && other@.contains(x) == wanted),
    {
        if other.contains(d) == wanted {
            out.insert(*d);
        }
    }
    proof {
        lemma_walk_covers(src);
        assert(out@ =~= old(out)@.union(selected(src@, other@, wanted)));
    }
}

/// Whether the membership in `other` of every digest of `src` is `wanted`.
fn all_selected(src: &HashSet<u64>, other: &HashSet<u64>, wanted: bool) -> (b: bool)
    ensures
        b == (forall|d: u64| src@.contains(d) ==> other@.contains(d) == wanted),
{
    let ghost keys = spec_hash_keys_iter(src).remaining();
    proof {
        lemma_walk_covers(src);
    }
    for d in it: src.iter()
        invariant
            it.seq() == keys,
            forall|j: int| 0 <= j < it.index() ==> other@.contains(*#[trigger] keys[j]) == wanted,
    {
        if other.contains(d) != wanted {
            return false;
        }
    }
    true
}

/// A set of keys that stores, for each key, its digest only.
pub struct CollideSet<K: Hash> {
    inner: HashSet<u64>,
    _marker: PhantomData<K>,
}

impl<K: Hash> View for CollideSet<K> {
    type V = Set<u64>;

    closed spec fn view(&self) -> Set<u64> {
        self.inner@
    }
}

impl<K: Hash> CollideSet<K> {
    /// A set holds finitely many digests.
    pub proof fn lemma_finite(&self)
        ensures
            self@.finite(),
    {
        lemma_table_finite(&self.inner);
    }

    /// An empty set.
    pub fn new() -> (s: CollideSet<K>)
        ensures
            s@ == Set::<u64>::empty(),
    {
        CollideSet { inner: HashSet::new(), _marker: PhantomData }
    }

    /// How many digests the set has room for before it allocates again.
    pub fn capacity(&self) -> (c: usize)
        ensures
            c >= self@.len(),
    {
        set_capacity(&self.inner)
    }

    /// Removes every digest.
    pub fn clear(&mut self)
        ensures
            final(self)@ == Set::<u64>::empty(),
    {
        self.inner.clear()
    }

    /// Whether the set holds digest `d`.
    pub fn contains_digest(&self, d: u64) -> (b: bool)
        ensures
            b == self@.contains(d),
    {
        self.inner.contains(&d)
    }

    /// Whether the set holds the digest of `k`.
    pub fn contains(&self, k: &K) -> (b: bool)
        ensures
            exists|d: u64| b == #[trigger] self@.contains(d),
            b ==> self@.len() > 0,
    {
        let d = get_hash_xxh(k);
        let b = self.contains_digest(d);
        proof {
            if b {
                self.lemma_finite();
                assert(self@.contains(d));
            }
        }
        b
    }

    /// Adds digest `d`. Returns whether it was new.
    pub fn insert_digest(&mut self, d: u64) -> (fresh: bool)
        ensures
            final(self)@ == old(self)@.insert(d),
            fresh == !old(self)@.contains(d),
            final(self)@.len() == old(self)@.len() + (if fresh { 1int } else { 0int }),
    {
        proof {
            self.lemma_finite();
        }
        self.inner.insert(d)
    }

    /// Adds the digest of `k`. Returns whether it was new.
    pub fn insert(&mut self, k: K) -> (fresh: bool)
        ensures
            exists|d: u64|
                final(self)@ == #[trigger] old(self)@.insert(d) && fresh == !old(self)@.contains(d),
            final(self)@.len() == old(self)@.len() + (if fresh { 1int } else { 0int }),
    {
        let d = get_hash_xxh(&k);
        self.insert_digest(d)
    }

    /// Whether the two sets share no digest.
    pub fn is_disjoint(&self, other: &CollideSet<K>) -> (b: bool)
        ensures
            b == self@.disjoint(other@),
    {
        if self.inner.len() <= other.inner.len() {
            all_selected(&self.inner, &other.inner, false)
        } else {
            all_selected(&other.inner, &self.inner, false)
        }
    }

    /// Whether the set holds no digest.
    pub fn is_empty(&self) -> (b: bool)
        ensures
            b == (self@.len() == 0),
            b == (self@ == Set::<u64>::empty()),
    {
        proof {
            self.lemma_finite();
        }
        let b = self.inner.is_empty();
        proof {
            if b {
                assert(self@ =~= Set::<u64>::empty());
            }
        }
        b
    }

    /// Whether `other` holds every digest of this set.
    pub fn is_subset(&self, other: &CollideSet<K>) -> (b: bool)
        ensures
            b == self@.subset_of(other@),
    {
        if self.inner.len() <= other.inner.len() {
            all_selected(&self.inner, &other.inner, true)
        } else {
            proof {
                other.lemma_finite();
                if self@.subset_of(other@) {
                    vstd::set_lib::lemma_len_subset(self@, other@);
                }
            }
            false
        }
    }

    /// The number of digests.
    pub fn len(&self) -> (n: usize)
        ensures
            n == self@.len(),
    {
        self.inner.len()
    }

    /// Removes digest `d`. Returns whether the set held it.
    pub fn remove_digest(&mut self, d: u64) -> (found: bool)
        ensures
            final(self)@ == old(self)@.remove(d),
            found == old(self)@.contains(d),
            final(self)@.len() == old(self)@.len() - (if found { 1int } else { 0int }),
    {
        proof {
            self.lemma_finite();
        }
        self.inner.remove(&d)
    }

    /// Removes the digest of `k`. Returns whether the set held it.
    pub fn remove(&mut self, k: &K) -> (found: bool)
        ensures
            exists|d: u64|
                final(self)@ == #[trigger] old(self)@.remove(d) && found == old(self)@.contains(d),
            final(self)@.len() == old(self)@.len() - (if found { 1int } else { 0int }),
    {
        let d = get_hash_xxh(k);
        self.remove_digest(d)
    }

    /// Makes room for `additional` more digests. The digests stay as they are.
    pub fn reserve(&mut self, additional: usize)
        ensures
            final(self)@ == old(self)@,
    {
        self.inner.reserve(additional)
    }

    /// The digests of this set that `other` lacks.
    pub fn difference(&self, other: &CollideSet<K>) -> (r: CollideSet<K>)
        ensures
            r@ == self@.difference(other@),
    {
        let mut result: CollideSet<K> = CollideSet::new();
        extend_selected(&mut result.inner, &self.inner, &other.inner, false);
        assert(result@ =~= self@.difference(other@));
        result
    }

    /// The digests that exactly one of the two sets holds.
    pub fn symmetric_difference(&self, other: &CollideSet<K>) -> (r: CollideSet<K>)
        ensures
            r@ == symmetric_difference_of(self@, other@),
    {
        let mut result: CollideSet<K> = CollideSet::new();
        extend_selected(&mut result.inner, &self.inner, &other.inner, false);
        extend_selected(&mut result.inner, &other.inner, &self.inner, false);
        assert(result@ =~= symmetric_difference_of(self@, other@));
        result
    }

    /// The digests that both sets hold.
    pub fn intersection(&self, other: &CollideSet<K>) -> (r: CollideSet<K>)
        ensures
            r@ == self@.intersect(other@),
    {
        let mut result: CollideSet<K> = CollideSet::new();
        extend_selected(&mut result.inner, &self.inner, &other.inner, true);
        assert(result@ =~= self@.intersect(other@));
        result
    }

    /// The digests that either set holds.
    pub fn union(&self, other: &CollideSet<K>) -> (r: CollideSet<K>)
        ensures
            r@ == self@.union(other@),
    {
        let mut result: CollideSet<K> = CollideSet::new();
        extend_all(&mut result.inner, &self.inner);
        extend_selected(&mut result.inner, &other.inner, &self.inner, false);
        assert(result@ =~= self@.union(other@));
        result
    }
}

impl<K: Hash + Clone> Clone for CollideSet<K> {
    /// A set of its own with the same digests.
    fn clone(&self) -> (r: Self)
        ensures
            r@ == self@,
    {
        CollideSet { inner: set_clone(&self.inner), _marker: PhantomData }
    }
}

} // verus!
