//! The standard hash table, where vstd leaves it unspecified.
//!
//! Every function here is trusted: its body is one call into
//! `std::collections`, and its contract restates the standard library's
//! documentation over the view that vstd gives the table.

use crate::collidea::lists_digests;
use std::collections::{HashMap, HashSet};
use vstd::prelude::*;

verus! {

/// `HashMap::capacity`: how many entries the table can hold without
/// reallocating, which is at least as many as it holds now.
#[verifier::external_body]
pub(crate) fn map_capacity<V>(m: &HashMap<u64, V>) -> (c: usize)
    ensures
        c >= m@.len(),
{
    m.capacity()
}

/// `HashMap::shrink_to_fit`: gives spare capacity back and keeps every entry.
#[verifier::external_body]
pub(crate) fn map_shrink_to_fit<V>(m: &mut HashMap<u64, V>)
    ensures
        final(m)@ == old(m)@,
{
    m.shrink_to_fit()
}

/// `HashMap::get_mut`: a mutable reference to the value stored under `d`, if
/// there is one. Whatever the caller writes through it is the value under `d`
/// afterwards; no other entry changes.
#[verifier::external_body]
pub(crate) fn map_get_mut<'a, V>(m: &'a mut HashMap<u64, V>, d: u64) -> (r: Option<&'a mut V>)
    ensures
        (match r {
            Some(v) => old(m)@.contains_key(d) && *v == old(m)@[d]
                && final(m)@ == old(m)@.insert(d, *final(v)),
            None => !old(m)@.contains_key(d) && final(m)@ == old(m)@,
        }),
{
    m.get_mut(&d)
}

/// `HashMap::values_mut`, collected: one mutable reference per entry, in the
/// table's own order. The digests stay as they are, and whatever the caller
/// writes through the `i`-th reference is the value of the `i`-th entry
/// afterwards.
#[verifier::external_body]
pub(crate) fn map_values_mut<'a, V>(m: &'a mut HashMap<u64, V>) -> (r: Vec<&'a mut V>)
    ensures
        final(m)@.dom() == old(m)@.dom(),
        r.len() == old(m)@.len(),
        exists|ds: Seq<u64>| #[trigger] lists_digests(ds, old(m)@)
            && ds.len() == r.len()
            && (forall|i: int| 0 <= i < r.len() ==> *r[i] == old(m)@[#[trigger] ds[i]])
            && (forall|i: int| 0 <= i < r.len() ==> final(m)@[#[trigger] ds[i]] == *final(r[i])),
{
    m.values_mut().collect()
}

/// `HashSet::capacity`: how many digests the table can hold without
/// reallocating, which is at least as many as it holds now.
#[verifier::external_body]
pub(crate) fn set_capacity(s: &HashSet<u64>) -> (c: usize)
    ensures
        c >= s@.len(),
{
    s.capacity()
}

/// `HashSet::clone`: a table of its own with the same digests.
#[verifier::external_body]
pub(crate) fn set_clone(s: &HashSet<u64>) -> (r: HashSet<u64>)
    ensures
        r@ == s@,
{
    s.clone()
}

} // verus!
