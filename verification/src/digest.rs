//! The hashing primitive: a key's 64-bit digest.

use std::hash::{Hash, Hasher};
use vstd::prelude::*;
use xxhash_rust::xxh3::Xxh3;

verus! {

/// Feeds `k` to a fresh `xxhash_rust::xxh3::Xxh3` hasher through the key's
/// `Hash` implementation and returns what the hasher's `finish` gives.
///
/// Trusted: nothing is claimed of the digest. Which bytes a key writes is up
/// to its `Hash` implementation, so callers are verified for every `u64`.
#[verifier::external_body]
pub(crate) fn get_hash_xxh<K: Hash>(k: &K) -> (d: u64) {
    let mut hasher = Xxh3::new();
    k.hash(&mut hasher);
    hasher.finish()
}

} // verus!
