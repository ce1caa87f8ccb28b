//! Hash-keyed containers that keep only a 64-bit digest of each key.
//!
//! [`collidea::CollideMap`] and [`collidea::CollideSet`] never store a key: an
//! entry is identified by the digest of its key alone, so two keys with the
//! same digest are one entry. Every operation is specified over the map or
//! set of digests that the container holds.

pub mod collidea;
pub mod laws;

mod digest;
mod store;
