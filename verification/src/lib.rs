//! Frozen collections: maps and sets that are built once and read many times.
//!
//! Building a frozen collection inspects the keys and picks the storage
//! strategy that answers lookups with the least work: a linear scan for tiny
//! payloads, direct indexing for dense integer ranges, a compact hash table
//! keyed by the integer itself, by the key's length, by a distinguishing
//! window of its bytes, or by a hash of the whole key.
//!
//! [`facades`] holds the two collections that choose for themselves,
//! [`specialized_maps`] and [`specialized_sets`] the representations they
//! choose from, [`analyzers`] the analyses of the keys, and [`traits`] what a
//! key, a hasher and a bucket descriptor must offer.
//!
//! Every function states its behaviour over the sequence of entries that the
//! collection holds, see [`model`]; [`laws`] proves what follows for every
//! collection.

pub mod analyzers;
pub mod casts;
pub mod collect;
pub mod facades;
pub mod laws;
pub mod macros;
pub mod model;
pub mod specialized_maps;
pub mod specialized_sets;
pub mod traits;
