//! A fixed-depth binary Merkle tree: full construction from a leaf
//! collection, incremental rebuilding that reuses unchanged internal
//! hashes, depth padding against a canonical empty digest, and
//! authentication-path generation, all against a pluggable hash
//! capability.

pub mod digest;
pub mod errors;
pub mod indexing;
pub mod laws;
pub mod model;
pub mod parameters;
pub mod hasher;
pub mod mix_hash;
pub mod tree;
