//! An authenticated binary hash tree (Merkle tree) over fixed-width integer
//! values, with membership-proof generation, proof verification, and
//! incremental appending.
//!
//! Digests are Keccak-256 outputs: 32 bytes per node. The leaf level hashes
//! each input value's little-endian byte encoding; every level above combines
//! consecutive sibling pairs by hashing their concatenation, down to a single
//! root digest.

pub mod digest;
pub mod laws;
pub mod serializable;
pub mod tree;

pub use digest::Digest;
