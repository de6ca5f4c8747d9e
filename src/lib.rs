//! In-memory staging layer for a versioned, copy-on-write Merkle tree.
//!
//! `tree_cache` holds the cache itself; `model` states what it holds as mathematical values,
//! and `laws` proves properties that span several of its operations.
pub mod types;
pub mod reader;
pub mod hashing;
pub mod keyed;
pub mod model;
pub mod tree_cache;
pub mod laws;
