//! Nix store path types and versioned Bloom filter snapshots shared by cache services.
//!
//! A path or an object key is the sequence of its bytes, as on Unix.

pub mod base32;
pub mod bloom;
pub mod error;
pub mod generation;
pub mod nix_store;
pub mod number;
pub mod outside;
pub mod path;
pub mod text;
