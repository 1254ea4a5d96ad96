//! A small library for comparing two directories of files by content hash:
//! it builds a digest-to-path index per directory and derives set-style
//! relations between the two indices (identical files, unique files, and
//! plans for pruning duplicates or merging both sides into one directory).

pub mod args;
pub mod hashing;
pub mod index;
pub mod ops;
pub mod paths;
