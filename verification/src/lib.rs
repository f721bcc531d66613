//! A disk-cleanup engine: classify files against configurable cleanup rules,
//! scan directory listings, detect duplicate content, plan safe deletions
//! behind a protected-path guard, and keep a reversible undo trail.
//!
//! The library works on plain values (byte-string paths, sizes, epoch-second
//! timestamps, file contents); the surrounding binary performs the filesystem
//! walking, reading, copying and removal that the plans here call for.

pub mod bytes;
pub mod paths;
pub mod rules;
pub mod scanner;
pub mod large_files;
pub mod hashing;
pub mod duplicates;
pub mod deleter;
pub mod undo;
