//! Decision logic for scanning repository-sized directory trees and hashing
//! file contents.
//!
//! The crate holds everything that can be decided without touching the file
//! system: which entries of a directory listing are reported, which
//! directories are descended into, how layered ignore rules combine, in which
//! state a pool of walkers has finished, and which digest belongs to which
//! content. Reading directories and files is left to the caller, who hands
//! what was read to the functions below.

pub mod aggregate;
pub mod entry;
pub mod hash;
pub mod rules;
pub mod scan;
pub mod text;
pub mod tree;
pub mod walk;

pub use entry::FileEntry;
pub use hash::hash_files_parallel;
pub use hash::HashResult;
pub use scan::scan_repo_parallel;
