//! Incremental directory-tree backup engine.
//!
//! The library works on plain snapshots of directory trees: every path is a
//! sequence of name segments (each segment a byte string, as file names are
//! not guaranteed to be text). The decision logic of the mirror engine, the
//! pre-flight capacity check and the copy statistics are verified here; the
//! program around the library gathers snapshots from the real file system,
//! executes the planned copies and reports the outcome.

pub mod config;
pub mod copy;
pub mod disk;
pub mod snapshot;
