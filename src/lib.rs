//! Builds a single text dump of a directory tree: every regular file that no
//! exclusion rule names is written as a `# <relative path>` header followed by
//! its contents.
//!
//! The filesystem work itself (listing directories, reading files, writing the
//! dump) is done by the caller; this crate decides what is skipped, what is
//! read, where the walk descends, and what text is produced.

pub mod exclude;
pub mod collect;
pub mod walk;
