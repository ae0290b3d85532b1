//! A read-only explorer for ext2 filesystem images held in memory.
//!
//! The [`ext2`] module interprets the on-disk records of an image and answers
//! inode lookups, directory listings, path resolution and file reads. The
//! [`shell`] module decides what the commands of an interactive session do.

pub mod ext2;
pub mod shell;
