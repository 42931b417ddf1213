//! Disk-usage analytics engine.
//!
//! Given a snapshot of a directory tree, the scanner aggregates per-path
//! statistics (sizes, entry/file/directory counts) bottom-up, the projector
//! turns the flat record table into a size-sorted tree view, and the cache
//! serves later subtree queries from prebuilt indices.

pub mod cache;
pub mod index;
pub mod meta;
pub mod ntfs;
pub mod paths;
pub mod project;
pub mod record;
pub mod scanner;
pub mod table;
pub mod tree;
