//! An incremental, in-memory mirror of a directory subtree.
//!
//! The library keeps a map of file and directory entries keyed by a stable
//! identifier, resolves entry paths through parent links, feeds a flat list
//! of search records to a path matcher, and caches loaded file contents.
//! The file system itself is read by the embedding application, which
//! drives the scanner with plain directory listings.
pub mod content;
pub mod entry;
pub mod handle;
pub mod ignore_rules;
pub mod iter;
pub mod paths;
pub mod scan;
pub mod search;
pub mod tree;
