//! Incremental annotation cache for a directory tree.
//!
//! For every file below a project root the cache holds an entry: the file's
//! content hash and a generated annotation. The entries lie in a tree that
//! mirrors the directories and is written out as one cache file per root.
//! A sync run reads the existing cache, merges the caches found in
//! subdirectories, decides for each file of the live tree whether its entry
//! can be reused, and builds a fresh tree from what it collected.
//!
//! The library decides and computes; reading and writing files, walking
//! directories and asking the annotator are left to its caller.
//!
//! - [`model`]: the cache file's data model.
//! - [`index`]: the entries of a tree, keyed by path.
//! - [`builder`]: the tree, rebuilt from entries.
//! - [`roundtrip`]: what flattening a built tree gives back.
//! - [`discovery`] and [`rebase`]: caches of subdirectories, found and merged.
//! - [`store`]: the rules for reading and writing the cache file.
//! - [`sync`]: the decisions of a sync run.
//! - [`hash`], [`content`], [`chunk`], [`prompt`], [`sanitize`], [`retry`]:
//!   what is told to the annotator about a file, and what is kept of its answer.
//! - [`listing`], [`style`], [`order`], [`view`]: what the listing tools show.
//! - [`paths`], [`strings`], [`text`], [`json`]: paths, texts and JSON values.

pub mod builder;
pub mod chunk;
pub mod content;
pub mod discovery;
pub mod hash;
pub mod index;
pub mod json;
pub mod listing;
pub mod model;
pub mod order;
pub mod paths;
pub mod prompt;
pub mod rebase;
pub mod retry;
pub mod roundtrip;
pub mod sanitize;
pub mod store;
pub mod strings;
pub mod style;
pub mod sync;
pub mod text;
pub mod view;
