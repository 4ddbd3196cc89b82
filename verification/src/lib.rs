//! A small library for a directory-synchronization tool: it remembers, per
//! working directory, one or more named remote (host, path) targets in an
//! on-disk JSON cache, upgrades older cache formats to the current one, and
//! picks the target to act on from the command line's intent.
//!
//! - [`config`]: the entry data model, name generation, listing, selection
//!   and removal.
//! - [`store`]: the mapping from directory path to its ordered entry list.
//! - [`json`]: the document values the cache file is made of, and their
//!   rendering.
//! - [`cache`]: the versioned envelope, the legacy schema and the migrator
//!   registry.
//! - [`resolver`]: the decision procedure that picks or creates the entry to
//!   act on.
//! - [`sync`]: the computed parts of a sync invocation.
//! - [`errors`]: the validation failures surfaced to the caller.
//! - [`text`]: character-level helpers shared by the other modules.

pub mod cache;
pub mod config;
pub mod errors;
pub mod json;
pub mod resolver;
pub mod store;
pub mod sync;
pub mod text;
