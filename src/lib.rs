//! A local full-text index over a filesystem subtree: which files are
//! indexed, how documents are built and replaced, how filtered queries are
//! composed, how result excerpts are cut, how the on-disk index is kept at the
//! current schema, and how bursts of change events are batched.
pub mod text;
pub mod codec;
pub mod catalog;
pub mod query;
pub mod snippet;
pub mod store;
pub mod engine;
pub mod index;
pub mod watcher;
pub mod server;
