//! Synchronization engine for keeping a local mod directory in step with a
//! remotely published version: a version gate, a manifest reader, an archive
//! synchronizer with idempotent, traversal-safe extraction, and a blacklist
//! pruner. All filesystem effects are expressed against an in-memory
//! destination tree; an unverified adapter performs the same operations on
//! the real filesystem.

pub mod paths;
pub mod archive;
pub mod engine;
pub mod laws;
pub mod manifest;
pub mod tree;
pub mod version;
