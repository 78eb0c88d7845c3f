//! A task tracker whose items ("yaks") live as directories on disk and are
//! replicated between peers through a content-addressed history of snapshots,
//! commits and refs.
//!
//! The heart of the crate is the synchronization engine: a verified model of
//! trees, commits and refs, an ancestry resolver, a structural three-way tree
//! merger, an item-level reconciler, and the sync orchestrator that sequences
//! them. Around it stand the task domain model and the application use cases.

pub mod application;
pub mod console;
pub mod domain;
pub mod errors;
pub mod item;
pub mod ports;
pub mod text;
pub mod tree;
pub mod engine;
pub mod history;
pub mod laws;
pub mod listing;
pub mod merge;
pub mod reconcile;

