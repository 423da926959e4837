//! An append-only blob store: opaque payloads under caller-chosen keys,
//! located through an in-memory offset index.

pub mod bytes;
pub mod index;
pub mod volume;
pub mod delete_log;
pub mod engine;
pub mod snapshot;
pub mod laws;
