//! Synchronisation core for shared records: an operation-based CRDT in which
//! every field of a record, and its tombstone, is an independent
//! last-writer-wins register.
pub mod key;
pub mod assoc;
pub mod register;
pub mod schema;
pub mod operation;
pub mod store;
pub mod engine;
pub mod laws;
pub mod volumes;
pub mod api;
