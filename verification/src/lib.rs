//! An append-only record store for short timestamped user updates.
//!
//! Each update carries an author id, a message, and a write-time epoch
//! second. Records are kept under unique string keys, and a chronological
//! index (a score-sorted collection of keys) supports ordered retrieval.

pub mod codec;
pub mod common;
pub mod laws;
pub mod record;
pub mod store;
