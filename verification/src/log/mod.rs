//! The event log: hash-chained, append-only event structures.
pub mod chain;
pub mod cursor;
pub mod event;
pub mod stream;
pub mod encoding;
