//! Deterministic, capability-safe execution fabric for agent workflows.
//!
//! The library holds the pure logic of the fabric: identifiers, hashes,
//! capabilities, logical time, the hash-chained event log, workflow DAGs,
//! policies, replay, scheduling, consensus decisions and determinism
//! certification. Every executable function carries a contract that Verus
//! proves.
pub mod certify;
pub mod cluster;
pub mod core_types;
pub mod log;
pub mod plan;
pub mod policy;
pub mod replay;
pub mod runtime;
pub mod server;
