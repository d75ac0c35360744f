//! The runtime: capability-checked node execution, metrics, backpressure,
//! the deterministic scheduler and the engine that runs a DAG.
pub mod backpressure;
pub mod engine;
pub mod executor;

pub mod monitor;
pub mod order;
pub mod scheduler;
