//! Replay: traces read back, the state they rebuild, differences between
//! states, and snapshots of state.
pub mod trace;
pub mod maps;
pub mod state;
pub mod snapshot;
pub mod engine;
pub mod diff;
