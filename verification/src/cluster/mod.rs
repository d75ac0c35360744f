//! The cluster: consensus over a replicated log, membership, leader
//! election, the coordinator that hands tasks to workers, and the workers.
pub mod consensus;
pub mod membership;
pub mod remote;
pub mod leader;
pub mod coordinator;
pub mod worker;
