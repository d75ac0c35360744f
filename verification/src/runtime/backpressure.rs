//! Backpressure: what to tell a producer once a buffer fills past its
//! threshold.
use vstd::prelude::*;

verus! {

/// How to respond when a buffer fills.
#[derive(Debug, Clone, Copy, PartialEq, Eq, Structural)]
pub enum BackpressureStrategy {
    /// Never push back.
    Off,
    /// Drop incoming events.
    Drop,
    /// Block until there is room.
    Block,
    /// Ask the producer to slow down.
    Signal,
}

/// The response to the current fill level.
#[derive(Debug, Clone, Copy, PartialEq, Eq, Structural)]
pub enum BackpressureStatus {
    /// No backpressure needed.
    Normal,
    Drop,
    Block,
    Signal,
}

/// The status for a fill level that has (`apply`) or has not reached the
/// threshold: `Normal` below it, and otherwise what the strategy says.
pub fn status_for(apply: bool, strategy: BackpressureStrategy) -> (s: BackpressureStatus)
    ensures
        !apply ==> s == BackpressureStatus::Normal,
        apply ==> s == match strategy {
            BackpressureStrategy::Off => BackpressureStatus::Normal,
            BackpressureStrategy::Drop => BackpressureStatus::Drop,
            BackpressureStrategy::Block => BackpressureStatus::Block,
            BackpressureStrategy::Signal => BackpressureStatus::Signal,
        },
{
    if !apply {
        BackpressureStatus::Normal
    } else {
        match strategy {
            BackpressureStrategy::Off => BackpressureStatus::Normal,
            BackpressureStrategy::Drop => BackpressureStatus::Drop,
            BackpressureStrategy::Block => BackpressureStatus::Block,
            BackpressureStrategy::Signal => BackpressureStatus::Signal,
        }
    }
}

} // verus!
