//! Resource contracts for workflow nodes.
use vstd::prelude::*;

verus! {

/// Bounds on one resource.
#[derive(Debug, Clone, Copy, PartialEq, Eq, Structural)]
pub struct ResourceBounds {
    /// Minimum required.
    pub min: Option<u64>,
    /// Maximum allowed.
    pub max: Option<u64>,
    /// Default allocation.
    pub default_value: Option<u64>,
}

/// Whether `value` lies within `b`'s minimum and maximum, where set.
pub open spec fn spec_within(b: ResourceBounds, value: u64) -> bool {
    &&& (b.min matches Some(lo) ==> lo <= value)
    &&& (b.max matches Some(hi) ==> value <= hi)
}

impl ResourceBounds {
    /// Bounds with nothing set.
    pub fn new() -> (b: Self)
        ensures
            b.min is None,
            b.max is None,
            b.default_value is None,
    {
        ResourceBounds { min: None, max: None, default_value: None }
    }

    /// The bounds with minimum `min`.
    pub fn with_min(self, min: u64) -> (b: Self)
        ensures
            b == (ResourceBounds { min: Some(min), ..self }),
    {
        ResourceBounds { min: Some(min), ..self }
    }

    /// The bounds with maximum `max`.
    pub fn with_max(self, max: u64) -> (b: Self)
        ensures
            b == (ResourceBounds { max: Some(max), ..self }),
    {
        ResourceBounds { max: Some(max), ..self }
    }

    /// The bounds with default allocation `default`.
    pub fn with_default(self, default: u64) -> (b: Self)
        ensures
            b == (ResourceBounds { default_value: Some(default), ..self }),
    {
        ResourceBounds { default_value: Some(default), ..self }
    }

    /// Whether `value` lies within the set minimum and maximum.
    pub fn check(&self, value: u64) -> (ok: bool)
        ensures
            ok == spec_within(*self, value),
    {
        match self.min {
            Some(min) => {
                if value < min {
                    return false;
                }
            },
            None => {},
        }
        match self.max {
            Some(max) => {
                if value > max {
                    return false;
                }
            },
            None => {},
        }
        true
    }
}

impl Default for ResourceBounds {
    fn default() -> (b: Self)
        ensures
            b.min is None,
            b.max is None,
            b.default_value is None,
    {
        ResourceBounds::new()
    }
}

/// Resource contract of a node or workflow.
#[derive(Debug, Clone, Copy, PartialEq, Eq, Structural)]
pub struct ResourceContract {
    pub memory: ResourceBounds,
    pub cpu: ResourceBounds,
    pub storage: ResourceBounds,
    pub network: ResourceBounds,
}

/// Bounds with nothing set.
pub open spec fn unbounded() -> ResourceBounds {
    ResourceBounds { min: None, max: None, default_value: None }
}

impl ResourceContract {
    /// A contract with no bounds set.
    pub fn new() -> (c: Self)
        ensures
            c.memory == unbounded(),
            c.cpu == unbounded(),
            c.storage == unbounded(),
            c.network == unbounded(),
    {
        ResourceContract {
            memory: ResourceBounds::new(),
            cpu: ResourceBounds::new(),
            storage: ResourceBounds::new(),
            network: ResourceBounds::new(),
        }
    }

    /// The contract with memory bounds `bounds`.
    pub fn with_memory(self, bounds: ResourceBounds) -> (c: Self)
        ensures
            c == (ResourceContract { memory: bounds, ..self }),
    {
        ResourceContract { memory: bounds, ..self }
    }

    /// The contract with CPU bounds `bounds`.
    pub fn with_cpu(self, bounds: ResourceBounds) -> (c: Self)
        ensures
            c == (ResourceContract { cpu: bounds, ..self }),
    {
        ResourceContract { cpu: bounds, ..self }
    }
}

impl Default for ResourceContract {
    fn default() -> (c: Self)
        ensures
            c.memory == unbounded(),
            c.cpu == unbounded(),
            c.storage == unbounded(),
            c.network == unbounded(),
    {
        ResourceContract::new()
    }
}

} // verus!
