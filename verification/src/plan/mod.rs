//! The planner: workflow ASTs compiled into typed DAGs with resource and
//! capability contracts.
pub mod collections;
pub mod dag;
pub mod reach;
pub mod resource;
pub mod validate;
pub mod compiler;
pub mod dsl;
