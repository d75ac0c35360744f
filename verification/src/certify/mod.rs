//! Determinism certification: comparing runs, reporting checks, and signing
//! certificates of determinism.
pub mod certificate;
pub mod certifier;
pub mod record;
pub mod signature;
pub mod validator;
