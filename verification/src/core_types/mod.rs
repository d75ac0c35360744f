//! Pure core types: identifiers, hashes, capabilities, time, versions, errors.
pub mod capability;
pub mod error;
pub mod hash;
pub mod id;
pub mod strmap;
pub mod text;
pub mod time;
pub mod version;
