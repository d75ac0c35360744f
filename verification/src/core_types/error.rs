//! Core error type.
use vstd::prelude::*;
use crate::core_types::text::{spec_u64_decimal, spec_decimal, u64_to_decimal, usize_to_decimal};

verus! {

/// Errors of the core types and of the layers above them.
#[derive(Debug, Clone, PartialEq, Eq)]
pub enum CoreError {
    /// Invalid encoding.
    InvalidEncoding,
    /// Encoding buffer overflow.
    EncodingOverflow,
    /// Hash mismatch.
    HashMismatch { expected: String, actual: String },
    /// Invalid hash format.
    InvalidHash { reason: String },
    /// Broken hash chain.
    BrokenChain { position: usize },
    /// Invalid identifier.
    InvalidId { reason: String },
    /// Invalid timestamp.
    InvalidTimestamp { reason: String },
    /// Invalid capability.
    InvalidCapability { reason: String },
    /// Invalid version.
    InvalidVersion { reason: String },
    /// Parse error.
    ParseError { message: String },
    /// Validation error.
    Validation { field: String, reason: String },
    /// Not found.
    NotFound { kind: String, id: String },
    /// Already exists.
    AlreadyExists { kind: String, id: String },
    /// Capacity exceeded.
    CapacityExceeded { resource: String, limit: u64 },
    /// Timeout.
    Timeout { operation: String },
    /// Cancelled.
    Cancelled,
    /// Permission denied.
    PermissionDenied { operation: String },
    /// Internal error.
    Internal { message: String },
}

/// The message of a core error.
pub open spec fn spec_core_error_text(e: CoreError) -> Seq<char> {
    match e {
        CoreError::InvalidEncoding => "Invalid encoding"@,
        CoreError::EncodingOverflow => "Encoding buffer overflow"@,
        CoreError::HashMismatch { expected, actual } => "Hash mismatch: expected "@ + expected@
            + ", got "@ + actual@,
        CoreError::InvalidHash { reason } => "Invalid hash: "@ + reason@,
        CoreError::BrokenChain { position } => "Broken hash chain at position "@ + spec_decimal(
            position as nat,
        ),
        CoreError::InvalidId { reason } => "Invalid ID: "@ + reason@,
        CoreError::InvalidTimestamp { reason } => "Invalid timestamp: "@ + reason@,
        CoreError::InvalidCapability { reason } => "Invalid capability: "@ + reason@,
        CoreError::InvalidVersion { reason } => "Invalid version: "@ + reason@,
        CoreError::ParseError { message } => "Parse error: "@ + message@,
        CoreError::Validation { field, reason } => "Validation failed for "@ + field@ + ": "@
            + reason@,
        CoreError::NotFound { kind, id } => kind@ + " not found: "@ + id@,
        CoreError::AlreadyExists { kind, id } => kind@ + " already exists: "@ + id@,
        CoreError::CapacityExceeded { resource, limit } => "Capacity exceeded for "@ + resource@
            + ": "@ + spec_u64_decimal(limit),
        CoreError::Timeout { operation } => "Timeout: "@ + operation@,
        CoreError::Cancelled => "Operation cancelled"@,
        CoreError::PermissionDenied { operation } => "Permission denied: "@ + operation@,
        CoreError::Internal { message } => "Internal error: "@ + message@,
    }
}

/// `a` followed by `b`.
pub fn cat2(a: &str, b: &str) -> (s: String)
    ensures
        s@ == a@ + b@,
{
    let mut s = String::new();
    s.append(a);
    s.append(b);
    s
}

/// `a`, `b`, `c` and `d` in a row.
pub fn cat4(a: &str, b: &str, c: &str, d: &str) -> (s: String)
    ensures
        s@ == a@ + b@ + c@ + d@,
{
    let mut s = String::new();
    s.append(a);
    s.append(b);
    s.append(c);
    s.append(d);
    s
}

impl CoreError {
    /// The error message.
    pub fn to_string(&self) -> (s: String)
        ensures
            s@ == spec_core_error_text(*self),
    {
        proof {
            reveal_strlit("");
        }
        match self {
            CoreError::InvalidEncoding => cat2("Invalid encoding", ""),
            CoreError::EncodingOverflow => cat2("Encoding buffer overflow", ""),
            CoreError::HashMismatch { expected, actual } => cat4(
                "Hash mismatch: expected ",
                expected.as_str(),
                ", got ",
                actual.as_str(),
            ),
            CoreError::InvalidHash { reason } => cat2("Invalid hash: ", reason.as_str()),
            CoreError::BrokenChain { position } => {
                let d = usize_to_decimal(*position);
                cat2("Broken hash chain at position ", d.as_str())
            },
            CoreError::InvalidId { reason } => cat2("Invalid ID: ", reason.as_str()),
            CoreError::InvalidTimestamp { reason } => cat2("Invalid timestamp: ", reason.as_str()),
            CoreError::InvalidCapability { reason } => cat2("Invalid capability: ", reason.as_str()),
            CoreError::InvalidVersion { reason } => cat2("Invalid version: ", reason.as_str()),
            CoreError::ParseError { message } => cat2("Parse error: ", message.as_str()),
            CoreError::Validation { field, reason } => cat4(
                "Validation failed for ",
                field.as_str(),
                ": ",
                reason.as_str(),
            ),
            CoreError::NotFound { kind, id } => cat4(kind.as_str(), " not found: ", id.as_str(), ""),
            CoreError::AlreadyExists { kind, id } => cat4(
                kind.as_str(),
                " already exists: ",
                id.as_str(),
                "",
            ),
            CoreError::CapacityExceeded { resource, limit } => {
                let d = u64_to_decimal(*limit);
                cat4("Capacity exceeded for ", resource.as_str(), ": ", d.as_str())
            },
            CoreError::Timeout { operation } => cat2("Timeout: ", operation.as_str()),
            CoreError::Cancelled => cat2("Operation cancelled", ""),
            CoreError::PermissionDenied { operation } => cat2(
                "Permission denied: ",
                operation.as_str(),
            ),
            CoreError::Internal { message } => cat2("Internal error: ", message.as_str()),
        }
    }
}

/// The error type of `serde_json`, carried through as an opaque value.
#[verifier::external_type_specification]
#[verifier::external_body]
pub struct ExJsonError(serde_json::Error);

/// The error type of `postcard`, carried through as an opaque value.
#[verifier::external_type_specification]
#[verifier::external_body]
pub struct ExPostcardError(postcard::Error);

impl From<serde_json::Error> for CoreError {
    /// Any JSON error is an invalid encoding.
    fn from(_err: serde_json::Error) -> (e: Self) {
        CoreError::InvalidEncoding
    }
}

impl vstd::std_specs::convert::FromSpecImpl<serde_json::Error> for CoreError {
    open spec fn obeys_from_spec() -> bool {
        true
    }

    open spec fn from_spec(_err: serde_json::Error) -> Self {
        CoreError::InvalidEncoding
    }
}

impl From<postcard::Error> for CoreError {
    /// Any postcard error is an invalid encoding.
    fn from(_err: postcard::Error) -> (e: Self) {
        CoreError::InvalidEncoding
    }
}

impl vstd::std_specs::convert::FromSpecImpl<postcard::Error> for CoreError {
    open spec fn obeys_from_spec() -> bool {
        true
    }

    open spec fn from_spec(_err: postcard::Error) -> Self {
        CoreError::InvalidEncoding
    }
}

} // verus!
