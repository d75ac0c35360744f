//! The policy system: pattern matching, redaction, decision proofs and a
//! small policy language with its evaluator.
pub mod matcher;
pub mod redact;
pub mod decision;
pub mod lang;
pub mod compiler;
