//! Certificates of determinism.
use vstd::prelude::*;
use crate::certify::signature::Signature;
use crate::core_types::strmap::StrMap;
use crate::core_types::id::{random_uuid, uuid_text, spec_uuid_text, uuid_v4_marked};
use crate::core_types::hash::{spec_blake3, spec_hex_encode};
use crate::core_types::error::cat2;

verus! {

/// The current time in seconds since the Unix epoch.
///
/// Calls `chrono::Utc::now().timestamp()`. The value depends on the clock:
/// nothing is stated of it.
#[verifier::external_body]
fn now_unix_seconds() -> (t: i64) {
    chrono::Utc::now().timestamp()
}

/// Information about the validator that issued a certificate.
#[derive(Debug, Clone, PartialEq, Eq)]
pub struct ValidatorInfo {
    pub name: String,
    pub version: String,
    pub public_key: String,
}

impl ValidatorInfo {
    /// Validator information from its parts.
    pub fn new(name: String, version: String, public_key: String) -> (v: Self)
        ensures
            v.name@ == name@,
            v.version@ == version@,
            v.public_key@ == public_key@,
    {
        ValidatorInfo { name, version, public_key }
    }
}

/// A claim about determinism.
#[derive(Debug, Clone, PartialEq, Eq)]
pub enum DeterminismClaim {
    /// All runs produced identical event sequences.
    IdenticalRuns { run_count: usize },
    /// The hash chain is intact.
    ValidHashChain,
    /// No external state was accessed.
    NoExternalAccess,
    /// All randomness was seeded.
    SeededRandomness,
    /// A custom claim.
    Custom { description: String },
}

/// Certificate errors.
#[derive(Debug, Clone, Copy, PartialEq, Eq, Structural)]
pub enum CertificateError {
    SerializationError,
    ParseError,
    InvalidFormat,
    SignatureVerificationFailed,
    InvalidHash,
}

impl CertificateError {
    /// The error message.
    pub fn to_string(&self) -> (s: String)
        ensures
            s@ == match *self {
                CertificateError::SerializationError => "serialization error"@,
                CertificateError::ParseError => "parse error"@,
                CertificateError::InvalidFormat => "invalid certificate format"@,
                CertificateError::SignatureVerificationFailed => "signature verification failed"@,
                CertificateError::InvalidHash => "invalid hash"@,
            },
    {
        let t = match self {
            CertificateError::SerializationError => "serialization error",
            CertificateError::ParseError => "parse error",
            CertificateError::InvalidFormat => "invalid certificate format",
            CertificateError::SignatureVerificationFailed => "signature verification failed",
            CertificateError::InvalidHash => "invalid hash",
        };
        t.to_owned()
    }
}

/// The body of a certificate.
#[derive(Debug)]
pub struct CertificateBody {
    pub id: String,
    pub execution_id: String,
    pub seed: u64,
    pub ticks: u64,
    pub event_count: usize,
    pub log_hash: String,
    pub validator: ValidatorInfo,
    /// Certification time, in seconds since the Unix epoch.
    pub certified_at: i64,
    pub claims: Vec<DeterminismClaim>,
    pub metadata: StrMap,
}

impl CertificateBody {
    /// The hash text of a body from its encoding `encoded`: `blake3:` and the
    /// hexadecimal BLAKE3 digest of the bytes.
    pub fn hash_of_encoding(encoded: &[u8]) -> (s: String)
        ensures
            s@ == "blake3:"@ + spec_hex_encode(spec_blake3(encoded@)),
    {
        let h = crate::core_types::hash::Hash::compute(encoded);
        let hex = h.to_hex();
        cat2("blake3:", hex.as_str())
    }

    /// A body with a fresh `cert-<uuid>` identifier, the current time, no
    /// claims and no metadata.
    pub fn new(
        execution_id: String,
        seed: u64,
        ticks: u64,
        event_count: usize,
        log_hash: String,
        validator: ValidatorInfo,
    ) -> (b: Self)
        ensures
            b.execution_id@ == execution_id@,
            b.seed == seed,
            b.ticks == ticks,
            b.event_count == event_count,
            b.log_hash@ == log_hash@,
            b.validator == validator,
            b.claims@.len() == 0,
            b.metadata@ == Map::<Seq<char>, Seq<char>>::empty(),
            exists|v: u128| uuid_v4_marked(v) && b.id@ == "cert-"@ + spec_uuid_text(v),
    {
        proof {
            reveal_strlit("cert-");
        }
        let mut id = String::new();
        id.append("cert-");
        let v = random_uuid();
        let u = uuid_text(v);
        id.append(u.as_str());
        assert(id@ == "cert-"@ + spec_uuid_text(v));
        CertificateBody {
            id,
            execution_id,
            seed,
            ticks,
            event_count,
            log_hash,
            validator,
            certified_at: now_unix_seconds(),
            claims: Vec::new(),
            metadata: StrMap::new(),
        }
    }

    /// The body with one more claim.
    pub fn with_claim(self, claim: DeterminismClaim) -> (b: Self)
        ensures
            b.claims@ == self.claims@.push(claim),
            b.metadata@ == self.metadata@,
            b.id == self.id,
            b.execution_id == self.execution_id,
            b.seed == self.seed,
            b.ticks == self.ticks,
            b.event_count == self.event_count,
            b.log_hash == self.log_hash,
            b.validator == self.validator,
            b.certified_at == self.certified_at,
    {
        let mut b = self;
        b.claims.push(claim);
        b
    }

    /// The body with metadata `key` set to `value`.
    pub fn with_metadata(self, key: String, value: String) -> (b: Self)
        ensures
            b.metadata@ == self.metadata@.insert(key@, value@),
            b.claims == self.claims,
            b.id == self.id,
            b.execution_id == self.execution_id,
            b.seed == self.seed,
            b.ticks == self.ticks,
            b.event_count == self.event_count,
            b.log_hash == self.log_hash,
            b.validator == self.validator,
            b.certified_at == self.certified_at,
    {
        let mut b = self;
        b.metadata.insert(key, value);
        b
    }

    /// The body with metadata `key` set to `value` (the same as `with_metadata`).
    pub fn with_detail(self, key: String, value: String) -> (b: Self)
        ensures
            b.metadata@ == self.metadata@.insert(key@, value@),
            b.claims == self.claims,
            b.id == self.id,
            b.execution_id == self.execution_id,
            b.seed == self.seed,
            b.ticks == self.ticks,
            b.event_count == self.event_count,
            b.log_hash == self.log_hash,
            b.validator == self.validator,
            b.certified_at == self.certified_at,
    {
        self.with_metadata(key, value)
    }
}

/// A certificate: a body and a signature over its encoding.
#[derive(Debug)]
pub struct Certificate {
    pub body: CertificateBody,
    pub signature: Signature,
}

impl Certificate {
    /// A certificate from a body and a signature.
    pub fn new(body: CertificateBody, signature: Signature) -> (c: Self)
        ensures
            c.body == body,
            c.signature == signature,
    {
        Certificate { body, signature }
    }

    /// The certificate's identifier.
    pub fn id(&self) -> (s: &str)
        ensures
            s@ == self.body.id@,
    {
        self.body.id.as_str()
    }

    /// Whether the certificate carries a signature; checking the signature
    /// itself takes a verifier.
    pub fn verify(&self) -> (r: Result<bool, CertificateError>)
        ensures
            r == Ok::<bool, CertificateError>(self.signature.bytes@.len() != 0),
    {
        Ok(self.signature.bytes.len() != 0)
    }
}

} // verus!
