//! The certifier: validates runs and issues signed certificates.
use vstd::prelude::*;
use crate::certify::certificate::{Certificate, CertificateBody, CertificateError};
use crate::certify::record::RunRecord;
use crate::certify::signature::{
    PublicKeyBytes, Signer, SignatureError, Verifier, spec_ed25519_public, spec_ed25519_signature,
    spec_ed25519_key_valid, spec_ed25519_verifies,
};
use crate::certify::validator::{
    DeterminismValidator, ValidationReport, spec_runs_report, spec_summary, spec_count_passed,
    spec_log_hash, spec_claims,
};
use crate::core_types::strmap::StrMap;
use crate::core_types::hash::{spec_hex_encode, spec_hex_decode, lemma_hex_roundtrip};

verus! {

/// Configuration of a certifier.
#[derive(Debug)]
pub struct CertifierConfig {
    pub validator_name: String,
    pub validator_version: String,
    pub min_runs: usize,
    pub metadata: StrMap,
}

impl CertifierConfig {
    /// The default configuration: `cathedral-certifier` version `0.1.0`, at
    /// least one run, metadata `framework = cathedral.fabric`.
    pub fn default() -> (c: Self)
        ensures
            c.validator_name@ == "cathedral-certifier"@,
            c.validator_version@ == "0.1.0"@,
            c.min_runs == 1,
            c.metadata@ == Map::<Seq<char>, Seq<char>>::empty().insert("framework"@, "cathedral.fabric"@),
    {
        let mut metadata = StrMap::new();
        metadata.insert("framework".to_owned(), "cathedral.fabric".to_owned());
        CertifierConfig {
            validator_name: "cathedral-certifier".to_owned(),
            validator_version: "0.1.0".to_owned(),
            min_runs: 1,
            metadata,
        }
    }
}

/// Certifier errors.
#[derive(Debug, Clone, PartialEq, Eq)]
pub enum CertifierError {
    InsufficientRuns { provided: usize, required: usize },
    NoRunsProvided,
    SerializationError,
    CertificateError,
    SignatureError,
    InvalidPublicKey,
    IoError(String),
}

impl CertifierError {
    /// The error for a certificate error.
    pub fn from_certificate_error(_e: CertificateError) -> (r: Self)
        ensures
            r == CertifierError::CertificateError,
    {
        CertifierError::CertificateError
    }

    /// The error for a signature error.
    pub fn from_signature_error(_e: SignatureError) -> (r: Self)
        ensures
            r == CertifierError::SignatureError,
    {
        CertifierError::SignatureError
    }

    /// The error message.
    pub fn to_string(&self) -> (s: String)
        ensures
            s@ == match self {
                CertifierError::InsufficientRuns { provided, required } => "insufficient runs: provided "@
                    + crate::core_types::text::spec_decimal(*provided as nat) + ", required "@
                    + crate::core_types::text::spec_decimal(*required as nat),
                CertifierError::NoRunsProvided => "no runs provided"@,
                CertifierError::SerializationError => "serialization error"@,
                CertifierError::CertificateError => "certificate error"@,
                CertifierError::SignatureError => "signature error"@,
                CertifierError::InvalidPublicKey => "invalid public key"@,
                CertifierError::IoError(m) => "IO error: "@ + m@,
            },
    {
        match self {
            CertifierError::InsufficientRuns { provided, required } => {
                let p = crate::core_types::text::usize_to_decimal(*provided);
                let r = crate::core_types::text::usize_to_decimal(*required);
                crate::core_types::error::cat4("insufficient runs: provided ", p.as_str(), ", required ", r.as_str())
            },
            CertifierError::NoRunsProvided => "no runs provided".to_owned(),
            CertifierError::SerializationError => "serialization error".to_owned(),
            CertifierError::CertificateError => "certificate error".to_owned(),
            CertifierError::SignatureError => "signature error".to_owned(),
            CertifierError::InvalidPublicKey => "invalid public key".to_owned(),
            CertifierError::IoError(m) => crate::core_types::error::cat2("IO error: ", m.as_str()),
        }
    }
}

/// Result of certifying one execution.
#[derive(Debug, Clone, PartialEq, Eq)]
pub struct CertificationResult {
    pub execution_id: String,
    pub success: bool,
    pub error: Option<String>,
}

/// Result of certifying a batch of executions.
#[derive(Debug, Clone, PartialEq, Eq)]
pub struct BatchCertificationResult {
    pub attempted: usize,
    pub successful: usize,
    pub failed: usize,
    pub results: Vec<CertificationResult>,
}

/// The number of successful outcomes.
pub open spec fn spec_count_ok(outcomes: Seq<(String, Result<(), CertifierError>)>) -> nat
    decreases outcomes.len(),
{
    if outcomes.len() == 0 {
        0
    } else {
        spec_count_ok(outcomes.drop_last()) + (if outcomes.last().1 is Ok { 1nat } else { 0nat })
    }
}

/// Whether a batch entry reports an outcome.
pub open spec fn result_reports(r: CertificationResult, o: (String, Result<(), CertifierError>)) -> bool {
    &&& r.execution_id@ == o.0@
    &&& r.success == (o.1 is Ok)
    &&& match o.1 {
        Ok(_) => r.error is None,
        Err(e) => r.error matches Some(m) && m@ == spec_certifier_error_text(e),
    }
}

/// The message of a certifier error.
pub open spec fn spec_certifier_error_text(e: CertifierError) -> Seq<char> {
    match e {
        CertifierError::InsufficientRuns { provided, required } => "insufficient runs: provided "@
            + crate::core_types::text::spec_decimal(provided as nat) + ", required "@
            + crate::core_types::text::spec_decimal(required as nat),
        CertifierError::NoRunsProvided => "no runs provided"@,
        CertifierError::SerializationError => "serialization error"@,
        CertifierError::CertificateError => "certificate error"@,
        CertifierError::SignatureError => "signature error"@,
        CertifierError::InvalidPublicKey => "invalid public key"@,
        CertifierError::IoError(m) => "IO error: "@ + m@,
    }
}

/// Tallies the outcomes of certifying a batch, one entry per execution in order.
pub fn summarize_batch(outcomes: Vec<(String, Result<(), CertifierError>)>) -> (b: BatchCertificationResult)
    ensures
        b.attempted == outcomes@.len(),
        b.successful == spec_count_ok(outcomes@),
        b.failed == outcomes@.len() - spec_count_ok(outcomes@),
        b.results@.len() == outcomes@.len(),
        forall|i: int| 0 <= i < outcomes@.len() ==> result_reports(#[trigger] b.results@[i], outcomes@[i]),
{
    let mut results: Vec<CertificationResult> = Vec::new();
    let mut successful: usize = 0;
    let mut failed: usize = 0;
    let mut i: usize = 0;
    while i < outcomes.len()
        invariant
            i <= outcomes@.len(),
            results@.len() == i,
            successful == spec_count_ok(outcomes@.take(i as int)),
            successful + failed == i,
            forall|k: int| 0 <= k < i ==> result_reports(#[trigger] results@[k], outcomes@[k]),
        decreases outcomes@.len() - i,
    {
        assert(outcomes@.take(i + 1).drop_last() =~= outcomes@.take(i as int));
        let (id, outcome) = (&outcomes[i].0, &outcomes[i].1);
        match outcome {
            Ok(_) => {
                successful = successful + 1;
                results.push(CertificationResult { execution_id: id.clone(), success: true, error: None });
            },
            Err(e) => {
                failed = failed + 1;
                results.push(
                    CertificationResult { execution_id: id.clone(), success: false, error: Some(e.to_string()) },
                );
            },
        }
        i = i + 1;
    }
    assert(outcomes@.take(outcomes@.len() as int) =~= outcomes@);
    BatchCertificationResult { attempted: results.len(), successful, failed, results }
}

/// Validates runs and issues signed certificates.
pub struct Certifier {
    config: CertifierConfig,
    validator: DeterminismValidator,
    signer: Signer,
}

impl Certifier {
    /// The secret key certificates are signed with.
    pub closed spec fn secret(&self) -> Seq<u8> {
        self.signer.secret()
    }

    /// The fewest runs a certificate needs.
    pub closed spec fn min_runs(&self) -> usize {
        self.config.min_runs
    }

    /// The metadata every certificate carries.
    pub closed spec fn config_metadata(&self) -> Map<Seq<char>, Seq<char>> {
        self.config.metadata@
    }

    /// The validator's name.
    pub closed spec fn validator_name(&self) -> Seq<char> {
        self.validator.name@
    }

    /// The validator's version.
    pub closed spec fn validator_version(&self) -> Seq<char> {
        self.validator.version@
    }

    /// A certifier with a fresh random signing key.
    pub fn new(config: CertifierConfig) -> (c: Self)
        ensures
            c.validator_name() == config.validator_name@,
            c.validator_version() == config.validator_version@,
            c.min_runs() == config.min_runs,
            c.config_metadata() == config.metadata@,
    {
        let validator = DeterminismValidator::new(
            config.validator_name.clone(),
            config.validator_version.clone(),
            String::new(),
        );
        Certifier { config, validator, signer: Signer::new() }
    }

    /// The configuration.
    pub fn config(&self) -> (c: &CertifierConfig)
        ensures
            c.min_runs == self.min_runs(),
            c.metadata@ == self.config_metadata(),
    {
        &self.config
    }

    /// A certifier with the default configuration.
    pub fn default() -> (c: Self)
        ensures
            c.min_runs() == 1,
            c.validator_name() == "cathedral-certifier"@,
    {
        Certifier::new(CertifierConfig::default())
    }

    /// A certifier that signs with `signer`.
    pub fn with_signer(config: CertifierConfig, signer: Signer) -> (c: Self)
        ensures
            c.validator_name() == config.validator_name@,
            c.validator_version() == config.validator_version@,
            c.min_runs() == config.min_runs,
            c.config_metadata() == config.metadata@,
            c.secret() == signer.secret(),
    {
        let validator = DeterminismValidator::new(
            config.validator_name.clone(),
            config.validator_version.clone(),
            String::new(),
        );
        Certifier { config, validator, signer }
    }

    /// The public key certificates are signed with.
    pub fn public_key(&self) -> (k: PublicKeyBytes)
        ensures
            k.0@ == spec_ed25519_public(self.secret()),
    {
        self.signer.public_key()
    }

    /// Validates runs without issuing a certificate.
    pub fn validate(&self, runs: &[RunRecord]) -> (r: Result<ValidationReport, CertifierError>)
        ensures
            runs@.len() > 0 ==> (r matches Ok(rep) && spec_runs_report(runs@, rep)),
            runs@.len() == 0 ==> (r matches Ok(rep) && !rep.passed && rep.run_count == 0),
    {
        match self.validator.validate_runs(runs) {
            Ok(rep) => Ok(rep),
            Err(e) => Err(CertifierError::from_certificate_error(e)),
        }
    }

    /// The body of a certificate for `runs`, ready to be encoded and signed:
    /// refused with fewer runs than the configuration asks for, or with none.
    /// The first run supplies seed, ticks and event count; the body carries
    /// the configured metadata, the validation summary and this certifier's
    /// public key in hexadecimal.
    pub fn prepare_certificate(
        &self,
        execution_id: String,
        runs: &[RunRecord],
        encoded_events: &[u8],
    ) -> (r: Result<CertificateBody, CertifierError>)
        ensures
            runs@.len() < self.min_runs() ==> r == Err::<CertificateBody, CertifierError>(
                CertifierError::InsufficientRuns { provided: runs@.len() as usize, required: self.min_runs() },
            ),
            runs@.len() >= self.min_runs() && runs@.len() == 0 ==> r
                == Err::<CertificateBody, CertifierError>(CertifierError::NoRunsProvided),
            runs@.len() >= self.min_runs() && runs@.len() > 0 ==> (r matches Ok(b) && {
                &&& b.execution_id@ == execution_id@
                &&& b.seed == runs@[0].seed
                &&& b.ticks == runs@[0].max_ticks
                &&& b.event_count == runs@[0].events@.len()
                &&& b.log_hash@ == spec_log_hash(encoded_events@)
                &&& b.validator.name@ == self.validator_name()
                &&& b.validator.version@ == self.validator_version()
                &&& b.validator.public_key@ == spec_hex_encode(spec_ed25519_public(self.secret()))
                &&& exists|rep: ValidationReport| {
                    &&& spec_runs_report(runs@, rep)
                    &&& b.claims@ == spec_claims(&rep)
                    &&& b.metadata@ == Map::<Seq<char>, Seq<char>>::empty().insert(
                        "validation_report"@,
                        spec_summary(rep.passed, spec_count_passed(rep.checks@), rep.checks@.len(), rep.run_count as nat),
                    ).union_prefer_right(self.config_metadata()).insert(
                        "validation_summary"@,
                        spec_summary(rep.passed, spec_count_passed(rep.checks@), rep.checks@.len(), rep.run_count as nat),
                    )
                }
            }),
    {
        if runs.len() < self.config.min_runs {
            return Err(CertifierError::InsufficientRuns { provided: runs.len(), required: self.config.min_runs });
        }
        if runs.len() == 0 {
            return Err(CertifierError::NoRunsProvided);
        }
        let report = match self.validator.validate_runs(runs) {
            Ok(rep) => rep,
            Err(e) => return Err(CertifierError::from_certificate_error(e)),
        };
        let first = &runs[0];
        let mut body = match self.validator.certify(execution_id, first.seed, first, encoded_events, &report) {
            Ok(b) => b,
            Err(e) => return Err(CertifierError::from_certificate_error(e)),
        };
        let ghost m0 = body.metadata@;
        let ghost b0 = body;
        let mut i: usize = 0;
        while i < self.config.metadata.len()
            invariant
                i <= self.config.metadata.key_seq().len(),
                body.execution_id == b0.execution_id,
                body.seed == b0.seed,
                body.ticks == b0.ticks,
                body.event_count == b0.event_count,
                body.log_hash == b0.log_hash,
                body.validator == b0.validator,
                body.claims == b0.claims,
                body.metadata@ == m0.union_prefer_right(
                    self.config.metadata@.restrict(self.config.metadata.key_seq().take(i as int).to_set()),
                ),
            decreases self.config.metadata.key_seq().len() - i,
        {
            let (k, v) = self.config.metadata.entry_at(i);
            body = body.with_metadata(k.clone(), v.clone());
            i = i + 1;
            proof {
                let ks = self.config.metadata.key_seq();
                assert(ks.take(i as int) =~= ks.take(i - 1).push(ks[i - 1]));
                ks.take(i - 1).lemma_push_to_set_commute(ks[i - 1]);
                assert(body.metadata@ =~= m0.union_prefer_right(
                    self.config.metadata@.restrict(ks.take(i as int).to_set()),
                ));
            }
        }
        proof {
            let ks = self.config.metadata.key_seq();
            assert(ks.take(ks.len() as int) =~= ks);
            lemma_restrict_all_keys(&self.config.metadata);
        }
        let summary = report.summary();
        body = body.with_metadata("validation_summary".to_owned(), summary);
        let pk = self.signer.public_key();
        body.validator.public_key = pk.to_hex();
        assert(spec_runs_report(runs@, report));
        Ok(body)
    }

    /// Signs the encoding of `body` and returns the certificate. When the
    /// body names this certifier's public key, as a prepared body does,
    /// checking the certificate over the same bytes succeeds.
    pub fn seal(&self, body: CertificateBody, body_bytes: &[u8]) -> (r: Result<Certificate, CertifierError>)
        ensures
            r matches Ok(c) && c.body == body && c.signature.bytes@ == spec_ed25519_signature(
                self.secret(),
                body_bytes@,
            ),
            body.validator.public_key@ == spec_hex_encode(spec_ed25519_public(self.secret())) ==> (r matches Ok(c)
                && spec_cert_check(c, body_bytes@) == Ok::<bool, CertifierError>(true)),
    {
        match self.signer.sign(body_bytes) {
            Ok(signature) => {
                let c = Certificate::new(body, signature);
                proof {
                    lemma_hex_roundtrip(spec_ed25519_public(self.secret()));
                }
                Ok(c)
            },
            Err(e) => Err(CertifierError::from_signature_error(e)),
        }
    }

    /// Checks a certificate's signature over the encoding of its body,
    /// with the public key the body names.
    pub fn verify(&self, cert: &Certificate, body_bytes: &[u8]) -> (r: Result<bool, CertifierError>)
        ensures
            r == spec_cert_check(*cert, body_bytes@),
    {
        let pk = match PublicKeyBytes::from_hex(cert.body.validator.public_key.as_str()) {
            Ok(k) => k,
            Err(_) => return Err(CertifierError::InvalidPublicKey),
        };
        let verifier = match Verifier::new(pk) {
            Ok(v) => v,
            Err(_) => return Err(CertifierError::InvalidPublicKey),
        };
        match verifier.verify(body_bytes, &cert.signature) {
            Ok(b) => Ok(b),
            Err(e) => Err(CertifierError::from_signature_error(e)),
        }
    }
}

/// What checking a certificate's signature over `body_bytes` gives: the key
/// is the one the body names in hexadecimal, which must decode to a valid
/// 32-byte key; then a 64-byte signature is checked, another length refused.
pub open spec fn spec_cert_check(cert: Certificate, body_bytes: Seq<u8>) -> Result<bool, CertifierError> {
    match spec_hex_decode(cert.body.validator.public_key@) {
        Some(pk) if pk.len() == 32 && spec_ed25519_key_valid(pk) => if cert.signature.bytes@.len() == 64 {
            Ok(spec_ed25519_verifies(pk, body_bytes, cert.signature.bytes@))
        } else {
            Err(CertifierError::SignatureError)
        },
        _ => Err(CertifierError::InvalidPublicKey),
    }
}

/// Restricting a map to all of its keys leaves it unchanged.
proof fn lemma_restrict_all_keys(m: &StrMap)
    ensures
        m@.restrict(m.key_seq().to_set()) == m@,
{
    m.lemma_key_domain();
    assert(m@.restrict(m.key_seq().to_set()) =~= m@);
}

} // verus!
