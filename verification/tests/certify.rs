use cathedral::certify::certificate::{
    Certificate, CertificateBody, CertificateError, DeterminismClaim, ValidatorInfo,
};
use cathedral::certify::certifier::{
    summarize_batch, BatchCertificationResult, CertificationResult, Certifier, CertifierConfig,
    CertifierError,
};
use cathedral::certify::record::{runs_identical, RunRecord};
use cathedral::certify::signature::{
    PublicKeyBytes, Signature, SignatureError, SignatureScheme, Signer, Verifier,
};
use cathedral::certify::validator::{DeterminismValidator, ValidationCheck, ValidationReport};
use cathedral::core_types::id::NodeId;

fn create_test_record(seed: u64) -> RunRecord {
    RunRecord::new()
        .with_seed(seed)
        .with_event(1, NodeId::new(), "test".to_string())
}

#[test]
fn test_validator_info_new() {
    let info = ValidatorInfo::new(
        "test-validator".to_string(),
        "1.0.0".to_string(),
        "abc123".to_string(),
    );
    assert_eq!(info.name, "test-validator");
    assert_eq!(info.version, "1.0.0");
}

#[test]
fn test_determinism_claim_variants() {
    let claims = vec![
        DeterminismClaim::IdenticalRuns { run_count: 3 },
        DeterminismClaim::ValidHashChain,
        DeterminismClaim::NoExternalAccess,
        DeterminismClaim::SeededRandomness,
        DeterminismClaim::Custom { description: "custom claim".to_string() },
    ];

    assert!(matches!(claims[0], DeterminismClaim::IdenticalRuns { run_count: 3 }));
    assert!(matches!(claims[1], DeterminismClaim::ValidHashChain));
}

#[test]
fn test_certificate_error_messages() {
    assert_eq!(CertificateError::InvalidHash.to_string(), "invalid hash");
    assert_eq!(CertificateError::InvalidFormat.to_string(), "invalid certificate format");
}

#[test]
fn test_certificate_body_new() {
    let validator = ValidatorInfo::new("test".to_string(), "1.0".to_string(), "key".to_string());
    let body = CertificateBody::new("exec-1".to_string(), 42, 100, 50, "hash123".to_string(), validator);
    assert_eq!(body.execution_id, "exec-1");
    assert_eq!(body.seed, 42);
    assert_eq!(body.ticks, 100);
}

#[test]
fn certificate_body_fields_and_identifier() {
    let info = ValidatorInfo::new("v".to_string(), "1".to_string(), "k".to_string());
    let body = CertificateBody::new("exec-9".to_string(), 7, 100, 3, "blake3:00".to_string(), info);
    assert!(body.id.starts_with("cert-"));
    assert_eq!(body.id.len(), 41);
    assert_eq!(body.event_count, 3);
    assert!(body.claims.is_empty());
    assert!(body.metadata.is_empty());
}

#[test]
fn test_certificate_body_with_claim() {
    let validator = ValidatorInfo::new("test".to_string(), "1.0".to_string(), "key".to_string());
    let body = CertificateBody::new("exec-1".to_string(), 42, 100, 50, "hash123".to_string(), validator)
        .with_claim(DeterminismClaim::ValidHashChain);

    assert_eq!(body.claims.len(), 1);
    assert!(matches!(body.claims[0], DeterminismClaim::ValidHashChain));
}

#[test]
fn test_certificate_body_with_metadata() {
    let validator = ValidatorInfo::new("test".to_string(), "1.0".to_string(), "key".to_string());
    let body = CertificateBody::new("exec-1".to_string(), 42, 100, 50, "hash123".to_string(), validator)
        .with_metadata("foo".to_string(), "bar".to_string());

    assert_eq!(body.metadata.get("foo"), Some(&"bar".to_string()));
}

#[test]
fn test_certificate_verify() {
    let validator = ValidatorInfo::new("test".to_string(), "1.0".to_string(), "key".to_string());
    let body = CertificateBody::new("exec-1".to_string(), 42, 100, 50, "hash123".to_string(), validator);

    let sig = Signature::new(SignatureScheme::Ed25519, vec![1u8; 64]);
    let cert = Certificate::new(body, sig);

    assert!(cert.verify().unwrap());
    assert!(cert.id().starts_with("cert-"));
}

#[test]
fn test_certifier_config_default() {
    let config = CertifierConfig::default();
    assert_eq!(config.validator_name, "cathedral-certifier");
    assert_eq!(config.validator_version, "0.1.0");
    assert_eq!(config.min_runs, 1);
}

#[test]
fn test_batch_certification_result() {
    let result = BatchCertificationResult {
        attempted: 5,
        successful: 4,
        failed: 1,
        results: vec![],
    };
    assert_eq!(result.attempted, 5);
    assert_eq!(result.successful, 4);
    assert_eq!(result.failed, 1);
}

#[test]
fn test_certification_result() {
    let result = CertificationResult {
        execution_id: "exec-1".to_string(),
        success: true,
        error: None,
    };
    assert!(result.success);
}

#[test]
fn test_certification_result_failed() {
    let result = CertificationResult {
        execution_id: "exec-1".to_string(),
        success: false,
        error: Some("test error".to_string()),
    };
    assert!(!result.success);
    assert_eq!(result.error, Some("test error".to_string()));
}

#[test]
fn test_summarize_batch_counts() {
    let outcomes = vec![
        ("exec-1".to_string(), Ok(())),
        ("exec-2".to_string(), Err(CertifierError::NoRunsProvided)),
        ("exec-3".to_string(), Ok(())),
    ];
    let b = summarize_batch(outcomes);
    assert_eq!(b.attempted, 3);
    assert_eq!(b.successful, 2);
    assert_eq!(b.failed, 1);
    assert_eq!(b.results[1].execution_id, "exec-2");
    assert!(!b.results[1].success);
    assert_eq!(b.results[1].error, Some("no runs provided".to_string()));
}

#[test]
fn test_certifier_error_messages() {
    let e = CertifierError::InsufficientRuns { provided: 1, required: 3 };
    assert_eq!(e.to_string(), "insufficient runs: provided 1, required 3");
    assert_eq!(CertifierError::InvalidPublicKey.to_string(), "invalid public key");
}

#[test]
fn test_certifier_new() {
    let certifier = Certifier::new(CertifierConfig::default());
    assert_eq!(certifier.config().validator_name, "cathedral-certifier");
}

#[test]
fn test_certifier_default() {
    let certifier = Certifier::default();
    assert_eq!(certifier.config().min_runs, 1);
}

#[test]
fn test_certify_single_run() {
    let certifier = Certifier::default();
    let record = create_test_record(42);
    let body = certifier
        .prepare_certificate("exec-1".to_string(), &[record], b"encoded events")
        .unwrap();
    assert_eq!(body.execution_id, "exec-1");
    assert_eq!(body.seed, 42);
    assert_eq!(body.metadata.get("framework"), Some(&"cathedral.fabric".to_string()));
    assert!(body.log_hash.starts_with("blake3:"));
    let cert = certifier.seal(body, b"encoded body").unwrap();
    assert!(!cert.signature.bytes.is_empty());
    assert!(certifier.verify(&cert, b"encoded body").unwrap());
    assert!(!certifier.verify(&cert, b"another body").unwrap());
}

#[test]
fn test_certify_insufficient_runs() {
    let mut config = CertifierConfig::default();
    config.min_runs = 3;
    let certifier = Certifier::new(config);

    let record = create_test_record(42);
    let result = certifier.prepare_certificate("exec-1".to_string(), &[record], b"");

    assert!(matches!(result, Err(CertifierError::InsufficientRuns { provided: 1, required: 3 })));
}

#[test]
fn test_certify_no_runs() {
    let certifier = Certifier::default();
    let result = certifier.prepare_certificate("exec-1".to_string(), &[], b"");
    assert!(matches!(result, Err(CertifierError::InsufficientRuns { .. })));
}

#[test]
fn test_validate() {
    let certifier = Certifier::default();
    let record = create_test_record(42);

    let report = certifier.validate(&[record]).unwrap();
    assert!(report.passed);
}

#[test]
fn test_signature_scheme_default() {
    assert_eq!(SignatureScheme::default(), SignatureScheme::Ed25519);
}

#[test]
fn test_signature_ed25519() {
    let sig = Signature::ed25519(vec![1u8; 64]);
    assert_eq!(sig.scheme, SignatureScheme::Ed25519);
    assert_eq!(sig.bytes.len(), 64);
}

#[test]
fn test_signer_new() {
    let signer = Signer::new();
    let pub_key = signer.public_key();
    assert_ne!(pub_key.0, [0u8; 32]);
}

#[test]
fn test_sign_and_verify() {
    let signer = Signer::new();
    let message = b"test message";
    let signature = signer.sign(message).unwrap();

    let verifier = Verifier::new(signer.public_key()).unwrap();
    assert!(verifier.verify(message, &signature).unwrap());
}

#[test]
fn test_verify_fails_with_different_message() {
    let signer = Signer::new();
    let message = b"test message";
    let signature = signer.sign(message).unwrap();

    let verifier = Verifier::new(signer.public_key()).unwrap();
    assert!(!verifier.verify(b"different message", &signature).unwrap());
}

#[test]
fn test_public_key_hex_roundtrip() {
    let signer = Signer::new();
    let pub_key = signer.public_key();
    let hex = pub_key.to_hex();
    let restored = PublicKeyBytes::from_hex(&hex).unwrap();
    assert_eq!(pub_key, restored);
}

#[test]
fn test_signer_from_secret_is_deterministic() {
    let a = Signer::from_secret(&[7u8; 32]).unwrap();
    let b = Signer::from_secret(&[7u8; 32]).unwrap();
    assert_eq!(a.public_key(), b.public_key());
    assert_eq!(a.sign(b"m").unwrap(), b.sign(b"m").unwrap());
    assert!(matches!(Signer::from_secret(&[1u8; 5]), Err(SignatureError::InvalidSecretKey)));
}

#[test]
fn test_verifier_invalid_public_key() {
    let result = Verifier::new(PublicKeyBytes([0u8; 32]));
    assert!(result.is_ok());
}

#[test]
fn test_public_key_from_hex_invalid_length() {
    let result = PublicKeyBytes::from_hex("abcd");
    assert!(matches!(result, Err(SignatureError::InvalidPublicKey)));
}

#[test]
fn test_public_key_from_hex_invalid_chars() {
    let result =
        PublicKeyBytes::from_hex("gggggggggggggggggggggggggggggggggggggggggggggggggggggggggggggg");
    assert!(matches!(result, Err(SignatureError::InvalidHex)));
}

#[test]
fn test_validation_check_passed() {
    let check = ValidationCheck::passed("test_check".to_string());
    assert!(check.passed);
    assert_eq!(check.name, "test_check");
}

#[test]
fn test_validation_check_failed() {
    let check = ValidationCheck::failed("test_check".to_string(), "test reason".to_string());
    assert!(!check.passed);
    assert_eq!(check.message, "test reason");
}

#[test]
fn test_validation_report_new() {
    let report = ValidationReport::new(true, 3);
    assert!(report.passed);
    assert_eq!(report.run_count, 3);
    assert!(report.checks.is_empty());
}

#[test]
fn test_validation_report_with_check() {
    let check = ValidationCheck::passed("test".to_string());
    let report = ValidationReport::new(true, 1).with_check(check);
    assert_eq!(report.checks.len(), 1);
}

#[test]
fn test_validation_report_with_detail() {
    let report = ValidationReport::new(true, 1).with_detail("key".to_string(), "value".to_string());
    assert_eq!(report.details.get("key"), Some(&"value".to_string()));
}

#[test]
fn test_validation_report_summary() {
    let report = ValidationReport::new(true, 3)
        .with_check(ValidationCheck::passed("check1".to_string()))
        .with_check(ValidationCheck::passed("check2".to_string()));
    let summary = report.summary();
    assert!(summary.contains("PASSED"));
    assert!(summary.contains("2/2"));
    assert_eq!(summary, "Validation PASSED: 2/2 checks passed, 3 runs compared");
}

#[test]
fn test_failed_checks() {
    let report = ValidationReport::new(false, 1)
        .with_check(ValidationCheck::passed("a".to_string()))
        .with_check(ValidationCheck::failed("b".to_string(), "why".to_string()));
    let failed = report.failed_checks();
    assert_eq!(failed.len(), 1);
    assert_eq!(failed[0].name, "b");
}

#[test]
fn test_determinism_validator_new() {
    let validator =
        DeterminismValidator::new("test".to_string(), "1.0".to_string(), "key".to_string());
    assert_eq!(validator.name, "test");
    assert_eq!(validator.version, "1.0");
}

#[test]
fn test_determinism_validator_default() {
    let validator = DeterminismValidator::default();
    assert_eq!(validator.name, "cathedral-validator");
}

#[test]
fn test_validate_runs_empty() {
    let validator = DeterminismValidator::default();
    let report = validator.validate_runs(&[]).unwrap();
    assert!(!report.passed);
    assert_eq!(report.run_count, 0);
}

#[test]
fn test_validate_runs_single() {
    let validator = DeterminismValidator::default();
    let record = RunRecord::new().with_seed(42).with_event(1, NodeId::new(), "test".to_string());

    let report = validator.validate_runs(&[record]).unwrap();
    assert!(report.passed);
    assert_eq!(report.run_count, 1);
    assert_eq!(report.checks.len(), 4);
    assert_eq!(report.checks[0].message, "All runs use seed: 42");
}

#[test]
fn test_validate_runs_identical() {
    let validator = DeterminismValidator::default();
    let node_id = NodeId::new();
    let record1 = RunRecord::new().with_seed(42).with_event(1, node_id, "test".to_string());
    let record2 = RunRecord::new().with_seed(42).with_event(1, node_id, "test".to_string());
    assert!(runs_identical(&record1, &record2));

    let report = validator.validate_runs(&[record1, record2]).unwrap();
    assert!(report.passed);
    assert_eq!(report.run_count, 2);
}

#[test]
fn test_validate_runs_different_seeds() {
    let validator = DeterminismValidator::default();
    let node_id = NodeId::new();
    let record1 = RunRecord::new().with_seed(42).with_event(1, node_id, "test".to_string());
    let record2 = RunRecord::new().with_seed(43).with_event(1, node_id, "test".to_string());

    let report = validator.validate_runs(&[record1, record2]).unwrap();
    assert!(!report.passed);
    assert_eq!(report.checks[0].message, "Seeds differ between runs");
}

#[test]
fn test_validate_runs_different_events() {
    let validator = DeterminismValidator::default();
    let record1 = RunRecord::new().with_seed(42).with_event(1, NodeId::new(), "a".to_string());
    let record2 = RunRecord::new()
        .with_seed(42)
        .with_event(1, NodeId::new(), "a".to_string())
        .with_event(2, NodeId::new(), "b".to_string());

    let report = validator.validate_runs(&[record1, record2]).unwrap();
    assert!(!report.passed);
    assert_eq!(report.checks[2].message, "Event counts differ: [1, 2]");
    assert_eq!(report.checks[3].message, "Sequence mismatches: Runs 0 and 1 differ");
}

#[test]
fn test_compute_log_hash_prefix() {
    let validator = DeterminismValidator::default();
    let h = validator.compute_log_hash(b"abc").unwrap();
    assert!(h.starts_with("blake3:"));
    assert_eq!(h.len(), "blake3:".len() + 64);
    assert_ne!(h, validator.compute_log_hash(b"abd").unwrap());
}

#[test]
fn test_certify() {
    let validator = DeterminismValidator::default();
    let record = RunRecord::new().with_seed(42).with_event(1, NodeId::new(), "test".to_string());

    let report = ValidationReport::new(true, 1)
        .with_check(ValidationCheck::passed("event_sequence_consistency".to_string()))
        .with_check(ValidationCheck::passed("seed_consistency".to_string()));

    let encoded = postcard::to_allocvec(&(1u64, "test")).unwrap();
    let body = validator.certify("exec-1".to_string(), 42, &record, &encoded, &report).unwrap();
    assert_eq!(body.execution_id, "exec-1");
    assert_eq!(body.seed, 42);
    assert!(!body.claims.is_empty());
}

#[test]
fn test_compute_log_hash() {
    let validator = DeterminismValidator::default();
    let encoded = postcard::to_allocvec(&(1u64, "test")).unwrap();

    let hash = validator.compute_log_hash(&encoded).unwrap();
    assert!(hash.starts_with("blake3:"));
    assert_eq!(hash, format!("blake3:{}", blake3::hash(&encoded).to_hex()));
}

#[test]
fn test_certify_multiple_identical_runs() {
    let certifier = Certifier::default();
    let node_id = NodeId::new();

    let record1 = RunRecord::new().with_seed(42).with_event(1, node_id, "test".to_string());
    let record2 = RunRecord::new().with_seed(42).with_event(1, node_id, "test".to_string());

    let body = certifier
        .prepare_certificate("exec-1".to_string(), &[record1, record2], b"encoded events")
        .unwrap();
    let cert = certifier.seal(body, b"encoded body").unwrap();
    assert_eq!(cert.body.execution_id, "exec-1");
}

#[test]
fn test_certify_batch() {
    let certifier = Certifier::default();

    let executions = vec![
        ("exec-1".to_string(), vec![create_test_record(42)]),
        ("exec-2".to_string(), vec![create_test_record(43)]),
    ];

    let mut outcomes = Vec::new();
    for (execution_id, runs) in executions {
        let outcome = certifier
            .prepare_certificate(execution_id.clone(), &runs, b"encoded events")
            .and_then(|body| certifier.seal(body, b"encoded body"))
            .map(|_| ());
        outcomes.push((execution_id, outcome));
    }
    let result = summarize_batch(outcomes);
    assert_eq!(result.attempted, 2);
    assert_eq!(result.successful, 2);
    assert_eq!(result.failed, 0);
}

#[test]
fn body_hash_of_encoding_is_blake3_hex() {
    let h = CertificateBody::hash_of_encoding(b"abc");
    assert_eq!(h, format!("blake3:{}", hex::encode(blake3::hash(b"abc").as_bytes())));
    assert!(h.starts_with("blake3:"));
    assert_eq!(h.len(), 7 + 64);
}

#[test]
fn own_signature_verifies_for_any_message() {
    let signer = Signer::from_secret(&[7u8; 32]).unwrap();
    let verifier = Verifier::new(signer.public_key()).unwrap();
    for msg in [&b""[..], &b"x"[..], &b"a longer message"[..]] {
        let sig = signer.sign(msg).unwrap();
        assert_eq!(sig.bytes.len(), 64);
        assert!(verifier.verify(msg, &sig).unwrap());
    }
}
