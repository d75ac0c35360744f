use cathedral::core_types::capability::Capability;
use cathedral::core_types::hash;
use cathedral::core_types::id::{EventId, NodeId};
use cathedral::policy::compiler::{
    CompiledPolicy, EvalContext, PolicyCompiler, PolicyDecision, PolicyError, PolicyValue,
};
use cathedral::policy::decision::{DecisionProof, ProofBuilder, ProofField, ProofKind, ProofLog};
use cathedral::policy::lang::{PolicyAst, PolicyExpr, PolicyParser, PolicyRule, PolicyStmt};
use cathedral::policy::matcher::{MatchContext, MatchResult, Matcher};
use cathedral::policy::redact::{replace_all, RedactedView, RedactionRule, Redactor};

#[test]
fn test_matcher_new() {
    let matcher = Matcher::new();
    let ctx = MatchContext::new();
    let result = matcher.match_pattern("*", &ctx).unwrap();
    assert!(result.matched);
}

#[test]
fn test_match_context_new() {
    let ctx = MatchContext::new();
    assert!(ctx.vars.is_empty());
}

#[test]
fn test_match_context_with_var() {
    let ctx = MatchContext::new().with_var("key".to_string(), "value".to_string());
    assert_eq!(ctx.vars.get("key"), Some(&"value".to_string()));
}

#[test]
fn test_match_result_new() {
    let result = MatchResult::new(true);
    assert!(result.matched);
}

#[test]
fn test_match_result_with_capture() {
    let result = MatchResult::new(true).with_capture("key".to_string(), "value".to_string());
    assert_eq!(result.captures.get("key"), Some(&"value".to_string()));
}

#[test]
fn test_match_pattern_wildcard() {
    let matcher = Matcher::new();
    let ctx = MatchContext::new();
    let result = matcher.match_pattern("*", &ctx).unwrap();
    assert!(result.matched);
}

#[test]
fn test_match_pattern_variable() {
    let matcher = Matcher::new();
    let ctx = MatchContext::new().with_var("test".to_string(), "value".to_string());
    let result = matcher.match_pattern("$test", &ctx).unwrap();
    assert!(result.matched);
    assert_eq!(result.captures.get("test"), Some(&"value".to_string()));
    assert!(!matcher.match_pattern("$other", &ctx).unwrap().matched);
}

#[test]
fn test_match_pattern_value_and_capability() {
    let matcher = Matcher::new();
    let ctx = MatchContext::new()
        .with_var("path".to_string(), "/data/input.txt".to_string())
        .with_capability(Capability::ClockRead);
    assert!(matcher.match_pattern("input", &ctx).unwrap().matched);
    assert!(matcher.match_pattern("Clock", &ctx).unwrap().matched);
    assert!(!matcher.match_pattern("missing", &ctx).unwrap().matched);
}

#[test]
fn test_match_all() {
    let matcher = Matcher::new();
    let ctx = MatchContext::new();
    let result = matcher.match_all(&["*", "*"], &ctx).unwrap();
    assert!(result.matched);
}

#[test]
fn test_match_all_collects_captures() {
    let matcher = Matcher::new();
    let ctx = MatchContext::new()
        .with_var("a".to_string(), "1".to_string())
        .with_var("b".to_string(), "2".to_string());
    let r = matcher.match_all(&["$a", "$b"], &ctx).unwrap();
    assert!(r.matched);
    assert_eq!(r.captures.get("a"), Some(&"1".to_string()));
    assert_eq!(r.captures.get("b"), Some(&"2".to_string()));
    let r = matcher.match_all(&["$a", "$c"], &ctx).unwrap();
    assert!(!r.matched);
    assert!(r.captures.is_empty());
}

#[test]
fn test_match_any() {
    let matcher = Matcher::new();
    let ctx = MatchContext::new();
    let result = matcher.match_any(&["not-match", "*"], &ctx).unwrap();
    assert!(result.matched);
    assert!(!matcher.match_any(&["x", "y"], &ctx).unwrap().matched);
}

#[test]
fn test_redaction_rule_new() {
    let rule = RedactionRule::new("test".to_string(), "secret".to_string(), "***".to_string());
    assert_eq!(rule.name, "test");
    assert!(!rule.is_regex);
}

#[test]
fn test_redaction_rule_apply() {
    let rule = RedactionRule::new("test".to_string(), "secret".to_string(), "***".to_string());
    let result = rule.apply("this is a secret message");
    assert_eq!(result, "this is a *** message");
}

#[test]
fn test_replace_all_matches_std() {
    for (t, p, r) in [
        ("aaaa", "aa", "b"),
        ("abcabc", "bc", ""),
        ("héllo wörld", "ö", "oe"),
        ("ab", "", "x"),
        ("", "", "x"),
        ("xyz", "xyzw", "q"),
    ] {
        assert_eq!(replace_all(t, p, r), t.replace(p, r));
    }
}

#[test]
fn test_redacted_view_new() {
    let view = RedactedView::new("original".to_string(), "redacted".to_string());
    assert_eq!(view.redacted, "redacted");
    assert!(!view.is_redacted());
}

#[test]
fn test_redacted_view_is_redacted() {
    let mut view = RedactedView::new("original".to_string(), "redacted".to_string());
    assert!(!view.is_redacted());

    view.redaction_count = 1;
    assert!(view.is_redacted());
}

#[test]
fn test_redacted_view_as_str() {
    let view = RedactedView::new("original".to_string(), "redacted".to_string());
    assert_eq!(view.as_str(), "redacted");
    assert_eq!(view.as_bytes(), b"redacted");
}

#[test]
fn test_redactor_new() {
    let redactor = Redactor::new();
    let view = redactor.redact("test");
    assert_eq!(view.redacted, "test");
    assert_eq!(view.redaction_count, 0);
}

#[test]
fn test_redactor_with_rule() {
    let rule = RedactionRule::new("test".to_string(), "secret".to_string(), "***".to_string());
    let redactor = Redactor::new().with_rule(rule);
    let view = redactor.redact("this is a secret");
    assert_eq!(view.redacted, "this is a ***");
    assert_eq!(view.redaction_count, 1);
    assert_eq!(view.applied_rules, vec!["test".to_string()]);
}

#[test]
fn test_redactor_redact_field() {
    let redactor = Redactor::new().with_sensitive_field("password".to_string());

    let view = redactor.redact_field("username", "value");
    assert_eq!(view.redacted, "value");

    let view = redactor.redact_field("password", "secret123");
    assert_eq!(view.redacted, "***REDACTED***");
}

#[test]
fn sensitive_field_counts_as_redacted() {
    let redactor = Redactor::new().with_sensitive_field("password".to_string());
    let view = redactor.redact_field("password", "secret123");
    assert!(view.is_redacted());
    assert_eq!(view.redaction_count, 1);
    assert_eq!(view.original, "secret123");
}

#[test]
fn test_redactor_is_sensitive() {
    let redactor = Redactor::new();
    assert!(redactor.is_sensitive("password"));
    assert!(redactor.is_sensitive("api_secret"));
    assert!(redactor.is_sensitive("auth_token"));
    assert!(redactor.is_sensitive("encryption_key"));
    assert!(!redactor.is_sensitive("username"));
}

#[test]
fn test_redactor_with_sensitive_field() {
    let redactor = Redactor::new().with_sensitive_field("custom".to_string());
    assert!(redactor.is_sensitive("custom"));
}

#[test]
fn test_decision_proof_new() {
    let proof = DecisionProof::new(ProofKind::Allow, true);
    assert!(proof.decision);
    assert_eq!(proof.id.len(), 36);
}

#[test]
fn test_decision_proof_with_event() {
    let event_id = EventId::new();
    let proof = DecisionProof::new(ProofKind::Allow, true).with_event(event_id);
    assert_eq!(proof.event_id, Some(event_id));
}

#[test]
fn test_proof_field_new() {
    let field = ProofField::new("key".to_string(), b"value".to_vec());
    assert_eq!(field.name, "key");
}

#[test]
fn test_proof_field_string() {
    let field = ProofField::string("key".to_string(), "value");
    assert_eq!(field.value, b"value");
}

#[test]
fn test_proof_field_boolean() {
    let field = ProofField::boolean("key".to_string(), true);
    assert_eq!(field.value, b"true");
}

#[test]
fn test_proof_finalize() {
    let proof = DecisionProof::new(ProofKind::Allow, true).finalize().unwrap();
    assert_ne!(proof.signature, hash::Hash::empty());
}

#[test]
fn test_proof_verify() {
    let proof = DecisionProof::new(ProofKind::Allow, true).finalize().unwrap();
    assert!(proof.verify().unwrap());
    let mut tampered = proof.clone();
    tampered.decision = false;
    assert!(!tampered.verify().unwrap());
}

#[test]
fn test_proof_signature_covers_fields() {
    let mut p = DecisionProof::new(ProofKind::Deny, false)
        .with_field(ProofField::string("reason".to_string(), "policy"));
    p.id = "fixed".to_string();
    p.timestamp = 0x0102030405060708;
    let sealed = p.clone().finalize().unwrap();
    let mut data = Vec::new();
    data.extend_from_slice(b"fixed");
    data.extend_from_slice(b"Deny");
    data.extend_from_slice(&0x0102030405060708u64.to_be_bytes());
    data.push(0);
    data.extend_from_slice(b"reason");
    data.extend_from_slice(b"policy");
    assert_eq!(sealed.signature, hash::Hash::compute(&data));
    assert_eq!(sealed.get_field("reason").unwrap().value, b"policy");
    assert!(sealed.get_field("other").is_none());
    assert_eq!(sealed.field_names(), vec!["reason"]);
}

#[test]
fn test_proof_log_new() {
    let log = ProofLog::new();
    assert!(log.is_empty());
}

#[test]
fn test_proof_log_add() {
    let mut log = ProofLog::new();
    let proof = DecisionProof::new(ProofKind::Allow, true).finalize().unwrap();
    log.add(proof).unwrap();
    assert_eq!(log.len(), 1);
    assert!(log.get(0).is_some());
    assert!(log.get(1).is_none());
}

#[test]
fn test_proof_log_get_by_event() {
    let mut log = ProofLog::new();
    let event_id = EventId::new();
    let proof = DecisionProof::new(ProofKind::Allow, true).with_event(event_id).finalize().unwrap();
    log.add(proof).unwrap();

    let found = log.get_by_event(event_id);
    assert!(found.is_some());
    assert!(log.get_by_event(EventId::new()).is_none());
}

#[test]
fn test_proof_log_get_by_node() {
    let mut log = ProofLog::new();
    let n = NodeId::new();
    log.add(DecisionProof::new(ProofKind::Allow, true).with_node(n)).unwrap();
    log.add(DecisionProof::new(ProofKind::Deny, false)).unwrap();
    log.add(DecisionProof::new(ProofKind::Deny, false).with_node(n)).unwrap();
    let found = log.get_by_node(n);
    assert_eq!(found.len(), 2);
    assert!(found[0].decision);
    assert!(!found[1].decision);
}

#[test]
fn test_proof_log_clear() {
    let mut log = ProofLog::new();
    let proof = DecisionProof::new(ProofKind::Allow, true).finalize().unwrap();
    log.add(proof).unwrap();
    log.clear();
    assert!(log.is_empty());
}

#[test]
fn test_proof_builder() {
    let event_id = EventId::new();
    let node_id = NodeId::new();

    let proof = ProofBuilder::new(ProofKind::Allow, true)
        .event(event_id)
        .node(node_id)
        .policy("test-policy".to_string())
        .build()
        .unwrap();

    assert!(proof.decision);
    assert_eq!(proof.event_id, Some(event_id));
    assert_eq!(proof.node_id, Some(node_id));
    assert!(proof.verify().unwrap());
}

#[test]
fn test_proof_kind() {
    assert_eq!(ProofKind::Allow, ProofKind::Allow);
    assert_ne!(ProofKind::Allow, ProofKind::Deny);
}

#[test]
fn test_policy_compiler_new() {
    let compiler = PolicyCompiler::new();
    let ast = PolicyAst { statements: Vec::new() };
    let policy = compiler.compile(ast).unwrap();
    assert_eq!(policy.rules.len(), 0);
}

#[test]
fn test_compile_allow() {
    let compiler = PolicyCompiler::new();
    let source = "allow true";
    let policy = compiler.compile_from_source(source).unwrap();
    assert_eq!(policy.rules.len(), 1);
    assert!(policy.rules[0].is_allow);
}

#[test]
fn test_compile_deny() {
    let compiler = PolicyCompiler::new();
    let source = "deny false";
    let policy = compiler.compile_from_source(source).unwrap();
    assert_eq!(policy.rules.len(), 1);
    assert!(!policy.rules[0].is_allow);
}

#[test]
fn test_eval_allow_true() {
    let compiler = PolicyCompiler::new();
    let policy = compiler.compile_from_source("allow true").unwrap();
    let ctx = EvalContext::new();
    let decision = policy.evaluate(&ctx).unwrap();
    assert!(decision.allowed);
    assert_eq!(decision.reason, "Allowed by policy");
}

#[test]
fn test_eval_deny_true() {
    let compiler = PolicyCompiler::new();
    let policy = compiler.compile_from_source("deny true").unwrap();
    let ctx = EvalContext::new();
    let decision = policy.evaluate(&ctx).unwrap();
    assert!(!decision.allowed);
    assert_eq!(decision.reason, "Deny rule matched");
    assert_eq!(decision.matched_rules, vec!["unnamed".to_string()]);
}

#[test]
fn test_eval_context() {
    let compiler = PolicyCompiler::new();
    let policy = compiler.compile_from_source("allow true").unwrap();
    let ctx = EvalContext::new().with_capability(Capability::FsRead { prefixes: vec![] });
    let decision = policy.evaluate(&ctx).unwrap();
    assert!(decision.allowed);
}

#[test]
fn test_eval_variables_and_let() {
    let compiler = PolicyCompiler::new();
    let policy = compiler.compile_from_source("let on = true\nallow on\n\nallow flag").unwrap();
    assert_eq!(policy.rules.len(), 2);
    let ctx = EvalContext::new().with_var("flag".to_string(), PolicyValue::Bool(false));
    let decision = policy.evaluate(&ctx).unwrap();
    assert!(decision.allowed);
    assert_eq!(decision.matched_rules.len(), 1);
    let err = policy.evaluate(&EvalContext::new()).unwrap_err();
    assert_eq!(err.to_string(), "Validation failed for policy: Unknown variable: flag");
}

#[test]
fn test_parse_error() {
    let compiler = PolicyCompiler::new();
    assert!(compiler.compile_from_source("grant everything").is_err());
    let parser = PolicyParser::new();
    let ast = parser.parse("allow \"x\"").unwrap();
    assert_eq!(
        ast.statements,
        vec![PolicyStmt::Allow(PolicyRule {
            name: None,
            expr: PolicyExpr::String("x".to_string()),
            capabilities: vec![],
        })]
    );
}

#[test]
fn test_check_capability() {
    let ast = PolicyAst {
        statements: vec![PolicyStmt::Allow(PolicyRule {
            name: Some("net".to_string()),
            expr: PolicyExpr::Bool(true),
            capabilities: vec![Capability::ClockRead],
        })],
    };
    let policy: CompiledPolicy = PolicyCompiler::new().compile(ast).unwrap();
    let ctx = EvalContext::new();
    assert!(policy.check_capability(&ctx, &Capability::ClockRead).unwrap().allowed);
    assert!(!policy
        .check_capability(&ctx, &Capability::EnvRead { vars: vec![] })
        .unwrap()
        .allowed);
}

#[test]
fn test_eval_error_display() {
    let err = PolicyError::UnknownVar { name: "x".to_string() };
    assert!(err.to_string().contains("Unknown variable"));
}

#[test]
fn test_policy_decision_allowed() {
    let decision = PolicyDecision {
        allowed: true,
        matched_rules: vec!["rule1".to_string()],
        reason: "Allowed".to_string(),
    };
    assert!(decision.allowed);
}
