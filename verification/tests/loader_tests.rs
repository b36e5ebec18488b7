use yutha::constitution::Constitution;
use yutha::engine_config::{EngineConfig, NamedPredicate, Procedure, ProcedureTransition, ProcedureTrigger, ScoringHead, ScoringRule};
use yutha::error::{CedarPlusError, LoadBoundReason};
use yutha::ids::{ContentHash, SwarmId, Timestamp};
use yutha::layer_b::ScoringRuleHandle;
use yutha::loader::{
    canonical_schema_v1_1_with_extensions, cedar_verdict, check_engine_expressions, join_texts,
    parse_and_validate_cedar, parse_cedar_expression, ConstitutionLoader,
};
use yutha::sandbox::SandboxConfig;
use yutha::score::Score;
use yutha::matched::sort_ids;
use yutha::scoring::{scoring_outcome, ScoringOutcome};
use yutha::string_map::StringMap;

/// A small stand-in for the canonical schema: one namespace with the
/// send action.
const BASE_SCHEMA: &str = r#"
namespace Yutha {
    entity Agent;
    entity Envelope;
    action "SendEnvelope" appliesTo {
        principal: [Agent],
        resource: [Envelope],
        context: { payload_schema_id: String }
    };
}
"#;

/// A stand-in support-queue workload extension.
const SUPPORT_QUEUE: &str = r#"
namespace Yutha::SupportQueue {
    entity Ticket;
    action "IssueRefund" appliesTo {
        principal: [Yutha::Agent],
        resource: [Ticket],
        context: { refund_amount_cents: Long }
    };
}
"#;

/// A stand-in code-review workload extension.
const CODE_REVIEW: &str = r#"
namespace Yutha::CodeReview {
    entity PullRequest;
    action "Approve" appliesTo {
        principal: [Yutha::Agent],
        resource: [PullRequest]
    };
}
"#;

fn placeholder_hash() -> ContentHash {
    ContentHash { digest: vec![0u8; 32] }
}

fn make_constitution(cedar_source: &str, engine_config: EngineConfig) -> Constitution {
    Constitution {
        constitution_hash: placeholder_hash(),
        spec_version: "1.0.0".to_string(),
        schema_version: "1.1.0".to_string(),
        constitution_version: "1.0.0".to_string(),
        parent_version: None,
        swarm_id: SwarmId { bytes: vec![7u8; 16] },
        cedar_source: cedar_source.to_string(),
        engine_config,
        issued_at: Timestamp { wall_clock: "2026-01-01T00:00:00Z".to_string(), monotonic_ns: 0 },
    }
}

fn loader() -> ConstitutionLoader {
    let schema = canonical_schema_v1_1_with_extensions(BASE_SCHEMA, &[]).expect("schema loads");
    ConstitutionLoader::with_default_bounds(schema)
}

fn rule(name: &str, score: &str, when: &str) -> ScoringRule {
    ScoringRule { name: name.to_string(), score: Score(score.to_string()), head: ScoringHead::default(), when: when.to_string() }
}

#[test]
fn canonical_schema_loads() {
    let _schema = canonical_schema_v1_1_with_extensions(BASE_SCHEMA, &[]).expect("schema parses");
}

#[test]
fn empty_constitution_loads() {
    let cedar = "permit (principal, action, resource);";
    let cfg = EngineConfig::default();
    let activated = loader().load(make_constitution(cedar, cfg)).expect("empty constitution loads");
    assert_eq!(activated.policy_count, 1);
    assert!(activated.resolved_engine_config.scoring_rules.is_empty());
}

#[test]
fn load_resolves_named_predicates() {
    let cedar = "permit (principal, action, resource);";
    let mut cfg = EngineConfig::default();
    cfg.predicates.push(NamedPredicate { name: "is_super".into(), expr: r#"principal == User::"alice""#.into() });
    cfg.scoring_rules.push(rule("s", "1.0", "@is_super"));
    let activated = loader().load(make_constitution(cedar, cfg)).expect("resolves cleanly");
    assert_eq!(activated.resolved_engine_config.scoring_rules[0].when, r#"(principal == User::"alice")"#);
}

#[test]
fn load_keeps_authored_config() {
    let cedar = "permit (principal, action, resource);";
    let mut cfg = EngineConfig::default();
    cfg.predicates.push(NamedPredicate { name: "is_super".into(), expr: "true".into() });
    cfg.scoring_rules.push(rule("s", "1.0", "@is_super"));
    let activated = loader().load(make_constitution(cedar, cfg)).expect("loads");
    assert_eq!(activated.constitution.engine_config.scoring_rules[0].when, "@is_super");
    assert_eq!(activated.resolved_engine_config.scoring_rules[0].when, "(true)");
    assert_eq!(activated.layer_b.scoring_by_policy_id.len(), 1);
    assert_eq!(activated.layer_b.scoring_by_policy_id[0].0, "scoring__s");
    assert_eq!(activated.layer_b.scoring_by_policy_id[0].1.score_scaled, 10000);
    assert_eq!(activated.cedar_max_policy_depth, 1);
}

#[test]
fn load_rejects_unresolved_predicate() {
    let cedar = "permit (principal, action, resource);";
    let mut cfg = EngineConfig::default();
    cfg.scoring_rules.push(rule("s", "1.0", "@undefined"));
    let err = loader().load(make_constitution(cedar, cfg)).err().expect("refused");
    assert!(matches!(err, CedarPlusError::InvalidScoringRule { .. }));
}

#[test]
fn load_rejects_malformed_cedar() {
    let cedar = "this is not cedar policy syntax";
    let err = loader().load(make_constitution(cedar, EngineConfig::default())).err().expect("refused");
    match err {
        CedarPlusError::Parse(m) => assert!(m.starts_with("Cedar source failed to parse: ")),
        other => panic!("unexpected {other:?}"),
    }
}

#[test]
fn load_rejects_policy_the_validator_refuses() {
    let cedar = r#"permit (principal, action == Yutha::Action::"NoSuchAction", resource);"#;
    let err = loader().load(make_constitution(cedar, EngineConfig::default())).err().expect("refused");
    match err {
        CedarPlusError::Parse(m) => assert!(m.starts_with("Cedar validator rejected the policy set: ")),
        other => panic!("unexpected {other:?}"),
    }
}

#[test]
fn load_rejects_too_deep_source() {
    let cedar = "permit (principal, action, resource) when { ((((((((((((((((((true)))))))))))))))))) };";
    let err = loader().load(make_constitution(cedar, EngineConfig::default())).err().expect("refused");
    assert!(matches!(err, CedarPlusError::LoadBoundExceeded(LoadBoundReason::PolicyDepth)));
}

#[test]
fn load_rejects_unparsable_scoring_guard() {
    let cedar = "permit (principal, action, resource);";
    let mut cfg = EngineConfig::default();
    cfg.scoring_rules.push(rule("s", "1.0", "principal ==="));
    let err = loader().load(make_constitution(cedar, cfg)).err().expect("refused");
    match err {
        CedarPlusError::InvalidScoringRule { rule, detail } => {
            assert_eq!(rule, "s");
            assert!(detail.starts_with(
                "when expression rejected: constitution parse error: Cedar expression \"principal ===\" failed to parse: "
            ));
        },
        other => panic!("unexpected {other:?}"),
    }
}

#[test]
fn load_rejects_too_many_policies() {
    let schema = canonical_schema_v1_1_with_extensions(BASE_SCHEMA, &[]).expect("schema");
    let mut bounds = SandboxConfig::default();
    bounds.max_cedar_policies = 1;
    let l = ConstitutionLoader::new(schema, bounds);
    let cedar = "permit (principal, action, resource);\nforbid (principal, action, resource) when { false };";
    let err = l.load(make_constitution(cedar, EngineConfig::default())).err().expect("refused");
    assert!(matches!(err, CedarPlusError::LoadBoundExceeded(LoadBoundReason::PolicyCount)));
}

#[test]
fn canonical_plus_support_queue_extension_loads() {
    let schema = canonical_schema_v1_1_with_extensions(BASE_SCHEMA, &[SUPPORT_QUEUE]).expect("with extension");
    let loader = ConstitutionLoader::with_default_bounds(schema);
    let cedar = r#"
        @id("refund-cap")
        forbid (
            principal,
            action == Yutha::SupportQueue::Action::"IssueRefund",
            resource
        ) when {
            context.refund_amount_cents > 10000
        };
        permit (principal, action, resource);
    "#;
    let activated = loader
        .load(make_constitution(cedar, EngineConfig::default()))
        .expect("constitution using SupportQueue action activates");
    assert_eq!(activated.policy_count, 2);
}

#[test]
fn canonical_plus_both_workload_extensions_load() {
    let _schema =
        canonical_schema_v1_1_with_extensions(BASE_SCHEMA, &[SUPPORT_QUEUE, CODE_REVIEW]).expect("both parse");
}

#[test]
fn schema_error_counts_extensions() {
    let err = canonical_schema_v1_1_with_extensions(BASE_SCHEMA, &[SUPPORT_QUEUE, "namespace {"]).err().expect("refused");
    match err {
        CedarPlusError::Parse(m) => assert!(m.starts_with("v1.1 canonical schema + 2 extension(s) failed to parse: ")),
        other => panic!("unexpected {other:?}"),
    }
}

#[test]
fn parse_and_validate_reports_count_and_depth() {
    let schema = canonical_schema_v1_1_with_extensions(BASE_SCHEMA, &[]).expect("schema");
    let parsed = parse_and_validate_cedar(&schema, "permit (principal, action, resource) when { (true) };", &SandboxConfig::default())
        .ok()
        .expect("valid");
    assert_eq!(parsed.policy_count, 1);
    assert_eq!(parsed.cedar_max_policy_depth, 2);
}

#[test]
fn cedar_verdict_orders_its_checks() {
    let b = SandboxConfig::default();
    assert!(cedar_verdict(1, &None, 1, &b).is_ok());
    assert!(matches!(cedar_verdict(1001, &Some(vec!["x".into()]), 99, &b), Err(CedarPlusError::LoadBoundExceeded(LoadBoundReason::PolicyCount))));
    match cedar_verdict(3, &Some(vec!["a".into(), "b".into()]), 99, &b) {
        Err(CedarPlusError::Parse(m)) => assert_eq!(m, "Cedar validator rejected the policy set: a; b"),
        other => panic!("unexpected {other:?}"),
    }
    assert!(matches!(cedar_verdict(3, &None, 17, &b), Err(CedarPlusError::LoadBoundExceeded(LoadBoundReason::PolicyDepth))));
}

#[test]
fn join_texts_separates() {
    assert_eq!(join_texts(&vec![], "; "), "");
    assert_eq!(join_texts(&vec!["a".into()], "; "), "a");
    assert_eq!(join_texts(&vec!["a".into(), "b".into(), "c".into()], ", "), "a, b, c");
}

#[test]
fn parse_cedar_expression_quotes_the_expression() {
    let schema = canonical_schema_v1_1_with_extensions(BASE_SCHEMA, &[]).expect("schema");
    assert!(parse_cedar_expression(&schema, "1 + 2 == 3").is_ok());
    match parse_cedar_expression(&schema, "1 +") {
        Err(CedarPlusError::Parse(m)) => assert!(m.starts_with("Cedar expression \"1 +\" failed to parse: ")),
        other => panic!("unexpected {other:?}"),
    }
}

#[test]
fn engine_expressions_report_transition_guard() {
    let schema = canonical_schema_v1_1_with_extensions(BASE_SCHEMA, &[]).expect("schema");
    let mut cfg = EngineConfig::default();
    cfg.procedures.push(Procedure {
        name: "p".into(),
        initial_state: "open".into(),
        states: vec!["open".into(), "done".into()],
        terminal_states: vec!["done".into()],
        trigger: ProcedureTrigger { action: "SendEnvelope".into(), when: Some("true".into()) },
        transitions: vec![ProcedureTransition {
            from: "open".into(),
            to: "done".into(),
            action: Some("SendEnvelope".into()),
            actor_when: Some("((".into()),
            on_timeout: None,
        }],
        on_timeout_escalate: StringMap::new(),
    });
    match check_engine_expressions(&schema, &cfg) {
        Err(CedarPlusError::InvalidProcedure { procedure, detail }) => {
            assert_eq!(procedure, "p");
            assert!(detail.starts_with(
                "transition \"open\"->\"done\" actor_when rejected: constitution parse error: Cedar expression \"((\" failed to parse: "
            ));
        },
        other => panic!("unexpected {other:?}"),
    }
}

fn handle(id: &str, name: &str, score: &str, scaled: i64) -> (String, ScoringRuleHandle) {
    (id.to_string(), ScoringRuleHandle { rule_name: name.to_string(), score: Score(score.to_string()), score_scaled: scaled })
}

#[test]
fn sort_ids_orders_ascending() {
    let v: Vec<String> = vec!["scoring__b".into(), "scoring__a".into(), "scoring__c".into(), "scoring__a".into()];
    assert_eq!(sort_ids(&v), vec!["scoring__a", "scoring__a", "scoring__b", "scoring__c"]);
}

#[test]
fn scoring_outcome_follows_declaration_order() {
    // Rules declared `b` then `a`: contributions come b, a, whatever the
    // order of the matched ids; an unknown id contributes nothing.
    let table = vec![handle("scoring__b", "b", "-0.25", -2500), handle("scoring__a", "a", "1.5", 15000)];
    let o = scoring_outcome(&vec!["scoring__a".into(), "scoring__zz".into(), "scoring__b".into()], &table);
    assert_eq!(o.contributions.len(), 2);
    assert_eq!(o.contributions[0].rule_id, "b");
    assert_eq!(o.contributions[1].rule_id, "a");
    assert_eq!(o.total_scaled, 12500);
    assert_eq!(o.total_score().expect("some").0, "1.25");
}

#[test]
fn scoring_outcome_skips_unmatched_rules() {
    let table = vec![handle("scoring__b", "b", "-0.25", -2500), handle("scoring__a", "a", "1.5", 15000)];
    let o = scoring_outcome(&vec!["scoring__a".into()], &table);
    assert_eq!(o.contributions.len(), 1);
    assert_eq!(o.contributions[0].rule_id, "a");
    assert_eq!(o.total_scaled, 15000);
}

#[test]
fn scoring_total_saturates() {
    let table = vec![handle("x", "x", "big", i64::MAX), handle("y", "y", "big", 5)];
    let o = scoring_outcome(&vec!["y".into(), "x".into()], &table);
    assert_eq!(o.total_scaled, i64::MAX);
}

#[test]
fn empty_scoring_outcome_has_no_total() {
    let o = ScoringOutcome::default();
    assert!(o.total_score().is_none());
    assert_eq!(o.total_scaled, 0);
}

// ---------------------------------------------------------------------------
// Evaluation
// ---------------------------------------------------------------------------

use yutha::eval::{Decision, EntityRecord, EntitySnapshot, EntityUid};
use yutha::evaluator::{
    context_json, decide, evaluate_against, snapshot_json_exec, split_action_kind, CedarPlusEvaluator,
    EvaluationMode, EvaluationRequest,
};
use yutha::procedure::ProcedureIndex;

fn hash_of(b: u8) -> ContentHash {
    ContentHash { digest: vec![b; 32] }
}

fn constitution_with_hash(cedar: &str, b: u8) -> Constitution {
    let mut c = make_constitution(cedar, EngineConfig::default());
    c.constitution_hash = hash_of(b);
    c
}

fn send_request(hash: ContentHash, payload: &str) -> EvaluationRequest {
    let mut ctx = StringMap::new();
    ctx.insert("payload_schema_id".to_string(), format!("\"{payload}\""));
    EvaluationRequest {
        constitution_hash: hash,
        schema_version: "1.1.0".to_string(),
        action_kind: "SendEnvelope".to_string(),
        principal_id: "agent-1".to_string(),
        resource_uid: EntityUid::new("Yutha::Envelope", "env-1"),
        context_attrs: ctx,
        entity_snapshot: EntitySnapshot { entities: vec![] },
        current_wall_clock: "2026-01-01T00:00:00Z".to_string(),
        current_time_unix_ns: 0,
    }
}

const S4_CEDAR: &str = r#"
@id("no-forbidden-payloads")
forbid (
    principal,
    action == Yutha::Action::"SendEnvelope",
    resource
) when {
    context.payload_schema_id == "type.yutha.dev/v1/Forbidden"
};

permit (principal, action, resource);
"#;

#[test]
fn split_action_kind_takes_last_segment() {
    let (t, id) = split_action_kind("SendEnvelope");
    assert_eq!((t.as_str(), id.as_str()), ("Yutha::Action", "SendEnvelope"));
    let (t, id) = split_action_kind("Yutha::SupportQueue::Action::IssueRefund");
    assert_eq!((t.as_str(), id.as_str()), ("Yutha::SupportQueue::Action", "IssueRefund"));
    let (t, id) = split_action_kind("a:::b");
    assert_eq!((t.as_str(), id.as_str()), ("a:", "b"));
}

#[test]
fn decide_maps_cedar_answers() {
    assert!(matches!(decide(true, &vec![]), (Decision::Permit, None)));
    let (d, r) = decide(false, &vec![]);
    assert!(matches!(d, Decision::Deny));
    assert_eq!(r.as_deref(), Some("no_permit_rule"));
    let (_, r) = decide(false, &vec!["policy0".to_string()]);
    assert_eq!(r.as_deref(), Some("forbid_rule_matched"));
}

#[test]
fn json_texts_escape_and_keep_current_values() {
    let mut m = StringMap::new();
    m.insert("a".to_string(), "1".to_string());
    m.insert("b\"c".to_string(), "true".to_string());
    m.insert("a".to_string(), "2".to_string());
    assert_eq!(context_json(&m), "{\"a\":2,\"b\\\"c\":true}");
    let snap = EntitySnapshot {
        entities: vec![EntityRecord {
            uid: EntityUid::new("Yutha::Agent", "x\ny"),
            attrs: StringMap::new(),
            parents: vec![EntityUid::new("Yutha::Swarm", "s")],
        }],
    };
    assert_eq!(
        snapshot_json_exec(&snap),
        "[{\"uid\":{\"type\":\"Yutha::Agent\",\"id\":\"x\\ny\"},\"attrs\":{},\"parents\":[{\"type\":\"Yutha::Swarm\",\"id\":\"s\"}]}]"
    );
}

#[test]
fn evaluate_without_activation_errors() {
    let mut e = CedarPlusEvaluator::new(loader(), SandboxConfig::default());
    match e.evaluate(&send_request(hash_of(1), "x"), &StringMap::new()) {
        Err(CedarPlusError::ConstitutionUnresolved(m)) => assert_eq!(m, "no active constitution; call activate() first"),
        _ => panic!("expected an unresolved constitution"),
    }
}

#[test]
fn constitution_hash_mismatch_unresolved() {
    let mut e = CedarPlusEvaluator::new(loader(), SandboxConfig::default());
    e.activate(constitution_with_hash("permit (principal, action, resource);", 0)).ok().expect("activates");
    match e.evaluate(&send_request(hash_of(2), "x"), &StringMap::new()) {
        Err(CedarPlusError::ConstitutionUnresolved(m)) => {
            assert_eq!(m, format!("request pinned to constitution {}, active is {}", "02".repeat(32), "00".repeat(32)));
        },
        _ => panic!("expected an unresolved constitution"),
    }
}

#[test]
fn entity_count_bound_exceeded() {
    let mut bounds = SandboxConfig::default();
    bounds.max_entity_count = 1;
    let mut e = CedarPlusEvaluator::new(loader(), bounds);
    e.activate(constitution_with_hash("permit (principal, action, resource);", 0)).ok().expect("activates");
    let mut req = send_request(hash_of(0), "x");
    for i in 0..2 {
        req.entity_snapshot.entities.push(EntityRecord {
            uid: EntityUid::new("Yutha::Agent", &format!("a{i}")),
            attrs: StringMap::new(),
            parents: vec![],
        });
    }
    assert!(matches!(
        e.evaluate(&req, &StringMap::new()),
        Err(CedarPlusError::EvaluationBoundExceeded(yutha::error::EvalBoundReason::EntityStoreSize))
    ));
}

#[test]
fn evaluate_permits_and_denies_forbidden_payload() {
    let mut e = CedarPlusEvaluator::new(loader(), SandboxConfig::default());
    e.activate(constitution_with_hash(S4_CEDAR, 0)).ok().expect("activates");
    let ok = e.evaluate(&send_request(hash_of(0), "type.yutha.dev/v1/Hello"), &StringMap::new()).ok().expect("evaluates");
    assert!(matches!(ok.decision, Decision::Permit));
    assert!(ok.deny_reason.is_none());
    assert!(ok.total_score.is_none());
    let denied = e.evaluate(&send_request(hash_of(0), "type.yutha.dev/v1/Forbidden"), &StringMap::new()).ok().expect("evaluates");
    assert!(matches!(denied.decision, Decision::Deny));
    assert_eq!(denied.deny_reason.as_deref(), Some("forbid_rule_matched"));
    assert_eq!(denied.matched_rule_ids.len(), 1);
}

#[test]
fn evaluate_denies_without_permit() {
    let mut e = CedarPlusEvaluator::new(loader(), SandboxConfig::default());
    e.activate(constitution_with_hash("forbid (principal, action, resource) when { false };", 0)).ok().expect("activates");
    let o = e.evaluate(&send_request(hash_of(0), "x"), &StringMap::new()).ok().expect("evaluates");
    assert!(matches!(o.decision, Decision::Deny));
    assert_eq!(o.deny_reason.as_deref(), Some("no_permit_rule"));
    assert!(o.matched_rule_ids.is_empty());
}

#[test]
fn evaluate_workload_action_from_extension() {
    let schema = canonical_schema_v1_1_with_extensions(BASE_SCHEMA, &[SUPPORT_QUEUE]).expect("schema");
    let mut e = CedarPlusEvaluator::with_default_bounds(ConstitutionLoader::with_default_bounds(schema));
    let cedar = r#"
        forbid (principal, action == Yutha::SupportQueue::Action::"IssueRefund", resource)
        when { context.refund_amount_cents > 10000 };
        permit (principal, action, resource);
    "#;
    e.activate(constitution_with_hash(cedar, 0)).ok().expect("activates");
    let mut req = send_request(hash_of(0), "x");
    req.action_kind = "Yutha::SupportQueue::Action::IssueRefund".to_string();
    req.resource_uid = EntityUid::new("Yutha::SupportQueue::Ticket", "t-1");
    let mut ctx = StringMap::new();
    ctx.insert("refund_amount_cents".to_string(), "20000".to_string());
    req.context_attrs = ctx;
    let o = e.evaluate(&req, &StringMap::new()).ok().expect("evaluates");
    assert_eq!(o.deny_reason.as_deref(), Some("forbid_rule_matched"));
    let mut ctx = StringMap::new();
    ctx.insert("refund_amount_cents".to_string(), "500".to_string());
    req.context_attrs = ctx;
    let o = e.evaluate(&req, &StringMap::new()).ok().expect("evaluates");
    assert!(matches!(o.decision, Decision::Permit));
}

#[test]
fn bad_entity_type_is_a_request_shape_error() {
    let mut e = CedarPlusEvaluator::new(loader(), SandboxConfig::default());
    e.activate(constitution_with_hash("permit (principal, action, resource);", 0)).ok().expect("activates");
    let mut req = send_request(hash_of(0), "x");
    req.resource_uid = EntityUid::new("not a type", "r");
    match e.evaluate(&req, &StringMap::new()) {
        Err(CedarPlusError::RequestShapeInvalid(m)) => assert!(m.starts_with("invalid entity type name \"not a type\": ")),
        _ => panic!("expected a request shape error"),
    }
}

#[test]
fn shadow_mode_turns_entity_refusal_into_deny() {
    let l = loader();
    let activated = l.load(constitution_with_hash("permit (principal, action, resource);", 0)).ok().expect("loads");
    let mut req = send_request(hash_of(0), "x");
    let mut attrs = StringMap::new();
    attrs.insert("undeclared".to_string(), "1".to_string());
    req.entity_snapshot.entities.push(EntityRecord { uid: EntityUid::new("Yutha::Agent", "agent-1"), attrs, parents: vec![] });
    let mut index = ProcedureIndex::new();
    let o = evaluate_against(&req, &activated, &SandboxConfig::default(), EvaluationMode::Shadow, &mut index, &StringMap::new())
        .ok()
        .expect("shadow evaluates");
    assert_eq!(o.deny_reason.as_deref(), Some("shadow_schema_incompatible"));
    let err = evaluate_against(&req, &activated, &SandboxConfig::default(), EvaluationMode::Active, &mut index, &StringMap::new())
        .err()
        .expect("active refuses");
    match err {
        CedarPlusError::EntityUnresolved(m) => assert!(m.starts_with("entity snapshot rejected by Cedar: ")),
        other => panic!("unexpected {other:?}"),
    }
}

#[test]
fn shadow_slot_starts_empty() {
    let e = CedarPlusEvaluator::new(loader(), SandboxConfig::default());
    assert!(e.current_shadow().is_none());
    assert!(e.current().is_none());
}

#[test]
fn activate_shadow_loads_into_shadow_slot_only() {
    let mut e = CedarPlusEvaluator::new(loader(), SandboxConfig::default());
    let h = e.activate_shadow(constitution_with_hash("permit (principal, action, resource);", 7)).ok().expect("loads");
    assert_eq!(h.digest, vec![7u8; 32]);
    assert!(e.current().is_none());
    assert_eq!(e.current_shadow().expect("shadow").constitution.constitution_hash.digest, vec![7u8; 32]);
}

#[test]
fn clear_shadow_returns_previously_shadowed_hash() {
    let mut e = CedarPlusEvaluator::new(loader(), SandboxConfig::default());
    assert!(e.clear_shadow().is_none());
    e.activate_shadow(constitution_with_hash("permit (principal, action, resource);", 9)).ok().expect("loads");
    assert_eq!(e.clear_shadow().expect("had a shadow").digest, vec![9u8; 32]);
    assert!(e.current_shadow().is_none());
}

#[test]
fn promote_shadow_atomic_swap_with_active_loaded() {
    let mut e = CedarPlusEvaluator::new(loader(), SandboxConfig::default());
    assert!(e.promote_shadow().is_none());
    e.activate(constitution_with_hash("permit (principal, action, resource);", 1)).ok().expect("active");
    e.activate_shadow(constitution_with_hash("permit (principal, action, resource);", 2)).ok().expect("shadow");
    let p = e.promote_shadow().expect("promoted");
    assert_eq!(p.from_active_constitution_hash.expect("had active").digest, vec![1u8; 32]);
    assert_eq!(p.to_active_constitution_hash.digest, vec![2u8; 32]);
    assert_eq!(p.to_constitution_version, "1.0.0");
    assert!(e.current_shadow().is_none());
    assert_eq!(e.current().expect("active").constitution.constitution_hash.digest, vec![2u8; 32]);
}

#[test]
fn permitted_request_scores_matching_rules_in_declaration_order() {
    let mut cfg = EngineConfig::default();
    cfg.scoring_rules.push(rule("b", "-0.25", "true"));
    cfg.scoring_rules.push(rule("a", "1.5", "true"));
    cfg.scoring_rules.push(rule("never", "2.0", "false"));
    let mut c = make_constitution("permit (principal, action, resource);", cfg);
    c.constitution_hash = hash_of(0);
    let mut e = CedarPlusEvaluator::new(loader(), SandboxConfig::default());
    e.activate(c).ok().expect("activates");
    let o = e.evaluate(&send_request(hash_of(0), "x"), &StringMap::new()).ok().expect("evaluates");
    assert!(matches!(o.decision, Decision::Permit));
    let ids: Vec<&str> = o.score_contributions.iter().map(|c| c.rule_id.as_str()).collect();
    assert_eq!(ids, vec!["b", "a"]);
    assert_eq!(o.total_score.expect("scored").0, "1.25");
}

#[test]
fn denied_request_is_not_scored() {
    let mut cfg = EngineConfig::default();
    cfg.scoring_rules.push(rule("b", "-0.25", "true"));
    let mut c = make_constitution(S4_CEDAR, cfg);
    c.constitution_hash = hash_of(0);
    let mut e = CedarPlusEvaluator::new(loader(), SandboxConfig::default());
    e.activate(c).ok().expect("activates");
    let o = e.evaluate(&send_request(hash_of(0), "type.yutha.dev/v1/Forbidden"), &StringMap::new()).ok().expect("evaluates");
    assert!(matches!(o.decision, Decision::Deny));
    assert!(o.score_contributions.is_empty());
    assert!(o.total_score.is_none());
}

#[test]
fn active_outcome_unaffected_by_shadow() {
    let mut e = CedarPlusEvaluator::new(loader(), SandboxConfig::default());
    e.activate(constitution_with_hash(S4_CEDAR, 0)).ok().expect("active");
    let req = send_request(hash_of(0), "type.yutha.dev/v1/Forbidden");
    let alone = e.evaluate(&req, &StringMap::new()).ok().expect("evaluates");
    e.activate_shadow(constitution_with_hash("permit (principal, action, resource);", 5)).ok().expect("shadow");
    let (paired, shadow) = e.evaluate_pair(&req, &StringMap::new()).ok().expect("pair");
    assert!(matches!(alone.decision, Decision::Deny));
    assert!(matches!(paired.decision, Decision::Deny));
    assert_eq!(alone.deny_reason, paired.deny_reason);
    assert_eq!(alone.matched_rule_ids, paired.matched_rule_ids);
    assert!(matches!(shadow.expect("shadow ran").decision, Decision::Permit));
}

#[test]
fn evaluate_pair_runs_both_slots() {
    let mut e = CedarPlusEvaluator::new(loader(), SandboxConfig::default());
    e.activate(constitution_with_hash("permit (principal, action, resource);", 0)).ok().expect("active");
    let (a, s) = e.evaluate_pair(&send_request(hash_of(0), "x"), &StringMap::new()).ok().expect("pair");
    assert!(matches!(a.decision, Decision::Permit));
    assert!(s.is_none());
    e.activate_shadow(constitution_with_hash(S4_CEDAR, 5)).ok().expect("shadow");
    let (a, s) = e
        .evaluate_pair(&send_request(hash_of(0), "type.yutha.dev/v1/Forbidden"), &StringMap::new())
        .ok()
        .expect("pair");
    assert!(matches!(a.decision, Decision::Permit));
    assert_eq!(s.expect("shadow ran").deny_reason.as_deref(), Some("forbid_rule_matched"));
}

// ---------------------------------------------------------------------------
// Procedure matching
// ---------------------------------------------------------------------------

use yutha::eval::ProcedureEffect;
use yutha::layer_b::TransitionHandle;
use yutha::procedure::{apply_transitions, apply_triggers};

fn simple_procedure(name: &str, initial: &str) -> Procedure {
    Procedure {
        name: name.into(),
        initial_state: initial.into(),
        states: vec![initial.into(), "done".into()],
        terminal_states: vec!["done".into()],
        trigger: ProcedureTrigger { action: "Act".into(), when: None },
        transitions: vec![],
        on_timeout_escalate: StringMap::new(),
    }
}

#[test]
fn triggers_enter_in_id_order_once() {
    let procs = vec![simple_procedure("a", "open"), simple_procedure("b", "new")];
    let table = vec![("proc_trigger__a".to_string(), "a".to_string()), ("proc_trigger__b".to_string(), "b".to_string())];
    let mut ids = StringMap::new();
    ids.insert("a".into(), "id-a".into());
    ids.insert("b".into(), "id-b".into());
    let mut index = ProcedureIndex::new();
    let mut effects: Vec<ProcedureEffect> = Vec::new();
    let matched = vec!["proc_trigger__b".to_string(), "unknown".to_string(), "proc_trigger__a".to_string()];
    apply_triggers(&matched, &table, &procs, &ids, "2026-01-01T00:00:00Z", &mut index, &mut effects);
    let got: Vec<(String, String)> = effects.iter().map(|e| (e.action_kind.clone(), e.instance_id.clone())).collect();
    assert_eq!(got, vec![("procedure.enter".to_string(), "id-a".to_string()), ("procedure.enter".to_string(), "id-b".to_string())]);
    assert!(index.has_open_instance("id-a"));
    assert_eq!(index.open_instances_for("b")[0].current_state, "new");
    apply_triggers(&matched, &table, &procs, &ids, "2026-01-01T00:00:01Z", &mut index, &mut effects);
    assert_eq!(effects.len(), 2);
}

#[test]
fn permitted_request_enters_triggered_procedure_once() {
    let mut cfg = EngineConfig::default();
    let mut p = simple_procedure("p", "open");
    p.trigger.action = "SendEnvelope".into();
    p.transitions.push(ProcedureTransition {
        from: "open".into(),
        to: "done".into(),
        action: Some("Finish".into()),
        actor_when: None,
        on_timeout: None,
    });
    cfg.procedures.push(p);
    let mut c = make_constitution("permit (principal, action, resource);", cfg);
    c.constitution_hash = hash_of(0);
    let mut e = CedarPlusEvaluator::new(loader(), SandboxConfig::default());
    e.activate(c).ok().expect("activates");
    let mut ids = StringMap::new();
    ids.insert("p".into(), "inst-1".into());
    let o = e.evaluate(&send_request(hash_of(0), "x"), &ids).ok().expect("evaluates");
    let got: Vec<(String, String)> = o.procedure_effects.iter().map(|x| (x.action_kind.clone(), x.instance_id.clone())).collect();
    assert_eq!(got, vec![("procedure.enter".to_string(), "inst-1".to_string())]);
    let again = e.evaluate(&send_request(hash_of(0), "x"), &ids).ok().expect("evaluates");
    assert!(again.procedure_effects.is_empty());
}

#[test]
fn transitions_fire_for_the_request_action_only() {
    let procs = vec![simple_procedure("a", "open")];
    let handle = TransitionHandle { procedure_name: "a".into(), from_state: "open".into(), to_state: "done".into(), action: "Act".into() };
    let table = vec![("proc_trans__a__open__done".to_string(), handle)];
    let mut index = ProcedureIndex::new();
    index.record_enter(yutha::procedure::ProcedureInstance {
        instance_id: "id-a".into(),
        procedure_name: "a".into(),
        current_state: "open".into(),
        entry_wall_clock: "2026-01-01T00:00:00Z".into(),
        closed: false,
    });
    let matched = vec!["proc_trans__a__open__done".to_string()];
    let mut effects: Vec<ProcedureEffect> = Vec::new();
    apply_transitions(&matched, &table, &procs, "Other", &mut index, &mut effects);
    assert!(effects.is_empty());
    assert!(index.has_open_instance("id-a"));
    apply_transitions(&matched, &table, &procs, "Act", &mut index, &mut effects);
    assert_eq!(effects.len(), 1);
    assert_eq!(effects[0].action_kind, "procedure.transition");
    assert_eq!(effects[0].instance_id, "id-a");
    assert!(!index.has_open_instance("id-a"));
}

#[test]
fn unreadable_context_is_a_request_shape_error() {
    let mut e = CedarPlusEvaluator::new(loader(), SandboxConfig::default());
    e.activate(constitution_with_hash("permit (principal, action, resource);", 0)).ok().expect("activates");
    let mut req = send_request(hash_of(0), "x");
    let mut ctx = StringMap::new();
    ctx.insert("payload_schema_id".to_string(), "not json".to_string());
    req.context_attrs = ctx;
    match e.evaluate(&req, &StringMap::new()) {
        Err(CedarPlusError::RequestShapeInvalid(m)) => assert!(m.starts_with("Cedar Context rejected: ")),
        _ => panic!("expected a context refusal"),
    }
}

#[test]
fn request_outside_the_schema_is_refused() {
    let mut e = CedarPlusEvaluator::new(loader(), SandboxConfig::default());
    e.activate(constitution_with_hash("permit (principal, action, resource);", 0)).ok().expect("activates");
    let mut req = send_request(hash_of(0), "x");
    req.resource_uid = EntityUid::new("Yutha::Agent", "someone");
    match e.evaluate(&req, &StringMap::new()) {
        Err(CedarPlusError::RequestShapeInvalid(m)) => assert!(m.starts_with("Cedar Request rejected: ")),
        _ => panic!("expected a request refusal"),
    }
}

// ---------------------------------------------------------------------------
// Canonical input and evidence texts
// ---------------------------------------------------------------------------

use yutha::canonical::{evidence_text, hash_input_text};

fn agent_record_with_reputation(rep: &str) -> EntityRecord {
    let mut attrs = StringMap::new();
    attrs.insert("agent_id".into(), "\"alice\"".into());
    attrs.insert("passport_tier".into(), "\"minimal\"".into());
    attrs.insert("framework".into(), "\"\"".into());
    attrs.insert("passport_hash".into(), format!("\"{}\"", "0".repeat(64)));
    attrs.insert("reputation".into(), format!("{{\"__extn\":{{\"arg\":\"{rep}\",\"fn\":\"decimal\"}}}}"));
    attrs.insert("budget_remaining_usd_cents".into(), i64::MAX.to_string());
    EntityRecord { uid: EntityUid::new("Yutha::Agent", "alice"), attrs, parents: vec![] }
}

fn request_with(snapshot: EntitySnapshot) -> EvaluationRequest {
    EvaluationRequest {
        constitution_hash: hash_of(0),
        schema_version: "1.1.0".to_string(),
        action_kind: "SendEnvelope".to_string(),
        principal_id: "alice".to_string(),
        resource_uid: EntityUid::new("Yutha::Agent", "alice"),
        context_attrs: StringMap::new(),
        entity_snapshot: snapshot,
        current_wall_clock: "2026-01-01T00:00:00Z".to_string(),
        current_time_unix_ns: 0,
    }
}

#[test]
fn input_digest_differs_when_entity_attrs_differ() {
    let a = hash_input_text(&request_with(EntitySnapshot { entities: vec![agent_record_with_reputation("1.0")] }));
    let b = hash_input_text(&request_with(EntitySnapshot { entities: vec![agent_record_with_reputation("0.5")] }));
    assert_ne!(a, b);
}

#[test]
fn input_digest_stable_across_attr_insertion_order() {
    let x = agent_record_with_reputation("0.75");
    let mut pairs: Vec<(String, String)> = Vec::new();
    for i in (0..x.attrs.entry_count()).rev() {
        pairs.push((x.attrs.key_at(i).clone(), x.attrs.value_at(i).clone()));
    }
    let y = EntityRecord { uid: EntityUid::new("Yutha::Agent", "alice"), attrs: StringMap::from_pairs(pairs), parents: vec![] };
    assert_eq!(x.attrs.entry_count(), y.attrs.entry_count());
    assert_eq!(
        hash_input_text(&request_with(EntitySnapshot { entities: vec![x] })),
        hash_input_text(&request_with(EntitySnapshot { entities: vec![y] })),
    );
}

#[test]
fn hash_input_text_is_key_sorted_compact_json() {
    let mut ctx = StringMap::new();
    ctx.insert("z".into(), "1".into());
    ctx.insert("a\n".into(), "true".into());
    let mut req = request_with(EntitySnapshot {
        entities: vec![
            EntityRecord { uid: EntityUid::new("T", "b"), attrs: StringMap::new(), parents: vec![EntityUid::new("P", "2"), EntityUid::new("P", "1")] },
            EntityRecord { uid: EntityUid::new("T", "a"), attrs: StringMap::new(), parents: vec![] },
        ],
    });
    req.context_attrs = ctx;
    assert_eq!(
        hash_input_text(&req),
        "{\"action_kind\":\"SendEnvelope\",\"context_attrs\":{\"a\\n\":true,\"z\":1},\"current_wall_clock\":\"2026-01-01T00:00:00Z\",\
\"entity_snapshot\":[{\"attrs\":{},\"parents\":[],\"uid\":{\"id\":\"a\",\"type\":\"T\"}},\
{\"attrs\":{},\"parents\":[{\"id\":\"1\",\"type\":\"P\"},{\"id\":\"2\",\"type\":\"P\"}],\"uid\":{\"id\":\"b\",\"type\":\"T\"}}],\
\"principal_id\":\"alice\",\"resource_uid\":{\"id\":\"alice\",\"type\":\"Yutha::Agent\"}}"
    );
}

#[test]
fn evidence_text_sorts_matched_ids() {
    let o = yutha::evaluator::EvaluationOutcome {
        decision: Decision::Deny,
        deny_reason: Some("forbid_rule_matched".into()),
        matched_rule_ids: vec!["policy1".into(), "policy0".into()],
        score_contributions: vec![yutha::eval::ScoreContribution { rule_id: "r".into(), score: Score("1.5".into()) }],
        procedure_effects: vec![ProcedureEffect { action_kind: "procedure.enter".into(), instance_id: "i".into() }],
        total_score: None,
    };
    assert_eq!(
        evidence_text(&o, "ab"),
        "{\"input_attribute_digest\":\"ab\",\"matched_rule_ids\":[\"policy0\",\"policy1\"],\
\"procedure_effects\":[{\"action_kind\":\"procedure.enter\",\"instance_id\":\"i\"}],\
\"score_contributions\":[{\"rule_id\":\"r\",\"score\":\"1.5\"}]}"
    );
}
