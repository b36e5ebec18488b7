use std::time::Duration;

use yutha::enforcement::{
    compute_fire_at, parse_window_ns, EnforcementEngine, EngineState, ReceiptView,
};
use yutha::engine_config::{
    CoachConfig, DetectConfig, DetectTrigger, EnforcementRule, EngineConfig, EvictConfig, NamedPredicate,
    Procedure, ProcedureTransition, ProcedureTrigger, QuarantineConfig, ReverseConfig, ScoringHead,
    ScoringRule,
};
use yutha::enforcement::EnforcementEffect;
use yutha::error::{CedarPlusError, LoadBoundReason};
use yutha::sandbox::SandboxConfig;
use yutha::score::{parse_score_scaled, render_score_scaled, Score};
use yutha::string_map::StringMap;
use yutha::validate::{
    check_enforcement_rules, check_load_time_counts, check_procedures, check_scoring_rules,
    check_unique_names, estimate_cedar_depth, parse_duration, resolve_named_predicates, substitute,
};

fn scoring_rule(name: &str, score: &str, when: &str) -> ScoringRule {
    ScoringRule {
        name: name.into(),
        score: Score(score.into()),
        head: ScoringHead::default(),
        when: when.into(),
    }
}

fn rule_with(kind: &str, threshold: u32, window: &str) -> EnforcementRule {
    EnforcementRule {
        name: "repeat_pii".into(),
        detect: DetectConfig {
            trigger: DetectTrigger {
                receipt_kind: kind.into(),
                deny_reason: Some("forbid_rule_matched".into()),
                forbid_rule_id: Some("forbid_pii".into()),
            },
            count_threshold: threshold,
            time_window: window.into(),
            group_by: "principal".into(),
            historical: false,
        },
        coach: None,
        quarantine: None,
        evict: None,
        reputation_delta: StringMap::new(),
        reverse: ReverseConfig::default(),
        severity: None,
    }
}

fn rule_for_pii_pattern() -> EnforcementRule {
    rule_with("constitution.evaluate.deny", 3, "10m")
}

fn make_receipt<'a>(
    action_kind: &'a str,
    principal: &'a str,
    deny_reason: Option<&'a str>,
    forbid_rule_id: Option<&'a str>,
    now_ns: u64,
) -> ReceiptView<'a> {
    ReceiptView {
        action_kind,
        principal_id: Some(principal),
        deny_reason,
        forbid_rule_id,
        occurred_at_unix_ns: now_ns,
        occurred_at_wall_clock: "2026-05-15T00:00:00Z",
        reputation_delta: None,
    }
}

fn procedure(name: &str, state: &str, action: &str, escalate_to: Option<&str>) -> Procedure {
    Procedure {
        name: name.into(),
        initial_state: state.into(),
        states: vec![state.into(), "term".into()],
        terminal_states: vec!["term".into()],
        trigger: ProcedureTrigger { action: action.into(), when: None },
        transitions: vec![ProcedureTransition {
            from: state.into(),
            to: "term".into(),
            action: Some(action.into()),
            actor_when: None,
            on_timeout: None,
        }],
        on_timeout_escalate: match escalate_to {
            Some(t) => StringMap::from_pairs(vec![(state.to_string(), t.to_string())]),
            None => StringMap::new(),
        },
    }
}

#[test]
fn public_surface_compiles() {
    let _cfg = SandboxConfig::default();
    let _score = Score("1.5".into());
    let _engine_config = EngineConfig::default();
}

#[test]
fn default_bounds_match_spec() {
    let cfg = SandboxConfig::default();
    assert_eq!(cfg.send_envelope_max_time, Duration::from_millis(10));
    assert_eq!(cfg.other_action_max_time, Duration::from_millis(100));
    assert_eq!(cfg.max_entity_count, 1_000);
    assert_eq!(cfg.max_scoring_rules, 1_000);
    assert_eq!(cfg.max_procedures, 100);
    assert_eq!(cfg.max_open_procedure_instances_examined, 100);
    assert_eq!(cfg.max_cedar_policies, 1_000);
    assert_eq!(cfg.max_policy_depth_at_load, 16);
}

#[test]
fn hot_path_bound_routing() {
    let cfg = SandboxConfig::default();
    assert_eq!(cfg.max_time_for("SendEnvelope"), Duration::from_millis(10));
    assert_eq!(cfg.max_time_for("IssueCapability"), Duration::from_millis(100));
    assert_eq!(cfg.max_time_for("ReadMemory"), Duration::from_millis(100));
    assert_eq!(cfg.max_time_for("FutureUnknown"), Duration::from_millis(100));
}

#[test]
fn unique_names_accepts_distinct() {
    let mut cfg = EngineConfig::default();
    cfg.scoring_rules.push(scoring_rule("a", "1.0", "true"));
    cfg.scoring_rules.push(scoring_rule("b", "2.0", "true"));
    check_unique_names(&cfg).expect("distinct names accepted");
}

#[test]
fn unique_names_rejects_duplicate() {
    let mut cfg = EngineConfig::default();
    cfg.scoring_rules.push(scoring_rule("a", "1.0", "true"));
    cfg.scoring_rules.push(scoring_rule("a", "2.0", "true"));
    let err = check_unique_names(&cfg).unwrap_err();
    assert!(matches!(err, CedarPlusError::InvalidScoringRule { .. }));
}

#[test]
fn scoring_rules_rejects_zero_score() {
    let mut cfg = EngineConfig::default();
    cfg.scoring_rules.push(scoring_rule("z", "0.0", "true"));
    let err = check_scoring_rules(&cfg).unwrap_err();
    assert!(matches!(err, CedarPlusError::InvalidScoringRule { .. }));
}

#[test]
fn scoring_rules_report_shape_problems() {
    let mut cfg = EngineConfig::default();
    cfg.scoring_rules.push(scoring_rule("ok", "-0.5", "true"));
    cfg.scoring_rules.push(scoring_rule("bad", "abc", "true"));
    match check_scoring_rules(&cfg).unwrap_err() {
        CedarPlusError::InvalidScoringRule { rule, detail } => {
            assert_eq!(rule, "bad");
            assert_eq!(detail, "score \"abc\" doesn't look numeric");
        }
        other => panic!("unexpected {other:?}"),
    }
    let mut cfg = EngineConfig::default();
    cfg.scoring_rules.push(scoring_rule("e", "", "true"));
    match check_scoring_rules(&cfg).unwrap_err() {
        CedarPlusError::InvalidScoringRule { detail, .. } => assert_eq!(detail, "score is empty"),
        other => panic!("unexpected {other:?}"),
    }
}

#[test]
fn parse_duration_handles_common_units() {
    assert_eq!(parse_duration("30s"), Some(Duration::from_secs(30)));
    assert_eq!(parse_duration("10m"), Some(Duration::from_secs(600)));
    assert_eq!(parse_duration("1h"), Some(Duration::from_secs(3600)));
    assert_eq!(parse_duration("500ms"), Some(Duration::from_millis(500)));
    assert_eq!(parse_duration("2d"), Some(Duration::from_secs(172800)));
    assert_eq!(parse_duration(""), None);
    assert_eq!(parse_duration("10"), None);
    assert_eq!(parse_duration("abc"), None);
    assert_eq!(parse_duration("10x"), None);
}

#[test]
fn parse_duration_trims_and_rejects_overflow() {
    assert_eq!(parse_duration("  45s \n"), Some(Duration::from_secs(45)));
    assert_eq!(parse_duration("+3m"), Some(Duration::from_secs(180)));
    assert_eq!(parse_duration("18446744073709551615d"), None);
}

#[test]
fn enforcement_rejects_unknown_receipt_kind() {
    let mut cfg = EngineConfig::default();
    let mut rule = rule_with("made.up.kind", 1, "1m");
    rule.name = "bad".into();
    rule.detect.trigger.deny_reason = None;
    rule.detect.trigger.forbid_rule_id = None;
    cfg.enforcement_rules.push(rule);
    let err = check_enforcement_rules(&cfg).unwrap_err();
    assert!(matches!(err, CedarPlusError::InvalidEnforcementRule { .. }));
}

#[test]
fn enforcement_accepts_known_kind() {
    let mut cfg = EngineConfig::default();
    let mut rule = rule_with("constitution.evaluate.deny", 3, "10m");
    rule.name = "ok".into();
    rule.detect.trigger.forbid_rule_id = None;
    cfg.enforcement_rules.push(rule);
    check_enforcement_rules(&cfg).expect("known kind accepted");
}

#[test]
fn enforcement_rejects_zero_threshold_and_bad_cooldown() {
    let mut cfg = EngineConfig::default();
    cfg.enforcement_rules.push(rule_with("constitution.evaluate.deny", 0, "10m"));
    match check_enforcement_rules(&cfg).unwrap_err() {
        CedarPlusError::InvalidEnforcementRule { detail, .. } => {
            assert_eq!(detail, "detect.count_threshold must be >= 1")
        }
        other => panic!("unexpected {other:?}"),
    }
    let mut cfg = EngineConfig::default();
    let mut rule = rule_with("constitution.evaluate.deny", 1, "10m");
    rule.coach = Some(CoachConfig { cooldown: "soon".into(), guidance_template: "t".into() });
    cfg.enforcement_rules.push(rule);
    match check_enforcement_rules(&cfg).unwrap_err() {
        CedarPlusError::InvalidEnforcementRule { detail, .. } => {
            assert_eq!(detail, "coach.cooldown \"soon\" is not a parseable duration")
        }
        other => panic!("unexpected {other:?}"),
    }
}

#[test]
fn named_predicate_substitution_inlines() {
    let mut cfg = EngineConfig::default();
    cfg.predicates.push(NamedPredicate {
        name: "is_super".into(),
        expr: r#"principal.passport_tier == "supervisor""#.into(),
    });
    cfg.scoring_rules.push(scoring_rule("s", "1.0", "@is_super"));
    resolve_named_predicates(&mut cfg).expect("resolution succeeds");
    assert_eq!(cfg.scoring_rules[0].when, r#"(principal.passport_tier == "supervisor")"#);
}

#[test]
fn named_predicate_unresolved_errors() {
    let mut cfg = EngineConfig::default();
    cfg.scoring_rules.push(scoring_rule("s", "1.0", "@nonexistent"));
    let err = resolve_named_predicates(&mut cfg).unwrap_err();
    assert!(matches!(err, CedarPlusError::InvalidScoringRule { .. }));
}

#[test]
fn substitute_keeps_bare_at_and_reports_first_unknown() {
    let preds = StringMap::from_pairs(vec![("a".to_string(), "x == 1".to_string())]);
    assert_eq!(substitute("@a && @ b", &preds), Ok("(x == 1) && @ b".to_string()));
    assert_eq!(substitute("@a || @zz || @yy", &preds), Err("zz".to_string()));
}

#[test]
fn cyclic_escalation_rejected() {
    let mut cfg = EngineConfig::default();
    cfg.procedures.push(procedure("a", "x", "Foo", Some("b")));
    cfg.procedures.push(procedure("b", "y", "Bar", Some("a")));
    let err = check_procedures(&cfg).unwrap_err();
    assert!(matches!(err, CedarPlusError::InvalidProcedure { .. }));
}

#[test]
fn acyclic_escalation_accepted_and_undeclared_target_rejected() {
    let mut cfg = EngineConfig::default();
    cfg.procedures.push(procedure("a", "x", "Foo", Some("b")));
    cfg.procedures.push(procedure("b", "y", "Bar", None));
    check_procedures(&cfg).expect("a -> b is acyclic");
    let mut cfg = EngineConfig::default();
    cfg.procedures.push(procedure("a", "x", "Foo", Some("ghost")));
    match check_procedures(&cfg).unwrap_err() {
        CedarPlusError::InvalidProcedure { procedure, detail } => {
            assert_eq!(procedure, "a");
            assert_eq!(detail, "escalation target \"ghost\" is not a declared procedure");
        }
        other => panic!("unexpected {other:?}"),
    }
}

#[test]
fn ambiguous_transition_rejected() {
    let mut cfg = EngineConfig::default();
    let mut p = procedure("a", "x", "Foo", None);
    p.transitions.push(ProcedureTransition {
        from: "x".into(),
        to: "term".into(),
        action: Some("Foo".into()),
        actor_when: Some("true".into()),
        on_timeout: None,
    });
    cfg.procedures.push(p);
    let err = check_procedures(&cfg).unwrap_err();
    assert!(matches!(err, CedarPlusError::InvalidProcedure { .. }));
}

#[test]
fn load_bound_scoring_count() {
    let mut cfg = EngineConfig::default();
    let mut bounds = SandboxConfig::default();
    bounds.max_scoring_rules = 2;
    for i in 0..3 {
        cfg.scoring_rules.push(scoring_rule(&format!("r{i}"), "1.0", "true"));
    }
    let err = check_load_time_counts(&cfg, &bounds).unwrap_err();
    match err {
        CedarPlusError::LoadBoundExceeded(LoadBoundReason::ScoringRuleCount) => {}
        other => panic!("unexpected error: {other:?}"),
    }
}

#[test]
fn depth_estimate_counts_nesting_per_line() {
    assert_eq!(estimate_cedar_depth("permit(a, [b, {c}]);\n(x)"), 3);
    assert_eq!(estimate_cedar_depth(")))("), 1);
    assert_eq!(estimate_cedar_depth(""), 0);
}

#[test]
fn parse_score_scaled_simple_cases() {
    assert_eq!(parse_score_scaled(&Score("2.0".into())).unwrap(), 20_000);
    assert_eq!(parse_score_scaled(&Score("0.5".into())).unwrap(), 5_000);
    assert_eq!(parse_score_scaled(&Score("-0.25".into())).unwrap(), -2_500);
    assert_eq!(parse_score_scaled(&Score("1.2345".into())).unwrap(), 12_345);
    assert_eq!(parse_score_scaled(&Score("1".into())).unwrap(), 10_000);
    assert_eq!(parse_score_scaled(&Score("-1".into())).unwrap(), -10_000);
}

#[test]
fn parse_score_scaled_truncates_extra_digits() {
    assert_eq!(parse_score_scaled(&Score("1.99999".into())).unwrap(), 19_999);
}

#[test]
fn parse_score_scaled_rejects_garbage() {
    assert!(parse_score_scaled(&Score("".into())).is_err());
    assert!(parse_score_scaled(&Score("abc".into())).is_err());
    assert!(parse_score_scaled(&Score("1.x".into())).is_err());
}

#[test]
fn render_score_scaled_round_trip() {
    for raw in &["2.0", "0.5", "-0.25", "1.2345", "100.0", "-1000.5"] {
        let scaled = parse_score_scaled(&Score((*raw).into())).unwrap();
        let rendered = render_score_scaled(scaled);
        let re_scaled = parse_score_scaled(&rendered).unwrap();
        assert_eq!(scaled, re_scaled, "round-trip failed for {raw}");
    }
}

#[test]
fn render_score_scaled_exact_text() {
    assert_eq!(render_score_scaled(10_000).0, "1.0");
    assert_eq!(render_score_scaled(0).0, "0.0");
    assert_eq!(render_score_scaled(-2_500).0, "-0.25");
    assert_eq!(render_score_scaled(12_345).0, "1.2345");
}

#[test]
fn below_threshold_doesnt_fire() {
    let rule = rule_for_pii_pattern();
    let mut state = EngineState::fresh();
    let r1 = make_receipt("constitution.evaluate.deny", "alice", Some("forbid_rule_matched"), Some("forbid_pii"), 1_000_000_000);
    let r2 = make_receipt("constitution.evaluate.deny", "alice", Some("forbid_rule_matched"), Some("forbid_pii"), 2_000_000_000);
    assert!(state.check_detect(&rule, &r1).is_none());
    assert!(state.check_detect(&rule, &r2).is_none());
}

#[test]
fn threshold_fires_detect() {
    let rule = rule_for_pii_pattern();
    let mut state = EngineState::fresh();
    for i in 1..=3u64 {
        let r = make_receipt("constitution.evaluate.deny", "alice", Some("forbid_rule_matched"), Some("forbid_pii"), i * 1_000_000_000);
        let res = state.check_detect(&rule, &r);
        if i == 3 {
            let effect = res.expect("threshold met");
            assert_eq!(effect.action_kind, "enforcement.detect");
            assert_eq!(effect.target_agent_id, "alice");
            assert_eq!(effect.enforcement_rule_id, "repeat_pii");
            assert_eq!(effect.reputation_delta, Score("-0.05".into()));
            let ev = effect.additional_evidence.expect("evidence");
            assert_eq!(ev.matched_timestamps_ns, vec![1_000_000_000, 2_000_000_000, 3_000_000_000]);
            assert_eq!(ev.pattern_summary, "3+ matches of constitution.evaluate.deny in 10m");
        } else {
            assert!(res.is_none());
        }
    }
}

#[test]
fn per_principal_isolation() {
    let rule = rule_for_pii_pattern();
    let mut state = EngineState::fresh();
    for (i, who) in [(1u64, "alice"), (2, "bob"), (3, "alice"), (4, "bob")] {
        let r = make_receipt("constitution.evaluate.deny", who, Some("forbid_rule_matched"), Some("forbid_pii"), i * 1_000_000_000);
        assert!(state.check_detect(&rule, &r).is_none());
    }
}

#[test]
fn non_matching_action_kind_doesnt_count() {
    let rule = rule_for_pii_pattern();
    let mut state = EngineState::fresh();
    for i in 1..=5u64 {
        let r = make_receipt("envelope.send", "alice", None, None, i * 1_000_000_000);
        assert!(state.check_detect(&rule, &r).is_none());
    }
}

#[test]
fn window_pruning_resets_counter() {
    let rule = rule_for_pii_pattern();
    let mut state = EngineState::fresh();
    let r1 = make_receipt("constitution.evaluate.deny", "alice", Some("forbid_rule_matched"), Some("forbid_pii"), 0);
    let r2 = make_receipt("constitution.evaluate.deny", "alice", Some("forbid_rule_matched"), Some("forbid_pii"), 1_000_000_000);
    let r3 = make_receipt("constitution.evaluate.deny", "alice", Some("forbid_rule_matched"), Some("forbid_pii"), 11 * 60 * 1_000_000_000);
    assert!(state.check_detect(&rule, &r1).is_none());
    assert!(state.check_detect(&rule, &r2).is_none());
    assert!(state.check_detect(&rule, &r3).is_none());
}

#[test]
fn parse_window_ns_handles_units() {
    assert_eq!(parse_window_ns("30s"), Some(30 * 1_000_000_000));
    assert_eq!(parse_window_ns("5m"), Some(5 * 60 * 1_000_000_000));
    assert_eq!(parse_window_ns("1h"), Some(3600 * 1_000_000_000));
    assert_eq!(parse_window_ns("100ms"), Some(100 * 1_000_000));
    assert_eq!(parse_window_ns("garbage"), None);
}

#[test]
fn compute_fire_at_adds_duration() {
    let result = compute_fire_at("2026-05-15T00:00:00Z", "30s");
    let result = result.expect("parses");
    assert!(result.starts_with("2026-05-15T00:00:30"));
}

#[test]
fn reputation_default_is_full() {
    let engine = EnforcementEngine::new();
    assert_eq!(engine.agent_reputation("alice"), Score("1.0".into()));
}

#[test]
fn quarantine_default_false() {
    let engine = EnforcementEngine::new();
    assert!(!engine.is_agent_quarantined("alice"));
}

#[test]
fn enforcement_receipts_move_reputation_and_quarantine() {
    let mut engine = EnforcementEngine::new();
    let mut r = make_receipt("enforcement.quarantine", "alice", None, None, 1);
    r.reputation_delta = Some(Score("-0.25".into()));
    assert!(engine.on_receipt(r).is_empty());
    assert!(engine.is_agent_quarantined("alice"));
    assert_eq!(engine.agent_reputation("alice"), Score("0.75".into()));
    let mut r = make_receipt("enforcement.evict", "alice", None, None, 2);
    r.reputation_delta = Some(Score("-5.0".into()));
    engine.on_receipt(r);
    assert!(!engine.is_agent_quarantined("alice"));
    assert_eq!(engine.agent_reputation("alice"), Score("0.0".into()));
}

#[test]
fn active_rules_fire_and_schedule_coach() {
    let mut engine = EnforcementEngine::new();
    let mut rule = rule_for_pii_pattern();
    rule.detect.count_threshold = 1;
    rule.coach = Some(CoachConfig { cooldown: "30s".into(), guidance_template: "t".into() });
    engine.activate(vec![rule]);
    let r = make_receipt("constitution.evaluate.deny", "alice", Some("forbid_rule_matched"), Some("forbid_pii"), 5);
    let effects = engine.on_receipt(r);
    assert_eq!(effects.len(), 1);
    assert_eq!(effects[0].action_kind, "enforcement.detect");
    assert!(engine.poll_scheduled("2026-05-15T00:00:10Z").is_empty());
    let fired = engine.poll_scheduled("2026-05-15T00:01:00Z");
    assert_eq!(fired.len(), 1);
    assert_eq!(fired[0].action_kind, "enforcement.coach");
    assert_eq!(fired[0].reputation_delta, Score("0.0".into()));
    assert!(engine.poll_scheduled("2026-05-16T00:00:00Z").is_empty());
}

fn chain_rule(evict: bool, expires_after: Option<&str>) -> EnforcementRule {
    let mut rule = rule_with("constitution.evaluate.deny", 2, "60s");
    rule.name = "forbidden_payload_chain".into();
    rule.detect.trigger.deny_reason = None;
    rule.detect.trigger.forbid_rule_id = None;
    rule.coach = Some(CoachConfig { cooldown: "1s".into(), guidance_template: "Stop".into() });
    rule.quarantine = Some(QuarantineConfig {
        escalate_after: "1s".into(),
        expires_after: expires_after.map(|s| s.to_string()),
        compliance_check: None,
    });
    if evict {
        rule.evict = Some(EvictConfig { escalate_after: "1s".into(), require_countersign: false });
    }
    rule
}

/// Feed an effect back as the receipt it becomes.
fn loop_back(engine: &mut EnforcementEngine, effect: &EnforcementEffect, wall: &str, ns: u64) {
    let r = ReceiptView {
        action_kind: effect.action_kind.as_str(),
        principal_id: Some(effect.target_agent_id.as_str()),
        deny_reason: None,
        forbid_rule_id: None,
        occurred_at_unix_ns: ns,
        occurred_at_wall_clock: wall,
        reputation_delta: Some(effect.reputation_delta.clone()),
    };
    assert!(engine.on_receipt(r).is_empty());
}

fn deny_at<'a>(wall: &'a str, ns: u64) -> ReceiptView<'a> {
    ReceiptView {
        action_kind: "constitution.evaluate.deny",
        principal_id: Some("alice"),
        deny_reason: Some("forbid_rule_matched"),
        forbid_rule_id: None,
        occurred_at_unix_ns: ns,
        occurred_at_wall_clock: wall,
        reputation_delta: None,
    }
}

#[test]
fn stages_chain_detect_coach_quarantine_evict() {
    let mut engine = EnforcementEngine::new();
    engine.activate(vec![chain_rule(true, None)]);
    assert!(engine.on_receipt(deny_at("2026-05-15T00:00:00Z", 1_000_000_000)).is_empty());
    let detect = engine.on_receipt(deny_at("2026-05-15T00:00:01Z", 2_000_000_000));
    assert_eq!(detect.len(), 1);
    assert_eq!(detect[0].action_kind, "enforcement.detect");
    loop_back(&mut engine, &detect[0], "2026-05-15T00:00:01Z", 3);
    assert_eq!(engine.agent_reputation("alice"), Score("0.95".into()));

    let coach = engine.poll_scheduled("2026-05-15T00:01:00Z");
    assert_eq!(coach.len(), 1);
    assert_eq!(coach[0].action_kind, "enforcement.coach");
    loop_back(&mut engine, &coach[0], "2026-05-15T00:01:00Z", 4);

    let quarantine = engine.poll_scheduled("2026-05-15T00:02:00Z");
    assert_eq!(quarantine.len(), 1);
    assert_eq!(quarantine[0].action_kind, "enforcement.quarantine");
    loop_back(&mut engine, &quarantine[0], "2026-05-15T00:02:00Z", 5);
    assert!(engine.is_agent_quarantined("alice"));

    let evict = engine.poll_scheduled("2026-05-15T00:04:00Z");
    assert_eq!(evict.len(), 1);
    assert_eq!(evict[0].action_kind, "enforcement.evict");
    loop_back(&mut engine, &evict[0], "2026-05-15T00:04:00Z", 6);
    assert!(!engine.is_agent_quarantined("alice"));
    assert!(engine.poll_scheduled("2026-05-16T00:00:00Z").is_empty());
}

#[test]
fn quarantine_expiry_schedules_reverse() {
    let mut engine = EnforcementEngine::new();
    engine.activate(vec![chain_rule(false, Some("2s"))]);
    engine.on_receipt(deny_at("2026-05-15T00:00:00Z", 1_000_000_000));
    let detect = engine.on_receipt(deny_at("2026-05-15T00:00:01Z", 2_000_000_000));
    loop_back(&mut engine, &detect[0], "2026-05-15T00:00:01Z", 3);
    let coach = engine.poll_scheduled("2026-05-15T00:01:00Z");
    loop_back(&mut engine, &coach[0], "2026-05-15T00:01:00Z", 4);
    let quarantine = engine.poll_scheduled("2026-05-15T00:02:00Z");
    assert_eq!(quarantine.len(), 1);
    loop_back(&mut engine, &quarantine[0], "2026-05-15T00:02:00Z", 5);
    assert!(engine.is_agent_quarantined("alice"));
    // The reverse is due two seconds after the quarantine fired.
    assert!(engine.poll_scheduled("2026-05-15T00:02:01Z").is_empty());
    let reverse = engine.poll_scheduled("2026-05-15T00:02:02Z");
    assert_eq!(reverse.len(), 1);
    assert_eq!(reverse[0].action_kind, "enforcement.reverse");
    loop_back(&mut engine, &reverse[0], "2026-05-15T00:02:02Z", 6);
    assert!(!engine.is_agent_quarantined("alice"));
}
