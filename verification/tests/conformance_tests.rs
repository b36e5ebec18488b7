use yutha::outcome::{Outcome, TestOutcome};
use yutha::procedure::{fire_transition, ProcedureIndex, ProcedureInstance};
use yutha::layer_b::TransitionHandle;
use yutha::scenarios::{baseline_engine_config, large_refund_rule, tightened_engine_config, tightened_evolved_engine_config};
use yutha::validate::{check_enforcement_rules, check_procedures, check_unique_names};

fn instance(id: &str, proc_name: &str, state: &str) -> ProcedureInstance {
    ProcedureInstance {
        instance_id: id.into(),
        procedure_name: proc_name.into(),
        current_state: state.into(),
        entry_wall_clock: "2026-05-15T00:00:00Z".into(),
        closed: false,
    }
}

#[test]
fn outcome_counts_failures_and_skips() {
    let mut o = Outcome::default();
    assert!(o.passed());
    o.record(TestOutcome::pass("a"));
    o.record(TestOutcome::skip("b", "not claimed".into()));
    assert!(o.passed());
    assert_eq!(o.skips(), 1);
    o.record(TestOutcome::fail("c", "boom".into()));
    assert!(!o.passed());
    assert_eq!(o.failures(), 1);
    assert_eq!(o.failed()[0].name, "c");
    assert_eq!(o.skipped()[0].detail, "not claimed");
}

#[test]
fn procedure_index_tracks_open_instances() {
    let mut idx = ProcedureIndex::new();
    idx.record_enter(instance("i1", "refund", "pending"));
    idx.record_enter(instance("i2", "refund", "pending"));
    idx.record_enter(instance("i3", "other", "pending"));
    assert!(idx.has_open_instance("i1"));
    assert_eq!(idx.open_instances_for("refund").len(), 2);
    idx.record_transition("i1", "done", true);
    assert!(!idx.has_open_instance("i1"));
    assert_eq!(idx.open_instances_for("refund").len(), 1);
    idx.record_transition("nope", "done", true);
    assert!(!idx.has_open_instance("nope"));
}

#[test]
fn fire_transition_moves_matching_instances() {
    let cfg = {
        let mut p = yutha::engine_config::Procedure {
            name: "refund".into(),
            initial_state: "pending".into(),
            states: vec!["pending".into(), "done".into()],
            terminal_states: vec!["done".into()],
            trigger: yutha::engine_config::ProcedureTrigger { action: "IssueRefund".into(), when: None },
            transitions: vec![],
            on_timeout_escalate: yutha::string_map::StringMap::new(),
        };
        p.transitions.push(yutha::engine_config::ProcedureTransition {
            from: "pending".into(),
            to: "done".into(),
            action: Some("Approve".into()),
            actor_when: None,
            on_timeout: None,
        });
        vec![p]
    };
    let mut idx = ProcedureIndex::new();
    idx.record_enter(instance("i1", "refund", "pending"));
    idx.record_enter(instance("i2", "refund", "review"));
    let handle = TransitionHandle {
        procedure_name: "refund".into(),
        from_state: "pending".into(),
        to_state: "done".into(),
        action: "Approve".into(),
    };
    let mut effects = Vec::new();
    fire_transition(&cfg, &mut idx, &handle, &mut effects);
    assert_eq!(effects.len(), 1);
    assert_eq!(effects[0].action_kind, "procedure.transition");
    assert_eq!(effects[0].instance_id, "i1");
    assert!(!idx.has_open_instance("i1"));
    assert!(idx.has_open_instance("i2"));
}

#[test]
fn diff_fixtures_validate() {
    let base = baseline_engine_config();
    assert_eq!(base.schema_version, "1.1.0");
    assert!(base.enforcement_rules.is_empty());
    let tight = tightened_engine_config();
    assert_eq!(tight.enforcement_rules[0].detect.count_threshold, 3);
    check_unique_names(&tight).unwrap();
    check_procedures(&tight).unwrap();
    check_enforcement_rules(&tight).unwrap();
    let evolved = tightened_evolved_engine_config();
    assert_eq!(evolved.schema_version, "1.2.0");
    assert_eq!(evolved.enforcement_rules[0].detect.count_threshold, 2);
    assert_eq!(large_refund_rule(7).detect.count_threshold, 7);
}
