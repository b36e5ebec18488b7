//! Reports of the conformance scenarios and the engine-config fixtures
//! of the constitution-diff scenario.

use vstd::prelude::*;

use crate::engine_config::{
    CoachConfig, DetectConfig, DetectTrigger, EnforcementRule, EngineConfig, EvictConfig, QuarantineConfig,
    ReverseConfig,
};
use crate::string_map::StringMap;
use crate::text::owned;

verus! {

/// What a successful queue-mode run reports.
#[derive(Debug, Clone, Copy, PartialEq, Eq, Structural)]
pub struct S1Outcome {
    /// Count of agents registered.
    pub agents_registered: u64,
    /// Count of register receipts.
    pub register_receipts: u64,
    /// Count of envelopes delivered.
    pub envelopes_delivered: u64,
    /// Count of envelope send receipts.
    pub envelope_send_receipts: u64,
    /// Count of envelope deliver receipts.
    pub envelope_deliver_receipts: u64,
    /// Count of check pass receipts.
    pub check_pass_receipts: u64,
    /// Count of revoke receipts.
    pub revoke_receipts: u64,
    /// Count of total receipts.
    pub total_receipts: u64,
}

/// Receipt counts of a clean send-path capability run.
#[derive(Debug, Clone, Copy, PartialEq, Eq, Structural)]
pub struct S2Outcome {
    /// Count of agents registered.
    pub agents_registered: u64,
    /// Count of register receipts.
    pub register_receipts: u64,
    /// Count of capability issue receipts.
    pub capability_issue_receipts: u64,
    /// Count of check pass receipts.
    pub check_pass_receipts: u64,
    /// Count of check deny receipts.
    pub check_deny_receipts: u64,
    /// Count of capability revoke receipts.
    pub capability_revoke_receipts: u64,
    /// Count of envelope send receipts.
    pub envelope_send_receipts: u64,
    /// Count of envelope deliver receipts.
    pub envelope_deliver_receipts: u64,
    /// Count of total receipts.
    pub total_receipts: u64,
}

/// Receipt counts of a clean four-stage enforcement run.
#[derive(Debug, Clone, Copy, PartialEq, Eq, Structural)]
pub struct S4Outcome {
    /// Count of eval deny receipts.
    pub eval_deny_receipts: u64,
    /// Count of detect receipts.
    pub detect_receipts: u64,
    /// Count of coach receipts.
    pub coach_receipts: u64,
    /// Count of quarantine receipts.
    pub quarantine_receipts: u64,
    /// Count of evict receipts.
    pub evict_receipts: u64,
    /// Count of quarantined cap denies.
    pub quarantined_cap_denies: u64,
    /// Whether agent was quarantined.
    pub agent_was_quarantined: bool,
}

/// Receipt counts of a clean refund-cap run.
#[derive(Debug, Clone, Copy, PartialEq, Eq, Structural)]
pub struct S5Outcome {
    /// Count of eval pass receipts.
    pub eval_pass_receipts: u64,
    /// Count of eval deny receipts.
    pub eval_deny_receipts: u64,
}

/// Receipt counts of a clean memory-privacy run.
#[derive(Debug, Clone, Copy, PartialEq, Eq, Structural)]
pub struct S6Outcome {
    /// Count of eval pass receipts.
    pub eval_pass_receipts: u64,
    /// Count of eval deny receipts.
    pub eval_deny_receipts: u64,
}

/// Receipt counts of a clean enforcement reverse-path run.
#[derive(Debug, Clone, Copy, PartialEq, Eq, Structural)]
pub struct S7Outcome {
    /// Count of eval deny receipts.
    pub eval_deny_receipts: u64,
    /// Count of detect receipts.
    pub detect_receipts: u64,
    /// Count of coach receipts.
    pub coach_receipts: u64,
    /// Count of quarantine receipts.
    pub quarantine_receipts: u64,
    /// Count of reverse receipts.
    pub reverse_receipts: u64,
    /// Whether quarantined mid chain.
    pub quarantined_mid_chain: bool,
    /// Whether unquarantined post reverse.
    pub unquarantined_post_reverse: bool,
}

/// Receipt counts of a clean principal-attribute run.
#[derive(Debug, Clone, Copy, PartialEq, Eq, Structural)]
pub struct S9Outcome {
    /// Count of eval pass receipts.
    pub eval_pass_receipts: u64,
    /// Count of eval deny receipts.
    pub eval_deny_receipts: u64,
}

/// Receipt counts of a clean shadow-mode run.
#[derive(Debug, Clone, Copy, PartialEq, Eq, Structural)]
pub struct S10Outcome {
    /// Count of eval pass receipts.
    pub eval_pass_receipts: u64,
    /// Count of eval deny receipts.
    pub eval_deny_receipts: u64,
    /// Count of shadow pass receipts.
    pub shadow_pass_receipts: u64,
    /// Count of shadow deny receipts.
    pub shadow_deny_receipts: u64,
}

/// Receipt counts of a clean replay-session run.
#[derive(Debug, Clone, Copy, PartialEq, Eq, Structural)]
pub struct S11Outcome {
    /// Count of receipts replayed.
    pub receipts_replayed: u64,
    /// Count of session receipts emitted.
    pub session_receipts_emitted: u64,
    /// Count of production deny count.
    pub production_deny_count: u64,
    /// Count of session detect count.
    pub session_detect_count: u64,
}

/// What a successful attestation-deny run reports.
#[derive(Debug, Clone)]
pub struct S8Outcome {
    /// Registrations attempted.
    pub registrations_attempted: u64,
    /// Registration-deny receipts.
    pub register_deny_receipts: u64,
    /// Registration-success receipts.
    pub register_success_receipts: u64,
    /// Whether a passport was persisted.
    pub passport_persisted: bool,
    /// Whether the returned attestation was denied.
    pub returned_attestation_denied: bool,
    /// The denying attestor.
    pub deny_attestor_id: String,
}

/// Section counts of the constitution-diff run.
#[derive(Debug, Clone, Copy, PartialEq, Eq, Structural)]
pub struct S12Outcome {
    /// The identity diff was empty.
    pub case_a_empty: bool,
    /// Cedar policies added.
    pub case_b_cedar_added: u64,
    /// Enforcement rules added.
    pub case_b_enforcement_added: u64,
    /// Cedar policies modified.
    pub case_c_cedar_modified: u64,
    /// Enforcement rules modified.
    pub case_c_enforcement_modified: u64,
    /// The schema-version pin changed.
    pub case_c_schema_version_changed: bool,
}

/// The `large_refund_detector` rule with the given detect threshold:
/// three denials by `forbid-large-refunds` within an hour per principal
/// detect, then coach after 5 minutes, quarantine after an hour, evict
/// after a day with a countersign.
pub fn large_refund_rule(detect_count_threshold: u32) -> (r: EnforcementRule)
    ensures
        r.name@ == "large_refund_detector"@,
        r.detect.trigger.receipt_kind@ == "constitution.evaluate.deny"@,
        r.detect.trigger.deny_reason is None,
        r.detect.trigger.forbid_rule_id matches Some(f) && f@ == "forbid-large-refunds"@,
        r.detect.count_threshold == detect_count_threshold,
        r.detect.time_window@ == "60m"@,
        r.detect.group_by@ == "principal"@,
        !r.detect.historical,
        r.coach matches Some(c) && c.cooldown@ == "5m"@ && c.guidance_template@
            == "Refunds over $500 require supervisor approval."@,
        r.quarantine matches Some(q) && q.escalate_after@ == "1h"@ && q.expires_after is None
            && q.compliance_check is None,
        r.evict matches Some(e) && e.escalate_after@ == "24h"@ && e.require_countersign,
        r.reputation_delta@ == Map::<Seq<char>, Seq<char>>::empty(),
        r.reverse.auto_when@.len() == 0,
        r.severity matches Some(s) && s@ == "high"@,
{
    EnforcementRule {
        name: owned("large_refund_detector"),
        detect: DetectConfig {
            trigger: DetectTrigger {
                receipt_kind: owned("constitution.evaluate.deny"),
                deny_reason: None,
                forbid_rule_id: Some(owned("forbid-large-refunds")),
            },
            count_threshold: detect_count_threshold,
            time_window: owned("60m"),
            group_by: owned("principal"),
            historical: false,
        },
        coach: Some(
            CoachConfig {
                cooldown: owned("5m"),
                guidance_template: owned("Refunds over $500 require supervisor approval."),
            },
        ),
        quarantine: Some(
            QuarantineConfig { escalate_after: owned("1h"), expires_after: None, compliance_check: None },
        ),
        evict: Some(EvictConfig { escalate_after: owned("24h"), require_countersign: true }),
        reputation_delta: StringMap::new(),
        reverse: ReverseConfig::default(),
        severity: Some(owned("high")),
    }
}

/// The baseline engine config: schema `1.1.0`, nothing else.
pub fn baseline_engine_config() -> (c: EngineConfig)
    ensures
        c.schema_version@ == "1.1.0"@,
        c.predicates@.len() == 0,
        c.scoring_rules@.len() == 0,
        c.procedures@.len() == 0,
        c.enforcement_rules@.len() == 0,
{
    EngineConfig {
        schema_version: owned("1.1.0"),
        predicates: Vec::new(),
        scoring_rules: Vec::new(),
        procedures: Vec::new(),
        enforcement_rules: Vec::new(),
    }
}

/// The tightened engine config: schema `1.1.0` and the refund detector
/// with threshold 3.
pub fn tightened_engine_config() -> (c: EngineConfig)
    ensures
        c.schema_version@ == "1.1.0"@,
        c.predicates@.len() == 0,
        c.scoring_rules@.len() == 0,
        c.procedures@.len() == 0,
        c.enforcement_rules@.len() == 1,
        c.enforcement_rules@[0].name@ == "large_refund_detector"@,
        c.enforcement_rules@[0].detect.count_threshold == 3,
{
    EngineConfig {
        schema_version: owned("1.1.0"),
        predicates: Vec::new(),
        scoring_rules: Vec::new(),
        procedures: Vec::new(),
        enforcement_rules: vec![large_refund_rule(3)],
    }
}

/// The evolved tightened engine config: schema `1.2.0` and the refund
/// detector with threshold 2.
pub fn tightened_evolved_engine_config() -> (c: EngineConfig)
    ensures
        c.schema_version@ == "1.2.0"@,
        c.predicates@.len() == 0,
        c.scoring_rules@.len() == 0,
        c.procedures@.len() == 0,
        c.enforcement_rules@.len() == 1,
        c.enforcement_rules@[0].name@ == "large_refund_detector"@,
        c.enforcement_rules@[0].detect.count_threshold == 2,
{
    EngineConfig {
        schema_version: owned("1.2.0"),
        predicates: Vec::new(),
        scoring_rules: Vec::new(),
        procedures: Vec::new(),
        enforcement_rules: vec![large_refund_rule(2)],
    }
}

} // verus!
