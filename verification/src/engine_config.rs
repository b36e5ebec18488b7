//! The engine-config artifact: named predicates, scoring rules,
//! procedures and enforcement rules — everything that lives beside the
//! Cedar policy file.
//!
//! Maps of the artifact (a procedure's timeout escalations, a rule's
//! reputation deltas) are held as [`StringMap`]s.

use vstd::prelude::*;

use crate::score::Score;
use crate::string_map::StringMap;

verus! {

/// The full engine config. May be empty.
#[derive(Debug, Clone)]
pub struct EngineConfig {
    /// Schema version pin.
    pub schema_version: String,
    /// Named predicate expressions, referenced as `@<name>`.
    pub predicates: Vec<NamedPredicate>,
    /// Soft-preference scoring rules.
    pub scoring_rules: Vec<ScoringRule>,
    /// Bounded state-machine procedures.
    pub procedures: Vec<Procedure>,
    /// Receipt-stream enforcement rules.
    pub enforcement_rules: Vec<EnforcementRule>,
}

impl Default for EngineConfig {
    /// The empty config.
    fn default() -> (c: EngineConfig)
        ensures
            c.schema_version@.len() == 0,
            c.predicates@.len() == 0,
            c.scoring_rules@.len() == 0,
            c.procedures@.len() == 0,
            c.enforcement_rules@.len() == 0,
    {
        EngineConfig {
            schema_version: String::new(),
            predicates: Vec::new(),
            scoring_rules: Vec::new(),
            procedures: Vec::new(),
            enforcement_rules: Vec::new(),
        }
    }
}

/// A named Cedar expression.
#[derive(Debug, Clone)]
pub struct NamedPredicate {
    /// Unique within the engine config.
    pub name: String,
    /// Stock Cedar expression body.
    pub expr: String,
}

/// A scoring rule contributing a fixed-precision score to permitted
/// requests matching its head.
#[derive(Debug, Clone)]
pub struct ScoringRule {
    /// Unique within the engine config.
    pub name: String,
    /// Decimal weight; must not be zero.
    pub score: Score,
    /// Which requests the rule applies to.
    pub head: ScoringHead,
    /// Cedar `when`-clause body.
    pub when: String,
}

/// Head pattern of a scoring rule; absent fields are wildcards.
#[derive(Debug, Clone)]
pub struct ScoringHead {
    /// Principal entity UID, if restricted.
    pub principal: Option<String>,
    /// Action kind, if restricted.
    pub action: Option<String>,
    /// Resource entity UID, if restricted.
    pub resource: Option<String>,
}

impl Default for ScoringHead {
    /// The all-wildcard head.
    fn default() -> (h: ScoringHead)
        ensures
            h.principal is None,
            h.action is None,
            h.resource is None,
    {
        ScoringHead { principal: None, action: None, resource: None }
    }
}

/// A bounded state machine.
#[derive(Debug, Clone)]
pub struct Procedure {
    /// Unique within the engine config.
    pub name: String,
    /// Every fresh instance begins in this state.
    pub initial_state: String,
    /// All named states.
    pub states: Vec<String>,
    /// States without outgoing transitions.
    pub terminal_states: Vec<String>,
    /// The request shape that opens an instance.
    pub trigger: ProcedureTrigger,
    /// State transitions.
    pub transitions: Vec<ProcedureTransition>,
    /// State name to the procedure a timeout in that state escalates to.
    pub on_timeout_escalate: StringMap,
}

/// The pattern that opens a procedure instance.
#[derive(Debug, Clone)]
pub struct ProcedureTrigger {
    /// The Cedar action name.
    pub action: String,
    /// Optional Cedar guard.
    pub when: Option<String>,
}

/// One transition of a procedure.
#[derive(Debug, Clone)]
pub struct ProcedureTransition {
    /// Source state.
    pub from: String,
    /// Destination state.
    pub to: String,
    /// The action that fires it (exclusive with `on_timeout`).
    pub action: Option<String>,
    /// Guard on the acting principal.
    pub actor_when: Option<String>,
    /// Timeout duration text (exclusive with `action`).
    pub on_timeout: Option<String>,
}

/// A receipt-stream pattern driving detect → coach → quarantine → evict.
#[derive(Debug, Clone)]
pub struct EnforcementRule {
    /// Unique within the engine config.
    pub name: String,
    /// Stage 1 trigger.
    pub detect: DetectConfig,
    /// Stage 2; `None` skips to quarantine.
    pub coach: Option<CoachConfig>,
    /// Stage 3.
    pub quarantine: Option<QuarantineConfig>,
    /// Stage 4.
    pub evict: Option<EvictConfig>,
    /// Per-stage reputation deltas (stage name to score text).
    pub reputation_delta: StringMap,
    /// Reversal triggers.
    pub reverse: ReverseConfig,
    /// Operator-facing severity hint.
    pub severity: Option<String>,
}

/// Detect-stage config.
#[derive(Debug, Clone)]
pub struct DetectConfig {
    /// The receipt pattern.
    pub trigger: DetectTrigger,
    /// Matching receipts within the window that fire `detect` (≥ 1).
    pub count_threshold: u32,
    /// Window duration text.
    pub time_window: String,
    /// `"principal"` for per-agent counters, `"none"` for one global.
    pub group_by: String,
    /// Whether receipts of earlier constitution versions count.
    pub historical: bool,
}

/// Default grouping of a detect counter: per principal.
pub fn default_group_by() -> (s: String)
    ensures
        s@ == "principal"@,
{
    String::from_str("principal")
}

/// The receipt-pattern trigger of detect.
#[derive(Debug, Clone)]
pub struct DetectTrigger {
    /// The `action_kind` of receipts to match.
    pub receipt_kind: String,
    /// Optional filter on `deny_reason`.
    pub deny_reason: Option<String>,
    /// Optional filter on `forbid_rule_id`.
    pub forbid_rule_id: Option<String>,
}

/// Coach-stage config.
#[derive(Debug, Clone)]
pub struct CoachConfig {
    /// Cooldown after detect.
    pub cooldown: String,
    /// Guidance template for the coaching envelope.
    pub guidance_template: String,
}

/// Quarantine-stage config.
#[derive(Debug, Clone)]
pub struct QuarantineConfig {
    /// Cooldown after coach.
    pub escalate_after: String,
    /// Optional auto-expiry.
    pub expires_after: Option<String>,
    /// Optional compliance check reversing the quarantine early.
    pub compliance_check: Option<ComplianceCheck>,
}

/// Compliance check of a quarantine.
#[derive(Debug, Clone)]
pub struct ComplianceCheck {
    /// The forbid-rule id that must not recur.
    pub no_more_of: String,
    /// For how long.
    pub for_duration: String,
}

/// Evict-stage config.
#[derive(Debug, Clone)]
pub struct EvictConfig {
    /// Cooldown after quarantine.
    pub escalate_after: String,
    /// Whether a supervisor countersign is required.
    pub require_countersign: bool,
}

/// Default of [`EvictConfig::require_countersign`]: required.
pub fn default_require_countersign() -> (b: bool)
    ensures
        b,
{
    true
}

/// Conditions under which a non-terminal stage auto-reverses.
#[derive(Debug, Clone)]
pub struct ReverseConfig {
    /// Reverse fires when any holds.
    pub auto_when: Vec<String>,
}

impl Default for ReverseConfig {
    /// No reversal conditions.
    fn default() -> (r: ReverseConfig)
        ensures
            r.auto_when@.len() == 0,
    {
        ReverseConfig { auto_when: Vec::new() }
    }
}


// ---------------------------------------------------------------------------
// Copies
// ---------------------------------------------------------------------------

/// A copy of an optional text.
pub fn copy_opt(o: &Option<String>) -> (c: Option<String>)
    ensures
        c == *o,
{
    match o {
        Some(s) => Some(s.clone()),
        None => None,
    }
}

/// A copy of a list of texts, text for text.
fn copy_texts(v: &Vec<String>) -> (c: Vec<String>)
    ensures
        c@ == v@,
{
    let mut c: Vec<String> = Vec::new();
    let mut i: usize = 0;
    while i < v.len()
        invariant
            i <= v@.len(),
            c@ == v@.take(i as int),
        decreases v.len() - i,
    {
        c.push(v[i].clone());
        assert(c@ =~= v@.take(i + 1));
        i = i + 1;
    }
    assert(v@.take(v@.len() as int) =~= v@);
    c
}

impl NamedPredicate {
    /// A field-for-field copy.
    pub fn duplicate(&self) -> (c: NamedPredicate)
        ensures
            c == *self,
    {
        NamedPredicate { name: self.name.clone(), expr: self.expr.clone() }
    }
}

impl ScoringRule {
    /// A field-for-field copy.
    pub fn duplicate(&self) -> (c: ScoringRule)
        ensures
            c == *self,
    {
        ScoringRule {
            name: self.name.clone(),
            score: Score(self.score.0.clone()),
            head: ScoringHead {
                principal: copy_opt(&self.head.principal),
                action: copy_opt(&self.head.action),
                resource: copy_opt(&self.head.resource),
            },
            when: self.when.clone(),
        }
    }
}

impl ProcedureTransition {
    /// A field-for-field copy.
    pub fn duplicate(&self) -> (c: ProcedureTransition)
        ensures
            c == *self,
    {
        ProcedureTransition {
            from: self.from.clone(),
            to: self.to.clone(),
            action: copy_opt(&self.action),
            actor_when: copy_opt(&self.actor_when),
            on_timeout: copy_opt(&self.on_timeout),
        }
    }
}

impl Procedure {
    /// `self` and `o` hold the same values: the same texts, lists and
    /// escalation pairs.
    pub open spec fn same(self, o: Procedure) -> bool {
        &&& self.name == o.name
        &&& self.initial_state == o.initial_state
        &&& self.states@ == o.states@
        &&& self.terminal_states@ == o.terminal_states@
        &&& self.trigger == o.trigger
        &&& self.transitions@ == o.transitions@
        &&& self.on_timeout_escalate.pairs() == o.on_timeout_escalate.pairs()
        &&& self.on_timeout_escalate@ == o.on_timeout_escalate@
    }

    /// A copy holding the same values.
    pub fn duplicate(&self) -> (c: Procedure)
        ensures
            c.same(*self),
    {
        let mut transitions: Vec<ProcedureTransition> = Vec::new();
        let mut i: usize = 0;
        while i < self.transitions.len()
            invariant
                i <= self.transitions@.len(),
                transitions@ == self.transitions@.take(i as int),
            decreases self.transitions.len() - i,
        {
            transitions.push(self.transitions[i].duplicate());
            assert(transitions@ =~= self.transitions@.take(i + 1));
            i = i + 1;
        }
        assert(self.transitions@.take(self.transitions@.len() as int) =~= self.transitions@);
        Procedure {
            name: self.name.clone(),
            initial_state: self.initial_state.clone(),
            states: copy_texts(&self.states),
            terminal_states: copy_texts(&self.terminal_states),
            trigger: ProcedureTrigger {
                action: self.trigger.action.clone(),
                when: copy_opt(&self.trigger.when),
            },
            transitions,
            on_timeout_escalate: self.on_timeout_escalate.duplicate(),
        }
    }
}

impl EnforcementRule {
    /// `self` and `o` hold the same values.
    pub open spec fn same(self, o: EnforcementRule) -> bool {
        &&& self.name == o.name
        &&& self.detect == o.detect
        &&& self.coach == o.coach
        &&& self.quarantine == o.quarantine
        &&& self.evict == o.evict
        &&& self.reputation_delta.pairs() == o.reputation_delta.pairs()
        &&& self.reputation_delta@ == o.reputation_delta@
        &&& self.reverse.auto_when@ == o.reverse.auto_when@
        &&& self.severity == o.severity
    }

    /// A copy holding the same values.
    pub fn duplicate(&self) -> (c: EnforcementRule)
        ensures
            c.same(*self),
    {
        let coach = match &self.coach {
            Some(k) => Some(
                CoachConfig { cooldown: k.cooldown.clone(), guidance_template: k.guidance_template.clone() },
            ),
            None => None,
        };
        let quarantine = match &self.quarantine {
            Some(q) => Some(
                QuarantineConfig {
                    escalate_after: q.escalate_after.clone(),
                    expires_after: copy_opt(&q.expires_after),
                    compliance_check: match &q.compliance_check {
                        Some(cc) => Some(
                            ComplianceCheck {
                                no_more_of: cc.no_more_of.clone(),
                                for_duration: cc.for_duration.clone(),
                            },
                        ),
                        None => None,
                    },
                },
            ),
            None => None,
        };
        let evict = match &self.evict {
            Some(v) => Some(
                EvictConfig {
                    escalate_after: v.escalate_after.clone(),
                    require_countersign: v.require_countersign,
                },
            ),
            None => None,
        };
        EnforcementRule {
            name: self.name.clone(),
            detect: DetectConfig {
                trigger: DetectTrigger {
                    receipt_kind: self.detect.trigger.receipt_kind.clone(),
                    deny_reason: copy_opt(&self.detect.trigger.deny_reason),
                    forbid_rule_id: copy_opt(&self.detect.trigger.forbid_rule_id),
                },
                count_threshold: self.detect.count_threshold,
                time_window: self.detect.time_window.clone(),
                group_by: self.detect.group_by.clone(),
                historical: self.detect.historical,
            },
            coach,
            quarantine,
            evict,
            reputation_delta: self.reputation_delta.duplicate(),
            reverse: ReverseConfig { auto_when: copy_texts(&self.reverse.auto_when) },
            severity: copy_opt(&self.severity),
        }
    }
}

impl EngineConfig {
    /// `self` and `o` hold the same values, list for list.
    pub open spec fn same(self, o: EngineConfig) -> bool {
        &&& self.schema_version == o.schema_version
        &&& self.predicates@ == o.predicates@
        &&& self.scoring_rules@ == o.scoring_rules@
        &&& self.procedures@.len() == o.procedures@.len()
        &&& forall|i: int| 0 <= i < self.procedures@.len() ==> (#[trigger] self.procedures@[i]).same(o.procedures@[i])
        &&& self.enforcement_rules@.len() == o.enforcement_rules@.len()
        &&& forall|i: int|
            0 <= i < self.enforcement_rules@.len() ==> (#[trigger] self.enforcement_rules@[i]).same(
                o.enforcement_rules@[i],
            )
    }

    /// A copy holding the same values.
    pub fn duplicate(&self) -> (c: EngineConfig)
        ensures
            c.same(*self),
    {
        let mut predicates: Vec<NamedPredicate> = Vec::new();
        let mut i: usize = 0;
        while i < self.predicates.len()
            invariant
                i <= self.predicates@.len(),
                predicates@ == self.predicates@.take(i as int),
            decreases self.predicates.len() - i,
        {
            predicates.push(self.predicates[i].duplicate());
            assert(predicates@ =~= self.predicates@.take(i + 1));
            i = i + 1;
        }
        assert(self.predicates@.take(self.predicates@.len() as int) =~= self.predicates@);
        let mut scoring_rules: Vec<ScoringRule> = Vec::new();
        let mut i: usize = 0;
        while i < self.scoring_rules.len()
            invariant
                i <= self.scoring_rules@.len(),
                scoring_rules@ == self.scoring_rules@.take(i as int),
            decreases self.scoring_rules.len() - i,
        {
            scoring_rules.push(self.scoring_rules[i].duplicate());
            assert(scoring_rules@ =~= self.scoring_rules@.take(i + 1));
            i = i + 1;
        }
        assert(self.scoring_rules@.take(self.scoring_rules@.len() as int) =~= self.scoring_rules@);
        let mut procedures: Vec<Procedure> = Vec::new();
        let mut i: usize = 0;
        while i < self.procedures.len()
            invariant
                i <= self.procedures@.len(),
                procedures@.len() == i,
                forall|j: int| 0 <= j < i ==> (#[trigger] procedures@[j]).same(self.procedures@[j]),
            decreases self.procedures.len() - i,
        {
            procedures.push(self.procedures[i].duplicate());
            i = i + 1;
        }
        let mut enforcement_rules: Vec<EnforcementRule> = Vec::new();
        let mut i: usize = 0;
        while i < self.enforcement_rules.len()
            invariant
                i <= self.enforcement_rules@.len(),
                enforcement_rules@.len() == i,
                forall|j: int| 0 <= j < i ==> (#[trigger] enforcement_rules@[j]).same(self.enforcement_rules@[j]),
            decreases self.enforcement_rules.len() - i,
        {
            enforcement_rules.push(self.enforcement_rules[i].duplicate());
            i = i + 1;
        }
        EngineConfig {
            schema_version: self.schema_version.clone(),
            predicates,
            scoring_rules,
            procedures,
            enforcement_rules,
        }
    }
}

} // verus!
