//! The enforcement engine: the receipt-stream-driven detect → coach →
//! quarantine → evict loop.
//!
//! The engine keeps, per enforcement rule and group key, a sliding
//! window of matching receipt timestamps; per agent, a reputation scalar
//! (scaled by 10 000, kept within `[0, 10 000]`), the latest stage and a
//! quarantine flag; and a queue of stage transitions scheduled for a
//! wall-clock instant. [`EnforcementEngine::on_receipt`] consumes one
//! receipt and returns the effects it triggered; the caller emits them as
//! receipts, which come back through `on_receipt` and move reputation and
//! quarantine state.

use vstd::prelude::*;

use crate::engine_config::EnforcementRule;
use crate::numtext::{nat_digits, parse_u64, parse_u64_spec, trim_chars, trim_spec, u64_digits};
use crate::score::{
    parse_score_scaled, render_score_scaled, render_spec, score_in_range, score_reads,
    score_scaled_value, Score,
};
use crate::table::{lemma_table, lemma_table_last_at, lemma_table_push, lemma_table_update, table_last, table_map};
use crate::text::{chars_of, owned, str_eq, string_from_chars};
use crate::validate::{split_suffix, split_suffix_spec};

verus! {

// ---------------------------------------------------------------------------
// Durations in nanoseconds and wall-clock arithmetic
// ---------------------------------------------------------------------------

/// `n * m`, when it fits in a `u64`.
pub open spec fn u64_times(n: nat, m: nat) -> Option<u64> {
    if n * m <= u64::MAX {
        Some((n * m) as u64)
    } else {
        None
    }
}

/// A `<number><unit>` duration (units `ms`, `s`, `m`, `h`, `d`) in
/// nanoseconds, when it fits in a `u64`.
pub open spec fn parse_window_spec(s: Seq<char>) -> Option<u64> {
    match split_suffix_spec(trim_spec(s)) {
        None => None,
        Some(parts) => match parse_u64_spec(parts.0) {
            None => None,
            Some(n) => {
                let unit = parts.1;
                if unit == "ms"@ {
                    u64_times(n, 1000000)
                } else if unit == "s"@ {
                    u64_times(n, 1000000000)
                } else if unit == "m"@ {
                    u64_times(n, 60000000000)
                } else if unit == "h"@ {
                    u64_times(n, 3600000000000)
                } else if unit == "d"@ {
                    u64_times(n, 86400000000000)
                } else {
                    None
                }
            },
        },
    }
}

/// Parse a duration string (`"30s"`, `"5m"`, `"1h"`, `"100ms"`) into
/// nanoseconds; `None` when malformed or out of range.
pub fn parse_window_ns(s: &str) -> (r: Option<u64>)
    ensures
        r == parse_window_spec(s@),
{
    let t = trim_chars(&chars_of(s));
    let ts = string_from_chars(&t);
    let (num, unit) = match split_suffix(ts.as_str()) {
        None => return None,
        Some(p) => p,
    };
    let nv = chars_of(num.as_str());
    let n = match parse_u64(&nv) {
        None => return None,
        Some(n) => n,
    };
    assert(nv@ == num@);
    let u = unit.as_str();
    if str_eq(u, "ms") {
        n.checked_mul(1000000)
    } else if str_eq(u, "s") {
        n.checked_mul(1000000000)
    } else if str_eq(u, "m") {
        match n.checked_mul(60) {
            None => None,
            Some(secs) => secs.checked_mul(1000000000),
        }
    } else if str_eq(u, "h") {
        match n.checked_mul(3600) {
            None => None,
            Some(secs) => secs.checked_mul(1000000000),
        }
    } else if str_eq(u, "d") {
        match n.checked_mul(86400) {
            None => None,
            Some(secs) => secs.checked_mul(1000000000),
        }
    } else {
        None
    }
}

/// The RFC 3339 text of the instant `nanos` nanoseconds after the RFC
/// 3339 instant `wall`, as the `time` crate reads, adds and writes it;
/// `None` when `wall` does not parse or the sum leaves the supported range.
pub uninterp spec fn rfc3339_after(wall: Seq<char>, nanos: i64) -> Option<Seq<char>>;

/// `time::OffsetDateTime::parse` with `Rfc3339`, then `checked_add` of
/// `time::Duration::nanoseconds(nanos)`, then `format` with `Rfc3339`.
/// The result is named [`rfc3339_after`]; nothing more is claimed of it.
#[verifier::external_body]
fn rfc3339_plus_nanos(wall: &str, nanos: i64) -> (r: Option<String>)
    ensures
        match rfc3339_after(wall@, nanos) {
            Some(t) => r matches Some(s) && s@ == t,
            None => r is None,
        },
{
    let rfc = &time::format_description::well_known::Rfc3339;
    let parsed = time::OffsetDateTime::parse(wall, rfc).ok()?;
    let later = parsed.checked_add(time::Duration::nanoseconds(nanos))?;
    later.format(rfc).ok()
}

/// When a stage `duration` after `wall` falls: the nanosecond count is
/// handed to the clock arithmetic as an `i64` (wrapping past `i64::MAX`).
pub open spec fn fire_at_spec(wall: Seq<char>, duration: Seq<char>) -> Option<Seq<char>> {
    match parse_window_spec(duration) {
        None => None,
        Some(ns) => rfc3339_after(wall, ns as i64),
    }
}

/// `wall` plus the duration `duration_str`, as RFC 3339 text.
pub fn compute_fire_at(wall: &str, duration_str: &str) -> (r: Option<String>)
    ensures
        match fire_at_spec(wall@, duration_str@) {
            Some(t) => r matches Some(s) && s@ == t,
            None => r is None,
        },
{
    match parse_window_ns(duration_str) {
        None => None,
        Some(ns) => rfc3339_plus_nanos(wall, ns as i64),
    }
}

// ---------------------------------------------------------------------------
// Receipts, stages, effects
// ---------------------------------------------------------------------------

/// The fields of a landed receipt that the engine matches on.
#[derive(Debug, Clone)]
pub struct ReceiptView<'a> {
    /// The receipt's action kind.
    pub action_kind: &'a str,
    /// The principal the receipt is about.
    pub principal_id: Option<&'a str>,
    /// The `deny_reason`, for evaluation denials.
    pub deny_reason: Option<&'a str>,
    /// The matched Cedar forbid rule.
    pub forbid_rule_id: Option<&'a str>,
    /// Monotonic timestamp in nanoseconds (window pruning).
    pub occurred_at_unix_ns: u64,
    /// Wall-clock timestamp (RFC 3339), the base of scheduling.
    pub occurred_at_wall_clock: &'a str,
    /// Reputation delta carried by an `enforcement.*` receipt.
    pub reputation_delta: Option<Score>,
}

/// The enforcement stages: the four of the loop, and the reverse that
/// lifts a quarantine when it expires.
#[derive(Debug, Clone, Copy, PartialEq, Eq, Structural)]
pub enum Stage {
    Detect,
    Coach,
    Quarantine,
    Evict,
    Reverse,
}

/// The receipt action kind of a stage.
pub open spec fn stage_kind(s: Stage) -> Seq<char> {
    match s {
        Stage::Detect => "enforcement.detect"@,
        Stage::Coach => "enforcement.coach"@,
        Stage::Quarantine => "enforcement.quarantine"@,
        Stage::Evict => "enforcement.evict"@,
        Stage::Reverse => "enforcement.reverse"@,
    }
}

/// The default reputation delta of a stage.
pub open spec fn stage_default_delta(s: Stage) -> Seq<char> {
    match s {
        Stage::Detect => "-0.05"@,
        Stage::Coach => "0.0"@,
        Stage::Quarantine => "-0.25"@,
        Stage::Evict => "-1.0"@,
        Stage::Reverse => "0.0"@,
    }
}

impl Stage {
    /// The receipt action kind of this stage.
    pub fn action_kind(&self) -> (k: &'static str)
        ensures
            k@ == stage_kind(*self),
    {
        match self {
            Stage::Detect => "enforcement.detect",
            Stage::Coach => "enforcement.coach",
            Stage::Quarantine => "enforcement.quarantine",
            Stage::Evict => "enforcement.evict",
            Stage::Reverse => "enforcement.reverse",
        }
    }

    /// The default reputation delta of this stage.
    pub fn default_delta(&self) -> (d: Score)
        ensures
            d.0@ == stage_default_delta(*self),
    {
        match self {
            Stage::Detect => Score(owned("-0.05")),
            Stage::Coach => Score(owned("0.0")),
            Stage::Quarantine => Score(owned("-0.25")),
            Stage::Evict => Score(owned("-1.0")),
            Stage::Reverse => Score(owned("0.0")),
        }
    }
}

/// The evidence of a detect: the timestamps that met the threshold, the
/// group key and a one-line summary of the pattern.
#[derive(Debug, Clone)]
pub struct DetectEvidence {
    /// The matched receipts' monotonic timestamps, oldest first.
    pub matched_timestamps_ns: Vec<u64>,
    /// The counter's group key.
    pub group_key: String,
    /// `"<threshold>+ matches of <kind> in <window>"`.
    pub pattern_summary: String,
}

/// An enforcement action for the caller to emit as a receipt.
#[derive(Debug, Clone)]
pub struct EnforcementEffect {
    /// `enforcement.detect` / `.coach` / `.quarantine` / `.evict` /
    /// `.reverse`.
    pub action_kind: String,
    /// The targeted agent.
    pub target_agent_id: String,
    /// The originating enforcement rule.
    pub enforcement_rule_id: String,
    /// Reputation delta the stage applies.
    pub reputation_delta: Score,
    /// Detect evidence; none for scheduled stages.
    pub additional_evidence: Option<DetectEvidence>,
}

/// An effect as plain values.
pub struct EffectView {
    pub kind: Seq<char>,
    pub target: Seq<char>,
    pub rule_id: Seq<char>,
    pub delta: Seq<char>,
    pub evidence: Option<(Seq<u64>, Seq<char>, Seq<char>)>,
}

pub open spec fn effect_view(e: EnforcementEffect) -> EffectView {
    EffectView {
        kind: e.action_kind@,
        target: e.target_agent_id@,
        rule_id: e.enforcement_rule_id@,
        delta: e.reputation_delta.0@,
        evidence: match e.additional_evidence {
            None => None,
            Some(ev) => Some((ev.matched_timestamps_ns@, ev.group_key@, ev.pattern_summary@)),
        },
    }
}

pub open spec fn effect_views(v: Seq<EnforcementEffect>) -> Seq<EffectView> {
    v.map_values(|e: EnforcementEffect| effect_view(e))
}

// ---------------------------------------------------------------------------
// Agents
// ---------------------------------------------------------------------------

/// Reputation of a fresh agent: 1.0.
pub const INITIAL_REPUTATION_SCALED: i64 = 10000;

/// Lowest reputation: 0.0.
pub const MIN_REPUTATION_SCALED: i64 = 0;

/// Highest reputation: 1.0.
pub const MAX_REPUTATION_SCALED: i64 = 10000;

/// Per-agent enforcement state.
#[derive(Debug, Clone, Copy, PartialEq, Eq, Structural)]
pub struct AgentState {
    /// Reputation × 10 000.
    pub reputation_scaled: i64,
    /// Latest stage; `None` if no rule ever tripped.
    pub current_stage: Option<Stage>,
    /// Whether the agent is quarantined.
    pub quarantined: bool,
}

pub open spec fn initial_agent() -> AgentState {
    AgentState { reputation_scaled: 10000, current_stage: None, quarantined: false }
}

impl AgentState {
    /// A fresh agent: full reputation, no stage, not quarantined.
    pub fn initial() -> (a: AgentState)
        ensures
            a == initial_agent(),
    {
        AgentState {
            reputation_scaled: INITIAL_REPUTATION_SCALED,
            current_stage: None,
            quarantined: false,
        }
    }
}

/// The agents' states keyed by agent id.
pub struct AgentTable {
    entries: Vec<(String, AgentState)>,
}

impl View for AgentTable {
    type V = Map<Seq<char>, AgentState>;

    closed spec fn view(&self) -> Map<Seq<char>, AgentState> {
        table_map(self.pairs())
    }
}

impl AgentTable {
    pub closed spec fn pairs(&self) -> Seq<(Seq<char>, AgentState)> {
        Seq::new(self.entries@.len(), |i: int| (self.entries@[i].0@, self.entries@[i].1))
    }

    /// The empty table.
    pub fn new() -> (t: AgentTable)
        ensures
            t@ == Map::<Seq<char>, AgentState>::empty(),
    {
        let t = AgentTable { entries: Vec::new() };
        assert(t.pairs() =~= Seq::<(Seq<char>, AgentState)>::empty());
        assert(t@ =~= Map::<Seq<char>, AgentState>::empty());
        t
    }

    fn find(&self, key: &str) -> (r: Option<usize>)
        ensures
            match r {
                Some(i) => i as int == table_last(self.pairs(), key@),
                None => table_last(self.pairs(), key@) == -1,
            },
    {
        let mut i: usize = self.entries.len();
        while i > 0
            invariant
                i <= self.entries@.len(),
                forall|j: int| i <= j < self.pairs().len() ==> self.pairs()[j].0 != key@,
            decreases i,
        {
            if str_eq(self.entries[i - 1].0.as_str(), key) {
                proof {
                    lemma_table_last_at(self.pairs(), key@, i - 1);
                }
                return Some(i - 1);
            }
            i = i - 1;
        }
        proof {
            lemma_table(self.pairs(), key@);
            if table_last(self.pairs(), key@) >= 0 {
                assert(self.pairs()[table_last(self.pairs(), key@)].0 == key@);
            }
        }
        None
    }

    /// The state of agent `key`, if known.
    pub fn get(&self, key: &str) -> (r: Option<AgentState>)
        ensures
            r == (if self@.contains_key(key@) {
                Some(self@[key@])
            } else {
                None
            }),
    {
        proof {
            lemma_table(self.pairs(), key@);
        }
        match self.find(key) {
            Some(i) => Some(self.entries[i].1),
            None => None,
        }
    }

    /// Set the state of agent `key`.
    pub fn set(&mut self, key: &str, value: AgentState)
        ensures
            final(self)@ == old(self)@.insert(key@, value),
    {
        let ghost p = self.pairs();
        proof {
            lemma_table(p, key@);
        }
        match self.find(key) {
            Some(i) => {
                self.entries.set(i, (owned(key), value));
                proof {
                    assert(self.pairs() =~= p.update(i as int, (key@, value)));
                    crate::table::lemma_table_update(p, key@, value);
                }
            },
            None => {
                self.entries.push((owned(key), value));
                proof {
                    assert(self.pairs() =~= p.push((key@, value)));
                    lemma_table_push(p, key@, value);
                }
            },
        }
    }
}

/// The state of agent `k`, or a fresh one.
pub open spec fn agent_or_initial(agents: Map<Seq<char>, AgentState>, k: Seq<char>) -> AgentState {
    if agents.contains_key(k) {
        agents[k]
    } else {
        initial_agent()
    }
}

/// `x` clamped to the reputation range.
pub open spec fn clamp_reputation(x: int) -> int {
    if x < 0 {
        0
    } else if x > 10000 {
        10000
    } else {
        x
    }
}

/// Every known agent's reputation is within `[0, 10 000]`.
pub open spec fn reputations_in_range(agents: Map<Seq<char>, AgentState>) -> bool {
    forall|k: Seq<char>|
        #[trigger] agents.contains_key(k) ==> 0 <= agents[k].reputation_scaled <= 10000
}

// ---------------------------------------------------------------------------
// Counters
// ---------------------------------------------------------------------------

/// The entries of `ts` that are at least `cutoff`, in order.
pub open spec fn keep_recent(ts: Seq<u64>, cutoff: u64) -> Seq<u64>
    decreases ts.len(),
{
    if ts.len() == 0 {
        Seq::empty()
    } else if ts.last() >= cutoff {
        keep_recent(ts.drop_last(), cutoff).push(ts.last())
    } else {
        keep_recent(ts.drop_last(), cutoff)
    }
}

/// The window after pruning at `now`: entries older than `now - window`
/// leave, unless `now < window` (clock skew at the start).
pub open spec fn prune_spec(ts: Seq<u64>, now: u64, window: u64) -> Seq<u64> {
    if now < window {
        ts
    } else {
        keep_recent(ts, (now - window) as u64)
    }
}

/// Sliding-window counter of one `(rule, group key)` bucket.
#[derive(Debug, Clone)]
pub struct CounterBucket {
    /// Timestamps of recent matching receipts.
    pub timestamps_ns: Vec<u64>,
}

impl CounterBucket {
    /// Drop the timestamps older than `now_ns - window_ns`.
    pub fn prune(&mut self, now_ns: u64, window_ns: u64)
        ensures
            final(self).timestamps_ns@ == prune_spec(old(self).timestamps_ns@, now_ns, window_ns),
    {
        if now_ns < window_ns {
            return;
        }
        let cutoff = now_ns - window_ns;
        let mut kept: Vec<u64> = Vec::new();
        let mut i: usize = 0;
        while i < self.timestamps_ns.len()
            invariant
                i <= self.timestamps_ns@.len(),
                kept@ == keep_recent(self.timestamps_ns@.take(i as int), cutoff),
            decreases self.timestamps_ns.len() - i,
        {
            assert(self.timestamps_ns@.take(i + 1).drop_last() =~= self.timestamps_ns@.take(i as int));
            let t = self.timestamps_ns[i];
            if t >= cutoff {
                kept.push(t);
            }
            i = i + 1;
        }
        assert(self.timestamps_ns@.take(self.timestamps_ns.len() as int) =~= self.timestamps_ns@);
        self.timestamps_ns = kept;
    }
}

/// A copy of a list of timestamps.
fn copy_u64s(v: &Vec<u64>) -> (out: Vec<u64>)
    ensures
        out@ == v@,
{
    let mut out: Vec<u64> = Vec::new();
    for i in 0..v.len()
        invariant
            out@ =~= v@.take(i as int),
    {
        out.push(v[i]);
    }
    assert(v@.take(v.len() as int) =~= v@);
    out
}

/// The counters keyed by `(rule name, group key)`.
pub struct CounterTable {
    entries: Vec<(String, String, Vec<u64>)>,
}

impl View for CounterTable {
    type V = Map<(Seq<char>, Seq<char>), Seq<u64>>;

    closed spec fn view(&self) -> Map<(Seq<char>, Seq<char>), Seq<u64>> {
        table_map(self.pairs())
    }
}

impl CounterTable {
    pub closed spec fn pairs(&self) -> Seq<((Seq<char>, Seq<char>), Seq<u64>)> {
        Seq::new(
            self.entries@.len(),
            |i: int| ((self.entries@[i].0@, self.entries@[i].1@), self.entries@[i].2@),
        )
    }

    /// No counters.
    pub fn new() -> (t: CounterTable)
        ensures
            t@ == Map::<(Seq<char>, Seq<char>), Seq<u64>>::empty(),
    {
        let t = CounterTable { entries: Vec::new() };
        assert(t.pairs() =~= Seq::<((Seq<char>, Seq<char>), Seq<u64>)>::empty());
        assert(t@ =~= Map::<(Seq<char>, Seq<char>), Seq<u64>>::empty());
        t
    }

    fn find(&self, rule: &str, group: &str) -> (r: Option<usize>)
        ensures
            match r {
                Some(i) => i as int == table_last(self.pairs(), (rule@, group@)),
                None => table_last(self.pairs(), (rule@, group@)) == -1,
            },
    {
        let ghost key = (rule@, group@);
        let mut i: usize = self.entries.len();
        while i > 0
            invariant
                i <= self.entries@.len(),
                key == (rule@, group@),
                forall|j: int| i <= j < self.pairs().len() ==> self.pairs()[j].0 != key,
            decreases i,
        {
            if str_eq(self.entries[i - 1].0.as_str(), rule) && str_eq(self.entries[i - 1].1.as_str(), group) {
                proof {
                    lemma_table_last_at(self.pairs(), key, i - 1);
                }
                return Some(i - 1);
            }
            i = i - 1;
        }
        proof {
            lemma_table(self.pairs(), key);
            if table_last(self.pairs(), key) >= 0 {
                assert(self.pairs()[table_last(self.pairs(), key)].0 == key);
            }
        }
        None
    }

    /// The bucket of `(rule, group)`, empty if absent.
    pub fn bucket(&self, rule: &str, group: &str) -> (r: Vec<u64>)
        ensures
            r@ == (if self@.contains_key((rule@, group@)) {
                self@[(rule@, group@)]
            } else {
                Seq::empty()
            }),
    {
        proof {
            lemma_table(self.pairs(), (rule@, group@));
        }
        match self.find(rule, group) {
            Some(i) => copy_u64s(&self.entries[i].2),
            None => Vec::new(),
        }
    }

    /// Set the bucket of `(rule, group)`.
    pub fn set(&mut self, rule: &str, group: &str, ts: Vec<u64>)
        ensures
            final(self)@ == old(self)@.insert((rule@, group@), ts@),
    {
        let ghost p = self.pairs();
        let ghost key = (rule@, group@);
        let ghost tv = ts@;
        proof {
            lemma_table(p, key);
        }
        match self.find(rule, group) {
            Some(i) => {
                self.entries.set(i, (owned(rule), owned(group), ts));
                proof {
                    assert(self.pairs() =~= p.update(i as int, (key, tv)));
                    lemma_table_update(p, key, tv);
                }
            },
            None => {
                self.entries.push((owned(rule), owned(group), ts));
                proof {
                    assert(self.pairs() =~= p.push((key, tv)));
                    lemma_table_push(p, key, tv);
                }
            },
        }
    }

    /// Drop every counter.
    pub fn clear(&mut self)
        ensures
            final(self)@ == Map::<(Seq<char>, Seq<char>), Seq<u64>>::empty(),
    {
        self.entries = Vec::new();
        assert(self.pairs() =~= Seq::<((Seq<char>, Seq<char>), Seq<u64>)>::empty());
        assert(self@ =~= Map::<(Seq<char>, Seq<char>), Seq<u64>>::empty());
    }
}

// ---------------------------------------------------------------------------
// Engine state
// ---------------------------------------------------------------------------

/// A stage transition that fires once the wall clock reaches
/// `fire_at_wall_clock`.
#[derive(Debug, Clone)]
pub struct ScheduledAction {
    /// RFC 3339 instant.
    pub fire_at_wall_clock: String,
    /// The targeted agent.
    pub target_agent_id: String,
    /// The originating rule.
    pub enforcement_rule_id: String,
    /// The stage that fires.
    pub stage: Stage,
}

pub open spec fn scheduled_view(a: ScheduledAction) -> (Seq<char>, Seq<char>, Seq<char>, Stage) {
    (a.fire_at_wall_clock@, a.target_agent_id@, a.enforcement_rule_id@, a.stage)
}

/// The engine's state as plain values.
pub struct EngineModel {
    pub agents: Map<Seq<char>, AgentState>,
    pub counters: Map<(Seq<char>, Seq<char>), Seq<u64>>,
    pub scheduled: Seq<(Seq<char>, Seq<char>, Seq<char>, Stage)>,
}

/// The receipt matches the rule's trigger: same kind, and the deny
/// reason and forbid rule the rule asks for, if any.
pub open spec fn trigger_matches(rule: EnforcementRule, rc: ReceiptView) -> bool {
    &&& rc.action_kind@ == rule.detect.trigger.receipt_kind@
    &&& (rule.detect.trigger.deny_reason is Some ==> (rc.deny_reason is Some && rc.deny_reason->0@
        == rule.detect.trigger.deny_reason->0@))
    &&& (rule.detect.trigger.forbid_rule_id is Some ==> (rc.forbid_rule_id is Some
        && rc.forbid_rule_id->0@ == rule.detect.trigger.forbid_rule_id->0@))
}

/// The counter group: empty for `group_by: none`, else the principal
/// (empty when absent).
pub open spec fn group_key_spec(rule: EnforcementRule, rc: ReceiptView) -> Seq<char> {
    if rule.detect.group_by@ == "none"@ {
        Seq::empty()
    } else {
        match rc.principal_id {
            Some(p) => p@,
            None => Seq::empty(),
        }
    }
}

/// The rule's window in nanoseconds; one minute when it does not parse.
pub open spec fn window_of(rule: EnforcementRule) -> u64 {
    match parse_window_spec(rule.detect.time_window@) {
        Some(w) => w,
        None => 60000000000u64,
    }
}

/// The rule's bucket after pruning at the receipt's time and adding it.
pub open spec fn bucket_after(m: EngineModel, rule: EnforcementRule, rc: ReceiptView) -> Seq<u64> {
    let ck = (rule.name@, group_key_spec(rule, rc));
    let b = if m.counters.contains_key(ck) {
        m.counters[ck]
    } else {
        Seq::empty()
    };
    prune_spec(b, rc.occurred_at_unix_ns, window_of(rule)).push(rc.occurred_at_unix_ns)
}

/// `"<threshold>+ matches of <kind> in <window>"`.
pub open spec fn pattern_summary(rule: EnforcementRule) -> Seq<char> {
    nat_digits(rule.detect.count_threshold as nat) + "+ matches of "@ + rule.detect.trigger.receipt_kind@
        + " in "@ + rule.detect.time_window@
}

/// The rule's detect delta, `-0.05` unless it sets one.
pub open spec fn detect_delta(rule: EnforcementRule) -> Seq<char> {
    if rule.reputation_delta@.contains_key("detect"@) {
        rule.reputation_delta@["detect"@]
    } else {
        "-0.05"@
    }
}

/// One rule against one receipt: a non-matching receipt changes nothing;
/// a matching one joins its window; reaching the threshold fires
/// `detect`, empties the window, marks the agent's stage and schedules
/// the coach stage when the rule has one.
pub open spec fn detect_step(m: EngineModel, rule: EnforcementRule, rc: ReceiptView) -> (
    EngineModel,
    Option<EffectView>,
) {
    if !trigger_matches(rule, rc) {
        (m, None)
    } else {
        let key = group_key_spec(rule, rc);
        let ck = (rule.name@, key);
        let b = bucket_after(m, rule, rc);
        if (b.len() as u32) < rule.detect.count_threshold {
            (
                EngineModel { agents: m.agents, counters: m.counters.insert(ck, b), scheduled: m.scheduled },
                None,
            )
        } else {
            let a = agent_or_initial(m.agents, key);
            let agents = if key.len() > 0 {
                m.agents.insert(
                    key,
                    AgentState {
                        reputation_scaled: a.reputation_scaled,
                        current_stage: Some(Stage::Detect),
                        quarantined: a.quarantined,
                    },
                )
            } else {
                m.agents
            };
            let scheduled = match rule.coach {
                Some(c) => match fire_at_spec(rc.occurred_at_wall_clock@, c.cooldown@) {
                    Some(f) => m.scheduled.push((f, key, rule.name@, Stage::Coach)),
                    None => m.scheduled,
                },
                None => m.scheduled,
            };
            (
                EngineModel { agents, counters: m.counters.insert(ck, Seq::empty()), scheduled },
                Some(
                    EffectView {
                        kind: "enforcement.detect"@,
                        target: key,
                        rule_id: rule.name@,
                        delta: detect_delta(rule),
                        evidence: Some((b, key, pattern_summary(rule))),
                    },
                ),
            )
        }
    }
}

/// Agent `p` after a reputation delta: created if unknown; moved by the
/// delta and clamped to `[0, 1]` when the delta reads.
pub open spec fn after_delta(agents: Map<Seq<char>, AgentState>, p: Seq<char>, d: Seq<char>) -> Map<
    Seq<char>,
    AgentState,
> {
    let a = agent_or_initial(agents, p);
    if score_reads(d) {
        agents.insert(
            p,
            AgentState {
                reputation_scaled: clamp_reputation(a.reputation_scaled + score_scaled_value(d)) as i64,
                current_stage: a.current_stage,
                quarantined: a.quarantined,
            },
        )
    } else {
        agents.insert(p, a)
    }
}

/// Agent `p` with its quarantine flag set to `q` (created if unknown).
pub open spec fn with_quarantine(agents: Map<Seq<char>, AgentState>, p: Seq<char>, q: bool) -> Map<
    Seq<char>,
    AgentState,
> {
    let a = agent_or_initial(agents, p);
    agents.insert(
        p,
        AgentState { reputation_scaled: a.reputation_scaled, current_stage: a.current_stage, quarantined: q },
    )
}

/// The engine's mutable state: agents, counters, schedule.
pub struct EngineState {
    /// Per-agent reputation, stage and quarantine.
    pub agents: AgentTable,
    /// Sliding-window counters.
    pub counters: CounterTable,
    /// Pending stage transitions, in scheduling order.
    pub scheduled: Vec<ScheduledAction>,
}

impl EngineState {
    pub open spec fn model(&self) -> EngineModel {
        EngineModel {
            agents: self.agents@,
            counters: self.counters@,
            scheduled: self.scheduled@.map_values(|a: ScheduledAction| scheduled_view(a)),
        }
    }

    /// No agents, counters or schedule.
    pub fn fresh() -> (s: EngineState)
        ensures
            s.agents@ == Map::<Seq<char>, AgentState>::empty(),
            s.counters@ == Map::<(Seq<char>, Seq<char>), Seq<u64>>::empty(),
            s.scheduled@.len() == 0,
    {
        EngineState { agents: AgentTable::new(), counters: CounterTable::new(), scheduled: Vec::new() }
    }

    /// Match one rule against one receipt; see [`detect_step`].
    pub fn check_detect(&mut self, rule: &EnforcementRule, receipt: &ReceiptView) -> (r: Option<EnforcementEffect>)
        ensures
            final(self).model() == detect_step(old(self).model(), *rule, *receipt).0,
            match detect_step(old(self).model(), *rule, *receipt).1 {
                None => r is None,
                Some(v) => r matches Some(e) && effect_view(e) == v,
            },
            reputations_in_range(old(self).agents@) ==> reputations_in_range(final(self).agents@),
    {
        let ghost m0 = self.model();
        let trigger = &rule.detect.trigger;
        if !str_eq(receipt.action_kind, trigger.receipt_kind.as_str()) {
            return None;
        }
        if let Some(want) = &trigger.deny_reason {
            match receipt.deny_reason {
                Some(d) => {
                    if !str_eq(d, want.as_str()) {
                        return None;
                    }
                },
                None => {
                    return None;
                },
            }
        }
        if let Some(want) = &trigger.forbid_rule_id {
            match receipt.forbid_rule_id {
                Some(f) => {
                    if !str_eq(f, want.as_str()) {
                        return None;
                    }
                },
                None => {
                    return None;
                },
            }
        }
        assert(trigger_matches(*rule, *receipt));
        let group_key: String = if str_eq(rule.detect.group_by.as_str(), "none") {
            String::new()
        } else {
            match receipt.principal_id {
                Some(p) => owned(p),
                None => String::new(),
            }
        };
        assert(group_key@ == group_key_spec(*rule, *receipt));
        let window_ns = match parse_window_ns(rule.detect.time_window.as_str()) {
            Some(w) => w,
            None => 60000000000u64,
        };
        let now = receipt.occurred_at_unix_ns;
        let mut bucket = CounterBucket {
            timestamps_ns: self.counters.bucket(rule.name.as_str(), group_key.as_str()),
        };
        bucket.prune(now, window_ns);
        bucket.timestamps_ns.push(now);
        assert(bucket.timestamps_ns@ == bucket_after(m0, *rule, *receipt));
        if (bucket.timestamps_ns.len() as u32) < rule.detect.count_threshold {
            self.counters.set(rule.name.as_str(), group_key.as_str(), bucket.timestamps_ns);
            return None;
        }
        let mut summary = string_from_chars(&u64_digits(rule.detect.count_threshold as u64));
        summary.append("+ matches of ");
        summary.append(trigger.receipt_kind.as_str());
        summary.append(" in ");
        summary.append(rule.detect.time_window.as_str());
        assert(summary@ =~= pattern_summary(*rule));
        self.counters.set(rule.name.as_str(), group_key.as_str(), Vec::new());
        let delta = match rule.reputation_delta.get("detect") {
            Some(v) => Score(v.clone()),
            None => Score(owned("-0.05")),
        };
        if group_key.as_str().unicode_len() > 0 {
            let a = match self.agents.get(group_key.as_str()) {
                Some(a) => a,
                None => AgentState::initial(),
            };
            self.agents.set(
                group_key.as_str(),
                AgentState {
                    reputation_scaled: a.reputation_scaled,
                    current_stage: Some(Stage::Detect),
                    quarantined: a.quarantined,
                },
            );
        }
        if let Some(coach) = &rule.coach {
            if let Some(fire_at) = compute_fire_at(receipt.occurred_at_wall_clock, coach.cooldown.as_str()) {
                let ghost before = self.scheduled@;
                self.scheduled.push(
                    ScheduledAction {
                        fire_at_wall_clock: fire_at,
                        target_agent_id: group_key.clone(),
                        enforcement_rule_id: rule.name.clone(),
                        stage: Stage::Coach,
                    },
                );
                assert(self.scheduled@.map_values(|a: ScheduledAction| scheduled_view(a))
                    =~= before.map_values(|a: ScheduledAction| scheduled_view(a)).push(
                    scheduled_view(self.scheduled@.last()),
                ));
            }
        }
        Some(
            EnforcementEffect {
                action_kind: owned(Stage::Detect.action_kind()),
                target_agent_id: group_key.clone(),
                enforcement_rule_id: rule.name.clone(),
                reputation_delta: delta,
                additional_evidence: Some(
                    DetectEvidence {
                        matched_timestamps_ns: bucket.timestamps_ns,
                        group_key: group_key,
                        pattern_summary: summary,
                    },
                ),
            },
        )
    }
}

impl EngineState {
    /// Move agent `agent_id`'s reputation by `delta`, clamped to
    /// `[0, 1]`; the agent is created if unknown, and a delta that does
    /// not read moves nothing.
    pub fn apply_reputation_delta(&mut self, agent_id: &str, delta: &Score)
        requires
            score_in_range(delta.0@),
        ensures
            final(self).agents@ == after_delta(old(self).agents@, agent_id@, delta.0@),
            final(self).counters@ == old(self).counters@,
            final(self).scheduled@ == old(self).scheduled@,
            reputations_in_range(old(self).agents@) ==> reputations_in_range(final(self).agents@),
    {
        let a = match self.agents.get(agent_id) {
            Some(a) => a,
            None => AgentState::initial(),
        };
        let updated = match parse_score_scaled(delta) {
            Ok(d) => {
                let sum: i128 = (a.reputation_scaled as i128) + (d as i128);
                let clamped: i64 = if sum < 0 {
                    MIN_REPUTATION_SCALED
                } else if sum > 10000 {
                    MAX_REPUTATION_SCALED
                } else {
                    sum as i64
                };
                AgentState {
                    reputation_scaled: clamped,
                    current_stage: a.current_stage,
                    quarantined: a.quarantined,
                }
            },
            Err(_) => a,
        };
        self.agents.set(agent_id, updated);
    }

    /// Set agent `agent_id`'s quarantine flag (creating the agent if
    /// unknown).
    pub fn set_quarantine(&mut self, agent_id: &str, quarantined: bool)
        ensures
            final(self).agents@ == with_quarantine(old(self).agents@, agent_id@, quarantined),
            final(self).counters@ == old(self).counters@,
            final(self).scheduled@ == old(self).scheduled@,
            reputations_in_range(old(self).agents@) ==> reputations_in_range(final(self).agents@),
    {
        let a = match self.agents.get(agent_id) {
            Some(a) => a,
            None => AgentState::initial(),
        };
        self.agents.set(
            agent_id,
            AgentState {
                reputation_scaled: a.reputation_scaled,
                current_stage: a.current_stage,
                quarantined,
            },
        );
    }
}

/// The effect of a scheduled stage firing: the stage's kind and default
/// delta, no evidence.
pub open spec fn stage_effect_view(a: (Seq<char>, Seq<char>, Seq<char>, Stage)) -> EffectView {
    EffectView {
        kind: stage_kind(a.3),
        target: a.1,
        rule_id: a.2,
        delta: stage_default_delta(a.3),
        evidence: None,
    }
}

/// Build the effect of a scheduled stage transition that fired.
pub fn build_stage_effect(action: &ScheduledAction) -> (r: Option<EnforcementEffect>)
    ensures
        r matches Some(e) && effect_view(e) == stage_effect_view(scheduled_view(*action)),
{
    Some(
        EnforcementEffect {
            action_kind: owned(action.stage.action_kind()),
            target_agent_id: action.target_agent_id.clone(),
            enforcement_rule_id: action.enforcement_rule_id.clone(),
            reputation_delta: action.stage.default_delta(),
            additional_evidence: None,
        },
    )
}

/// The effects of the scheduled entries due at `now`, in order.
pub open spec fn fired(s: Seq<(Seq<char>, Seq<char>, Seq<char>, Stage)>, now: Seq<char>) -> Seq<EffectView>
    decreases s.len(),
{
    if s.len() == 0 {
        Seq::empty()
    } else if crate::text::seq_le(s.last().0, now) {
        fired(s.drop_last(), now).push(stage_effect_view(s.last()))
    } else {
        fired(s.drop_last(), now)
    }
}

/// The scheduled entries not yet due at `now`, in order.
pub open spec fn pending(s: Seq<(Seq<char>, Seq<char>, Seq<char>, Stage)>, now: Seq<char>) -> Seq<
    (Seq<char>, Seq<char>, Seq<char>, Stage),
>
    decreases s.len(),
{
    if s.len() == 0 {
        Seq::empty()
    } else if crate::text::seq_le(s.last().0, now) {
        pending(s.drop_last(), now)
    } else {
        pending(s.drop_last(), now).push(s.last())
    }
}

/// The first rule named `name`, if any.
pub open spec fn first_rule_named(rules: Seq<EnforcementRule>, name: Seq<char>) -> Option<EnforcementRule>
    decreases rules.len(),
{
    if rules.len() == 0 {
        None
    } else if rules[0].name@ == name {
        Some(rules[0])
    } else {
        first_rule_named(rules.drop_first(), name)
    }
}

/// An entry at instant `t`, when there is one.
pub open spec fn entry_at(t: Option<Seq<char>>, target: Seq<char>, rule: Seq<char>, stage: Stage) -> Seq<
    (Seq<char>, Seq<char>, Seq<char>, Stage),
> {
    match t {
        Some(t) => seq![(t, target, rule, stage)],
        None => Seq::empty(),
    }
}

/// The evict a quarantine of rule `r` schedules at `now`, if any.
pub open spec fn evict_follow_up(r: EnforcementRule, now: Seq<char>, a: (Seq<char>, Seq<char>, Seq<char>, Stage)) -> Seq<
    (Seq<char>, Seq<char>, Seq<char>, Stage),
> {
    match r.evict {
        Some(e) => entry_at(fire_at_spec(now, e.escalate_after@), a.1, a.2, Stage::Evict),
        None => Seq::empty(),
    }
}

/// The reverse a quarantine of rule `r` schedules at `now`, if any.
pub open spec fn reverse_follow_up(r: EnforcementRule, now: Seq<char>, a: (Seq<char>, Seq<char>, Seq<char>, Stage)) -> Seq<
    (Seq<char>, Seq<char>, Seq<char>, Stage),
> {
    match r.quarantine {
        Some(q) => match q.expires_after {
            Some(x) => entry_at(fire_at_spec(now, x@), a.1, a.2, Stage::Reverse),
            None => Seq::empty(),
        },
        None => Seq::empty(),
    }
}

/// What a stage that fires at `now` schedules next, by its rule (the
/// first of the name): after a coach, the quarantine (when the rule has
/// one, after its `escalate_after`); after a quarantine, the evict (when
/// the rule has one, after its `escalate_after`) and then the reverse
/// (when the quarantine expires, after its `expires_after`). An instant
/// that cannot be computed schedules nothing.
pub open spec fn follow_ups(rules: Seq<EnforcementRule>, now: Seq<char>, a: (Seq<char>, Seq<char>, Seq<char>, Stage)) -> Seq<
    (Seq<char>, Seq<char>, Seq<char>, Stage),
> {
    match first_rule_named(rules, a.2) {
        None => Seq::empty(),
        Some(r) => match a.3 {
            Stage::Coach => match r.quarantine {
                Some(q) => entry_at(fire_at_spec(now, q.escalate_after@), a.1, a.2, Stage::Quarantine),
                None => Seq::empty(),
            },
            Stage::Quarantine => evict_follow_up(r, now, a) + reverse_follow_up(r, now, a),
            _ => Seq::empty(),
        },
    }
}

/// The follow-ups of the entries due at `now`, in order.
pub open spec fn follow_ups_all(
    s: Seq<(Seq<char>, Seq<char>, Seq<char>, Stage)>,
    rules: Seq<EnforcementRule>,
    now: Seq<char>,
) -> Seq<(Seq<char>, Seq<char>, Seq<char>, Stage)>
    decreases s.len(),
{
    if s.len() == 0 {
        Seq::empty()
    } else if crate::text::seq_le(s.last().0, now) {
        follow_ups_all(s.drop_last(), rules, now) + follow_ups(rules, now, s.last())
    } else {
        follow_ups_all(s.drop_last(), rules, now)
    }
}

/// The rules of the active constitution (none without one).
pub open spec fn active_rules(active: Option<Vec<EnforcementRule>>) -> Seq<EnforcementRule> {
    match active {
        Some(r) => r@,
        None => Seq::empty(),
    }
}

/// The views of scheduled actions.
pub open spec fn scheduled_views(v: Seq<ScheduledAction>) -> Seq<(Seq<char>, Seq<char>, Seq<char>, Stage)> {
    v.map_values(|a: ScheduledAction| scheduled_view(a))
}

/// Append an entry at instant `t` when there is one.
fn push_entry(out: &mut Vec<ScheduledAction>, t: Option<String>, target: &String, rule: &String, stage: Stage)
    ensures
        scheduled_views(final(out)@) == scheduled_views(old(out)@) + entry_at(
            match t {
                Some(x) => Some(x@),
                None => None,
            },
            target@,
            rule@,
            stage,
        ),
{
    let ghost before = scheduled_views(out@);
    match t {
        Some(x) => {
            let a = ScheduledAction {
                fire_at_wall_clock: x,
                target_agent_id: target.clone(),
                enforcement_rule_id: rule.clone(),
                stage,
            };
            out.push(a);
            assert(scheduled_views(out@) =~= before + seq![scheduled_view(a)]);
        },
        None => {
            assert(before + Seq::<(Seq<char>, Seq<char>, Seq<char>, Stage)>::empty() =~= before);
        },
    }
}

/// The first rule named `name`.
fn find_rule<'a>(rules: &'a Vec<EnforcementRule>, name: &str) -> (r: Option<&'a EnforcementRule>)
    ensures
        match first_rule_named(rules@, name@) {
            Some(x) => r matches Some(y) && *y == x,
            None => r is None,
        },
{
    let mut i: usize = 0;
    assert(rules@.skip(0) =~= rules@);
    while i < rules.len()
        invariant
            i <= rules@.len(),
            first_rule_named(rules@, name@) == first_rule_named(rules@.skip(i as int), name@),
        decreases rules.len() - i,
    {
        assert(rules@.skip(i as int)[0] == rules@[i as int]);
        assert(rules@.skip(i as int).drop_first() =~= rules@.skip(i + 1));
        if crate::text::str_eq(rules[i].name.as_str(), name) {
            return Some(&rules[i]);
        }
        i = i + 1;
    }
    assert(rules@.skip(i as int) =~= Seq::<EnforcementRule>::empty());
    None
}

/// Append the follow-ups of `entry` firing at `now`.
fn push_follow_ups(out: &mut Vec<ScheduledAction>, active: &Option<Vec<EnforcementRule>>, now: &str, entry: &ScheduledAction)
    ensures
        scheduled_views(final(out)@) == scheduled_views(old(out)@) + follow_ups(
            active_rules(*active),
            now@,
            scheduled_view(*entry),
        ),
{
    let ghost before = scheduled_views(out@);
    let ghost a = scheduled_view(*entry);
    let rules = match active {
        Some(r) => r,
        None => {
            assert(first_rule_named(Seq::<EnforcementRule>::empty(), a.2) is None);
            assert(before + Seq::<(Seq<char>, Seq<char>, Seq<char>, Stage)>::empty() =~= before);
            return;
        },
    };
    let rule = match find_rule(rules, entry.enforcement_rule_id.as_str()) {
        Some(r) => r,
        None => {
            assert(before + Seq::<(Seq<char>, Seq<char>, Seq<char>, Stage)>::empty() =~= before);
            return;
        },
    };
    match entry.stage {
        Stage::Coach => {
            match &rule.quarantine {
                Some(q) => {
                    let t = compute_fire_at(now, q.escalate_after.as_str());
                    push_entry(out, t, &entry.target_agent_id, &entry.enforcement_rule_id, Stage::Quarantine);
                },
                None => {
                    assert(before + Seq::<(Seq<char>, Seq<char>, Seq<char>, Stage)>::empty() =~= before);
                },
            }
        },
        Stage::Quarantine => {
            let ghost e_part = evict_follow_up(*rule, now@, a);
            let ghost r_part = reverse_follow_up(*rule, now@, a);
            match &rule.evict {
                Some(e) => {
                    let t = compute_fire_at(now, e.escalate_after.as_str());
                    push_entry(out, t, &entry.target_agent_id, &entry.enforcement_rule_id, Stage::Evict);
                },
                None => {
                    assert(before + Seq::<(Seq<char>, Seq<char>, Seq<char>, Stage)>::empty() =~= before);
                },
            }
            assert(scheduled_views(out@) == before + e_part);
            let ghost mid = scheduled_views(out@);
            match &rule.quarantine {
                Some(q) => match &q.expires_after {
                    Some(x) => {
                        let t = compute_fire_at(now, x.as_str());
                        push_entry(out, t, &entry.target_agent_id, &entry.enforcement_rule_id, Stage::Reverse);
                    },
                    None => {
                        assert(mid + Seq::<(Seq<char>, Seq<char>, Seq<char>, Stage)>::empty() =~= mid);
                    },
                },
                None => {
                    assert(mid + Seq::<(Seq<char>, Seq<char>, Seq<char>, Stage)>::empty() =~= mid);
                },
            }
            assert(scheduled_views(out@) =~= before + (e_part + r_part));
        },
        _ => {
            assert(before + Seq::<(Seq<char>, Seq<char>, Seq<char>, Stage)>::empty() =~= before);
        },
    }
}

/// Every rule in turn against one receipt, collecting the effects.
pub open spec fn detect_all(m: EngineModel, rules: Seq<EnforcementRule>, rc: ReceiptView) -> (
    EngineModel,
    Seq<EffectView>,
)
    decreases rules.len(),
{
    if rules.len() == 0 {
        (m, Seq::empty())
    } else {
        let prev = detect_all(m, rules.drop_last(), rc);
        let step = detect_step(prev.0, rules.last(), rc);
        (
            step.0,
            match step.1 {
                Some(e) => prev.1.push(e),
                None => prev.1,
            },
        )
    }
}

/// The receipt's reputation delta, if any, reads within `i64`.
pub open spec fn delta_in_range(rc: ReceiptView) -> bool {
    match rc.reputation_delta {
        Some(d) => score_in_range(d.0@),
        None => true,
    }
}

/// An `enforcement.*` receipt.
pub open spec fn is_enforcement_kind(k: Seq<char>) -> bool {
    crate::text::starts_with_spec(k, "enforcement."@)
}

/// The agents after an `enforcement.*` receipt about principal `p`: its
/// delta moves the reputation; `enforcement.quarantine` sets the
/// quarantine flag, `enforcement.reverse` and `enforcement.evict` clear
/// it.
pub open spec fn agents_after_enforcement(agents: Map<Seq<char>, AgentState>, rc: ReceiptView) -> Map<
    Seq<char>,
    AgentState,
> {
    match rc.principal_id {
        None => agents,
        Some(p) => {
            let a1 = match rc.reputation_delta {
                Some(d) => after_delta(agents, p@, d.0@),
                None => agents,
            };
            if rc.action_kind@ == "enforcement.quarantine"@ {
                with_quarantine(a1, p@, true)
            } else if rc.action_kind@ == "enforcement.reverse"@ || rc.action_kind@ == "enforcement.evict"@ {
                with_quarantine(a1, p@, false)
            } else {
                a1
            }
        },
    }
}

/// The enforcement engine: the rules of the active constitution and the
/// state they drive.
pub struct EnforcementEngine {
    /// The enforcement rules of the active constitution, if any.
    pub active: Option<Vec<EnforcementRule>>,
    /// Agents, counters and schedule.
    pub state: EngineState,
}

impl EnforcementEngine {
    /// Every known agent's reputation is within `[0, 1]`.
    pub open spec fn wf(&self) -> bool {
        reputations_in_range(self.state.agents@)
    }

    /// A fresh engine: no active constitution, no agents, counters or
    /// schedule.
    pub fn new() -> (e: EnforcementEngine)
        ensures
            e.wf(),
            e.active is None,
            e.state.agents@ == Map::<Seq<char>, AgentState>::empty(),
            e.state.counters@ == Map::<(Seq<char>, Seq<char>), Seq<u64>>::empty(),
            e.state.scheduled@.len() == 0,
    {
        EnforcementEngine { active: None, state: EngineState::fresh() }
    }

    /// Bind the enforcement rules of a freshly activated constitution.
    /// Counters reset; reputation, stages, quarantine and the schedule
    /// carry over.
    pub fn activate(&mut self, rules: Vec<EnforcementRule>)
        ensures
            final(self).active == Some(rules),
            final(self).state.counters@ == Map::<(Seq<char>, Seq<char>), Seq<u64>>::empty(),
            final(self).state.agents@ == old(self).state.agents@,
            final(self).state.scheduled@ == old(self).state.scheduled@,
            old(self).wf() ==> final(self).wf(),
    {
        self.active = Some(rules);
        self.state.counters.clear();
    }

    /// Process a landed receipt and return the effects it triggered.
    /// `enforcement.*` receipts only move the principal's reputation and
    /// quarantine flag and trigger nothing; other receipts run through
    /// every active rule in order.
    pub fn on_receipt(&mut self, receipt: ReceiptView) -> (r: Vec<EnforcementEffect>)
        requires
            old(self).wf(),
            delta_in_range(receipt),
        ensures
            final(self).wf(),
            final(self).active == old(self).active,
            is_enforcement_kind(receipt.action_kind@) ==> {
                &&& final(self).state.agents@ == agents_after_enforcement(old(self).state.agents@, receipt)
                &&& final(self).state.counters@ == old(self).state.counters@
                &&& final(self).state.scheduled@ == old(self).state.scheduled@
                &&& r@.len() == 0
            },
            !is_enforcement_kind(receipt.action_kind@) && old(self).active is None ==> {
                &&& final(self).state.model() == old(self).state.model()
                &&& r@.len() == 0
            },
            !is_enforcement_kind(receipt.action_kind@) && old(self).active is Some ==> {
                let out = detect_all(old(self).state.model(), old(self).active->0@, receipt);
                &&& final(self).state.model() == out.0
                &&& effect_views(r@) == out.1
            },
    {
        if crate::text::starts_with(receipt.action_kind, "enforcement.") {
            if let Some(principal) = receipt.principal_id {
                if let Some(delta) = &receipt.reputation_delta {
                    self.state.apply_reputation_delta(principal, delta);
                }
                if str_eq(receipt.action_kind, "enforcement.quarantine") {
                    self.state.set_quarantine(principal, true);
                } else if str_eq(receipt.action_kind, "enforcement.reverse") || str_eq(
                    receipt.action_kind,
                    "enforcement.evict",
                ) {
                    self.state.set_quarantine(principal, false);
                }
            }
            return Vec::new();
        }
        let mut effects: Vec<EnforcementEffect> = Vec::new();
        match &self.active {
            None => {},
            Some(rules) => {
                let ghost m0 = self.state.model();
                let mut i: usize = 0;
                assert(rules@.take(0) =~= Seq::<EnforcementRule>::empty());
                while i < rules.len()
                    invariant
                        i <= rules@.len(),
                        self.active == old(self).active,
                        old(self).active == Some(*rules),
                        reputations_in_range(self.state.agents@),
                        (self.state.model(), effect_views(effects@)) == detect_all(
                            m0,
                            rules@.take(i as int),
                            receipt,
                        ),
                    decreases rules.len() - i,
                {
                    assert(rules@.take(i + 1).drop_last() =~= rules@.take(i as int));
                    assert(rules@.take(i + 1).last() == rules@[i as int]);
                    match self.state.check_detect(&rules[i], &receipt) {
                        Some(e) => {
                            let ghost before = effects@;
                            effects.push(e);
                            assert(effect_views(effects@) =~= effect_views(before).push(effect_view(e)));
                        },
                        None => {},
                    }
                    i = i + 1;
                }
                assert(rules@.take(rules.len() as int) =~= rules@);
            },
        }
        effects
    }

    /// Whether agent `agent_id` is quarantined (an unknown agent is not).
    /// Over a run of calls from a fresh engine, see
    /// [`lemma_quarantine_follows_receipts`].
    pub fn is_agent_quarantined(&self, agent_id: &str) -> (q: bool)
        ensures
            q == (self.state.agents@.contains_key(agent_id@) && self.state.agents@[agent_id@].quarantined),
    {
        match self.state.agents.get(agent_id) {
            Some(a) => a.quarantined,
            None => false,
        }
    }

    /// Agent `agent_id`'s reputation as a decimal; an unknown agent has
    /// the initial `"1.0"`. It lies within `[0, 1]`.
    pub fn agent_reputation(&self, agent_id: &str) -> (s: Score)
        ensures
            s.0@ == render_spec(agent_or_initial(self.state.agents@, agent_id@).reputation_scaled as int),
            self.wf() ==> 0 <= agent_or_initial(self.state.agents@, agent_id@).reputation_scaled <= 10000,
    {
        let scaled = match self.state.agents.get(agent_id) {
            Some(a) => a.reputation_scaled,
            None => INITIAL_REPUTATION_SCALED,
        };
        render_score_scaled(scaled)
    }

    /// Fire the scheduled transitions due at `now` (their instant is at
    /// or before `now`), in scheduling order; the others stay pending,
    /// followed by what the fired stages schedule next (see
    /// [`follow_ups`]): a coach schedules the quarantine, a quarantine
    /// the evict and the reverse, each counted from `now`.
    pub fn poll_scheduled(&mut self, now: &str) -> (r: Vec<EnforcementEffect>)
        ensures
            effect_views(r@) == fired(old(self).state.model().scheduled, now@),
            final(self).state.model().scheduled == pending(old(self).state.model().scheduled, now@)
                + follow_ups_all(old(self).state.model().scheduled, active_rules(old(self).active), now@),
            final(self).state.agents@ == old(self).state.agents@,
            final(self).state.counters@ == old(self).state.counters@,
            final(self).active == old(self).active,
            old(self).wf() ==> final(self).wf(),
    {
        let ghost s0 = self.state.model().scheduled;
        let ghost rules = active_rules(self.active);
        let mut effects: Vec<EnforcementEffect> = Vec::new();
        let mut still_pending: Vec<ScheduledAction> = Vec::new();
        let mut follow: Vec<ScheduledAction> = Vec::new();
        let n = self.state.scheduled.len();
        let mut i: usize = 0;
        assert(s0.take(0) =~= Seq::<(Seq<char>, Seq<char>, Seq<char>, Stage)>::empty());
        while i < n
            invariant
                n == self.state.scheduled@.len(),
                s0 == self.state.model().scheduled,
                rules == active_rules(self.active),
                i <= n,
                effect_views(effects@) == fired(s0.take(i as int), now@),
                scheduled_views(still_pending@) == pending(s0.take(i as int), now@),
                scheduled_views(follow@) == follow_ups_all(s0.take(i as int), rules, now@),
            decreases n - i,
        {
            assert(s0.take(i + 1).drop_last() =~= s0.take(i as int));
            assert(s0.take(i + 1).last() == scheduled_view(self.state.scheduled@[i as int]));
            let entry = &self.state.scheduled[i];
            if crate::text::str_le(entry.fire_at_wall_clock.as_str(), now) {
                match build_stage_effect(entry) {
                    Some(e) => {
                        let ghost before = effects@;
                        effects.push(e);
                        assert(effect_views(effects@) =~= effect_views(before).push(effect_view(e)));
                    },
                    None => {},
                }
                push_follow_ups(&mut follow, &self.active, now, entry);
            } else {
                let ghost before = still_pending@;
                let kept = ScheduledAction {
                    fire_at_wall_clock: entry.fire_at_wall_clock.clone(),
                    target_agent_id: entry.target_agent_id.clone(),
                    enforcement_rule_id: entry.enforcement_rule_id.clone(),
                    stage: entry.stage,
                };
                still_pending.push(kept);
                assert(scheduled_views(still_pending@) =~= scheduled_views(before).push(scheduled_view(kept)));
            }
            i = i + 1;
        }
        assert(s0.take(n as int) =~= s0);
        let ghost p = scheduled_views(still_pending@);
        let ghost f = scheduled_views(follow@);
        still_pending.append(&mut follow);
        assert(scheduled_views(still_pending@) =~= p + f);
        self.state.scheduled = still_pending;
        effects
    }
}

impl Default for EnforcementEngine {
    /// A fresh engine.
    fn default() -> (e: EnforcementEngine)
        ensures
            e.wf(),
            e.active is None,
            e.state.agents@ == Map::<Seq<char>, AgentState>::empty(),
            e.state.counters@ == Map::<(Seq<char>, Seq<char>), Seq<u64>>::empty(),
            e.state.scheduled@.len() == 0,
    {
        EnforcementEngine::new()
    }
}


// ---------------------------------------------------------------------------
// The quarantine flag over a run of calls
// ---------------------------------------------------------------------------

/// Agent `a` is quarantined in `agents` (an unknown agent is not).
pub open spec fn flagged(agents: Map<Seq<char>, AgentState>, a: Seq<char>) -> bool {
    agents.contains_key(a) && agents[a].quarantined
}

/// What the receipts of a run of calls say of agent `a`: the last receipt
/// about `a` of kind `enforcement.quarantine`, `.reverse` or `.evict` is a
/// quarantine. A call without a receipt (`None`: an activation or a poll)
/// says nothing.
pub open spec fn quarantine_verdict<'a>(calls: Seq<Option<ReceiptView<'a>>>, a: Seq<char>) -> bool
    decreases calls.len(),
{
    if calls.len() == 0 {
        false
    } else {
        match calls.last() {
            Some(rc) => if rc.principal_id matches Some(p) && p@ == a && rc.action_kind@ == "enforcement.quarantine"@ {
                true
            } else if rc.principal_id matches Some(p) && p@ == a && (rc.action_kind@ == "enforcement.reverse"@
                || rc.action_kind@ == "enforcement.evict"@) {
                false
            } else {
                quarantine_verdict(calls.drop_last(), a)
            },
            None => quarantine_verdict(calls.drop_last(), a),
        }
    }
}

/// What one call does to the agents, as the contracts of
/// [`EnforcementEngine::on_receipt`] (`Some` receipt),
/// [`EnforcementEngine::activate`] and
/// [`EnforcementEngine::poll_scheduled`] (`None`) state it.
pub open spec fn agents_step<'a>(
    m0: Map<Seq<char>, AgentState>,
    call: Option<ReceiptView<'a>>,
    m1: Map<Seq<char>, AgentState>,
) -> bool {
    match call {
        None => m1 == m0,
        Some(rc) => if is_enforcement_kind(rc.action_kind@) {
            m1 == agents_after_enforcement(m0, rc)
        } else {
            m1 == m0 || exists|m: EngineModel, rules: Seq<EnforcementRule>|
                #![trigger detect_all(m, rules, rc)]
                m.agents == m0 && m1 == detect_all(m, rules, rc).0.agents
        },
    }
}

proof fn lemma_enforcement_prefix(k: &str)
    requires
        k@ == "enforcement.quarantine"@ || k@ == "enforcement.reverse"@ || k@ == "enforcement.evict"@,
    ensures
        is_enforcement_kind(k@),
{
    reveal_strlit("enforcement.quarantine");
    reveal_strlit("enforcement.reverse");
    reveal_strlit("enforcement.evict");
    reveal_strlit("enforcement.");
    assert(k@.take(12) =~= "enforcement."@);
}

proof fn lemma_detect_step_keeps_flags<'a>(m: EngineModel, rule: EnforcementRule, rc: ReceiptView<'a>, a: Seq<char>)
    ensures
        flagged(detect_step(m, rule, rc).0.agents, a) == flagged(m.agents, a),
{
}

proof fn lemma_detect_all_keeps_flags<'a>(m: EngineModel, rules: Seq<EnforcementRule>, rc: ReceiptView<'a>, a: Seq<char>)
    ensures
        flagged(detect_all(m, rules, rc).0.agents, a) == flagged(m.agents, a),
    decreases rules.len(),
{
    if rules.len() > 0 {
        lemma_detect_all_keeps_flags(m, rules.drop_last(), rc, a);
        lemma_detect_step_keeps_flags(detect_all(m, rules.drop_last(), rc).0, rules.last(), rc, a);
    }
}

/// The quarantine flag follows the receipts: starting from a fresh engine
/// (no agents), after any run of calls of `on_receipt`, `activate` and
/// `poll_scheduled` (each step as its contract states, `trace` holding
/// the agents before and after each call), agent `a` is quarantined
/// exactly when, among the receipts about `a` of kind
/// `enforcement.quarantine`, `.reverse` and `.evict`, the last is a
/// quarantine; with none it is not.
pub proof fn lemma_quarantine_follows_receipts<'a>(
    trace: Seq<Map<Seq<char>, AgentState>>,
    calls: Seq<Option<ReceiptView<'a>>>,
    a: Seq<char>,
)
    requires
        trace.len() == calls.len() + 1,
        trace[0] == Map::<Seq<char>, AgentState>::empty(),
        forall|i: int| 0 <= i < calls.len() ==> agents_step(#[trigger] trace[i], calls[i], trace[i + 1]),
    ensures
        flagged(trace.last(), a) == quarantine_verdict(calls, a),
    decreases calls.len(),
{
    if calls.len() > 0 {
        let n = calls.len() - 1;
        let t = trace.drop_last();
        assert forall|i: int| 0 <= i < calls.drop_last().len() implies agents_step(
            #[trigger] t[i],
            calls.drop_last()[i],
            t[i + 1],
        ) by {
            assert(agents_step(trace[i], calls[i], trace[i + 1]));
        }
        lemma_quarantine_follows_receipts(t, calls.drop_last(), a);
        assert(t.last() == trace[n]);
        assert(agents_step(trace[n], calls[n], trace[n + 1]));
        match calls[n] {
            None => {},
            Some(rc) => {
                if !is_enforcement_kind(rc.action_kind@) {
                    if trace[n + 1] != trace[n] {
                        let (m, rules) = choose|m: EngineModel, rules: Seq<EnforcementRule>|
                            #![trigger detect_all(m, rules, rc)]
                            m.agents == trace[n] && trace[n + 1] == detect_all(m, rules, rc).0.agents;
                        lemma_detect_all_keeps_flags(m, rules, rc, a);
                    }
                    assert(rc.action_kind@ != "enforcement.quarantine"@) by {
                        lemma_enforcement_prefix("enforcement.quarantine");
                    }
                    assert(rc.action_kind@ != "enforcement.reverse"@) by {
                        lemma_enforcement_prefix("enforcement.reverse");
                    }
                    assert(rc.action_kind@ != "enforcement.evict"@) by {
                        lemma_enforcement_prefix("enforcement.evict");
                    }
                }
            },
        }
    }
}


// ---------------------------------------------------------------------------
// The detection window
// ---------------------------------------------------------------------------

/// The timestamps of `ts` within `window` of `now`, in order: those at or
/// after `now - window` (all of them while `now < window`).
pub open spec fn in_window(ts: Seq<u64>, now: u64, window: u64) -> Seq<u64>
    decreases ts.len(),
{
    if ts.len() == 0 {
        Seq::empty()
    } else {
        let r = in_window(ts.drop_last(), now, window);
        if now < window || ts.last() >= now - window {
            r.push(ts.last())
        } else {
            r
        }
    }
}

/// The bucket of the rule and the receipt's group, empty when there is
/// none yet.
pub open spec fn bucket_of(m: EngineModel, rule: EnforcementRule, rc: ReceiptView) -> Seq<u64> {
    let ck = (rule.name@, group_key_spec(rule, rc));
    if m.counters.contains_key(ck) {
        m.counters[ck]
    } else {
        Seq::empty()
    }
}

proof fn lemma_keep_recent_in_window(ts: Seq<u64>, now: u64, window: u64)
    requires
        now >= window,
    ensures
        keep_recent(ts, (now - window) as u64) == in_window(ts, now, window),
    decreases ts.len(),
{
    if ts.len() > 0 {
        lemma_keep_recent_in_window(ts.drop_last(), now, window);
    }
}

proof fn lemma_in_window_len(ts: Seq<u64>, now: u64, window: u64)
    ensures
        in_window(ts, now, window).len() <= ts.len(),
    decreases ts.len(),
{
    if ts.len() > 0 {
        lemma_in_window_len(ts.drop_last(), now, window);
    }
}

proof fn lemma_all_in_window(ts: Seq<u64>, now: u64, window: u64)
    requires
        now < window,
    ensures
        in_window(ts, now, window) == ts,
    decreases ts.len(),
{
    if ts.len() > 0 {
        lemma_all_in_window(ts.drop_last(), now, window);
        assert(ts.drop_last().push(ts.last()) =~= ts);
    }
}

/// The detection window: a receipt that fails the rule's trigger filters
/// changes nothing and fires nothing. A matching receipt at time `t`
/// counts the timestamps of its bucket (the rule and its group key: the
/// principal, or none for `group_by: none`) that lie within the rule's
/// window of `t`, itself included. The rule fires exactly when that count
/// reaches its threshold; then the bucket is emptied and the effect
/// targets the group key; otherwise the bucket holds just those
/// timestamps. The buckets of every other rule and group are unchanged.
/// (The count is compared as a `u32`, so buckets of `u32::MAX`
/// timestamps or more are left out.)
pub proof fn lemma_detect_window<'a>(m: EngineModel, rule: EnforcementRule, rc: ReceiptView<'a>)
    requires
        bucket_of(m, rule, rc).len() < u32::MAX,
    ensures
        ({
            let key = (rule.name@, group_key_spec(rule, rc));
            let t = rc.occurred_at_unix_ns;
            let kept = in_window(bucket_of(m, rule, rc).push(t), t, window_of(rule));
            let s = detect_step(m, rule, rc);
            &&& !trigger_matches(rule, rc) ==> s == (m, None::<EffectView>)
            &&& trigger_matches(rule, rc) ==> {
                &&& (s.1 is Some <==> kept.len() >= rule.detect.count_threshold)
                &&& s.1 matches Some(e) ==> s.0.counters.contains_key(key) && s.0.counters[key] == Seq::<u64>::empty()
                    && e.target == key.1
                &&& s.1 is None ==> s.0.counters.contains_key(key) && s.0.counters[key] == kept
                &&& forall|k: (Seq<char>, Seq<char>)|
                    k != key ==> (#[trigger] s.0.counters.contains_key(k) == m.counters.contains_key(k))
                        && (m.counters.contains_key(k) ==> s.0.counters[k] == m.counters[k])
            }
        }),
{
    let t = rc.occurred_at_unix_ns;
    let w = window_of(rule);
    let b = bucket_of(m, rule, rc);
    let kept = in_window(b.push(t), t, w);
    assert(b.push(t).drop_last() =~= b);
    assert(kept == in_window(b, t, w).push(t));
    if t >= w {
        lemma_keep_recent_in_window(b, t, w);
    } else {
        lemma_all_in_window(b, t, w);
    }
    assert(bucket_after(m, rule, rc) == kept);
    lemma_in_window_len(b, t, w);
    assert(kept.len() <= u32::MAX);
    assert((kept.len() as u32) as int == kept.len());
    let key = (rule.name@, group_key_spec(rule, rc));
    let s = detect_step(m, rule, rc);
    if trigger_matches(rule, rc) {
        assert(s.1 is Some <==> kept.len() >= rule.detect.count_threshold);
        assert(s.1 is None ==> s.0.counters.contains_key(key) && s.0.counters[key] == kept);
    }
}

/// Under `group_by: none` a rule keeps one window for all principals:
/// every receipt's group key is empty, any two receipts read the same
/// bucket, and a matching receipt that does not fire leaves its own time
/// in the window that the next receipt, from any principal, is counted
/// against.
pub proof fn lemma_group_none_shares_window<'a, 'b>(
    m: EngineModel,
    rule: EnforcementRule,
    rc1: ReceiptView<'a>,
    rc2: ReceiptView<'b>,
)
    requires
        rule.detect.group_by@ == "none"@,
    ensures
        group_key_spec(rule, rc1) == Seq::<char>::empty(),
        bucket_of(m, rule, rc1) == bucket_of(m, rule, rc2),
        trigger_matches(rule, rc1) && detect_step(m, rule, rc1).1 is None ==> bucket_of(
            detect_step(m, rule, rc1).0,
            rule,
            rc2,
        ) == in_window(bucket_of(m, rule, rc1).push(rc1.occurred_at_unix_ns), rc1.occurred_at_unix_ns, window_of(rule)),
{
    if trigger_matches(rule, rc1) && detect_step(m, rule, rc1).1 is None {
        let t = rc1.occurred_at_unix_ns;
        let w = window_of(rule);
        let b = bucket_of(m, rule, rc1);
        assert(b.push(t).drop_last() =~= b);
        if t >= w {
            lemma_keep_recent_in_window(b, t, w);
        } else {
            lemma_all_in_window(b, t, w);
        }
    }
}

/// Under any other `group_by`, a rule keeps one window per principal:
/// a receipt's group key is its principal, and a receipt about one
/// principal leaves the window of another principal as it was.
pub proof fn lemma_group_by_principal_isolates<'a, 'b>(
    m: EngineModel,
    rule: EnforcementRule,
    rc1: ReceiptView<'a>,
    rc2: ReceiptView<'b>,
)
    requires
        rule.detect.group_by@ != "none"@,
        rc1.principal_id is Some,
        rc2.principal_id is Some,
        rc1.principal_id->0@ != rc2.principal_id->0@,
    ensures
        group_key_spec(rule, rc1) == rc1.principal_id->0@,
        bucket_of(detect_step(m, rule, rc1).0, rule, rc2) == bucket_of(m, rule, rc2),
{
}
} // verus!
