//! Structural validators of the engine config: name uniqueness, score
//! shape, procedure graph well-formedness, escalation acyclicity,
//! enforcement-rule shape, duration strings, `@<name>` substitution and
//! the load-time count bounds.
//!
//! Each validator reports the first problem it meets, in the order the
//! config lists its items, with the offending item's name and a detail
//! text; a name in a detail is written between double quotes.

use std::time::Duration;

use vstd::prelude::*;

use crate::decimal::is_digit;
use crate::engine_config::{EngineConfig, EnforcementRule, Procedure, ProcedureTransition};
use crate::error::{CedarPlusError, LoadBoundReason};
use crate::numtext::{parse_u64, parse_u64_spec, trim_chars, trim_spec};
use crate::string_map::last_index_of;
use crate::sandbox::{duration_from_millis, duration_from_secs, millis_duration, secs_duration, SandboxConfig};
use vstd::string::*;

use crate::text::{chars_of, message, owned, quoted_in, str_eq, string_from_chars, vec_contains};

verus! {

// ---------------------------------------------------------------------------
// Errors
// ---------------------------------------------------------------------------

/// `e` is `InvalidScoringRule` for `rule` with `detail`.
pub open spec fn scoring_error(e: CedarPlusError, rule: Seq<char>, detail: Seq<char>) -> bool {
    e matches CedarPlusError::InvalidScoringRule { rule: r, detail: d } && r@ == rule && d@ == detail
}

/// `e` is `InvalidProcedure` for `procedure` with `detail`.
pub open spec fn procedure_error(e: CedarPlusError, procedure: Seq<char>, detail: Seq<char>) -> bool {
    e matches CedarPlusError::InvalidProcedure { procedure: p, detail: d } && p@ == procedure && d@
        == detail
}

/// `e` is `InvalidEnforcementRule` for `rule` with `detail`.
pub open spec fn enforcement_error(e: CedarPlusError, rule: Seq<char>, detail: Seq<char>) -> bool {
    e matches CedarPlusError::InvalidEnforcementRule { rule: r, detail: d } && r@ == rule && d@
        == detail
}

// ---------------------------------------------------------------------------
// Name uniqueness
// ---------------------------------------------------------------------------

/// No name occurs twice.
pub open spec fn distinct_names(s: Seq<Seq<char>>) -> bool {
    forall|i: int, j: int| 0 <= i < j < s.len() ==> s[i] != s[j]
}

/// `j` is the first position whose name already occurred before it.
pub open spec fn first_repeat_at(s: Seq<Seq<char>>, j: int) -> bool {
    &&& 0 <= j < s.len()
    &&& s.take(j).contains(s[j])
    &&& distinct_names(s.take(j))
}

pub open spec fn scoring_names(c: EngineConfig) -> Seq<Seq<char>> {
    Seq::new(c.scoring_rules@.len(), |i: int| c.scoring_rules@[i].name@)
}

pub open spec fn procedure_names(c: EngineConfig) -> Seq<Seq<char>> {
    Seq::new(c.procedures@.len(), |i: int| c.procedures@[i].name@)
}

pub open spec fn enforcement_names(c: EngineConfig) -> Seq<Seq<char>> {
    Seq::new(c.enforcement_rules@.len(), |i: int| c.enforcement_rules@[i].name@)
}

pub open spec fn predicate_names(c: EngineConfig) -> Seq<Seq<char>> {
    Seq::new(c.predicates@.len(), |i: int| c.predicates@[i].name@)
}

/// The position of the first repeated name, or `None` when all differ.
fn first_repeat(names: &Vec<String>) -> (r: Option<usize>)
    ensures
        match r {
            None => distinct_names(names.deep_view()),
            Some(j) => first_repeat_at(names.deep_view(), j as int),
        },
{
    let ghost s = names.deep_view();
    let mut j: usize = 0;
    while j < names.len()
        invariant
            j <= names.len(),
            s == names.deep_view(),
            distinct_names(s.take(j as int)),
        decreases names.len() - j,
    {
        let mut i: usize = 0;
        while i < j
            invariant
                i <= j < names.len(),
                s == names.deep_view(),
                distinct_names(s.take(j as int)),
                forall|k: int| 0 <= k < i ==> s[k] != s[j as int],
            decreases j - i,
        {
            if str_eq(names[i].as_str(), names[j].as_str()) {
                assert(s.take(j as int)[i as int] == s[j as int]);
                return Some(j);
            }
            i = i + 1;
        }
        assert(distinct_names(s.take(j + 1))) by {
            assert forall|a: int, b: int| 0 <= a < b < j + 1 implies #[trigger] s.take(j + 1)[a]
                != #[trigger] s.take(j + 1)[b] by {
                if b < j {
                    assert(s.take(j as int)[a] == s[a] && s.take(j as int)[b] == s[b]);
                }
            }
        }
        j = j + 1;
    }
    assert(s.take(names.len() as int) =~= s);
    None
}

/// Every name of `names`, in order.
fn collect_scoring_names(c: &EngineConfig) -> (out: Vec<String>)
    ensures
        out.deep_view() == scoring_names(*c),
{
    let mut out: Vec<String> = Vec::new();
    for i in 0..c.scoring_rules.len()
        invariant
            out@.len() == i,
            forall|j: int| 0 <= j < i ==> (#[trigger] out@[j])@ == c.scoring_rules@[j].name@,
    {
        out.push(c.scoring_rules[i].name.clone());
    }
    assert(out.deep_view() =~= scoring_names(*c));
    out
}

fn collect_procedure_names(c: &EngineConfig) -> (out: Vec<String>)
    ensures
        out.deep_view() == procedure_names(*c),
{
    let mut out: Vec<String> = Vec::new();
    for i in 0..c.procedures.len()
        invariant
            out@.len() == i,
            forall|j: int| 0 <= j < i ==> (#[trigger] out@[j])@ == c.procedures@[j].name@,
    {
        out.push(c.procedures[i].name.clone());
    }
    assert(out.deep_view() =~= procedure_names(*c));
    out
}

fn collect_enforcement_names(c: &EngineConfig) -> (out: Vec<String>)
    ensures
        out.deep_view() == enforcement_names(*c),
{
    let mut out: Vec<String> = Vec::new();
    for i in 0..c.enforcement_rules.len()
        invariant
            out@.len() == i,
            forall|j: int| 0 <= j < i ==> (#[trigger] out@[j])@ == c.enforcement_rules@[j].name@,
    {
        out.push(c.enforcement_rules[i].name.clone());
    }
    assert(out.deep_view() =~= enforcement_names(*c));
    out
}

fn collect_predicate_names(c: &EngineConfig) -> (out: Vec<String>)
    ensures
        out.deep_view() == predicate_names(*c),
{
    let mut out: Vec<String> = Vec::new();
    for i in 0..c.predicates.len()
        invariant
            out@.len() == i,
            forall|j: int| 0 <= j < i ==> (#[trigger] out@[j])@ == c.predicates@[j].name@,
    {
        out.push(c.predicates[i].name.clone());
    }
    assert(out.deep_view() =~= predicate_names(*c));
    out
}

/// No two scoring rules, procedures, enforcement rules or predicates of
/// `c` share a name (within each group).
pub open spec fn names_ok(c: EngineConfig) -> bool {
    &&& distinct_names(scoring_names(c))
    &&& distinct_names(procedure_names(c))
    &&& distinct_names(enforcement_names(c))
    &&& distinct_names(predicate_names(c))
}

/// `e` is the error reported for repeated names: the first repeat of the
/// first group that has one.
pub open spec fn unique_names_error(c: EngineConfig, e: CedarPlusError) -> bool {
    if !distinct_names(scoring_names(c)) {
        exists|j: int|
            first_repeat_at(scoring_names(c), j) && scoring_error(e, scoring_names(c)[j], "duplicate scoring-rule name"@)
    } else if !distinct_names(procedure_names(c)) {
        exists|j: int|
            first_repeat_at(procedure_names(c), j) && procedure_error(e, procedure_names(c)[j], "duplicate procedure name"@)
    } else if !distinct_names(enforcement_names(c)) {
        exists|j: int|
            first_repeat_at(enforcement_names(c), j) && enforcement_error(
                e,
                enforcement_names(c)[j],
                "duplicate enforcement-rule name"@,
            )
    } else {
        exists|j: int|
            first_repeat_at(predicate_names(c), j) && (e matches CedarPlusError::Parse(m) && m@
                == "duplicate predicate name: "@ + predicate_names(c)[j])
    }
}

/// Verify that no two scoring rules, procedures, enforcement rules or
/// named predicates share a name. The groups are checked in that order,
/// and within a group the first repeated name is reported.
pub fn check_unique_names(config: &EngineConfig) -> (r: Result<(), CedarPlusError>)
    ensures
        r is Ok <==> (distinct_names(scoring_names(*config)) && distinct_names(procedure_names(*config))
            && distinct_names(enforcement_names(*config)) && distinct_names(predicate_names(*config))),
        !distinct_names(scoring_names(*config)) ==> exists|j: int|
            first_repeat_at(scoring_names(*config), j) && (r matches Err(e) && scoring_error(
                e,
                scoring_names(*config)[j],
                "duplicate scoring-rule name"@,
            )),
        distinct_names(scoring_names(*config)) && !distinct_names(procedure_names(*config))
            ==> exists|j: int|
            first_repeat_at(procedure_names(*config), j) && (r matches Err(e) && procedure_error(
                e,
                procedure_names(*config)[j],
                "duplicate procedure name"@,
            )),
        distinct_names(scoring_names(*config)) && distinct_names(procedure_names(*config))
            && !distinct_names(enforcement_names(*config)) ==> exists|j: int|
            first_repeat_at(enforcement_names(*config), j) && (r matches Err(e) && enforcement_error(
                e,
                enforcement_names(*config)[j],
                "duplicate enforcement-rule name"@,
            )),
        distinct_names(scoring_names(*config)) && distinct_names(procedure_names(*config))
            && distinct_names(enforcement_names(*config)) && !distinct_names(predicate_names(*config))
            ==> exists|j: int|
            first_repeat_at(predicate_names(*config), j) && (r matches Err(CedarPlusError::Parse(m))
                && m@ == "duplicate predicate name: "@ + predicate_names(*config)[j]),
        r matches Err(e) ==> unique_names_error(*config, e),
{
    let names = collect_scoring_names(config);
    if let Some(j) = first_repeat(&names) {
        return Err(
            CedarPlusError::InvalidScoringRule {
                rule: names[j].clone(),
                detail: owned("duplicate scoring-rule name"),
            },
        );
    }
    let names = collect_procedure_names(config);
    if let Some(j) = first_repeat(&names) {
        return Err(
            CedarPlusError::InvalidProcedure {
                procedure: names[j].clone(),
                detail: owned("duplicate procedure name"),
            },
        );
    }
    let names = collect_enforcement_names(config);
    if let Some(j) = first_repeat(&names) {
        return Err(
            CedarPlusError::InvalidEnforcementRule {
                rule: names[j].clone(),
                detail: owned("duplicate enforcement-rule name"),
            },
        );
    }
    let names = collect_predicate_names(config);
    if let Some(j) = first_repeat(&names) {
        let mut m = owned("duplicate predicate name: ");
        m.append(names[j].as_str());
        return Err(CedarPlusError::Parse(m));
    }
    Ok(())
}

// ---------------------------------------------------------------------------
// Scores
// ---------------------------------------------------------------------------

/// `s` without its leading minus signs.
pub open spec fn strip_dashes(s: Seq<char>) -> Seq<char>
    decreases s.len(),
{
    if s.len() > 0 && s[0] == '-' {
        strip_dashes(s.drop_first())
    } else {
        s
    }
}

/// The textual zero forms a score may not take.
pub open spec fn is_zero_score_text(s: Seq<char>) -> bool {
    s == "0"@ || s == "0.0"@ || s == "0.00"@ || s == "-0"@ || s == "-0.0"@ || s == "-0.00"@
}

/// What is wrong with a score's text, if anything: empty, not starting
/// with a digit after its minus signs, or a zero form.
pub open spec fn score_problem(s: Seq<char>) -> Option<Seq<char>> {
    if s.len() == 0 {
        Some("score is empty"@)
    } else if strip_dashes(s).len() == 0 || !is_digit(strip_dashes(s)[0]) {
        Some(quoted_in("score "@, s, " doesn't look numeric"@))
    } else if is_zero_score_text(s) {
        Some("score must not be zero"@)
    } else {
        None
    }
}

/// The problem of the `i`-th scoring rule.
pub open spec fn scoring_rule_problem(c: EngineConfig, i: int) -> Option<Seq<char>> {
    score_problem(c.scoring_rules@[i].score.0@)
}

/// Every scoring rule's score has the right shape.
pub open spec fn scoring_rules_ok(c: EngineConfig) -> bool {
    forall|i: int| 0 <= i < c.scoring_rules@.len() ==> scoring_rule_problem(c, i) is None
}

/// `e` is the error reported for the first scoring rule with a problem.
pub open spec fn scoring_rules_error(c: EngineConfig, e: CedarPlusError) -> bool {
    exists|i: int|
        0 <= i < c.scoring_rules@.len() && (forall|j: int| 0 <= j < i ==> scoring_rule_problem(c, j) is None)
            && scoring_rule_problem(c, i) is Some && scoring_error(
            e,
            c.scoring_rules@[i].name@,
            scoring_rule_problem(c, i)->0,
        )
}

/// Position of the first character of `v` that is not a minus sign.
fn skip_dashes(v: &Vec<char>) -> (k: usize)
    ensures
        k <= v.len(),
        strip_dashes(v@) == v@.skip(k as int),
{
    let mut k: usize = 0;
    assert(v@.skip(0) =~= v@);
    while k < v.len() && v[k] == '-'
        invariant
            k <= v.len(),
            strip_dashes(v@) == strip_dashes(v@.skip(k as int)),
        decreases v.len() - k,
    {
        assert(v@.skip(k as int).drop_first() =~= v@.skip(k + 1));
        k = k + 1;
    }
    k
}

/// The problem of one score text.
fn score_text_problem(s: &str) -> (r: Option<String>)
    ensures
        match score_problem(s@) {
            None => r is None,
            Some(d) => r matches Some(m) && m@ == d,
        },
{
    let v = chars_of(s);
    if v.len() == 0 {
        return Some(owned("score is empty"));
    }
    let k = skip_dashes(&v);
    if k == v.len() || !('0' <= v[k] && v[k] <= '9') {
        return Some(message("score ", s, " doesn't look numeric"));
    }
    if str_eq(s, "0") || str_eq(s, "0.0") || str_eq(s, "0.00") || str_eq(s, "-0") || str_eq(s, "-0.0")
        || str_eq(s, "-0.00") {
        return Some(owned("score must not be zero"));
    }
    None
}

/// Verify that every scoring rule's score is non-empty, starts with a
/// digit after its minus signs, and is not a zero form; the first
/// offending rule is reported.
pub fn check_scoring_rules(config: &EngineConfig) -> (r: Result<(), CedarPlusError>)
    ensures
        r is Ok <==> forall|i: int|
            0 <= i < config.scoring_rules@.len() ==> scoring_rule_problem(*config, i) is None,
        r matches Err(e) ==> exists|i: int|
            0 <= i < config.scoring_rules@.len() && (forall|j: int|
                0 <= j < i ==> scoring_rule_problem(*config, j) is None) && scoring_rule_problem(
                *config,
                i,
            ) is Some && scoring_error(
                e,
                config.scoring_rules@[i].name@,
                scoring_rule_problem(*config, i)->0,
            ),
        r is Ok <==> scoring_rules_ok(*config),
        r matches Err(e) ==> scoring_rules_error(*config, e),
{
    let mut i: usize = 0;
    while i < config.scoring_rules.len()
        invariant
            i <= config.scoring_rules@.len(),
            forall|j: int| 0 <= j < i ==> scoring_rule_problem(*config, j) is None,
        decreases config.scoring_rules.len() - i,
    {
        let rule = &config.scoring_rules[i];
        if let Some(detail) = score_text_problem(rule.score.0.as_str()) {
            assert(scoring_rule_problem(*config, i as int) == Some(detail@));
            let name = rule.name.clone();
            let e = CedarPlusError::InvalidScoringRule { rule: name, detail };
            assert(scoring_error(e, config.scoring_rules@[i as int].name@, detail@));
            return Err(e);
        }
        i = i + 1;
    }
    Ok(())
}

// ---------------------------------------------------------------------------
// Load-time counts
// ---------------------------------------------------------------------------

/// Enforce the load-time count bounds: scoring rules first, then
/// procedures.
pub fn check_load_time_counts(config: &EngineConfig, bounds: &SandboxConfig) -> (r: Result<
    (),
    CedarPlusError,
>)
    ensures
        config.scoring_rules@.len() > bounds.max_scoring_rules ==> r matches Err(
            CedarPlusError::LoadBoundExceeded(LoadBoundReason::ScoringRuleCount),
        ),
        config.scoring_rules@.len() <= bounds.max_scoring_rules && config.procedures@.len()
            > bounds.max_procedures ==> r matches Err(
            CedarPlusError::LoadBoundExceeded(LoadBoundReason::ProcedureCount),
        ),
        r is Ok <==> (config.scoring_rules@.len() <= bounds.max_scoring_rules
            && config.procedures@.len() <= bounds.max_procedures),
{
    if config.scoring_rules.len() > bounds.max_scoring_rules {
        return Err(CedarPlusError::LoadBoundExceeded(LoadBoundReason::ScoringRuleCount));
    }
    if config.procedures.len() > bounds.max_procedures {
        return Err(CedarPlusError::LoadBoundExceeded(LoadBoundReason::ProcedureCount));
    }
    Ok(())
}

// ---------------------------------------------------------------------------
// Durations
// ---------------------------------------------------------------------------

/// Index of the last ASCII digit of `s`, or -1.
pub open spec fn last_digit_index(s: Seq<char>) -> int
    decreases s.len(),
{
    if s.len() == 0 {
        -1
    } else if is_digit(s.last()) {
        s.len() - 1
    } else {
        last_digit_index(s.drop_last())
    }
}

/// `s` split after its last digit into number and unit; `None` when it
/// has no digit or nothing follows the last one.
pub open spec fn split_suffix_spec(s: Seq<char>) -> Option<(Seq<char>, Seq<char>)> {
    let k = last_digit_index(s) + 1;
    if last_digit_index(s) < 0 || k >= s.len() {
        None
    } else {
        Some((s.take(k), s.skip(k)))
    }
}

/// `n * m` seconds, when that fits in a `u64`.
pub open spec fn secs_times(n: nat, m: nat) -> Option<Duration> {
    if n * m <= u64::MAX {
        Some(secs_duration((n * m) as u64))
    } else {
        None
    }
}

/// The duration a `<number><unit>` text denotes, after trimming: units
/// `ms`, `s`, `m`, `h`, `d`; the number as `u64::from_str` reads it.
pub open spec fn parse_duration_spec(s: Seq<char>) -> Option<Duration> {
    let t = trim_spec(s);
    if t.len() == 0 {
        None
    } else {
        match split_suffix_spec(t) {
            None => None,
            Some(parts) => match parse_u64_spec(parts.0) {
                None => None,
                Some(n) => {
                    let unit = parts.1;
                    if unit == "ms"@ {
                        Some(millis_duration(n as u64))
                    } else if unit == "s"@ {
                        Some(secs_duration(n as u64))
                    } else if unit == "m"@ {
                        secs_times(n, 60)
                    } else if unit == "h"@ {
                        secs_times(n, 3600)
                    } else if unit == "d"@ {
                        secs_times(n, 86400)
                    } else {
                        None
                    }
                },
            },
        }
    }
}

/// Split `s` after its last ASCII digit into the number and the unit
/// that follows it.
pub fn split_suffix(s: &str) -> (r: Option<(String, String)>)
    ensures
        match split_suffix_spec(s@) {
            None => r is None,
            Some(parts) => r matches Some(p) && p.0@ == parts.0 && p.1@ == parts.1,
        },
{
    let v = chars_of(s);
    let mut k: usize = v.len();
    assert(v@.take(v.len() as int) =~= v@);
    while k > 0 && !('0' <= v[k - 1] && v[k - 1] <= '9')
        invariant
            k <= v.len(),
            last_digit_index(v@) == last_digit_index(v@.take(k as int)),
        decreases k,
    {
        assert(v@.take(k as int).drop_last() =~= v@.take(k - 1));
        k = k - 1;
    }
    assert(v@.take(v.len() as int) =~= v@);
    if k == 0 {
        assert(last_digit_index(v@.take(0)) == -1);
        return None;
    }
    assert(last_digit_index(v@.take(k as int)) == k - 1);
    if k >= v.len() {
        return None;
    }
    let mut num: Vec<char> = Vec::new();
    let mut unit: Vec<char> = Vec::new();
    for i in 0..k
        invariant
            k < v.len(),
            num@ =~= v@.take(i as int),
    {
        num.push(v[i]);
    }
    for i in k..v.len()
        invariant
            k <= i <= v.len(),
            unit@ =~= v@.subrange(k as int, i as int),
    {
        unit.push(v[i]);
    }
    assert(unit@ =~= v@.skip(k as int));
    Some((string_from_chars(&num), string_from_chars(&unit)))
}

/// `n * m` seconds, or `None` when the product overflows.
fn secs_times_exec(n: u64, m: u64) -> (r: Option<Duration>)
    ensures
        r == secs_times(n as nat, m as nat),
{
    match n.checked_mul(m) {
        Some(p) => Some(duration_from_secs(p)),
        None => None,
    }
}

/// Parse a duration like `"10m"`, `"1h"`, `"30s"`, `"500ms"`, `"2d"`.
/// A number of minutes, hours or days whose seconds overflow a `u64` is
/// rejected.
pub fn parse_duration(s: &str) -> (r: Option<Duration>)
    ensures
        r == parse_duration_spec(s@),
{
    let t = trim_chars(&chars_of(s));
    if t.len() == 0 {
        return None;
    }
    let ts = string_from_chars(&t);
    let (num, unit) = match split_suffix(ts.as_str()) {
        None => return None,
        Some(p) => p,
    };
    let nv = chars_of(num.as_str());
    let n = match parse_u64(&nv) {
        None => return None,
        Some(n) => n,
    };
    assert(nv@ == num@);
    let u = unit.as_str();
    assert(t@ == trim_spec(s@));
    assert(split_suffix_spec(trim_spec(s@)) == Some((num@, unit@)));
    assert(parse_u64_spec(num@) == Some(n as nat));
    if str_eq(u, "ms") {
        Some(duration_from_millis(n))
    } else if str_eq(u, "s") {
        Some(duration_from_secs(n))
    } else if str_eq(u, "m") {
        secs_times_exec(n, 60)
    } else if str_eq(u, "h") {
        secs_times_exec(n, 3600)
    } else if str_eq(u, "d") {
        secs_times_exec(n, 86400)
    } else {
        None
    }
}

// ---------------------------------------------------------------------------
// Enforcement rules
// ---------------------------------------------------------------------------

/// The canonical action kinds an enforcement rule may trigger on.
pub open spec fn known_kinds() -> Seq<Seq<char>> {
    seq![
        "agent.register"@,
        "agent.revoke"@,
        "agent.operator_revoke"@,
        "agent.rotate_key"@,
        "agent.heartbeat.missed"@,
        "envelope.send"@,
        "envelope.deliver"@,
        "envelope.deliver.failed"@,
        "capability.issue"@,
        "capability.attenuate"@,
        "capability.revoke"@,
        "capability.check.pass"@,
        "capability.check.deny"@,
        "memory.write"@,
        "memory.read"@,
        "memory.forget"@,
        "memory.share"@,
        "constitution.activate"@,
        "constitution.evaluate.pass"@,
        "constitution.evaluate.deny"@,
        "constitution.amend.propose"@,
        "constitution.amend.commit"@,
        "constitution.amend.timeout"@,
        "procedure.enter"@,
        "procedure.transition"@,
        "procedure.timeout"@,
        "procedure.escalate"@,
        "enforcement.detect"@,
        "enforcement.coach"@,
        "enforcement.quarantine"@,
        "enforcement.evict"@,
        "enforcement.reverse"@,
        "enforcement.evict_timeout"@,
    ]
}

/// The canonical action kinds an enforcement rule may trigger on, in
/// registry order.
pub fn known_receipt_kinds() -> (out: Vec<&'static str>)
    ensures
        out@.len() == known_kinds().len(),
        forall|i: int| 0 <= i < out@.len() ==> (#[trigger] out@[i])@ == known_kinds()[i],
{
    let mut out: Vec<&'static str> = Vec::new();
    out.push("agent.register");
    out.push("agent.revoke");
    out.push("agent.operator_revoke");
    out.push("agent.rotate_key");
    out.push("agent.heartbeat.missed");
    out.push("envelope.send");
    out.push("envelope.deliver");
    out.push("envelope.deliver.failed");
    out.push("capability.issue");
    out.push("capability.attenuate");
    out.push("capability.revoke");
    out.push("capability.check.pass");
    out.push("capability.check.deny");
    out.push("memory.write");
    out.push("memory.read");
    out.push("memory.forget");
    out.push("memory.share");
    out.push("constitution.activate");
    out.push("constitution.evaluate.pass");
    out.push("constitution.evaluate.deny");
    out.push("constitution.amend.propose");
    out.push("constitution.amend.commit");
    out.push("constitution.amend.timeout");
    out.push("procedure.enter");
    out.push("procedure.transition");
    out.push("procedure.timeout");
    out.push("procedure.escalate");
    out.push("enforcement.detect");
    out.push("enforcement.coach");
    out.push("enforcement.quarantine");
    out.push("enforcement.evict");
    out.push("enforcement.reverse");
    out.push("enforcement.evict_timeout");
    assert(out@.map_values(|k: &'static str| k@) =~= known_kinds());
    assert forall|i: int| 0 <= i < out@.len() implies (#[trigger] out@[i])@ == known_kinds()[i] by {
        assert(out@.map_values(|k: &'static str| k@)[i] == out@[i]@);
    }
    out
}

/// Whether `kind` is a canonical action kind.
pub fn is_known_receipt_kind(kind: &str) -> (r: bool)
    ensures
        r == known_kinds().contains(kind@),
{
    let kinds = known_receipt_kinds();
    let mut i: usize = 0;
    while i < kinds.len()
        invariant
            i <= kinds@.len(),
            kinds@.len() == known_kinds().len(),
            forall|j: int| 0 <= j < kinds@.len() ==> (#[trigger] kinds@[j])@ == known_kinds()[j],
            forall|j: int| 0 <= j < i ==> known_kinds()[j] != kind@,
        decreases kinds.len() - i,
    {
        if str_eq(kinds[i], kind) {
            assert(known_kinds()[i as int] == kind@);
            return true;
        }
        i = i + 1;
    }
    false
}

/// Whether a duration text does not parse.
pub open spec fn unparseable(s: Seq<char>) -> bool {
    parse_duration_spec(s) is None
}

/// What is wrong with an enforcement rule, if anything, checked in
/// order: trigger kind, threshold, window, coach cooldown, quarantine
/// escalation and expiry, evict escalation.
pub open spec fn enforcement_problem(r: EnforcementRule) -> Option<Seq<char>> {
    let kind = r.detect.trigger.receipt_kind@;
    if !known_kinds().contains(kind) {
        Some(quoted_in("trigger.receipt_kind "@, kind, " is not a known canonical action-kind"@))
    } else if r.detect.count_threshold == 0 {
        Some("detect.count_threshold must be >= 1"@)
    } else if unparseable(r.detect.time_window@) {
        Some(quoted_in("detect.time_window "@, r.detect.time_window@, " is not a parseable duration"@))
    } else if r.coach is Some && unparseable(r.coach->0.cooldown@) {
        Some(quoted_in("coach.cooldown "@, r.coach->0.cooldown@, " is not a parseable duration"@))
    } else if r.quarantine is Some && unparseable(r.quarantine->0.escalate_after@) {
        Some(
            quoted_in(
                "quarantine.escalate_after "@,
                r.quarantine->0.escalate_after@,
                " is not a parseable duration"@,
            ),
        )
    } else if r.quarantine is Some && r.quarantine->0.expires_after is Some && unparseable(
        r.quarantine->0.expires_after->0@,
    ) {
        Some(
            quoted_in(
                "quarantine.expires_after "@,
                r.quarantine->0.expires_after->0@,
                " is not a parseable duration"@,
            ),
        )
    } else if r.evict is Some && unparseable(r.evict->0.escalate_after@) {
        Some(
            quoted_in(
                "evict.escalate_after "@,
                r.evict->0.escalate_after@,
                " is not a parseable duration"@,
            ),
        )
    } else {
        None
    }
}

/// Every enforcement rule is well formed.
pub open spec fn enforcement_rules_ok(c: EngineConfig) -> bool {
    forall|i: int| 0 <= i < c.enforcement_rules@.len() ==> enforcement_problem(#[trigger] c.enforcement_rules@[i]) is None
}

/// `e` is the error reported for the first enforcement rule with a
/// problem.
pub open spec fn enforcement_rules_error(c: EngineConfig, e: CedarPlusError) -> bool {
    exists|i: int|
        0 <= i < c.enforcement_rules@.len() && (forall|j: int|
            0 <= j < i ==> enforcement_problem(#[trigger] c.enforcement_rules@[j]) is None) && enforcement_problem(
            c.enforcement_rules@[i],
        ) is Some && enforcement_error(
            e,
            c.enforcement_rules@[i].name@,
            enforcement_problem(c.enforcement_rules@[i])->0,
        )
}

/// The problem of one enforcement rule.
fn enforcement_rule_problem(rule: &EnforcementRule) -> (r: Option<String>)
    ensures
        match enforcement_problem(*rule) {
            None => r is None,
            Some(d) => r matches Some(m) && m@ == d,
        },
{
    let kind = rule.detect.trigger.receipt_kind.as_str();
    if !is_known_receipt_kind(kind) {
        return Some(message("trigger.receipt_kind ", kind, " is not a known canonical action-kind"));
    }
    if rule.detect.count_threshold == 0 {
        return Some(owned("detect.count_threshold must be >= 1"));
    }
    let w = rule.detect.time_window.as_str();
    if parse_duration(w).is_none() {
        return Some(message("detect.time_window ", w, " is not a parseable duration"));
    }
    if let Some(coach) = &rule.coach {
        let c = coach.cooldown.as_str();
        if parse_duration(c).is_none() {
            return Some(message("coach.cooldown ", c, " is not a parseable duration"));
        }
    }
    if let Some(quar) = &rule.quarantine {
        let q = quar.escalate_after.as_str();
        if parse_duration(q).is_none() {
            return Some(message("quarantine.escalate_after ", q, " is not a parseable duration"));
        }
        if let Some(exp) = &quar.expires_after {
            if parse_duration(exp.as_str()).is_none() {
                return Some(
                    message("quarantine.expires_after ", exp.as_str(), " is not a parseable duration"),
                );
            }
        }
    }
    if let Some(evict) = &rule.evict {
        let e = evict.escalate_after.as_str();
        if parse_duration(e).is_none() {
            return Some(message("evict.escalate_after ", e, " is not a parseable duration"));
        }
    }
    None
}

/// Verify the enforcement rules: a known trigger kind, a positive
/// threshold and parseable durations; the first offending rule is
/// reported.
pub fn check_enforcement_rules(config: &EngineConfig) -> (r: Result<(), CedarPlusError>)
    ensures
        r is Ok <==> forall|i: int|
            0 <= i < config.enforcement_rules@.len() ==> enforcement_problem(
                #[trigger] config.enforcement_rules@[i],
            ) is None,
        r matches Err(e) ==> exists|i: int|
            0 <= i < config.enforcement_rules@.len() && (forall|j: int|
                0 <= j < i ==> enforcement_problem(#[trigger] config.enforcement_rules@[j]) is None)
                && enforcement_problem(config.enforcement_rules@[i]) is Some && enforcement_error(
                e,
                config.enforcement_rules@[i].name@,
                enforcement_problem(config.enforcement_rules@[i])->0,
            ),
        r is Ok <==> enforcement_rules_ok(*config),
        r matches Err(e) ==> enforcement_rules_error(*config, e),
{
    let mut i: usize = 0;
    while i < config.enforcement_rules.len()
        invariant
            i <= config.enforcement_rules@.len(),
            forall|j: int|
                0 <= j < i ==> enforcement_problem(#[trigger] config.enforcement_rules@[j]) is None,
        decreases config.enforcement_rules.len() - i,
    {
        let rule = &config.enforcement_rules[i];
        if let Some(detail) = enforcement_rule_problem(rule) {
            let name = rule.name.clone();
            let e = CedarPlusError::InvalidEnforcementRule { rule: name, detail };
            assert(enforcement_error(e, config.enforcement_rules@[i as int].name@, detail@));
            return Err(e);
        }
        i = i + 1;
    }
    Ok(())
}

// ---------------------------------------------------------------------------
// Procedures: states and transitions
// ---------------------------------------------------------------------------

/// Builds `prefix"x"middle"y"suffix`.
fn message2(prefix: &str, x: &str, middle: &str, y: &str, suffix: &str) -> (out: String)
    ensures
        out@ == quoted_in(prefix@, x@, middle@) + quoted_in(""@, y@, suffix@),
{
    let mut out = message(prefix, x, middle);
    let tail = message("", y, suffix);
    out.append(tail.as_str());
    out
}

/// The initial state and every terminal state are declared states.
pub open spec fn states_ok(p: Procedure) -> bool {
    p.states.deep_view().contains(p.initial_state@) && forall|i: int|
        0 <= i < p.terminal_states@.len() ==> p.states.deep_view().contains(
            #[trigger] p.terminal_states.deep_view()[i],
        )
}

/// `e` is the error reported for the states of `p`: the undeclared
/// initial state, or else the first undeclared terminal state.
pub open spec fn states_error(p: Procedure, e: CedarPlusError) -> bool {
    if !p.states.deep_view().contains(p.initial_state@) {
        procedure_error(e, p.name@, quoted_in("initial_state "@, p.initial_state@, " not in states"@))
    } else {
        exists|i: int|
            0 <= i < p.terminal_states@.len() && (forall|j: int|
                0 <= j < i ==> p.states.deep_view().contains(#[trigger] p.terminal_states.deep_view()[j]))
                && !p.states.deep_view().contains(p.terminal_states.deep_view()[i]) && procedure_error(
                e,
                p.name@,
                quoted_in("terminal_state "@, p.terminal_states.deep_view()[i], " not in states"@),
            )
    }
}

/// Verify that the initial state and every terminal state are declared
/// states; the initial state is checked first, then the terminal states
/// in order.
pub fn check_procedure_states(proc: &Procedure) -> (r: Result<(), CedarPlusError>)
    ensures
        r is Ok <==> (proc.states.deep_view().contains(proc.initial_state@) && forall|i: int|
            0 <= i < proc.terminal_states@.len() ==> proc.states.deep_view().contains(
                #[trigger] proc.terminal_states.deep_view()[i],
            )),
        !proc.states.deep_view().contains(proc.initial_state@) ==> (r matches Err(e)
            && procedure_error(
            e,
            proc.name@,
            quoted_in("initial_state "@, proc.initial_state@, " not in states"@),
        )),
        r matches Err(e) ==> proc.states.deep_view().contains(proc.initial_state@) ==> exists|i: int|
            0 <= i < proc.terminal_states@.len() && (forall|j: int|
                0 <= j < i ==> proc.states.deep_view().contains(
                    #[trigger] proc.terminal_states.deep_view()[j],
                )) && !proc.states.deep_view().contains(proc.terminal_states.deep_view()[i])
                && procedure_error(
                e,
                proc.name@,
                quoted_in("terminal_state "@, proc.terminal_states.deep_view()[i], " not in states"@),
            ),
        r is Ok <==> states_ok(*proc),
        r matches Err(e) ==> states_error(*proc, e),
{
    if !vec_contains(&proc.states, proc.initial_state.as_str()) {
        return Err(
            CedarPlusError::InvalidProcedure {
                procedure: proc.name.clone(),
                detail: message("initial_state ", proc.initial_state.as_str(), " not in states"),
            },
        );
    }
    let mut i: usize = 0;
    while i < proc.terminal_states.len()
        invariant
            i <= proc.terminal_states@.len(),
            proc.states.deep_view().contains(proc.initial_state@),
            forall|j: int|
                0 <= j < i ==> proc.states.deep_view().contains(
                    #[trigger] proc.terminal_states.deep_view()[j],
                ),
        decreases proc.terminal_states.len() - i,
    {
        let t = proc.terminal_states[i].as_str();
        if !vec_contains(&proc.states, t) {
            let e = CedarPlusError::InvalidProcedure {
                procedure: proc.name.clone(),
                detail: message("terminal_state ", t, " not in states"),
            };
            assert(proc.terminal_states.deep_view()[i as int] == t@);
            return Err(e);
        }
        i = i + 1;
    }
    Ok(())
}

/// The key that two transitions of one state may not share: the action,
/// or else the timeout.
pub open spec fn action_key(t: ProcedureTransition) -> Seq<char> {
    match t.action {
        Some(a) => "action:"@ + a@,
        None => match t.on_timeout {
            Some(d) => "timeout:"@ + d@,
            None => "unreachable"@,
        },
    }
}

/// The ambiguity key of a transition.
pub fn transition_action_key(t: &ProcedureTransition) -> (k: String)
    ensures
        k@ == action_key(*t),
{
    match &t.action {
        Some(a) => {
            let mut k = owned("action:");
            k.append(a.as_str());
            k
        },
        None => match &t.on_timeout {
            Some(d) => {
                let mut k = owned("timeout:");
                k.append(d.as_str());
                k
            },
            None => owned("unreachable"),
        },
    }
}

/// Transition `j` comes from the same state with the same key as `i`.
pub open spec fn same_key(p: Procedure, j: int, i: int) -> bool {
    p.transitions@[j].from@ == p.transitions@[i].from@ && action_key(p.transitions@[j]) == action_key(
        p.transitions@[i],
    )
}

/// What is wrong with transition `i` of `p`, if anything: an undeclared
/// end, a terminal source, neither or both of action and timeout, or the
/// same source and key as an earlier transition.
pub open spec fn transition_problem(p: Procedure, i: int) -> Option<Seq<char>> {
    let t = p.transitions@[i];
    let states = p.states.deep_view();
    if !states.contains(t.from@) {
        Some(quoted_in("transition from "@, t.from@, " not in states"@))
    } else if !states.contains(t.to@) {
        Some(quoted_in("transition to "@, t.to@, " not in states"@))
    } else if p.terminal_states.deep_view().contains(t.from@) {
        Some(
            quoted_in(
                "transition from terminal state "@,
                t.from@,
                " — terminal states cannot have outgoing transitions"@,
            ),
        )
    } else if t.action is None && t.on_timeout is None {
        Some(
            quoted_in("transition "@, t.from@, "->"@) + quoted_in(
                ""@,
                t.to@,
                " has neither action nor on_timeout"@,
            ),
        )
    } else if t.action is Some && t.on_timeout is Some {
        Some(
            quoted_in("transition "@, t.from@, "->"@) + quoted_in(
                ""@,
                t.to@,
                " has both action and on_timeout (mutually exclusive)"@,
            ),
        )
    } else if exists|j: int| 0 <= j < i && same_key(p, j, i) {
        Some(
            quoted_in("two transitions share (from="@, t.from@, ", action_or_timeout="@) + quoted_in(
                ""@,
                action_key(t),
                ") — ambiguous"@,
            ),
        )
    } else {
        None
    }
}

/// A non-terminal state that no transition leaves.
pub open spec fn stuck_state(p: Procedure, s: Seq<char>) -> bool {
    !p.terminal_states.deep_view().contains(s) && !exists|j: int|
        0 <= j < p.transitions@.len() && #[trigger] p.transitions@[j].from@ == s
}

/// The detail reported for a stuck state.
pub open spec fn stuck_detail(s: Seq<char>) -> Seq<char> {
    quoted_in("non-terminal state "@, s, " has no outgoing transitions — instances would be stuck"@)
}

/// The problem of transition `i`.
#[verifier::loop_isolation(false)]
fn transition_problem_at(proc: &Procedure, i: usize) -> (r: Option<String>)
    requires
        i < proc.transitions@.len(),
    ensures
        match transition_problem(*proc, i as int) {
            None => r is None,
            Some(d) => r matches Some(m) && m@ == d,
        },
{
    let t = &proc.transitions[i];
    let from = t.from.as_str();
    let to = t.to.as_str();
    if !vec_contains(&proc.states, from) {
        return Some(message("transition from ", from, " not in states"));
    }
    if !vec_contains(&proc.states, to) {
        return Some(message("transition to ", to, " not in states"));
    }
    if vec_contains(&proc.terminal_states, from) {
        return Some(
            message(
                "transition from terminal state ",
                from,
                " — terminal states cannot have outgoing transitions",
            ),
        );
    }
    if t.action.is_none() && t.on_timeout.is_none() {
        return Some(message2("transition ", from, "->", to, " has neither action nor on_timeout"));
    }
    if t.action.is_some() && t.on_timeout.is_some() {
        return Some(
            message2(
                "transition ",
                from,
                "->",
                to,
                " has both action and on_timeout (mutually exclusive)",
            ),
        );
    }
    let key = transition_action_key(t);
    let mut j: usize = 0;
    while j < i
        invariant
            j <= i < proc.transitions@.len(),
            t == proc.transitions@[i as int],
            from@ == t.from@,
            key@ == action_key(*t),
            forall|m: int| 0 <= m < j ==> !same_key(*proc, m, i as int),
        decreases i - j,
    {
        let u = &proc.transitions[j];
        if str_eq(u.from.as_str(), from) {
            let other = transition_action_key(u);
            if str_eq(other.as_str(), key.as_str()) {
                assert(same_key(*proc, j as int, i as int));
                return Some(
                    message2(
                        "two transitions share (from=",
                        from,
                        ", action_or_timeout=",
                        key.as_str(),
                        ") — ambiguous",
                    ),
                );
            }
        }
        j = j + 1;
    }
    None
}

/// Whether some transition of `proc` leaves `s`.
fn has_outgoing(proc: &Procedure, s: &str) -> (r: bool)
    ensures
        r == exists|j: int| 0 <= j < proc.transitions@.len() && #[trigger] proc.transitions@[j].from@ == s@,
{
    let mut j: usize = 0;
    while j < proc.transitions.len()
        invariant
            j <= proc.transitions@.len(),
            forall|m: int| 0 <= m < j ==> proc.transitions@[m].from@ != s@,
        decreases proc.transitions.len() - j,
    {
        if str_eq(proc.transitions[j].from.as_str(), s) {
            return true;
        }
        j = j + 1;
    }
    false
}

/// No transition has a problem and no state is stuck.
pub open spec fn transitions_ok(p: Procedure) -> bool {
    (forall|i: int| 0 <= i < p.transitions@.len() ==> #[trigger] transition_problem(p, i) is None)
        && forall|k: int| 0 <= k < p.states@.len() ==> !stuck_state(p, #[trigger] p.states.deep_view()[k])
}

/// `e` is the error reported for the transitions of `p`: the first
/// transition with a problem, or else the first stuck state.
pub open spec fn transitions_error(p: Procedure, e: CedarPlusError) -> bool {
    if exists|i: int| 0 <= i < p.transitions@.len() && #[trigger] transition_problem(p, i) is Some {
        exists|i: int|
            0 <= i < p.transitions@.len() && (forall|j: int|
                0 <= j < i ==> #[trigger] transition_problem(p, j) is None) && transition_problem(p, i) is Some
                && procedure_error(e, p.name@, transition_problem(p, i)->0)
    } else {
        exists|k: int|
            0 <= k < p.states@.len() && (forall|m: int|
                0 <= m < k ==> !stuck_state(p, #[trigger] p.states.deep_view()[m])) && stuck_state(
                p,
                p.states.deep_view()[k],
            ) && procedure_error(e, p.name@, stuck_detail(p.states.deep_view()[k]))
    }
}

/// Verify the transitions of a procedure (declared ends, no transition
/// out of a terminal state, exactly one of action and timeout, no two
/// transitions of one state with one key), then that every non-terminal
/// state has an outgoing transition.
pub fn check_procedure_transitions(proc: &Procedure) -> (r: Result<(), CedarPlusError>)
    ensures
        r is Ok <==> ((forall|i: int|
            0 <= i < proc.transitions@.len() ==> #[trigger] transition_problem(*proc, i) is None)
            && forall|k: int|
            0 <= k < proc.states@.len() ==> !stuck_state(*proc, #[trigger] proc.states.deep_view()[k])),
        (exists|i: int|
            0 <= i < proc.transitions@.len() && #[trigger] transition_problem(*proc, i) is Some)
            ==> exists|i: int|
            0 <= i < proc.transitions@.len() && (forall|j: int|
                0 <= j < i ==> #[trigger] transition_problem(*proc, j) is None) && transition_problem(
                *proc,
                i,
            ) is Some && (r matches Err(e) && procedure_error(
                e,
                proc.name@,
                transition_problem(*proc, i)->0,
            )),
        r matches Err(e) ==> (forall|i: int|
            0 <= i < proc.transitions@.len() ==> #[trigger] transition_problem(*proc, i) is None)
            ==> exists|k: int|
            0 <= k < proc.states@.len() && (forall|m: int|
                0 <= m < k ==> !stuck_state(*proc, #[trigger] proc.states.deep_view()[m]))
                && stuck_state(*proc, proc.states.deep_view()[k]) && procedure_error(
                e,
                proc.name@,
                stuck_detail(proc.states.deep_view()[k]),
            ),
        r is Ok <==> transitions_ok(*proc),
        r matches Err(e) ==> transitions_error(*proc, e),
{
    let mut i: usize = 0;
    while i < proc.transitions.len()
        invariant
            i <= proc.transitions@.len(),
            forall|j: int| 0 <= j < i ==> #[trigger] transition_problem(*proc, j) is None,
        decreases proc.transitions.len() - i,
    {
        if let Some(detail) = transition_problem_at(proc, i) {
            let e = CedarPlusError::InvalidProcedure { procedure: proc.name.clone(), detail };
            assert(procedure_error(e, proc.name@, transition_problem(*proc, i as int)->0));
            return Err(e);
        }
        i = i + 1;
    }
    let mut k: usize = 0;
    while k < proc.states.len()
        invariant
            k <= proc.states@.len(),
            forall|j: int|
                0 <= j < proc.transitions@.len() ==> #[trigger] transition_problem(*proc, j) is None,
            forall|m: int| 0 <= m < k ==> !stuck_state(*proc, #[trigger] proc.states.deep_view()[m]),
        decreases proc.states.len() - k,
    {
        let s = proc.states[k].as_str();
        if !vec_contains(&proc.terminal_states, s) && !has_outgoing(proc, s) {
            assert(proc.states.deep_view()[k as int] == s@);
            return Err(
                CedarPlusError::InvalidProcedure {
                    procedure: proc.name.clone(),
                    detail: message(
                        "non-terminal state ",
                        s,
                        " has no outgoing transitions — instances would be stuck",
                    ),
                },
            );
        }
        assert(proc.states.deep_view()[k as int] == s@);
        k = k + 1;
    }
    Ok(())
}

// ---------------------------------------------------------------------------
// Procedures: timeout escalation
// ---------------------------------------------------------------------------

/// Index of the last procedure named `n`, or -1. Escalation follows the
/// last procedure of each name.
pub open spec fn last_named(procs: Seq<Procedure>, n: Seq<char>) -> int
    decreases procs.len(),
{
    if procs.len() == 0 {
        -1
    } else if procs.last().name@ == n {
        procs.len() - 1
    } else {
        last_named(procs.drop_last(), n)
    }
}

/// A timeout of procedure `n` escalates to procedure `b`.
pub open spec fn escalates_to(procs: Seq<Procedure>, n: Seq<char>, b: Seq<char>) -> bool {
    let i = last_named(procs, n);
    &&& 0 <= i
    &&& exists|k: Seq<char>|
        #[trigger] procs[i].on_timeout_escalate@.contains_key(k) && procs[i].on_timeout_escalate@[k]
            == b
}

/// Every escalation target is a declared procedure.
pub open spec fn escalation_targets_declared(procs: Seq<Procedure>) -> bool {
    forall|n: Seq<char>, b: Seq<char>| #[trigger] escalates_to(procs, n, b) ==> last_named(procs, b) >= 0
}

/// `rank` strictly decreases along every escalation.
pub open spec fn ranked_by(procs: Seq<Procedure>, rank: spec_fn(Seq<char>) -> nat) -> bool {
    forall|n: Seq<char>, b: Seq<char>| #[trigger] escalates_to(procs, n, b) ==> rank(n) > rank(b)
}

/// The escalation graph has no cycle: some ranking decreases along every
/// escalation.
pub open spec fn escalation_acyclic(procs: Seq<Procedure>) -> bool {
    exists|rank: spec_fn(Seq<char>) -> nat| ranked_by(procs, rank)
}

pub proof fn lemma_last_named(procs: Seq<Procedure>, n: Seq<char>)
    ensures
        -1 <= last_named(procs, n) < procs.len(),
        last_named(procs, n) >= 0 ==> procs[last_named(procs, n)].name@ == n,
        forall|j: int| last_named(procs, n) < j < procs.len() ==> procs[j].name@ != n,
    decreases procs.len(),
{
    if procs.len() > 0 {
        lemma_last_named(procs.drop_last(), n);
        if procs.last().name@ != n {
            assert forall|j: int| last_named(procs, n) < j < procs.len() implies procs[j].name@ != n by {
                if j < procs.len() - 1 {
                    assert(procs[j] == procs.drop_last()[j]);
                }
            }
        }
    }
}

proof fn lemma_last_named_at(procs: Seq<Procedure>, n: Seq<char>, i: int)
    requires
        0 <= i < procs.len(),
        procs[i].name@ == n,
        forall|j: int| i < j < procs.len() ==> procs[j].name@ != n,
    ensures
        last_named(procs, n) == i,
    decreases procs.len(),
{
    if i < procs.len() - 1 {
        assert(procs.last().name@ != n);
        assert forall|j: int| i < j < procs.drop_last().len() implies procs.drop_last()[j].name@ != n by {
            assert(procs.drop_last()[j] == procs[j]);
        }
        lemma_last_named_at(procs.drop_last(), n, i);
    }
}

/// Index of the last procedure named `name`.
fn find_last_named(procs: &Vec<Procedure>, name: &str) -> (r: Option<usize>)
    ensures
        match r {
            Some(i) => i as int == last_named(procs@, name@),
            None => last_named(procs@, name@) == -1,
        },
{
    let mut i: usize = procs.len();
    while i > 0
        invariant
            i <= procs@.len(),
            forall|j: int| i <= j < procs@.len() ==> procs@[j].name@ != name@,
        decreases i,
    {
        if str_eq(procs[i - 1].name.as_str(), name) {
            proof {
                lemma_last_named_at(procs@, name@, i - 1);
            }
            return Some(i - 1);
        }
        i = i - 1;
    }
    proof {
        lemma_last_named(procs@, name@);
        if last_named(procs@, name@) >= 0 {
            assert(procs@[last_named(procs@, name@)].name@ == name@);
        }
    }
    None
}

/// Number of `false` entries.
pub open spec fn count_false(s: Seq<bool>) -> nat
    decreases s.len(),
{
    if s.len() == 0 {
        0
    } else {
        count_false(s.drop_last()) + if s.last() {
            0nat
        } else {
            1nat
        }
    }
}

/// Turning entries from `false` to `true` lowers the count of `false`s,
/// strictly when one turns.
proof fn lemma_count_false_mono(a: Seq<bool>, b: Seq<bool>, w: int)
    requires
        a.len() == b.len(),
        forall|i: int| 0 <= i < a.len() && #[trigger] a[i] ==> b[i],
    ensures
        count_false(b) <= count_false(a),
        0 <= w < a.len() && !a[w] && b[w] ==> count_false(b) < count_false(a),
    decreases a.len(),
{
    if a.len() > 0 {
        let a2 = a.drop_last();
        let b2 = b.drop_last();
        assert forall|i: int| 0 <= i < a2.len() && #[trigger] a2[i] implies b2[i] by {
            assert(a[i] == a2[i] && b[i] == b2[i]);
        }
        lemma_count_false_mono(a2, b2, w);
        if a.last() {
            assert(b[a.len() - 1]);
        }
        if 0 <= w < a2.len() && !a[w] && b[w] {
            assert(a2[w] == a[w] && b2[w] == b[w]);
        }
    }
}

/// With every unfinished node having an unfinished successor along an
/// escalation, no ranking bounds the unfinished nodes.
proof fn lemma_stuck_unranked(
    procs: Seq<Procedure>,
    tgt: Seq<Vec<usize>>,
    finished: Seq<bool>,
    rank: spec_fn(Seq<char>) -> nat,
    k: nat,
)
    requires
        finished.len() == procs.len(),
        tgt.len() == procs.len(),
        ranked_by(procs, rank),
        forall|i: int|
            0 <= i < procs.len() && !#[trigger] finished[i] ==> exists|q: int|
                0 <= q < tgt[i]@.len() && !finished[#[trigger] tgt[i]@[q] as int],
        forall|i: int, q: int|
            0 <= i < procs.len() && 0 <= q < tgt[i]@.len() ==> (#[trigger] tgt[i]@[q]) < procs.len()
                && escalates_to(procs, procs[i].name@, procs[tgt[i]@[q] as int].name@),
    ensures
        forall|i: int| 0 <= i < procs.len() && !finished[i] ==> rank(procs[i].name@) >= k,
    decreases k,
{
    if k > 0 {
        lemma_stuck_unranked(procs, tgt, finished, rank, (k - 1) as nat);
        assert forall|i: int| 0 <= i < procs.len() && !finished[i] implies rank(procs[i].name@) >= k by {
            let q = choose|q: int| 0 <= q < tgt[i]@.len() && !finished[#[trigger] tgt[i]@[q] as int];
            let t = tgt[i]@[q] as int;
            assert(escalates_to(procs, procs[i].name@, procs[t].name@));
            assert(rank(procs[t].name@) >= k - 1);
        }
    }
}

/// The detail of an escalation to an undeclared procedure.
pub open spec fn undeclared_target_detail(b: Seq<char>) -> Seq<char> {
    quoted_in("escalation target "@, b, " is not a declared procedure"@)
}

/// The detail of an escalation cycle.
pub open spec fn cycle_detail(x: Seq<char>) -> Seq<char> {
    quoted_in("escalation cycle reaches back to "@, x, ""@)
}

/// Target lists of the escalation graph: for the last procedure of each
/// name, the indices of the procedures its timeouts escalate to (each the
/// last of its name); other procedures get none. Fails on the first
/// escalation to an undeclared procedure.
fn escalation_edges(procs: &Vec<Procedure>) -> (r: Result<(Vec<bool>, Vec<Vec<usize>>), CedarPlusError>)
    ensures
        r matches Err(e) ==> exists|n: Seq<char>, b: Seq<char>|
            #[trigger] escalates_to(procs@, n, b) && last_named(procs@, b) < 0 && procedure_error(
                e,
                n,
                undeclared_target_detail(b),
            ),
        r matches Ok(p) ==> {
            let is_last = p.0;
            let tgt = p.1;
            &&& escalation_targets_declared(procs@)
            &&& is_last@.len() == procs@.len()
            &&& tgt@.len() == procs@.len()
            &&& forall|a: int|
                0 <= a < procs@.len() ==> (#[trigger] is_last@[a] == (last_named(
                    procs@,
                    procs@[a].name@,
                ) == a))
            &&& forall|a: int, q: int|
                0 <= a < procs@.len() && 0 <= q < tgt@[a]@.len() ==> (#[trigger] tgt@[a]@[q])
                    < procs@.len() && escalates_to(procs@, procs@[a].name@, procs@[tgt@[a]@[q] as int].name@)
            &&& forall|a: int, b: Seq<char>|
                0 <= a < procs@.len() && is_last@[a] && #[trigger] escalates_to(procs@, procs@[a].name@, b)
                    ==> tgt@[a]@.contains(last_named(procs@, b) as usize) && last_named(procs@, b) >= 0
            &&& forall|a: int| 0 <= a < procs@.len() && !is_last@[a] ==> #[trigger] tgt@[a]@.len() == 0
        },
{
    let n = procs.len();
    let mut is_last: Vec<bool> = Vec::new();
    let mut tgt: Vec<Vec<usize>> = Vec::new();
    let mut i: usize = 0;
    while i < n
        invariant
            n == procs@.len(),
            i <= n,
            is_last@.len() == i,
            tgt@.len() == i,
            forall|a: int|
                0 <= a < i ==> (#[trigger] is_last@[a] == (last_named(procs@, procs@[a].name@) == a)),
            forall|a: int, q: int|
                0 <= a < i && 0 <= q < tgt@[a]@.len() ==> (#[trigger] tgt@[a]@[q]) < n && escalates_to(
                    procs@,
                    procs@[a].name@,
                    procs@[tgt@[a]@[q] as int].name@,
                ),
            forall|a: int, b: Seq<char>|
                0 <= a < i && is_last@[a] && #[trigger] escalates_to(procs@, procs@[a].name@, b)
                    ==> tgt@[a]@.contains(last_named(procs@, b) as usize) && last_named(procs@, b) >= 0,
            forall|a: int| 0 <= a < i && !is_last@[a] ==> #[trigger] tgt@[a]@.len() == 0,
        decreases n - i,
    {
        let proc = &procs[i];
        let last = match find_last_named(procs, proc.name.as_str()) {
            Some(j) => j == i,
            None => false,
        };
        let mut ts: Vec<usize> = Vec::new();
        if last {
            let m = &proc.on_timeout_escalate;
            let mut k: usize = 0;
            while k < m.entry_count()
                invariant
                    n == procs@.len(),
                    i < n,
                    proc == procs@[i as int],
                    m == proc.on_timeout_escalate,
                    last_named(procs@, proc.name@) == i,
                    k <= m.pairs().len(),
                    forall|q: int|
                        0 <= q < ts@.len() ==> (#[trigger] ts@[q]) < n && escalates_to(
                            procs@,
                            proc.name@,
                            procs@[ts@[q] as int].name@,
                        ),
                    forall|kk: int|
                        0 <= kk < k && #[trigger] m.is_current(kk) ==> last_named(procs@, m.pairs()[kk].1)
                            >= 0 && ts@.contains(last_named(procs@, m.pairs()[kk].1) as usize),
                decreases m.pairs().len() - k,
            {
                if m.current_at(k) {
                    let b = m.value_at(k);
                    proof {
                        m.lemma_current_value(k as int);
                        assert(escalates_to(procs@, proc.name@, b@));
                    }
                    match find_last_named(procs, b.as_str()) {
                        None => {
                            return Err(
                                CedarPlusError::InvalidProcedure {
                                    procedure: proc.name.clone(),
                                    detail: message(
                                        "escalation target ",
                                        b.as_str(),
                                        " is not a declared procedure",
                                    ),
                                },
                            );
                        },
                        Some(j) => {
                            proof {
                                lemma_last_named(procs@, b@);
                            }
                            let ghost old_ts = ts@;
                            ts.push(j);
                            proof {
                                assert forall|kk: int|
                                    0 <= kk < k + 1 && #[trigger] m.is_current(kk) implies last_named(
                                    procs@,
                                    m.pairs()[kk].1,
                                ) >= 0 && ts@.contains(last_named(procs@, m.pairs()[kk].1) as usize) by {
                                    if kk < k {
                                        let x = last_named(procs@, m.pairs()[kk].1) as usize;
                                        assert(old_ts.contains(x));
                                        let w = choose|w: int| 0 <= w < old_ts.len() && old_ts[w] == x;
                                        assert(ts@[w] == old_ts[w]);
                                    } else {
                                        assert(ts@[ts@.len() - 1] == j);
                                    }
                                }
                            }
                        },
                    }
                }
                k = k + 1;
            }
            proof {
                assert forall|b: Seq<char>| #[trigger] escalates_to(procs@, proc.name@, b) implies ts@.contains(
                    last_named(procs@, b) as usize,
                ) && last_named(procs@, b) >= 0 by {
                    let key = choose|key: Seq<char>|
                        #[trigger] procs@[i as int].on_timeout_escalate@.contains_key(key)
                            && procs@[i as int].on_timeout_escalate@[key] == b;
                    m.lemma_key_current(key);
                    let li = last_index_of(m.pairs(), key);
                    assert(m.is_current(li));
                }
            }
        }
        is_last.push(last);
        tgt.push(ts);
        proof {
            assert(tgt@[i as int] == ts);
            assert forall|a: int, b: Seq<char>|
                0 <= a < i + 1 && is_last@[a] && #[trigger] escalates_to(procs@, procs@[a].name@, b)
                    implies tgt@[a]@.contains(last_named(procs@, b) as usize) && last_named(procs@, b)
                    >= 0 by {
                if a == i {
                    assert(procs@[a] == *proc);
                }
            }
        }
        i = i + 1;
    }
    proof {
        assert forall|nm: Seq<char>, b: Seq<char>| #[trigger] escalates_to(procs@, nm, b) implies last_named(
            procs@,
            b,
        ) >= 0 by {
            lemma_last_named(procs@, nm);
            let a = last_named(procs@, nm);
            assert(procs@[a].name@ == nm);
            assert(is_last@[a]);
            assert(escalates_to(procs@, procs@[a].name@, b));
        }
    }
    Ok((is_last, tgt))
}

/// Marks the nodes round by round: a node is marked once all its targets
/// were marked in an earlier round. Unmarked nodes at the end each have
/// an unmarked target; the ghost rounds decrease along every target of a
/// marked node.
fn finish_rounds(is_last: &Vec<bool>, tgt: &Vec<Vec<usize>>) -> (res: (Vec<bool>, Ghost<Seq<nat>>))
    requires
        is_last@.len() == tgt@.len(),
        forall|a: int, q: int|
            0 <= a < tgt@.len() && 0 <= q < tgt@[a]@.len() ==> (#[trigger] tgt@[a]@[q]) < tgt@.len(),
        forall|a: int| 0 <= a < tgt@.len() && !is_last@[a] ==> #[trigger] tgt@[a]@.len() == 0,
    ensures
        res.0@.len() == tgt@.len(),
        res.1@.len() == tgt@.len(),
        forall|a: int|
            0 <= a < tgt@.len() && #[trigger] res.0@[a] ==> forall|q: int|
                0 <= q < tgt@[a]@.len() ==> res.0@[#[trigger] tgt@[a]@[q] as int] && res.1@[tgt@[a]@[q] as int]
                    < res.1@[a],
        forall|a: int|
            0 <= a < tgt@.len() && !#[trigger] res.0@[a] ==> exists|q: int|
                0 <= q < tgt@[a]@.len() && !res.0@[#[trigger] tgt@[a]@[q] as int],
{
    let n = tgt.len();
    let mut finished: Vec<bool> = Vec::new();
    for i in 0..n
        invariant
            n == tgt@.len() == is_last@.len(),
            finished@.len() == i,
            forall|a: int| 0 <= a < i ==> #[trigger] finished@[a] == !is_last@[a],
    {
        finished.push(!is_last[i]);
    }
    let ghost mut round: Seq<nat> = Seq::new(n as nat, |i: int| 0nat);
    let ghost mut rc: nat = 1;
    let mut changed = true;
    while changed
        invariant
            n == tgt@.len() == is_last@.len(),
            forall|a: int, q: int|
                0 <= a < n && 0 <= q < tgt@[a]@.len() ==> (#[trigger] tgt@[a]@[q]) < n,
            forall|a: int| 0 <= a < n && !is_last@[a] ==> #[trigger] tgt@[a]@.len() == 0,
            finished@.len() == n,
            round.len() == n,
            forall|a: int| 0 <= a < n && #[trigger] finished@[a] ==> round[a] < rc,
            forall|a: int|
                0 <= a < n && #[trigger] finished@[a] ==> forall|q: int|
                    0 <= q < tgt@[a]@.len() ==> finished@[#[trigger] tgt@[a]@[q] as int]
                        && round[tgt@[a]@[q] as int] < round[a],
            !changed ==> forall|a: int|
                0 <= a < n && !#[trigger] finished@[a] ==> exists|q: int|
                    0 <= q < tgt@[a]@.len() && !finished@[#[trigger] tgt@[a]@[q] as int],
        decreases count_false(finished@) + if changed {
            1nat
        } else {
            0nat
        },
    {
        let mut next: Vec<bool> = Vec::new();
        let mut any = false;
        let ghost mut round2 = round;
        let ghost mut witness: int = 0;
        for i in 0..n
            invariant
                n == tgt@.len(),
                forall|a: int, q: int|
                    0 <= a < n && 0 <= q < tgt@[a]@.len() ==> (#[trigger] tgt@[a]@[q]) < n,
                finished@.len() == n,
                round.len() == n,
                round2.len() == n,
                next@.len() == i,
                forall|a: int| 0 <= a < i && #[trigger] finished@[a] ==> next@[a],
                forall|a: int|
                    0 <= a < i && #[trigger] next@[a] && !finished@[a] ==> round2[a] == rc && forall|q: int|
                        0 <= q < tgt@[a]@.len() ==> finished@[#[trigger] tgt@[a]@[q] as int],
                forall|a: int|
                    0 <= a < i && !#[trigger] next@[a] ==> !finished@[a] && exists|q: int|
                        0 <= q < tgt@[a]@.len() && !finished@[#[trigger] tgt@[a]@[q] as int],
                forall|a: int| 0 <= a < n && #[trigger] finished@[a] ==> round2[a] == round[a],
                forall|a: int| i <= a < n ==> #[trigger] round2[a] == round[a],
                any ==> 0 <= witness < i && next@[witness] && !finished@[witness],
                !any ==> forall|a: int| 0 <= a < i ==> #[trigger] next@[a] == finished@[a],
        {
            if finished[i] {
                next.push(true);
            } else {
                let ts = &tgt[i];
                let mut q: usize = 0;
                let mut blocked = false;
                while q < ts.len() && !blocked
                    invariant
                        ts == tgt@[i as int],
                        q <= ts@.len(),
                        !blocked ==> forall|qq: int|
                            0 <= qq < q ==> finished@[#[trigger] ts@[qq] as int],
                        blocked ==> exists|qq: int| 0 <= qq < ts@.len() && !finished@[#[trigger] ts@[qq] as int],
                        forall|qq: int| 0 <= qq < ts@.len() ==> (#[trigger] ts@[qq]) < finished@.len(),
                    decreases ts@.len() - q,
                {
                    if !finished[ts[q]] {
                        blocked = true;
                    }
                    q = q + 1;
                }
                if blocked {
                    next.push(false);
                } else {
                    next.push(true);
                    proof {
                        round2 = round2.update(i as int, rc);
                        witness = i as int;
                    }
                    any = true;
                }
            }
        }
        proof {
            lemma_count_false_mono(finished@, next@, witness);
            if !any {
                assert(next@ =~= finished@);
            }
            assert forall|a: int| 0 <= a < n && #[trigger] next@[a] implies forall|q: int|
                0 <= q < tgt@[a]@.len() ==> next@[#[trigger] tgt@[a]@[q] as int] && round2[tgt@[a]@[q] as int]
                    < round2[a] by {
                assert forall|q: int| 0 <= q < tgt@[a]@.len() implies next@[#[trigger] tgt@[a]@[q] as int]
                    && round2[tgt@[a]@[q] as int] < round2[a] by {
                    let t = tgt@[a]@[q] as int;
                    if finished@[a] {
                        assert(finished@[t]);
                    } else {
                        assert(finished@[t]);
                        assert(round[t] < rc);
                    }
                }
            }
        }
        finished = next;
        proof {
            round = round2;
            rc = rc + 1;
        }
        changed = any;
    }
    (finished, Ghost(round))
}

/// When every node is marked, the rounds give a ranking of the
/// escalation graph.
proof fn lemma_rounds_rank(
    procs: Seq<Procedure>,
    is_last: Seq<bool>,
    tgt: Seq<Vec<usize>>,
    finished: Seq<bool>,
    round: Seq<nat>,
)
    requires
        procs.len() <= usize::MAX,
        is_last.len() == procs.len(),
        tgt.len() == procs.len(),
        finished.len() == procs.len(),
        round.len() == procs.len(),
        forall|a: int| 0 <= a < procs.len() ==> #[trigger] finished[a],
        forall|a: int|
            0 <= a < procs.len() ==> (#[trigger] is_last[a] == (last_named(procs, procs[a].name@) == a)),
        forall|a: int, b: Seq<char>|
            0 <= a < procs.len() && is_last[a] && #[trigger] escalates_to(procs, procs[a].name@, b)
                ==> tgt[a]@.contains(last_named(procs, b) as usize) && last_named(procs, b) >= 0,
        forall|a: int|
            0 <= a < procs.len() && #[trigger] finished[a] ==> forall|q: int|
                0 <= q < tgt[a]@.len() ==> finished[#[trigger] tgt[a]@[q] as int] && round[tgt[a]@[q] as int]
                    < round[a],
    ensures
        escalation_acyclic(procs),
{
    let rank = |s: Seq<char>|
        if last_named(procs, s) >= 0 {
            round[last_named(procs, s)]
        } else {
            0nat
        };
    assert forall|nm: Seq<char>, b: Seq<char>| #[trigger] escalates_to(procs, nm, b) implies rank(nm)
        > rank(b) by {
        lemma_last_named(procs, nm);
        let l = last_named(procs, nm);
        assert(procs[l].name@ == nm);
        assert(is_last[l]);
        assert(finished[l]);
        lemma_last_named(procs, b);
        let t = last_named(procs, b) as usize;
        assert(tgt[l]@.contains(t));
        let q = choose|q: int| 0 <= q < tgt[l]@.len() && tgt[l]@[q] == t;
        assert(tgt[l]@[q] == t);
        assert(round[t as int] < round[l]);
    }
    assert(ranked_by(procs, rank));
}

/// An unmarked node, each unmarked node having an unmarked target, rules
/// out every ranking.
proof fn lemma_cycle_unranked(procs: Seq<Procedure>, tgt: Seq<Vec<usize>>, finished: Seq<bool>, u: int)
    requires
        finished.len() == procs.len(),
        tgt.len() == procs.len(),
        0 <= u < procs.len(),
        !finished[u],
        forall|i: int|
            0 <= i < procs.len() && !#[trigger] finished[i] ==> exists|q: int|
                0 <= q < tgt[i]@.len() && !finished[#[trigger] tgt[i]@[q] as int],
        forall|i: int, q: int|
            0 <= i < procs.len() && 0 <= q < tgt[i]@.len() ==> (#[trigger] tgt[i]@[q]) < procs.len()
                && escalates_to(procs, procs[i].name@, procs[tgt[i]@[q] as int].name@),
    ensures
        !escalation_acyclic(procs),
{
    if escalation_acyclic(procs) {
        let rank = choose|rank: spec_fn(Seq<char>) -> nat| ranked_by(procs, rank);
        lemma_stuck_unranked(procs, tgt, finished, rank, rank(procs[u].name@) + 1);
    }
}

/// Verify that every timeout escalation names a declared procedure and
/// that escalations never cycle. Escalations follow the last procedure of
/// each name.
#[verifier::spinoff_prover]
#[verifier::rlimit(40)]
pub fn check_escalation_acyclic(config: &EngineConfig) -> (r: Result<(), CedarPlusError>)
    ensures
        r is Ok <==> (escalation_targets_declared(config.procedures@) && escalation_acyclic(
            config.procedures@,
        )),
        !escalation_targets_declared(config.procedures@) ==> (r matches Err(e) && exists|
            n: Seq<char>,
            b: Seq<char>,
        |
            #[trigger] escalates_to(config.procedures@, n, b) && last_named(config.procedures@, b) < 0
                && procedure_error(e, n, undeclared_target_detail(b))),
        escalation_targets_declared(config.procedures@) ==> (r matches Err(e) ==> exists|
            n: Seq<char>,
            x: Seq<char>,
        | last_named(config.procedures@, n) >= 0 && #[trigger] procedure_error(e, n, cycle_detail(x))),
{
    let procs = &config.procedures;
    let (is_last, tgt) = match escalation_edges(procs) {
        Err(e) => return Err(e),
        Ok(p) => p,
    };
    let (finished, Ghost(round)) = finish_rounds(&is_last, &tgt);
    let n = procs.len();
    let mut u: usize = 0;
    while u < n && finished[u]
        invariant
            n == procs@.len() == finished@.len(),
            u <= n,
            forall|a: int| 0 <= a < u ==> #[trigger] finished@[a],
        decreases n - u,
    {
        u = u + 1;
    }
    if u == n {
        proof {
            lemma_rounds_rank(procs@, is_last@, tgt@, finished@, round);
        }
        return Ok(());
    }
    let ts = &tgt[u];
    let mut q: usize = 0;
    while q < ts.len() && finished[ts[q]]
        invariant
            n == procs@.len() == finished@.len(),
            u < n,
            !finished@[u as int],
            ts == tgt@[u as int],
            q <= ts@.len(),
            forall|qq: int| 0 <= qq < ts@.len() ==> (#[trigger] ts@[qq]) < n,
            forall|qq: int| 0 <= qq < q ==> finished@[#[trigger] ts@[qq] as int],
            exists|qq: int| 0 <= qq < ts@.len() && !finished@[#[trigger] ts@[qq] as int],
        decreases ts@.len() - q,
    {
        q = q + 1;
    }
    if q == ts.len() {
        proof {
            let qq = choose|qq: int| 0 <= qq < ts@.len() && !finished@[#[trigger] ts@[qq] as int];
            assert(finished@[ts@[qq] as int]);
        }
        return Ok(());
    }
    let t = ts[q];
    proof {
        lemma_cycle_unranked(procs@, tgt@, finished@, u as int);
        lemma_last_named(procs@, procs@[u as int].name@);
        assert(is_last@[u as int]);
    }
    let e = CedarPlusError::InvalidProcedure {
        procedure: procs[u].name.clone(),
        detail: message("escalation cycle reaches back to ", procs[t].name.as_str(), ""),
    };
    assert(procedure_error(e, procs@[u as int].name@, cycle_detail(procs@[t as int].name@)));
    Err(e)
}

/// `e` is the error reported for the escalations of `procs`: an
/// escalation to an undeclared procedure, or else a cycle.
pub open spec fn escalation_error(procs: Seq<Procedure>, e: CedarPlusError) -> bool {
    if !escalation_targets_declared(procs) {
        exists|n: Seq<char>, b: Seq<char>|
            #[trigger] escalates_to(procs, n, b) && last_named(procs, b) < 0 && procedure_error(
                e,
                n,
                undeclared_target_detail(b),
            )
    } else {
        exists|n: Seq<char>, x: Seq<char>|
            last_named(procs, n) >= 0 && #[trigger] procedure_error(e, n, cycle_detail(x))
    }
}

/// Every procedure is well formed and escalations are declared and
/// acyclic.
pub open spec fn procedures_ok(c: EngineConfig) -> bool {
    &&& forall|i: int|
        0 <= i < c.procedures@.len() ==> states_ok(#[trigger] c.procedures@[i]) && transitions_ok(c.procedures@[i])
    &&& escalation_targets_declared(c.procedures@)
    &&& escalation_acyclic(c.procedures@)
}

/// `e` is the error reported for the procedures: that of the first
/// procedure with a problem, or else the escalation error.
pub open spec fn procedures_error(c: EngineConfig, e: CedarPlusError) -> bool {
    ||| exists|i: int|
        0 <= i < c.procedures@.len() && (forall|j: int|
            0 <= j < i ==> states_ok(#[trigger] c.procedures@[j]) && transitions_ok(c.procedures@[j]))
            && if !states_ok(c.procedures@[i]) {
            states_error(c.procedures@[i], e)
        } else {
            !transitions_ok(c.procedures@[i]) && transitions_error(c.procedures@[i], e)
        }
    ||| (forall|i: int|
        0 <= i < c.procedures@.len() ==> states_ok(#[trigger] c.procedures@[i]) && transitions_ok(c.procedures@[i]))
        && escalation_error(c.procedures@, e)
}

/// Verify every procedure (its states, then its transitions), in order,
/// then the timeout escalations across procedures.
pub fn check_procedures(config: &EngineConfig) -> (r: Result<(), CedarPlusError>)
    ensures
        r is Ok <==> ((forall|i: int|
            0 <= i < config.procedures@.len() ==> states_ok(#[trigger] config.procedures@[i])
                && transitions_ok(config.procedures@[i])) && escalation_targets_declared(
            config.procedures@,
        ) && escalation_acyclic(config.procedures@)),
        r matches Err(e) ==> (exists|i: int|
            0 <= i < config.procedures@.len() && (forall|j: int|
                0 <= j < i ==> states_ok(#[trigger] config.procedures@[j]) && transitions_ok(
                    config.procedures@[j],
                )) && if !states_ok(config.procedures@[i]) {
                states_error(config.procedures@[i], e)
            } else {
                !transitions_ok(config.procedures@[i]) && transitions_error(config.procedures@[i], e)
            }) || ((forall|i: int|
            0 <= i < config.procedures@.len() ==> states_ok(#[trigger] config.procedures@[i])
                && transitions_ok(config.procedures@[i])) && escalation_error(config.procedures@, e)),
        r is Ok <==> procedures_ok(*config),
        r matches Err(e) ==> procedures_error(*config, e),
{
    let mut i: usize = 0;
    while i < config.procedures.len()
        invariant
            i <= config.procedures@.len(),
            forall|j: int|
                0 <= j < i ==> states_ok(#[trigger] config.procedures@[j]) && transitions_ok(
                    config.procedures@[j],
                ),
        decreases config.procedures.len() - i,
    {
        let proc = &config.procedures[i];
        match check_procedure_states(proc) {
            Err(e) => {
                return Err(e);
            },
            Ok(()) => {},
        }
        match check_procedure_transitions(proc) {
            Err(e) => {
                return Err(e);
            },
            Ok(()) => {},
        }
        i = i + 1;
    }
    let r = check_escalation_acyclic(config);
    proof {
        if r is Err {
            assert(escalation_error(config.procedures@, r->Err_0));
        }
    }
    r
}

// ---------------------------------------------------------------------------
// Named-predicate substitution
// ---------------------------------------------------------------------------

/// A character that may continue a predicate name.
pub open spec fn is_ident_char(c: char) -> bool {
    ('a' <= c && c <= 'z') || ('A' <= c && c <= 'Z') || ('0' <= c && c <= '9') || c == '_'
}

/// Length of the run of name characters at the start of `s`.
pub open spec fn ident_prefix_len(s: Seq<char>) -> nat
    decreases s.len(),
{
    if s.len() > 0 && is_ident_char(s[0]) {
        1 + ident_prefix_len(s.drop_first())
    } else {
        0
    }
}

/// `p` in front of a successful result; an error passes through.
pub open spec fn prepend(p: Seq<char>, r: Result<Seq<char>, Seq<char>>) -> Result<Seq<char>, Seq<char>> {
    match r {
        Ok(t) => Ok(p + t),
        Err(n) => Err(n),
    }
}

/// `s` with every `@<name>` replaced by `(<expression of name>)`; a bare
/// `@` stays; the first name without an expression is the error.
pub open spec fn substitute_spec(s: Seq<char>, m: Map<Seq<char>, Seq<char>>) -> Result<
    Seq<char>,
    Seq<char>,
>
    decreases s.len(),
{
    if s.len() == 0 {
        Ok(Seq::empty())
    } else if s[0] == '@' {
        let rest = s.drop_first();
        let k = ident_prefix_len(rest);
        proof {
            lemma_ident_prefix_len_bound(rest);
        }
        if k == 0 {
            prepend(seq!['@'], substitute_spec(rest, m))
        } else {
            let name = rest.take(k as int);
            if !m.contains_key(name) {
                Err(name)
            } else {
                prepend(seq!['('] + m[name] + seq![')'], substitute_spec(rest.skip(k as int), m))
            }
        }
    } else {
        prepend(seq![s[0]], substitute_spec(s.drop_first(), m))
    }
}

pub proof fn lemma_ident_prefix_len_bound(s: Seq<char>)
    ensures
        ident_prefix_len(s) <= s.len(),
    decreases s.len(),
{
    if s.len() > 0 {
        lemma_ident_prefix_len_bound(s.drop_first());
    }
}

proof fn lemma_ident_run(s: Seq<char>, a: int, e: int)
    requires
        0 <= a <= e <= s.len(),
        forall|j: int| a <= j < e ==> is_ident_char(#[trigger] s[j]),
        e == s.len() || !is_ident_char(s[e]),
    ensures
        ident_prefix_len(s.skip(a)) == e - a,
    decreases e - a,
{
    if a < e {
        lemma_ident_run(s, a + 1, e);
        assert(s.skip(a).drop_first() =~= s.skip(a + 1));
        assert(s.skip(a)[0] == s[a]);
    } else if e < s.len() {
        assert(s.skip(a)[0] == s[e]);
    }
}

proof fn lemma_prepend_assoc(a: Seq<char>, b: Seq<char>, r: Result<Seq<char>, Seq<char>>)
    ensures
        prepend(a, prepend(b, r)) == prepend(a + b, r),
{
    if let Ok(t) = r {
        assert(a + (b + t) =~= (a + b) + t);
    }
}

/// Replace every `@<name>` reference in `src` by the parenthesised
/// expression of that predicate; the error is the first name without one.
pub fn substitute(src: &str, predicates: &crate::string_map::StringMap) -> (r: Result<String, String>)
    ensures
        match substitute_spec(src@, predicates@) {
            Ok(t) => r matches Ok(o) && o@ == t,
            Err(n) => r matches Err(o) && o@ == n,
        },
{
    let chars = chars_of(src);
    let ghost s = chars@;
    let mut out = String::new();
    let mut i: usize = 0;
    assert(s.skip(0) =~= s);
    while i < chars.len()
        invariant
            s == chars@,
            s == src@,
            i <= s.len(),
            substitute_spec(s, predicates@) == prepend(out@, substitute_spec(s.skip(i as int), predicates@)),
        decreases s.len() - i,
    {
        let ghost rest = s.skip(i as int);
        assert(rest[0] == s[i as int]);
        assert(rest.drop_first() =~= s.skip(i + 1));
        if chars[i] == '@' {
            let start = i + 1;
            let mut end = start;
            while end < chars.len() && (('a' <= chars[end] && chars[end] <= 'z') || ('A' <= chars[end]
                && chars[end] <= 'Z') || ('0' <= chars[end] && chars[end] <= '9') || chars[end] == '_')
                invariant
                    s == chars@,
                    start <= end <= s.len(),
                    forall|j: int| start <= j < end ==> is_ident_char(#[trigger] s[j]),
                decreases s.len() - end,
            {
                end = end + 1;
            }
            proof {
                lemma_ident_run(s, start as int, end as int);
            }
            if end == start {
                proof {
                    assert(ident_prefix_len(rest.drop_first()) == 0);
                    assert(substitute_spec(rest, predicates@) == prepend(
                        seq!['@'],
                        substitute_spec(s.skip(i + 1), predicates@),
                    ));
                    lemma_prepend_assoc(out@, seq!['@'], substitute_spec(s.skip(i + 1), predicates@));
                    assert(out@ + seq!['@'] =~= out@.push('@'));
                }
                crate::text::push_char(&mut out, '@');
                i = i + 1;
            } else {
                let mut name_chars: Vec<char> = Vec::new();
                for j in start..end
                    invariant
                        s == chars@,
                        start <= end <= s.len(),
                        name_chars@ =~= s.subrange(start as int, j as int),
                {
                    name_chars.push(chars[j]);
                }
                let name = string_from_chars(&name_chars);
                assert(name@ =~= s.skip(i + 1).take((end - start) as int));
                match predicates.get(name.as_str()) {
                    None => {
                        return Err(name);
                    },
                    Some(expansion) => {
                        proof {
                            assert(s.skip(i + 1).skip((end - start) as int) =~= s.skip(end as int));
                            assert(ident_prefix_len(rest.drop_first()) == end - start);
                            assert(substitute_spec(rest, predicates@) == prepend(
                                seq!['('] + expansion@ + seq![')'],
                                substitute_spec(s.skip(end as int), predicates@),
                            ));
                            lemma_prepend_assoc(
                                out@,
                                seq!['('] + expansion@ + seq![')'],
                                substitute_spec(s.skip(end as int), predicates@),
                            );
                            assert(out@ + (seq!['('] + expansion@ + seq![')']) =~= out@.push('(')
                                + expansion@ + seq![')']);
                            assert(out@.push('(') + expansion@ + seq![')'] =~= (out@.push('(')
                                + expansion@).push(')'));
                        }
                        crate::text::push_char(&mut out, '(');
                        out.append(expansion.as_str());
                        crate::text::push_char(&mut out, ')');
                        i = end;
                    },
                }
            }
        } else {
            proof {
                assert(substitute_spec(rest, predicates@) == prepend(
                    seq![s[i as int]],
                    substitute_spec(s.skip(i + 1), predicates@),
                ));
                lemma_prepend_assoc(out@, seq![s[i as int]], substitute_spec(s.skip(i + 1), predicates@));
                assert(out@ + seq![s[i as int]] =~= out@.push(s[i as int]));
            }
            crate::text::push_char(&mut out, chars[i]);
            i = i + 1;
        }
    }
    proof {
        assert(s.skip(s.len() as int) =~= Seq::<char>::empty());
        assert(out@ + Seq::<char>::empty() =~= out@);
    }
    Ok(out)
}

/// The map from predicate names to expressions; a later predicate wins
/// over an earlier one of the same name.
pub open spec fn predicate_map(c: EngineConfig) -> Map<Seq<char>, Seq<char>> {
    crate::string_map::pairs_to_map(
        Seq::new(c.predicates@.len(), |i: int| (c.predicates@[i].name@, c.predicates@[i].expr@)),
    )
}

/// `"unresolved @<name>"` followed by where the reference stood.
pub open spec fn unresolved_detail(name: Seq<char>, place: Seq<char>) -> Seq<char> {
    "unresolved @"@ + name + place
}

/// An optional expression resolves (or is absent).
pub open spec fn opt_resolves(o: Option<String>, m: Map<Seq<char>, Seq<char>>) -> bool {
    o is None || substitute_spec(o->0@, m) is Ok
}

/// `new` is `old` with its expression substituted.
pub open spec fn opt_resolved(new: Option<String>, old: Option<String>, m: Map<Seq<char>, Seq<char>>) -> bool {
    match old {
        None => new is None,
        Some(w) => new is Some && substitute_spec(w@, m) == Ok::<Seq<char>, Seq<char>>(new->0@),
    }
}

/// Every expression of procedure `p` resolves.
pub open spec fn procedure_resolves(p: Procedure, m: Map<Seq<char>, Seq<char>>) -> bool {
    opt_resolves(p.trigger.when, m) && forall|j: int|
        0 <= j < p.transitions@.len() ==> opt_resolves(#[trigger] p.transitions@[j].actor_when, m)
}

/// `new` is `old` with its expressions substituted and all else kept.
pub open spec fn procedure_resolved(new: Procedure, old: Procedure, m: Map<Seq<char>, Seq<char>>) -> bool {
    &&& new.name == old.name
    &&& new.initial_state == old.initial_state
    &&& new.states == old.states
    &&& new.terminal_states == old.terminal_states
    &&& new.on_timeout_escalate == old.on_timeout_escalate
    &&& new.trigger.action == old.trigger.action
    &&& opt_resolved(new.trigger.when, old.trigger.when, m)
    &&& new.transitions@.len() == old.transitions@.len()
    &&& forall|j: int|
        0 <= j < new.transitions@.len() ==> {
            let nt = #[trigger] new.transitions@[j];
            let ot = old.transitions@[j];
            &&& nt.from == ot.from
            &&& nt.to == ot.to
            &&& nt.action == ot.action
            &&& nt.on_timeout == ot.on_timeout
            &&& opt_resolved(nt.actor_when, ot.actor_when, m)
        }
}

/// `e` is the error reported for procedure `p`: its trigger guard, or
/// else its first transition guard that does not resolve.
pub open spec fn procedure_resolve_error(p: Procedure, m: Map<Seq<char>, Seq<char>>, e: CedarPlusError) -> bool {
    if !opt_resolves(p.trigger.when, m) {
        procedure_error(
            e,
            p.name@,
            unresolved_detail(
                substitute_spec(p.trigger.when->0@, m)->Err_0,
                " reference in trigger.when"@,
            ),
        )
    } else {
        exists|j: int|
            0 <= j < p.transitions@.len() && (forall|k: int|
                0 <= k < j ==> opt_resolves(#[trigger] p.transitions@[k].actor_when, m)) && !opt_resolves(
                p.transitions@[j].actor_when,
                m,
            ) && procedure_error(
                e,
                p.name@,
                unresolved_detail(
                    substitute_spec(p.transitions@[j].actor_when->0@, m)->Err_0,
                    " reference in transition.actor_when"@,
                ),
            )
    }
}

/// Substitute the named predicates into the guards of one procedure.
fn resolve_procedure(proc: &mut Procedure, m: &crate::string_map::StringMap) -> (r: Result<(), CedarPlusError>)
    ensures
        r is Ok <==> procedure_resolves(*old(proc), m@),
        r is Ok ==> procedure_resolved(*final(proc), *old(proc), m@),
        r matches Err(e) ==> procedure_resolve_error(*old(proc), m@, e),
{
    let ghost p0 = *proc;
    let res = match &proc.trigger.when {
        Some(w) => Some(substitute(w.as_str(), m)),
        None => None,
    };
    match res {
        Some(Ok(x)) => {
            proc.trigger.when = Some(x);
        },
        Some(Err(name)) => {
            let mut d = owned("unresolved @");
            d.append(name.as_str());
            d.append(" reference in trigger.when");
            return Err(CedarPlusError::InvalidProcedure { procedure: proc.name.clone(), detail: d });
        },
        None => {},
    }
    let n = proc.transitions.len();
    let mut j: usize = 0;
    while j < n
        invariant
            n == p0.transitions@.len(),
            p0 == *old(proc),
            j <= n,
            opt_resolves(p0.trigger.when, m@),
            proc.name == p0.name,
            proc.initial_state == p0.initial_state,
            proc.states == p0.states,
            proc.terminal_states == p0.terminal_states,
            proc.on_timeout_escalate == p0.on_timeout_escalate,
            proc.trigger.action == p0.trigger.action,
            opt_resolved(proc.trigger.when, p0.trigger.when, m@),
            proc.transitions@.len() == n,
            forall|k: int| 0 <= k < j ==> opt_resolves(#[trigger] p0.transitions@[k].actor_when, m@),
            forall|k: int|
                0 <= k < n ==> {
                    let nt = #[trigger] proc.transitions@[k];
                    let ot = p0.transitions@[k];
                    &&& nt.from == ot.from
                    &&& nt.to == ot.to
                    &&& nt.action == ot.action
                    &&& nt.on_timeout == ot.on_timeout
                    &&& (k < j ==> opt_resolved(nt.actor_when, ot.actor_when, m@))
                    &&& (k >= j ==> nt.actor_when == ot.actor_when)
                },
        decreases n - j,
    {
        let res = match &proc.transitions[j].actor_when {
            Some(w) => Some(substitute(w.as_str(), m)),
            None => None,
        };
        match res {
            Some(Ok(x)) => {
                proc.transitions[j].actor_when = Some(x);
            },
            Some(Err(name)) => {
                let mut d = owned("unresolved @");
                d.append(name.as_str());
                d.append(" reference in transition.actor_when");
                let e = CedarPlusError::InvalidProcedure { procedure: proc.name.clone(), detail: d };
                assert(!opt_resolves(p0.transitions@[j as int].actor_when, m@));
                assert(procedure_resolve_error(p0, m@, e));
                return Err(e);
            },
            None => {},
        }
        j = j + 1;
    }
    Ok(())
}

/// Every expression of the config resolves: the scoring rules' guards,
/// then the procedures'.
pub open spec fn scoring_resolves(c: EngineConfig, m: Map<Seq<char>, Seq<char>>) -> bool {
    forall|i: int|
        0 <= i < c.scoring_rules@.len() ==> substitute_spec(#[trigger] c.scoring_rules@[i].when@, m) is Ok
}

/// Every `@<name>` reference of the config resolves.
pub open spec fn resolution_ok(c: EngineConfig) -> bool {
    scoring_resolves(c, predicate_map(c)) && forall|i: int|
        0 <= i < c.procedures@.len() ==> procedure_resolves(#[trigger] c.procedures@[i], predicate_map(c))
}

/// `new` is `old` with every reference substituted and all else kept.
pub open spec fn config_resolved(new: EngineConfig, old: EngineConfig) -> bool {
    let m = predicate_map(old);
    &&& new.schema_version == old.schema_version
    &&& new.predicates == old.predicates
    &&& new.enforcement_rules == old.enforcement_rules
    &&& new.scoring_rules@.len() == old.scoring_rules@.len()
    &&& forall|i: int|
        0 <= i < new.scoring_rules@.len() ==> {
            let nr = #[trigger] new.scoring_rules@[i];
            let or = old.scoring_rules@[i];
            &&& nr.name == or.name
            &&& nr.score == or.score
            &&& nr.head == or.head
            &&& substitute_spec(or.when@, m) == Ok::<Seq<char>, Seq<char>>(nr.when@)
        }
    &&& new.procedures@.len() == old.procedures@.len()
    &&& forall|i: int|
        0 <= i < new.procedures@.len() ==> procedure_resolved(#[trigger] new.procedures@[i], old.procedures@[i], m)
}

/// `e` is the error reported for the first reference that does not
/// resolve: in a scoring rule's guard, or else in a procedure.
pub open spec fn resolve_error(c: EngineConfig, e: CedarPlusError) -> bool {
    let m = predicate_map(c);
    ||| exists|i: int|
        0 <= i < c.scoring_rules@.len() && (forall|j: int|
            0 <= j < i ==> substitute_spec(#[trigger] c.scoring_rules@[j].when@, m) is Ok)
            && substitute_spec(c.scoring_rules@[i].when@, m) is Err && scoring_error(
            e,
            c.scoring_rules@[i].name@,
            unresolved_detail(substitute_spec(c.scoring_rules@[i].when@, m)->Err_0, " reference in when"@),
        )
    ||| scoring_resolves(c, m) && exists|i: int|
        0 <= i < c.procedures@.len() && (forall|j: int|
            0 <= j < i ==> procedure_resolves(#[trigger] c.procedures@[j], m)) && !procedure_resolves(
            c.procedures@[i],
            m,
        ) && procedure_resolve_error(c.procedures@[i], m, e)
}

/// The predicate map of a config, built pair by pair.
fn predicate_map_of(config: &EngineConfig) -> (m: crate::string_map::StringMap)
    ensures
        m@ == predicate_map(*config),
{
    let ghost pairs = Seq::new(
        config.predicates@.len(),
        |i: int| (config.predicates@[i].name@, config.predicates@[i].expr@),
    );
    let mut m = crate::string_map::StringMap::new();
    let mut i: usize = 0;
    assert(pairs.take(0) =~= Seq::<(Seq<char>, Seq<char>)>::empty());
    while i < config.predicates.len()
        invariant
            i <= config.predicates@.len(),
            pairs == Seq::new(
                config.predicates@.len(),
                |i: int| (config.predicates@[i].name@, config.predicates@[i].expr@),
            ),
            m@ == crate::string_map::pairs_to_map(pairs.take(i as int)),
        decreases config.predicates.len() - i,
    {
        let k = config.predicates[i].name.clone();
        let v = config.predicates[i].expr.clone();
        m.insert(k, v);
        assert(pairs.take(i + 1).drop_last() =~= pairs.take(i as int));
        i = i + 1;
    }
    assert(pairs.take(config.predicates.len() as int) =~= pairs);
    m
}

/// Substitute every `@<name>` reference in the scoring rules' guards and
/// the procedures' trigger and transition guards by the named
/// predicate's parenthesised expression. The first reference without a
/// predicate is reported, scoring rules first.
pub fn resolve_named_predicates(config: &mut EngineConfig) -> (r: Result<(), CedarPlusError>)
    ensures
        r is Ok <==> (scoring_resolves(*old(config), predicate_map(*old(config))) && forall|i: int|
            0 <= i < old(config).procedures@.len() ==> procedure_resolves(
                #[trigger] old(config).procedures@[i],
                predicate_map(*old(config)),
            )),
        r is Ok ==> {
            let m = predicate_map(*old(config));
            &&& final(config).schema_version == old(config).schema_version
            &&& final(config).predicates == old(config).predicates
            &&& final(config).enforcement_rules == old(config).enforcement_rules
            &&& final(config).scoring_rules@.len() == old(config).scoring_rules@.len()
            &&& forall|i: int|
                0 <= i < final(config).scoring_rules@.len() ==> {
                    let nr = #[trigger] final(config).scoring_rules@[i];
                    let or = old(config).scoring_rules@[i];
                    &&& nr.name == or.name
                    &&& nr.score == or.score
                    &&& nr.head == or.head
                    &&& substitute_spec(or.when@, m) == Ok::<Seq<char>, Seq<char>>(nr.when@)
                }
            &&& final(config).procedures@.len() == old(config).procedures@.len()
            &&& forall|i: int|
                0 <= i < final(config).procedures@.len() ==> procedure_resolved(
                    #[trigger] final(config).procedures@[i],
                    old(config).procedures@[i],
                    m,
                )
        },
        r matches Err(e) ==> {
            let m = predicate_map(*old(config));
            ||| exists|i: int|
                0 <= i < old(config).scoring_rules@.len() && (forall|j: int|
                    0 <= j < i ==> substitute_spec(#[trigger] old(config).scoring_rules@[j].when@, m) is Ok)
                    && substitute_spec(old(config).scoring_rules@[i].when@, m) is Err && scoring_error(
                    e,
                    old(config).scoring_rules@[i].name@,
                    unresolved_detail(
                        substitute_spec(old(config).scoring_rules@[i].when@, m)->Err_0,
                        " reference in when"@,
                    ),
                )
            ||| scoring_resolves(*old(config), m) && exists|i: int|
                0 <= i < old(config).procedures@.len() && (forall|j: int|
                    0 <= j < i ==> procedure_resolves(#[trigger] old(config).procedures@[j], m))
                    && !procedure_resolves(old(config).procedures@[i], m) && procedure_resolve_error(
                    old(config).procedures@[i],
                    m,
                    e,
                )
        },
        r is Ok <==> resolution_ok(*old(config)),
        r is Ok ==> config_resolved(*final(config), *old(config)),
        r matches Err(e) ==> resolve_error(*old(config), e),
{
    let ghost c0 = *config;
    let m = predicate_map_of(config);
    let n = config.scoring_rules.len();
    let mut i: usize = 0;
    while i < n
        invariant
            c0 == *old(config),
            m@ == predicate_map(c0),
            n == c0.scoring_rules@.len(),
            i <= n,
            config.schema_version == c0.schema_version,
            config.predicates == c0.predicates,
            config.enforcement_rules == c0.enforcement_rules,
            config.procedures == c0.procedures,
            config.scoring_rules@.len() == n,
            forall|j: int| 0 <= j < i ==> substitute_spec(#[trigger] c0.scoring_rules@[j].when@, m@) is Ok,
            forall|j: int|
                0 <= j < n ==> {
                    let nr = #[trigger] config.scoring_rules@[j];
                    let or = c0.scoring_rules@[j];
                    &&& nr.name == or.name
                    &&& nr.score == or.score
                    &&& nr.head == or.head
                    &&& (j < i ==> substitute_spec(or.when@, m@) == Ok::<Seq<char>, Seq<char>>(nr.when@))
                    &&& (j >= i ==> nr.when == or.when)
                },
        decreases n - i,
    {
        match substitute(config.scoring_rules[i].when.as_str(), &m) {
            Ok(w) => {
                config.scoring_rules[i].when = w;
            },
            Err(name) => {
                let mut d = owned("unresolved @");
                d.append(name.as_str());
                d.append(" reference in when");
                let e = CedarPlusError::InvalidScoringRule {
                    rule: config.scoring_rules[i].name.clone(),
                    detail: d,
                };
                assert(scoring_error(
                    e,
                    c0.scoring_rules@[i as int].name@,
                    unresolved_detail(
                        substitute_spec(c0.scoring_rules@[i as int].when@, m@)->Err_0,
                        " reference in when"@,
                    ),
                ));
                return Err(e);
            },
        }
        i = i + 1;
    }
    let np = config.procedures.len();
    let mut i: usize = 0;
    while i < np
        invariant
            c0 == *old(config),
            m@ == predicate_map(c0),
            np == c0.procedures@.len(),
            i <= np,
            scoring_resolves(c0, m@),
            config.schema_version == c0.schema_version,
            config.predicates == c0.predicates,
            config.enforcement_rules == c0.enforcement_rules,
            config.scoring_rules@.len() == c0.scoring_rules@.len(),
            forall|j: int|
                0 <= j < config.scoring_rules@.len() ==> {
                    let nr = #[trigger] config.scoring_rules@[j];
                    let or = c0.scoring_rules@[j];
                    &&& nr.name == or.name
                    &&& nr.score == or.score
                    &&& nr.head == or.head
                    &&& substitute_spec(or.when@, m@) == Ok::<Seq<char>, Seq<char>>(nr.when@)
                },
            config.procedures@.len() == np,
            forall|j: int| 0 <= j < i ==> procedure_resolves(#[trigger] c0.procedures@[j], m@),
            forall|j: int|
                0 <= j < i ==> procedure_resolved(#[trigger] config.procedures@[j], c0.procedures@[j], m@),
            forall|j: int| i <= j < np ==> #[trigger] config.procedures@[j] == c0.procedures@[j],
        decreases np - i,
    {
        match resolve_procedure(&mut config.procedures[i], &m) {
            Ok(()) => {},
            Err(e) => {
                return Err(e);
            },
        }
        i = i + 1;
    }
    Ok(())
}

// ---------------------------------------------------------------------------
// Depth estimate
// ---------------------------------------------------------------------------

/// One character of the depth scan over `(current nesting, deepest in
/// this line, deepest so far)`: brackets open and close (never below
/// zero), a newline starts a fresh line.
pub open spec fn depth_step(st: (nat, nat, nat), c: char) -> (nat, nat, nat) {
    if c == '\n' {
        (0, 0, st.2)
    } else if c == '(' || c == '[' || c == '{' {
        let cur = st.0 + 1;
        let line = if cur > st.1 { cur } else { st.1 };
        (cur, line, if line > st.2 { line } else { st.2 })
    } else if c == ')' || c == ']' || c == '}' {
        (if st.0 > 0 { (st.0 - 1) as nat } else { 0 }, st.1, st.2)
    } else {
        st
    }
}

/// The scan state after the characters of `s`.
pub open spec fn depth_state(s: Seq<char>) -> (nat, nat, nat)
    decreases s.len(),
{
    if s.len() == 0 {
        (0, 0, 0)
    } else {
        depth_step(depth_state(s.drop_last()), s.last())
    }
}

proof fn lemma_depth_bound(s: Seq<char>)
    ensures
        depth_state(s).0 <= s.len(),
        depth_state(s).1 <= s.len(),
        depth_state(s).2 <= s.len(),
    decreases s.len(),
{
    if s.len() > 0 {
        lemma_depth_bound(s.drop_last());
    }
}

/// The deepest nesting of `s`, capped at `u32::MAX`.
pub open spec fn capped_depth(s: Seq<char>) -> nat {
    if depth_state(s).2 > u32::MAX {
        u32::MAX as nat
    } else {
        depth_state(s).2
    }
}

/// The deepest bracket nesting reached within any one line of `source`
/// (capped at `u32::MAX`).
pub fn estimate_cedar_depth(source: &str) -> (d: u32)
    ensures
        d == capped_depth(source@),
{
    let v = chars_of(source);
    let mut cur: u64 = 0;
    let mut line: u64 = 0;
    let mut best: u64 = 0;
    let mut i: usize = 0;
    assert(v@.take(0) =~= Seq::<char>::empty());
    while i < v.len()
        invariant
            v@ == source@,
            i <= v@.len(),
            (cur as nat, line as nat, best as nat) == depth_state(v@.take(i as int)),
        decreases v.len() - i,
    {
        proof {
            lemma_depth_bound(v@.take(i as int));
            assert(v@.take(i + 1).drop_last() =~= v@.take(i as int));
        }
        let c = v[i];
        if c == '\n' {
            cur = 0;
            line = 0;
        } else if c == '(' || c == '[' || c == '{' {
            cur = cur + 1;
            if cur > line {
                line = cur;
            }
            if line > best {
                best = line;
            }
        } else if c == ')' || c == ']' || c == '}' {
            cur = if cur > 0 { cur - 1 } else { 0 };
        }
        i = i + 1;
    }
    assert(v@.take(v.len() as int) =~= v@);
    if best > 4294967295u64 {
        4294967295u32
    } else {
        best as u32
    }
}


// ---------------------------------------------------------------------------
// Ambiguity keys
// ---------------------------------------------------------------------------

proof fn lemma_prefixed_eq(p: Seq<char>, x: Seq<char>, y: Seq<char>)
    requires
        p + x == p + y,
    ensures
        x == y,
{
    assert(x =~= (p + x).skip(p.len() as int));
    assert(y =~= (p + y).skip(p.len() as int));
}

/// Two transitions clash on their key exactly when they are driven by the
/// same thing: two action transitions share a key iff their actions are
/// the same, two timeout transitions iff their timeouts are the same, and
/// an action transition never shares a key with a timeout transition.
pub proof fn lemma_action_key_distinguishes(t1: ProcedureTransition, t2: ProcedureTransition)
    ensures
        t1.action is Some && t2.action is Some ==> (action_key(t1) == action_key(t2) <==> t1.action->0@
            == t2.action->0@),
        t1.action is None && t2.action is None && t1.on_timeout is Some && t2.on_timeout is Some ==> (action_key(t1)
            == action_key(t2) <==> t1.on_timeout->0@ == t2.on_timeout->0@),
        t1.action is Some && t2.action is None && t2.on_timeout is Some ==> action_key(t1) != action_key(t2),
{
    reveal_strlit("action:");
    reveal_strlit("timeout:");
    if t1.action is Some && t2.action is Some && action_key(t1) == action_key(t2) {
        lemma_prefixed_eq("action:"@, t1.action->0@, t2.action->0@);
    }
    if t1.action is None && t2.action is None && t1.on_timeout is Some && t2.on_timeout is Some && action_key(t1)
        == action_key(t2) {
        lemma_prefixed_eq("timeout:"@, t1.on_timeout->0@, t2.on_timeout->0@);
    }
    if t1.action is Some && t2.action is None && t2.on_timeout is Some {
        assert(action_key(t1)[0] == 'a');
        assert(action_key(t2)[0] == 't');
    }
}

/// Procedure transitions are refused as ambiguous only for the same
/// trigger: when transition `j` comes from the same state as transition
/// `i` with the same key, and each has exactly one of an action and a
/// timeout, then both have the same action, or both the same timeout.
/// Transitions from one state on different actions are never ambiguous.
pub proof fn lemma_same_key_same_trigger(p: Procedure, j: int, i: int)
    requires
        0 <= j < p.transitions@.len(),
        0 <= i < p.transitions@.len(),
        same_key(p, j, i),
        p.transitions@[j].action is Some != p.transitions@[j].on_timeout is Some,
        p.transitions@[i].action is Some != p.transitions@[i].on_timeout is Some,
    ensures
        p.transitions@[j].from@ == p.transitions@[i].from@,
        p.transitions@[j].action.deep_view() == p.transitions@[i].action.deep_view(),
        p.transitions@[j].on_timeout.deep_view() == p.transitions@[i].on_timeout.deep_view(),
{
    let a = p.transitions@[j];
    let b = p.transitions@[i];
    lemma_action_key_distinguishes(a, b);
    lemma_action_key_distinguishes(b, a);
}
} // verus!
