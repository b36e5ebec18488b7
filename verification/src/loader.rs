//! Loading a constitution: structural checks, predicate resolution,
//! load-time bounds, Cedar parsing and strict validation, the engine
//! config's Cedar expressions, and Layer B synthesis, in that order.
//! The first failing step decides the error.

use std::sync::Arc;

use vstd::prelude::*;

use crate::cedar::{
    count_policies, expression_parses, parse_cedar_schema, parse_expression, parse_policies, policy_count,
    policy_set_parses, schema_parses, sourced, strict_valid, validate_strict, CedarPolicies, CedarSchema,
};
use crate::numtext::{nat_digits, u64_digits};
use crate::constitution::Constitution;
use crate::engine_config::{EngineConfig, Procedure};
use crate::error::{CedarPlusError, LoadBoundReason};
use crate::layer_b::{artifacts_match, layer_b_parses, scores_read, synthesize, LayerBArtifacts};
use crate::sandbox::{default_bounds, SandboxConfig};
use crate::score::score_in_range;
use crate::text::{message, owned, push_char, quote, quoted_in, starts_with_spec, string_from_chars};
use crate::validate::{
    check_enforcement_rules, check_load_time_counts, check_procedures, check_scoring_rules,
    check_unique_names, config_resolved, capped_depth, enforcement_rules_error, enforcement_rules_ok,
    estimate_cedar_depth, names_ok, procedures_error, procedures_ok, resolution_ok, resolve_error,
    resolve_named_predicates, scoring_rules_error, scoring_rules_ok, unique_names_error,
};

verus! {

// ---------------------------------------------------------------------------
// The Cedar policy set
// ---------------------------------------------------------------------------

/// A policy set that parsed, passed strict validation and the load-time
/// bounds.
pub struct ParsedCedar {
    /// The parsed policies.
    pub policy_set: CedarPolicies,
    /// How many policies the set holds.
    pub policy_count: usize,
    /// The nesting depth estimated from the source text.
    pub cedar_max_policy_depth: u32,
}

/// `parts` with `sep` between each two of them.
pub open spec fn joined(parts: Seq<Seq<char>>, sep: Seq<char>) -> Seq<char>
    decreases parts.len(),
{
    if parts.len() == 0 {
        Seq::empty()
    } else if parts.len() == 1 {
        parts[0]
    } else {
        joined(parts.drop_last(), sep) + sep + parts.last()
    }
}

/// Join texts with a separator.
pub fn join_texts(parts: &Vec<String>, sep: &str) -> (out: String)
    ensures
        out@ == joined(parts.deep_view(), sep@),
{
    if parts.len() == 0 {
        return String::new();
    }
    let mut out = parts[0].clone();
    let mut i: usize = 1;
    assert(parts.deep_view().take(1) =~= seq![parts.deep_view()[0]]);
    while i < parts.len()
        invariant
            1 <= i <= parts@.len(),
            out@ == joined(parts.deep_view().take(i as int), sep@),
        decreases parts.len() - i,
    {
        out.append(sep);
        out.append(parts[i].as_str());
        assert(parts.deep_view().take(i + 1).drop_last() =~= parts.deep_view().take(i as int));
        i = i + 1;
    }
    assert(parts.deep_view().take(parts.len() as int) =~= parts.deep_view());
    out
}

/// The lead of the message for a policy set the validator refused.
pub open spec fn validator_lead() -> Seq<char> {
    "Cedar validator rejected the policy set: "@
}

/// The lead of the message for a policy set that does not parse.
pub open spec fn source_lead() -> Seq<char> {
    "Cedar source failed to parse: "@
}

/// The checks after a policy set parsed, given what Cedar reported: the
/// policy count bound first, then the validator's verdict (`None` when it
/// passed, else its messages), then the depth bound.
pub fn cedar_verdict(
    policy_count: usize,
    validation_errors: &Option<Vec<String>>,
    depth: u32,
    bounds: &SandboxConfig,
) -> (r: Result<(), CedarPlusError>)
    ensures
        policy_count > bounds.max_cedar_policies ==> r matches Err(
            CedarPlusError::LoadBoundExceeded(LoadBoundReason::PolicyCount),
        ),
        policy_count <= bounds.max_cedar_policies && validation_errors is Some ==> (r matches Err(
            CedarPlusError::Parse(m),
        ) && m@ == validator_lead() + joined(validation_errors->0.deep_view(), "; "@)),
        policy_count <= bounds.max_cedar_policies && validation_errors is None && depth
            > bounds.max_policy_depth_at_load ==> r matches Err(
            CedarPlusError::LoadBoundExceeded(LoadBoundReason::PolicyDepth),
        ),
        r is Ok <==> (policy_count <= bounds.max_cedar_policies && validation_errors is None && depth
            <= bounds.max_policy_depth_at_load),
{
    if policy_count > bounds.max_cedar_policies {
        return Err(CedarPlusError::LoadBoundExceeded(LoadBoundReason::PolicyCount));
    }
    if let Some(errs) = validation_errors {
        let mut m = owned("Cedar validator rejected the policy set: ");
        let joined_errs = join_texts(errs, "; ");
        m.append(joined_errs.as_str());
        return Err(CedarPlusError::Parse(m));
    }
    if depth > bounds.max_policy_depth_at_load {
        return Err(CedarPlusError::LoadBoundExceeded(LoadBoundReason::PolicyDepth));
    }
    Ok(())
}

/// Cedar accepts the policy source `src` against the schema text
/// `schema` within bounds `b`: it parses, its policy count is within the
/// bound, strict validation reports nothing and its depth is within the
/// bound.
pub open spec fn cedar_accepts(src: Seq<char>, schema: Seq<char>, b: SandboxConfig) -> bool {
    &&& policy_set_parses(src)
    &&& policy_count(src) <= b.max_cedar_policies
    &&& strict_valid(schema, sourced(src))
    &&& capped_depth(src) <= b.max_policy_depth_at_load
}

/// `r` is what the policy-set checks give for source `src`, schema text
/// `schema` and bounds `b`: the parse error, the count bound, the
/// validator's refusal and the depth bound, in that order.
pub open spec fn cedar_refusals(src: Seq<char>, schema: Seq<char>, b: SandboxConfig, r: Result<(), CedarPlusError>) -> bool {
    &&& !policy_set_parses(src) ==> (r matches Err(CedarPlusError::Parse(m)) && starts_with_spec(m@, source_lead()))
    &&& policy_set_parses(src) && policy_count(src) > b.max_cedar_policies ==> (r matches Err(
        CedarPlusError::LoadBoundExceeded(LoadBoundReason::PolicyCount),
    ))
    &&& policy_set_parses(src) && policy_count(src) <= b.max_cedar_policies && !strict_valid(schema, sourced(src)) ==> (r matches Err(
        CedarPlusError::Parse(m),
    ) && starts_with_spec(m@, validator_lead()))
    &&& policy_set_parses(src) && policy_count(src) <= b.max_cedar_policies && strict_valid(schema, sourced(src))
        && capped_depth(src) > b.max_policy_depth_at_load ==> (r matches Err(
        CedarPlusError::LoadBoundExceeded(LoadBoundReason::PolicyDepth),
    ))
    &&& r is Ok <==> cedar_accepts(src, schema, b)
}

/// Parse the Cedar source, bound its policy count, validate it strictly
/// against `schema`, and bound its nesting depth.
pub fn parse_and_validate_cedar(schema: &CedarSchema, cedar_source: &str, bounds: &SandboxConfig) -> (r: Result<
    ParsedCedar,
    CedarPlusError,
>)
    ensures
        cedar_refusals(cedar_source@, schema@, *bounds, unit_of(r)),
        r matches Ok(p) ==> {
            &&& p.policy_set@ == sourced(cedar_source@)
            &&& p.policy_count == policy_count(cedar_source@)
            &&& p.cedar_max_policy_depth == capped_depth(cedar_source@)
        },
{
    let policy_set = match parse_policies(cedar_source) {
        Ok(set) => set,
        Err(msg) => {
            let mut m = owned("Cedar source failed to parse: ");
            let ghost lead = m@;
            m.append(msg.as_str());
            assert(m@.take(lead.len() as int) =~= lead);
            return Err(CedarPlusError::Parse(m));
        },
    };
    let policy_count = count_policies(&policy_set);
    let errs = validate_strict(schema, &policy_set);
    let validation_errors = if errs.len() == 0 {
        None
    } else {
        Some(errs)
    };
    let depth = estimate_cedar_depth(cedar_source);
    match cedar_verdict(policy_count, &validation_errors, depth, bounds) {
        Ok(()) => Ok(ParsedCedar { policy_set, policy_count, cedar_max_policy_depth: depth }),
        Err(e) => {
            proof {
                if e is Parse {
                    let m = e->Parse_0;
                    assert(m@.take(validator_lead().len() as int) =~= validator_lead());
                }
            }
            Err(e)
        },
    }
}

// ---------------------------------------------------------------------------
// Engine-config expressions
// ---------------------------------------------------------------------------

/// The lead of the message for an expression that does not parse.
pub open spec fn expression_lead(expr: Seq<char>) -> Seq<char> {
    quoted_in("Cedar expression "@, expr, " failed to parse: "@)
}

/// Parse a Cedar expression (a `when` body or the like).
pub fn parse_cedar_expression(schema: &CedarSchema, expr: &str) -> (r: Result<(), CedarPlusError>)
    ensures
        r is Ok <==> expression_parses(expr@),
        r matches Err(e) ==> (e matches CedarPlusError::Parse(m) && starts_with_spec(m@, expression_lead(expr@))),
{
    match parse_expression(expr) {
        Ok(()) => Ok(()),
        Err(msg) => {
            let mut m = message("Cedar expression ", expr, " failed to parse: ");
            let ghost lead = m@;
            m.append(msg.as_str());
            assert(m@.take(lead.len() as int) =~= lead);
            Err(CedarPlusError::Parse(m))
        },
    }
}

/// An optional expression parses, or is absent.
pub open spec fn opt_parses(o: Option<String>) -> bool {
    o is None || expression_parses(o->0@)
}

/// Every expression of a procedure parses: its trigger guard and each
/// transition's actor guard.
pub open spec fn procedure_expressions_ok(p: Procedure) -> bool {
    opt_parses(p.trigger.when) && forall|j: int|
        0 <= j < p.transitions@.len() ==> opt_parses(#[trigger] p.transitions@[j].actor_when)
}

/// Every Cedar expression of the engine config parses.
pub open spec fn expressions_ok(c: EngineConfig) -> bool {
    &&& forall|i: int| 0 <= i < c.scoring_rules@.len() ==> expression_parses(#[trigger] c.scoring_rules@[i].when@)
    &&& forall|i: int| 0 <= i < c.procedures@.len() ==> procedure_expressions_ok(#[trigger] c.procedures@[i])
}

/// The detail reported for a rejected expression: `lead`, then the parse
/// error as the error reports itself.
pub open spec fn rejected_detail(detail: Seq<char>, lead: Seq<char>, expr: Seq<char>) -> bool {
    starts_with_spec(detail, lead + "constitution parse error: "@ + expression_lead(expr))
}

/// `e` reports the first expression of procedure `p` that does not parse.
pub open spec fn procedure_expression_error(p: Procedure, e: CedarPlusError) -> bool {
    if !opt_parses(p.trigger.when) {
        e matches CedarPlusError::InvalidProcedure { procedure, detail } && procedure@ == p.name@
            && rejected_detail(detail@, "trigger.when rejected: "@, p.trigger.when->0@)
    } else {
        exists|j: int|
            0 <= j < p.transitions@.len() && (forall|k: int|
                0 <= k < j ==> opt_parses(#[trigger] p.transitions@[k].actor_when)) && !opt_parses(
                p.transitions@[j].actor_when,
            ) && (e matches CedarPlusError::InvalidProcedure { procedure, detail } && procedure@
                == p.name@ && rejected_detail(
                detail@,
                "transition "@ + quote(p.transitions@[j].from@) + "->"@ + quote(p.transitions@[j].to@)
                    + " actor_when rejected: "@,
                p.transitions@[j].actor_when->0@,
            ))
    }
}

/// `e` reports the first expression of `c` that does not parse: scoring
/// guards first, then the procedures in order.
pub open spec fn expression_error(c: EngineConfig, e: CedarPlusError) -> bool {
    ||| exists|i: int|
        0 <= i < c.scoring_rules@.len() && (forall|j: int|
            0 <= j < i ==> expression_parses(#[trigger] c.scoring_rules@[j].when@)) && !expression_parses(
            c.scoring_rules@[i].when@,
        ) && (e matches CedarPlusError::InvalidScoringRule { rule, detail } && rule@
            == c.scoring_rules@[i].name@ && rejected_detail(
            detail@,
            "when expression rejected: "@,
            c.scoring_rules@[i].when@,
        ))
    ||| (forall|i: int|
        0 <= i < c.scoring_rules@.len() ==> expression_parses(#[trigger] c.scoring_rules@[i].when@))
        && exists|i: int|
        0 <= i < c.procedures@.len() && (forall|j: int|
            0 <= j < i ==> procedure_expressions_ok(#[trigger] c.procedures@[j])) && !procedure_expressions_ok(
            c.procedures@[i],
        ) && procedure_expression_error(c.procedures@[i], e)
}

/// `"constitution parse error: "` and the message of a parse error.
fn parse_error_text(e: &CedarPlusError) -> (out: String)
    ensures
        e matches CedarPlusError::Parse(m) ==> out@ == "constitution parse error: "@ + m@,
{
    let mut out = owned("constitution parse error: ");
    if let CedarPlusError::Parse(m) = e {
        out.append(m.as_str());
    }
    out
}

/// A detail: `lead` followed by the parse error's text.
fn rejected(lead: String, e: &CedarPlusError, Ghost(expr): Ghost<Seq<char>>) -> (out: String)
    requires
        e matches CedarPlusError::Parse(m) && starts_with_spec(m@, expression_lead(expr)),
    ensures
        rejected_detail(out@, lead@, expr),
{
    let mut out = lead;
    let ghost l = out@;
    let text = parse_error_text(e);
    out.append(text.as_str());
    proof {
        let full = l + "constitution parse error: "@ + expression_lead(expr);
        assert(out@.take(full.len() as int) =~= full);
    }
    out
}

/// Check the trigger guard and the transition guards of one procedure.
fn check_procedure_expressions(schema: &CedarSchema, p: &Procedure) -> (r: Result<(), CedarPlusError>)
    ensures
        r is Ok <==> procedure_expressions_ok(*p),
        r matches Err(e) ==> procedure_expression_error(*p, e),
{
    if let Some(w) = &p.trigger.when {
        if let Err(e) = parse_cedar_expression(schema, w.as_str()) {
            let detail = rejected(owned("trigger.when rejected: "), &e, Ghost(w@));
            return Err(CedarPlusError::InvalidProcedure { procedure: p.name.clone(), detail });
        }
    }
    let mut j: usize = 0;
    while j < p.transitions.len()
        invariant
            j <= p.transitions@.len(),
            opt_parses(p.trigger.when),
            forall|k: int| 0 <= k < j ==> opt_parses(#[trigger] p.transitions@[k].actor_when),
        decreases p.transitions.len() - j,
    {
        let t = &p.transitions[j];
        if let Some(aw) = &t.actor_when {
            if let Err(e) = parse_cedar_expression(schema, aw.as_str()) {
                let mut lead = message("transition ", t.from.as_str(), "->");
                let q = message("", t.to.as_str(), " actor_when rejected: ");
                lead.append(q.as_str());
                proof {
                    reveal_strlit("");
                }
                assert(lead@ =~= "transition "@ + quote(t.from@) + "->"@ + quote(t.to@)
                    + " actor_when rejected: "@);
                let detail = rejected(lead, &e, Ghost(aw@));
                let err = CedarPlusError::InvalidProcedure { procedure: p.name.clone(), detail };
                assert(procedure_expression_error(*p, err) && !opt_parses(p.transitions@[j as int].actor_when));
                return Err(err);
            }
        }
        j = j + 1;
    }
    Ok(())
}

/// Check that every Cedar expression of the engine config parses:
/// scoring guards first, then each procedure's trigger guard and
/// transition guards. The first failure is reported.
pub fn check_engine_expressions(schema: &CedarSchema, config: &EngineConfig) -> (r: Result<(), CedarPlusError>)
    ensures
        r is Ok <==> expressions_ok(*config),
        r matches Err(e) ==> expression_error(*config, e),
{
    let mut i: usize = 0;
    while i < config.scoring_rules.len()
        invariant
            i <= config.scoring_rules@.len(),
            forall|j: int| 0 <= j < i ==> expression_parses(#[trigger] config.scoring_rules@[j].when@),
        decreases config.scoring_rules.len() - i,
    {
        let rule = &config.scoring_rules[i];
        if let Err(e) = parse_cedar_expression(schema, rule.when.as_str()) {
            let detail = rejected(owned("when expression rejected: "), &e, Ghost(rule.when@));
            return Err(CedarPlusError::InvalidScoringRule { rule: rule.name.clone(), detail });
        }
        i = i + 1;
    }
    let mut i: usize = 0;
    while i < config.procedures.len()
        invariant
            i <= config.procedures@.len(),
            forall|j: int| 0 <= j < config.scoring_rules@.len() ==> expression_parses(#[trigger] config.scoring_rules@[j].when@),
            forall|j: int| 0 <= j < i ==> procedure_expressions_ok(#[trigger] config.procedures@[j]),
        decreases config.procedures.len() - i,
    {
        let r = check_procedure_expressions(schema, &config.procedures[i]);
        if let Err(e) = r {
            return Err(e);
        }
        i = i + 1;
    }
    Ok(())
}

// ---------------------------------------------------------------------------
// Schemas
// ---------------------------------------------------------------------------

/// The texts of `exts`.
pub open spec fn texts_of(exts: Seq<&str>) -> Seq<Seq<char>> {
    Seq::new(exts.len(), |i: int| exts[i]@)
}

/// `base`, then each extension after a newline.
pub open spec fn schema_text(base: Seq<char>, exts: Seq<Seq<char>>) -> Seq<char>
    decreases exts.len(),
{
    if exts.len() == 0 {
        base
    } else {
        schema_text(base, exts.drop_last()) + seq!['\n'] + exts.last()
    }
}

/// The lead of the message for a schema that does not parse.
pub open spec fn schema_lead(n: nat) -> Seq<char> {
    "v1.1 canonical schema + "@ + nat_digits(n) + " extension(s) failed to parse: "@
}

/// Parse the canonical schema text `base` together with zero or more
/// workload extensions (other namespaces), each appended after a
/// newline.
pub fn canonical_schema_v1_1_with_extensions(base: &str, extensions: &[&str]) -> (r: Result<
    CedarSchema,
    CedarPlusError,
>)
    ensures
        r is Ok <==> schema_parses(schema_text(base@, texts_of(extensions@))),
        r matches Ok(s) ==> s@ == schema_text(base@, texts_of(extensions@)),
        r matches Err(e) ==> (e matches CedarPlusError::Parse(m) && starts_with_spec(
            m@,
            schema_lead(extensions@.len()),
        )),
{
    let mut combined = owned(base);
    let mut i: usize = 0;
    while i < extensions.len()
        invariant
            i <= extensions@.len(),
            combined@ == schema_text(base@, texts_of(extensions@).take(i as int)),
        decreases extensions.len() - i,
    {
        push_char(&mut combined, '\n');
        combined.append(extensions[i]);
        assert(texts_of(extensions@).take(i + 1).drop_last() =~= texts_of(extensions@).take(i as int));
        i = i + 1;
    }
    assert(texts_of(extensions@).take(extensions@.len() as int) =~= texts_of(extensions@));
    match parse_cedar_schema(combined.as_str()) {
        Ok(schema) => Ok(schema),
        Err(msg) => {
            let mut m = owned("v1.1 canonical schema + ");
            let n = string_from_chars(&u64_digits(extensions.len() as u64));
            m.append(n.as_str());
            m.append(" extension(s) failed to parse: ");
            let ghost lead = m@;
            m.append(msg.as_str());
            assert(m@.take(lead.len() as int) =~= lead);
            Err(CedarPlusError::Parse(m))
        },
    }
}

// ---------------------------------------------------------------------------
// The loader
// ---------------------------------------------------------------------------

/// `Arc::clone`: another handle to the same value.
#[verifier::external_body]
pub(crate) fn share<T>(s: &Arc<T>) -> (r: Arc<T>)
    ensures
        r == *s,
{
    Arc::clone(s)
}

/// A constitution that passed every load-time check, ready for
/// evaluation.
pub struct ActivatedConstitution {
    /// The constitution as authored (predicate references unresolved).
    pub constitution: Constitution,
    /// The parsed Cedar policies.
    pub policy_set: CedarPolicies,
    /// The schema the constitution was validated against.
    pub schema: Arc<CedarSchema>,
    /// The engine config with every `@<name>` reference substituted.
    pub resolved_engine_config: EngineConfig,
    /// The synthesized Layer B policy sets.
    pub layer_b: LayerBArtifacts,
    /// How many Cedar policies the constitution holds.
    pub policy_count: usize,
    /// The estimated nesting depth of the Cedar source.
    pub cedar_max_policy_depth: u32,
}

/// Loads constitutions against one schema and one set of bounds.
pub struct ConstitutionLoader {
    schema: Arc<CedarSchema>,
    bounds: SandboxConfig,
}

/// The structural checks all pass.
pub open spec fn structure_ok(c: EngineConfig) -> bool {
    names_ok(c) && scoring_rules_ok(c) && procedures_ok(c) && enforcement_rules_ok(c)
}

/// The scoring-rule and procedure counts are within `b`.
pub open spec fn counts_ok(c: EngineConfig, b: SandboxConfig) -> bool {
    c.scoring_rules@.len() <= b.max_scoring_rules && c.procedures@.len() <= b.max_procedures
}

/// Every step before the Cedar source is read passes.
pub open spec fn ready_for_cedar(c: EngineConfig, b: SandboxConfig) -> bool {
    structure_ok(c) && resolution_ok(c) && counts_ok(c, b)
}

/// `a` keeps the authored constitution `k` field for field (its engine
/// config as the same values).
pub open spec fn keeps_constitution(a: Constitution, k: Constitution) -> bool {
    &&& a.constitution_hash == k.constitution_hash
    &&& a.spec_version == k.spec_version
    &&& a.schema_version == k.schema_version
    &&& a.constitution_version == k.constitution_version
    &&& a.parent_version == k.parent_version
    &&& a.swarm_id == k.swarm_id
    &&& a.cedar_source == k.cedar_source
    &&& a.engine_config.same(k.engine_config)
    &&& a.issued_at == k.issued_at
}

/// `r` is what loading `k` with bounds `b` may give, as far as failure
/// goes: the error of the first failing step where the steps before the
/// Cedar source decide, the source's parse error, and only errors of the
/// later steps' kinds after it.
pub open spec fn load_refusals(k: Constitution, b: SandboxConfig, s: Seq<char>, r: Result<(), CedarPlusError>) -> bool {
    let c = k.engine_config;
    &&& !names_ok(c) ==> (r matches Err(e) && unique_names_error(c, e))
    &&& names_ok(c) && !scoring_rules_ok(c) ==> (r matches Err(e) && scoring_rules_error(c, e))
    &&& names_ok(c) && scoring_rules_ok(c) && !procedures_ok(c) ==> (r matches Err(e) && procedures_error(c, e))
    &&& names_ok(c) && scoring_rules_ok(c) && procedures_ok(c) && !enforcement_rules_ok(c) ==> (r matches Err(e)
        && enforcement_rules_error(c, e))
    &&& structure_ok(c) && !resolution_ok(c) ==> (r matches Err(e) && resolve_error(c, e))
    &&& structure_ok(c) && resolution_ok(c) && c.scoring_rules@.len() > b.max_scoring_rules ==> (r matches Err(
        CedarPlusError::LoadBoundExceeded(LoadBoundReason::ScoringRuleCount),
    ))
    &&& structure_ok(c) && resolution_ok(c) && c.scoring_rules@.len() <= b.max_scoring_rules
        && c.procedures@.len() > b.max_procedures ==> (r matches Err(
        CedarPlusError::LoadBoundExceeded(LoadBoundReason::ProcedureCount),
    ))
    &&& ready_for_cedar(c, b) && !cedar_accepts(k.cedar_source@, s, b) ==> cedar_refusals(k.cedar_source@, s, b, r)
    &&& ready_for_cedar(c, b) && cedar_accepts(k.cedar_source@, s, b) ==> (r matches Err(e) ==> exists|rc: EngineConfig|
        #![trigger config_resolved(rc, c)]
        config_resolved(rc, c) && later_refusal(rc, e))
}

/// `e` is what the steps after the Cedar source report for the resolved
/// config `rc`: the first expression that does not parse, else a Layer B
/// synthesis error.
pub open spec fn later_refusal(rc: EngineConfig, e: CedarPlusError) -> bool {
    ||| (!expressions_ok(rc) && expression_error(rc, e))
    ||| (expressions_ok(rc) && !(scores_read(rc.scoring_rules@) && layer_b_parses(rc)) && (e is InvalidScoringRule
        || e is Parse))
}

/// `a` is what loading `k` with bounds `b` and schema `s` gives on
/// success.
pub open spec fn loaded(k: Constitution, b: SandboxConfig, s: Arc<CedarSchema>, a: ActivatedConstitution) -> bool {
    &&& ready_for_cedar(k.engine_config, b)
    &&& cedar_accepts(k.cedar_source@, s@, b)
    &&& a.policy_set@ == sourced(k.cedar_source@)
    &&& a.policy_count == policy_count(k.cedar_source@)
    &&& a.cedar_max_policy_depth == capped_depth(k.cedar_source@)
    &&& config_resolved(a.resolved_engine_config, k.engine_config)
    &&& expressions_ok(a.resolved_engine_config)
    &&& scores_read(a.resolved_engine_config.scoring_rules@)
    &&& layer_b_parses(a.resolved_engine_config)
    &&& artifacts_match(a.layer_b, a.resolved_engine_config)
    &&& keeps_constitution(a.constitution, k)
    &&& a.schema == s
}

/// A result with its success value dropped.
pub open spec fn unit_of<T>(r: Result<T, CedarPlusError>) -> Result<(), CedarPlusError> {
    match r {
        Ok(_) => Ok(()),
        Err(e) => Err(e),
    }
}

impl ConstitutionLoader {
    /// The loader's bounds.
    pub closed spec fn bound_config(&self) -> SandboxConfig {
        self.bounds
    }

    /// The loader's schema.
    pub closed spec fn shared_schema(&self) -> Arc<CedarSchema> {
        self.schema
    }

    /// A loader for `schema` with `bounds`.
    pub fn new(schema: CedarSchema, bounds: SandboxConfig) -> (l: ConstitutionLoader)
        ensures
            *l.shared_schema() == schema,
            l.bound_config() == bounds,
    {
        ConstitutionLoader { schema: Arc::new(schema), bounds }
    }

    /// A loader for `schema` with the default bounds.
    pub fn with_default_bounds(schema: CedarSchema) -> (l: ConstitutionLoader)
        ensures
            *l.shared_schema() == schema,
            default_bounds(l.bound_config()),
    {
        Self::new(schema, SandboxConfig::default())
    }

    /// The loader's schema.
    pub fn schema(&self) -> (s: &Arc<CedarSchema>)
        ensures
            *s == self.shared_schema(),
    {
        &self.schema
    }

    /// Load a constitution. The steps run in order and the first failure
    /// is reported: names, scoring rules, procedures and enforcement
    /// rules; predicate resolution (on a copy, the authored form is
    /// kept); the count bounds; the Cedar source (parse, count bound,
    /// strict validation, depth bound); the engine config's expressions;
    /// Layer B synthesis.
    pub fn load(&self, constitution: Constitution) -> (r: Result<ActivatedConstitution, CedarPlusError>)
        requires
            forall|i: int|
                0 <= i < constitution.engine_config.scoring_rules@.len() ==> score_in_range(
                    #[trigger] constitution.engine_config.scoring_rules@[i].score.0@,
                ),
        ensures
            load_refusals(constitution, self.bound_config(), self.shared_schema()@, unit_of(r)),
            r matches Ok(a) ==> loaded(constitution, self.bound_config(), self.shared_schema(), a),
    {
        check_unique_names(&constitution.engine_config)?;
        check_scoring_rules(&constitution.engine_config)?;
        check_procedures(&constitution.engine_config)?;
        check_enforcement_rules(&constitution.engine_config)?;
        let ghost authored_config = constitution.engine_config;
        let Constitution {
            constitution_hash,
            spec_version,
            schema_version,
            constitution_version,
            parent_version,
            swarm_id,
            cedar_source,
            engine_config,
            issued_at,
        } = constitution;
        let authored = engine_config.duplicate();
        let mut resolved_engine_config = engine_config;
        resolve_named_predicates(&mut resolved_engine_config)?;
        check_load_time_counts(&resolved_engine_config, &self.bounds)?;
        let parsed = parse_and_validate_cedar(&*self.schema, cedar_source.as_str(), &self.bounds)?;
        if let Err(e) = check_engine_expressions(&*self.schema, &resolved_engine_config) {
            assert(config_resolved(resolved_engine_config, authored_config) && later_refusal(resolved_engine_config, e));
            return Err(e);
        }
        let layer_b = match synthesize(&resolved_engine_config) {
            Ok(l) => l,
            Err(e) => {
                assert(config_resolved(resolved_engine_config, authored_config) && later_refusal(resolved_engine_config, e));
                return Err(e);
            },
        };
        Ok(
            ActivatedConstitution {
                constitution: Constitution {
                    constitution_hash,
                    spec_version,
                    schema_version,
                    constitution_version,
                    parent_version,
                    swarm_id,
                    cedar_source,
                    engine_config: authored,
                    issued_at,
                },
                policy_set: parsed.policy_set,
                schema: share(&self.schema),
                resolved_engine_config,
                layer_b,
                policy_count: parsed.policy_count,
                cedar_max_policy_depth: parsed.cedar_max_policy_depth,
            },
        )
    }
}

} // verus!
