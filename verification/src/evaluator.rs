//! The evaluation pipeline of one request against an activated
//! constitution: the sandbox bound, the Cedar request and entities, Layer
//! A authorization, then (on a permit) scoring and, for the active
//! constitution, procedures; and the slots of the active and shadow
//! constitutions.
//!
//! Entities and context reach Cedar as JSON text built here; Cedar's own
//! parsers read them.

use std::sync::Arc;

use vstd::prelude::*;

use crate::cedar::{
    authorize, build_request, cedar_allows, cedar_reasons, context_json_reads, entities_read, entity_type_parses,
    parse_type_name, read_context, read_entities, request_accepted, CedarTypeName, RequestTexts,
};
use crate::constitution::Constitution;
use crate::error::{CedarPlusError, EvalBoundReason};
use crate::eval::{Decision, EntityRecord, EntitySnapshot, EntityUid, ProcedureEffect, ScoreContribution};
use crate::ids::ContentHash;
use crate::layer_b::ScoringRuleHandle;
use crate::loader::{join_texts, joined, load_refusals, loaded, share, unit_of, ActivatedConstitution, ConstitutionLoader};
use crate::procedure::{evaluate_procedures, procedure_pass, ProcedureIndex};
use crate::sandbox::{default_bounds, SandboxConfig};
use crate::score::{render_spec, score_in_range, Score};
use crate::scoring::{evaluate_scoring, saturating_total, scored_handles};
use crate::store::{hex_encode, hex_spec};
use crate::string_map::StringMap;
use crate::text::{message, owned, push_char, quoted_in, starts_with_spec};

verus! {

// ---------------------------------------------------------------------------
// JSON text
// ---------------------------------------------------------------------------

/// The hexadecimal digit of `n` (below 16).
pub open spec fn hex_digit(n: nat) -> char {
    if n < 10 {
        (('0' as u8) + n) as char
    } else {
        (('a' as u8) + (n - 10)) as char
    }
}

/// How a character is written inside a JSON string, as `serde_json`
/// writes it: quote and backslash escaped; backspace, tab, newline, form
/// feed and carriage return as `\b`, `\t`, `\n`, `\f`, `\r`; other
/// control characters as `\u00XX`; all else as is.
pub open spec fn json_escape(c: char) -> Seq<char> {
    if c == '"' {
        seq!['\\', '"']
    } else if c == '\\' {
        seq!['\\', '\\']
    } else if c == '\u{8}' {
        seq!['\\', 'b']
    } else if c == '\t' {
        seq!['\\', 't']
    } else if c == '\n' {
        seq!['\\', 'n']
    } else if c == '\u{c}' {
        seq!['\\', 'f']
    } else if c == '\r' {
        seq!['\\', 'r']
    } else if (c as u32) < 0x20 {
        seq!['\\', 'u', '0', '0', hex_digit(((c as u32) / 16) as nat), hex_digit(((c as u32) % 16) as nat)]
    } else {
        seq![c]
    }
}

/// The escaped characters of `s`.
pub open spec fn json_escaped(s: Seq<char>) -> Seq<char>
    decreases s.len(),
{
    if s.len() == 0 {
        Seq::empty()
    } else {
        json_escaped(s.drop_last()) + json_escape(s.last())
    }
}

/// `s` as a JSON string literal.
pub open spec fn json_str(s: Seq<char>) -> Seq<char> {
    seq!['"'] + json_escaped(s) + seq!['"']
}

fn hex_digit_exec(n: u32) -> (c: char)
    requires
        n < 16,
    ensures
        c == hex_digit(n as nat),
{
    if n < 10 {
        ((('0' as u8) + (n as u8)) as char)
    } else {
        ((('a' as u8) + ((n - 10) as u8)) as char)
    }
}

/// Append the JSON string literal of `s` to `out`.
pub(crate) fn push_json_str(out: &mut String, s: &str)
    ensures
        final(out)@ == old(out)@ + json_str(s@),
{
    let chars = crate::text::chars_of(s);
    let ghost start = out@;
    push_char(out, '"');
    let mut i: usize = 0;
    while i < chars.len()
        invariant
            i <= chars@.len(),
            chars@ == s@,
            out@ == start + seq!['"'] + json_escaped(chars@.take(i as int)),
        decreases chars.len() - i,
    {
        let c = chars[i];
        let ghost before = out@;
        if c == '"' {
            push_char(out, '\\');
            push_char(out, '"');
        } else if c == '\\' {
            push_char(out, '\\');
            push_char(out, '\\');
        } else if c == '\u{8}' {
            push_char(out, '\\');
            push_char(out, 'b');
        } else if c == '\t' {
            push_char(out, '\\');
            push_char(out, 't');
        } else if c == '\n' {
            push_char(out, '\\');
            push_char(out, 'n');
        } else if c == '\u{c}' {
            push_char(out, '\\');
            push_char(out, 'f');
        } else if c == '\r' {
            push_char(out, '\\');
            push_char(out, 'r');
        } else if (c as u32) < 0x20 {
            let code = c as u32;
            push_char(out, '\\');
            push_char(out, 'u');
            push_char(out, '0');
            push_char(out, '0');
            push_char(out, hex_digit_exec(code / 16));
            push_char(out, hex_digit_exec(code % 16));
        } else {
            push_char(out, c);
        }
        proof {
            assert(out@ =~= before + json_escape(c));
            assert(chars@.take(i + 1).drop_last() =~= chars@.take(i as int));
        }
        i = i + 1;
    }
    push_char(out, '"');
    proof {
        assert(chars@.take(chars@.len() as int) =~= chars@);
        assert(out@ =~= start + json_str(s@));
    }
}

/// An entity uid as JSON: `{"type":…,"id":…}`.
pub open spec fn uid_json(u: EntityUid) -> Seq<char> {
    "{\"type\":"@ + json_str(u.entity_type@) + ",\"id\":"@ + json_str(u.entity_id@) + "}"@
}

fn uid_json_exec(u: &EntityUid) -> (out: String)
    ensures
        out@ == uid_json(*u),
{
    let mut out = owned("{\"type\":");
    push_json_str(&mut out, u.entity_type.as_str());
    out.append(",\"id\":");
    push_json_str(&mut out, u.entity_id.as_str());
    out.append("}");
    out
}

/// The members `"key":value` of the current pairs among the first `n`
/// stored pairs of `m`, in order (values are JSON text as stored).
pub open spec fn members(m: StringMap, n: int) -> Seq<Seq<char>>
    decreases n,
{
    if n <= 0 {
        Seq::empty()
    } else if m.is_current(n - 1) {
        members(m, n - 1).push(json_str(m.pairs()[n - 1].0) + seq![':'] + m.pairs()[n - 1].1)
    } else {
        members(m, n - 1)
    }
}

/// A map of JSON values as a JSON object.
pub open spec fn object_json(m: StringMap) -> Seq<char> {
    seq!['{'] + joined(members(m, m.pairs().len() as int), seq![',']) + seq!['}']
}

fn object_json_exec(m: &StringMap) -> (out: String)
    ensures
        out@ == object_json(*m),
{
    let mut parts: Vec<String> = Vec::new();
    let mut i: usize = 0;
    let n = m.entry_count();
    while i < n
        invariant
            i <= n,
            n == m.pairs().len(),
            parts.deep_view() == members(*m, i as int),
        decreases n - i,
    {
        if m.current_at(i) {
            let mut member = owned("");
            push_json_str(&mut member, m.key_at(i).as_str());
            push_char(&mut member, ':');
            member.append(m.value_at(i).as_str());
            proof {
                reveal_strlit("");
                assert(member@ =~= json_str(m.pairs()[i as int].0) + seq![':'] + m.pairs()[i as int].1);
            }
            let ghost pv = parts.deep_view();
            let ghost mv = member@;
            parts.push(member);
            proof {
                assert(parts.deep_view() =~= pv.push(mv));
            }
        }
        i = i + 1;
    }
    let body = join_texts(&parts, ",");
    proof {
        reveal_strlit(",");
        assert(","@ =~= seq![',']);
    }
    let mut out = owned("{");
    out.append(body.as_str());
    out.append("}");
    proof {
        reveal_strlit("{");
        reveal_strlit("}");
        assert(out@ =~= object_json(*m));
    }
    out
}

/// The uids of `ps` as JSON, in order.
pub open spec fn uids_json(ps: Seq<EntityUid>) -> Seq<Seq<char>> {
    Seq::new(ps.len(), |i: int| uid_json(ps[i]))
}

/// An entity record as Cedar's entity JSON.
pub open spec fn entity_json(e: EntityRecord) -> Seq<char> {
    "{\"uid\":"@ + uid_json(e.uid) + ",\"attrs\":"@ + object_json(e.attrs) + ",\"parents\":["@ + joined(
        uids_json(e.parents@),
        seq![','],
    ) + "]}"@
}

fn entity_json_exec(e: &EntityRecord) -> (out: String)
    ensures
        out@ == entity_json(*e),
{
    let mut parents: Vec<String> = Vec::new();
    let mut i: usize = 0;
    while i < e.parents.len()
        invariant
            i <= e.parents@.len(),
            parents.deep_view() == uids_json(e.parents@).take(i as int),
        decreases e.parents.len() - i,
    {
        let u = uid_json_exec(&e.parents[i]);
        let ghost pv = parents.deep_view();
        let ghost uv = u@;
        parents.push(u);
        proof {
            assert(parents.deep_view() =~= pv.push(uv));
            assert(parents.deep_view() =~= uids_json(e.parents@).take(i + 1));
        }
        i = i + 1;
    }
    proof {
        assert(uids_json(e.parents@).take(e.parents@.len() as int) =~= uids_json(e.parents@));
        reveal_strlit(",");
        assert(","@ =~= seq![',']);
    }
    let mut out = owned("{\"uid\":");
    out.append(uid_json_exec(&e.uid).as_str());
    out.append(",\"attrs\":");
    out.append(object_json_exec(&e.attrs).as_str());
    out.append(",\"parents\":[");
    out.append(join_texts(&parents, ",").as_str());
    out.append("]}");
    out
}

/// The entity records of a snapshot as one JSON array.
pub open spec fn snapshot_json(s: EntitySnapshot) -> Seq<char> {
    seq!['['] + joined(Seq::new(s.entities@.len(), |i: int| entity_json(s.entities@[i])), seq![',']) + seq![']']
}

/// The snapshot as Cedar's entity JSON.
pub fn snapshot_json_exec(s: &EntitySnapshot) -> (out: String)
    ensures
        out@ == snapshot_json(*s),
{
    let ghost all = Seq::new(s.entities@.len(), |i: int| entity_json(s.entities@[i]));
    let mut parts: Vec<String> = Vec::new();
    let mut i: usize = 0;
    while i < s.entities.len()
        invariant
            i <= s.entities@.len(),
            all == Seq::new(s.entities@.len(), |i: int| entity_json(s.entities@[i])),
            parts.deep_view() == all.take(i as int),
        decreases s.entities.len() - i,
    {
        let ej = entity_json_exec(&s.entities[i]);
        let ghost pv = parts.deep_view();
        let ghost ev = ej@;
        parts.push(ej);
        proof {
            assert(parts.deep_view() =~= pv.push(ev));
            assert(parts.deep_view() =~= all.take(i + 1));
        }
        i = i + 1;
    }
    proof {
        assert(all.take(s.entities@.len() as int) =~= all);
        reveal_strlit(",");
        assert(","@ =~= seq![',']);
    }
    let body = join_texts(&parts, ",");
    let mut out = owned("[");
    out.append(body.as_str());
    out.append("]");
    proof {
        reveal_strlit("[");
        reveal_strlit("]");
        assert(out@ =~= snapshot_json(*s));
    }
    out
}

/// The context attributes as one JSON object.
pub fn context_json(attrs: &StringMap) -> (out: String)
    ensures
        out@ == object_json(*attrs),
{
    object_json_exec(attrs)
}

// ---------------------------------------------------------------------------
// Requests and outcomes
// ---------------------------------------------------------------------------

/// One evaluation request, as the control plane builds it.
pub struct EvaluationRequest {
    /// The constitution the request is pinned to.
    pub constitution_hash: ContentHash,
    /// The schema version the constitution pinned.
    pub schema_version: String,
    /// The action attempted: a bare name (an action of `Yutha::Action`) or
    /// a path whose last segment is the action's id.
    pub action_kind: String,
    /// The acting agent's id, as text.
    pub principal_id: String,
    /// The resource acted on.
    pub resource_uid: EntityUid,
    /// Context attributes, each value as JSON text.
    pub context_attrs: StringMap,
    /// The entities the evaluation may read.
    pub entity_snapshot: EntitySnapshot,
    /// Wall clock at evaluation (RFC 3339).
    pub current_wall_clock: String,
    /// Nanoseconds since the epoch at evaluation.
    pub current_time_unix_ns: u64,
}

/// The outcome of one evaluation.
pub struct EvaluationOutcome {
    /// Permit or deny.
    pub decision: Decision,
    /// Why, on a deny.
    pub deny_reason: Option<String>,
    /// The ids of the policies Cedar gives as reasons.
    pub matched_rule_ids: Vec<String>,
    /// Scoring contributions (on a permit).
    pub score_contributions: Vec<ScoreContribution>,
    /// The rendered total score, when some rule contributed.
    pub total_score: Option<Score>,
    /// Procedure effects (on a permit, for the active constitution).
    pub procedure_effects: Vec<ProcedureEffect>,
}

/// Which slot an evaluation runs for.
#[derive(Debug, Clone, Copy, PartialEq, Eq, Structural)]
pub enum EvaluationMode {
    /// The active constitution: scoring and procedures.
    Active,
    /// The shadow constitution: scoring only; shape failures give a deny.
    Shadow,
}

/// Whether `s` has `::` at `i`.
pub open spec fn sep_at(s: Seq<char>, i: int) -> bool {
    0 <= i && i + 1 < s.len() && s[i] == ':' && s[i + 1] == ':'
}

/// The last position at or before `i` where `::` starts, or -1.
pub open spec fn last_sep_from(s: Seq<char>, i: int) -> int
    decreases i + 1,
{
    if i < 0 {
        -1
    } else if sep_at(s, i) {
        i
    } else {
        last_sep_from(s, i - 1)
    }
}

/// The action's entity type and id: split at the last `::`, or
/// `Yutha::Action` and the whole kind.
pub open spec fn action_parts(kind: Seq<char>) -> (Seq<char>, Seq<char>) {
    let k = last_sep_from(kind, kind.len() - 2);
    if k >= 0 {
        (kind.take(k), kind.skip(k + 2))
    } else {
        ("Yutha::Action"@, kind)
    }
}

proof fn lemma_last_sep(s: Seq<char>, i: int)
    ensures
        -1 <= last_sep_from(s, i),
        last_sep_from(s, i) == -1 || last_sep_from(s, i) <= i,
        last_sep_from(s, i) >= 0 ==> sep_at(s, last_sep_from(s, i)),
    decreases i + 1,
{
    if i >= 0 && !sep_at(s, i) {
        lemma_last_sep(s, i - 1);
    }
}

/// Split an action kind into its entity type and id.
pub fn split_action_kind(kind: &str) -> (r: (String, String))
    ensures
        r.0@ == action_parts(kind@).0,
        r.1@ == action_parts(kind@).1,
{
    let v = crate::text::chars_of(kind);
    let n = v.len();
    let mut i: usize = n;
    // Search the start positions from n - 2 down.
    while i >= 2 && !(v[i - 2] == ':' && v[i - 1] == ':')
        invariant
            v@ == kind@,
            n == v@.len(),
            i <= n,
            last_sep_from(kind@, n - 2) == last_sep_from(kind@, i - 2),
        decreases i,
    {
        i = i - 1;
    }
    proof {
        lemma_last_sep(kind@, n - 2);
    }
    if i >= 2 {
        let k = i - 2;
        assert(sep_at(kind@, k as int));
        let mut head: Vec<char> = Vec::new();
        let mut j: usize = 0;
        while j < k
            invariant
                j <= k,
                k + 2 <= n,
                v@ == kind@,
                n == v@.len(),
                head@ == kind@.take(j as int),
            decreases k - j,
        {
            head.push(v[j]);
            assert(head@ =~= kind@.take(j + 1));
            j = j + 1;
        }
        let mut tail: Vec<char> = Vec::new();
        let mut j: usize = k + 2;
        while j < n
            invariant
                k + 2 <= j <= n,
                v@ == kind@,
                n == v@.len(),
                tail@ == kind@.subrange(k + 2, j as int),
            decreases n - j,
        {
            tail.push(v[j]);
            assert(tail@ =~= kind@.subrange(k + 2, j + 1));
            j = j + 1;
        }
        assert(kind@.subrange(k + 2, n as int) =~= kind@.skip(k + 2));
        (crate::text::string_from_chars(&head), crate::text::string_from_chars(&tail))
    } else {
        proof {
            assert(last_sep_from(kind@, i - 2) == -1);
        }
        (owned("Yutha::Action"), owned(kind))
    }
}

/// The decision and deny reason for Cedar's answer: a permit has no
/// reason; a deny is `forbid_rule_matched` when some policy is given as a
/// reason, else `no_permit_rule`.
pub fn decide(allow: bool, matched: &Vec<String>) -> (r: (Decision, Option<String>))
    ensures
        allow ==> r.0 == Decision::Permit && r.1 is None,
        !allow && matched@.len() == 0 ==> r.0 == Decision::Deny && (r.1 matches Some(s) && s@ == "no_permit_rule"@),
        !allow && matched@.len() > 0 ==> r.0 == Decision::Deny && (r.1 matches Some(s) && s@
            == "forbid_rule_matched"@),
{
    if allow {
        (Decision::Permit, None)
    } else if matched.len() == 0 {
        (Decision::Deny, Some(owned("no_permit_rule")))
    } else {
        (Decision::Deny, Some(owned("forbid_rule_matched")))
    }
}

/// The deny that a shadow evaluation gives when the request does not fit
/// the shadow's schema.
pub open spec fn is_shadow_deny(o: EvaluationOutcome) -> bool {
    &&& o.decision == Decision::Deny
    &&& o.deny_reason matches Some(s) && s@ == "shadow_schema_incompatible"@
    &&& o.matched_rule_ids@.len() == 0
    &&& o.score_contributions@.len() == 0
    &&& o.total_score is None
    &&& o.procedure_effects@.len() == 0
}

/// A deny for a request that does not fit the shadow's schema.
pub fn schema_incompatible_deny() -> (o: EvaluationOutcome)
    ensures
        is_shadow_deny(o),
{
    EvaluationOutcome {
        decision: Decision::Deny,
        deny_reason: Some(owned("shadow_schema_incompatible")),
        matched_rule_ids: Vec::new(),
        score_contributions: Vec::new(),
        total_score: None,
        procedure_effects: Vec::new(),
    }
}

/// `e` reports entity type `t` as invalid.
pub open spec fn type_error(t: Seq<char>, e: CedarPlusError) -> bool {
    e matches CedarPlusError::RequestShapeInvalid(m) && starts_with_spec(m@, quoted_in("invalid entity type name "@, t, ": "@))
}

/// Cedar's entity type of `t`, or the error for it.
fn type_name_of(t: &str) -> (r: Result<CedarTypeName, CedarPlusError>)
    ensures
        r is Ok <==> entity_type_parses(t@),
        r matches Ok(n) ==> n@ == t@,
        r matches Err(e) ==> type_error(t@, e),
{
    match parse_type_name(t) {
        Ok(n) => Ok(n),
        Err(msg) => {
            let mut m = message("invalid entity type name ", t, ": ");
            let ghost lead = m@;
            m.append(msg.as_str());
            assert(m@.take(lead.len() as int) =~= lead);
            Err(CedarPlusError::RequestShapeInvalid(m))
        },
    }
}

/// `lead` followed by a message.
fn led(lead: &str, msg: &str) -> (m: String)
    ensures
        starts_with_spec(m@, lead@),
{
    let mut m = owned(lead);
    m.append(msg);
    assert(m@.take(lead@.len() as int) =~= lead@);
    m
}

/// The three entity types of a request parse: the agent type, the
/// action's type and the resource's.
pub open spec fn types_ok(r: EvaluationRequest) -> bool {
    &&& entity_type_parses("Yutha::Agent"@)
    &&& entity_type_parses(action_parts(r.action_kind@).0)
    &&& entity_type_parses(r.resource_uid.entity_type@)
}

/// `e` reports the first entity type of the request that does not parse.
pub open spec fn first_type_error(r: EvaluationRequest, e: CedarPlusError) -> bool {
    if !entity_type_parses("Yutha::Agent"@) {
        type_error("Yutha::Agent"@, e)
    } else if !entity_type_parses(action_parts(r.action_kind@).0) {
        type_error(action_parts(r.action_kind@).0, e)
    } else {
        type_error(r.resource_uid.entity_type@, e)
    }
}

/// The texts Cedar reads the request from, against schema text `schema`:
/// the principal (an agent), the action split from its kind, the
/// resource, the context JSON and the schema.
pub open spec fn request_texts(r: EvaluationRequest, schema: Seq<char>) -> RequestTexts {
    (
        ("Yutha::Agent"@, r.principal_id@),
        (action_parts(r.action_kind@).0, action_parts(r.action_kind@).1),
        (r.resource_uid.entity_type@, r.resource_uid.entity_id@),
        object_json(r.context_attrs),
        schema,
    )
}

/// The texts Cedar reads the entities from: the snapshot's JSON and the
/// schema.
pub open spec fn entity_texts(r: EvaluationRequest, schema: Seq<char>) -> (Seq<char>, Seq<char>) {
    (snapshot_json(r.entity_snapshot), schema)
}

/// Cedar reads the request against schema text `schema`: the entities,
/// the context and the request are accepted.
pub open spec fn cedar_reads(r: EvaluationRequest, schema: Seq<char>) -> bool {
    &&& entities_read(snapshot_json(r.entity_snapshot), schema)
    &&& context_json_reads(object_json(r.context_attrs))
    &&& request_accepted(request_texts(r, schema))
}

/// `e` is the error for the first of entities, context and request that
/// Cedar refuses.
pub open spec fn cedar_shape_error(r: EvaluationRequest, schema: Seq<char>, e: CedarPlusError) -> bool {
    if !entities_read(snapshot_json(r.entity_snapshot), schema) {
        e matches CedarPlusError::EntityUnresolved(m) && starts_with_spec(m@, "entity snapshot rejected by Cedar: "@)
    } else if !context_json_reads(object_json(r.context_attrs)) {
        e matches CedarPlusError::RequestShapeInvalid(m) && starts_with_spec(m@, "Cedar Context rejected: "@)
    } else {
        e matches CedarPlusError::RequestShapeInvalid(m) && starts_with_spec(m@, "Cedar Request rejected: "@)
    }
}

/// The contributions and total are those of the handles `h`: one
/// contribution per handle, in order, and their saturating total when
/// there is any.
pub open spec fn scored(cs: Seq<ScoreContribution>, total: Option<Score>, h: Seq<ScoringRuleHandle>) -> bool {
    &&& cs.len() == h.len()
    &&& forall|i: int| 0 <= i < h.len() ==> (#[trigger] cs[i]).rule_id@ == h[i].rule_name@ && cs[i].score == h[i].score
    &&& h.len() == 0 ==> total is None
    &&& h.len() > 0 ==> (total matches Some(x) && x.0@ == render_spec(saturating_total(h)))
}

/// The outcome of Layer A and what follows for a request that Cedar
/// reads against constitution `a`: the decision is Cedar's, the matched
/// ids are the reasons Cedar gives (each once); a deny gives
/// `no_permit_rule` without reasons, else `forbid_rule_matched`, and
/// nothing more; a permit has the scoring of the matched scoring
/// policies, and (in shadow mode) no procedure effects.
pub open spec fn layer_outcome(o: EvaluationOutcome, r: EvaluationRequest, a: ActivatedConstitution, mode: EvaluationMode) -> bool {
    let req = request_texts(r, a.schema@);
    let ents = entity_texts(r, a.schema@);
    let allow = cedar_allows(req, a.policy_set@, ents);
    let reasons = cedar_reasons(req, a.policy_set@, ents);
    &&& o.decision == (if allow { Decision::Permit } else { Decision::Deny })
    &&& o.matched_rule_ids.deep_view().no_duplicates()
    &&& o.matched_rule_ids.deep_view().to_set() == reasons
    &&& !allow ==> {
        &&& o.score_contributions@.len() == 0
        &&& o.total_score is None
        &&& o.procedure_effects@.len() == 0
        &&& (reasons.len() == 0 ==> (o.deny_reason matches Some(s) && s@ == "no_permit_rule"@))
        &&& (reasons.len() > 0 ==> (o.deny_reason matches Some(s) && s@ == "forbid_rule_matched"@))
    }
    &&& allow ==> {
        &&& o.deny_reason is None
        &&& scored(o.score_contributions@, o.total_score, scored_handles(a.layer_b, req, ents))
        &&& (mode == EvaluationMode::Shadow ==> o.procedure_effects@.len() == 0)
        &&& forall|j: int|
            0 <= j < o.procedure_effects@.len() ==> (#[trigger] o.procedure_effects@[j]).action_kind@
                == "procedure.enter"@ || o.procedure_effects@[j].action_kind@ == "procedure.transition"@
    }
}

/// What evaluating request `r` against constitution `a` with bounds `b`
/// gives, in order: the entity bound; the first entity type that does not
/// parse; the first of entities, context and request that Cedar refuses
/// (in shadow mode the shadow deny); else the outcome of Layer A and what
/// follows.
pub open spec fn evaluation_result(
    r: EvaluationRequest,
    a: ActivatedConstitution,
    b: SandboxConfig,
    mode: EvaluationMode,
    res: Result<EvaluationOutcome, CedarPlusError>,
) -> bool {
    if r.entity_snapshot.entities@.len() > b.max_entity_count {
        res matches Err(CedarPlusError::EvaluationBoundExceeded(EvalBoundReason::EntityStoreSize))
    } else if !types_ok(r) {
        res matches Err(e) && first_type_error(r, e)
    } else if !cedar_reads(r, a.schema@) {
        match mode {
            EvaluationMode::Active => res matches Err(e) && cedar_shape_error(r, a.schema@, e),
            EvaluationMode::Shadow => res matches Ok(o) && is_shadow_deny(o),
        }
    } else {
        res matches Ok(o) && layer_outcome(o, r, a, mode)
    }
}

/// Evaluate a request against an activated constitution: the entity
/// bound; the Cedar uids of principal (a `Yutha::Agent`), action and
/// resource; the entities, context and request as Cedar reads them (for
/// the shadow slot a refusal gives the shadow deny); Layer A; then on a
/// permit scoring and, for the active slot, procedures, whose entries
/// take their instance ids from `instance_ids` (procedure name to id).
pub fn evaluate_against(
    request: &EvaluationRequest,
    activated: &ActivatedConstitution,
    bounds: &SandboxConfig,
    mode: EvaluationMode,
    index: &mut ProcedureIndex,
    instance_ids: &StringMap,
) -> (r: Result<EvaluationOutcome, CedarPlusError>)
    ensures
        evaluation_result(*request, *activated, *bounds, mode, r),
        r matches Ok(o) ==> {
            &&& (o.decision == Decision::Deny || mode == EvaluationMode::Shadow ==> final(index)@ == old(index)@)
            &&& (o.decision == Decision::Permit && mode == EvaluationMode::Active ==> procedure_pass(
                old(index)@,
                final(index)@,
                o.procedure_effects@,
                *activated,
                instance_ids@,
                request.action_kind@,
                request.current_wall_clock@,
                request_texts(*request, activated.schema@),
                entity_texts(*request, activated.schema@),
            ))
        },
        r is Err ==> final(index)@ == old(index)@,
{
    if request.entity_snapshot.entity_count() > bounds.max_entity_count {
        return Err(CedarPlusError::EvaluationBoundExceeded(EvalBoundReason::EntityStoreSize));
    }
    let principal_type = type_name_of("Yutha::Agent")?;
    let (action_type, action_id) = split_action_kind(request.action_kind.as_str());
    let action_t = type_name_of(action_type.as_str())?;
    let resource_t = type_name_of(request.resource_uid.entity_type.as_str())?;
    let shadow = match mode {
        EvaluationMode::Shadow => true,
        EvaluationMode::Active => false,
    };
    let entities_text = snapshot_json_exec(&request.entity_snapshot);
    let entities = match read_entities(entities_text.as_str(), &*activated.schema) {
        Ok(e) => e,
        Err(msg) => {
            if shadow {
                return Ok(schema_incompatible_deny());
            }
            return Err(CedarPlusError::EntityUnresolved(led("entity snapshot rejected by Cedar: ", msg.as_str())));
        },
    };
    let context_text = context_json(&request.context_attrs);
    let context = match read_context(context_text.as_str()) {
        Ok(c) => c,
        Err(msg) => {
            if shadow {
                return Ok(schema_incompatible_deny());
            }
            return Err(CedarPlusError::RequestShapeInvalid(led("Cedar Context rejected: ", msg.as_str())));
        },
    };
    let cedar_request = match build_request(
        (principal_type, request.principal_id.as_str()),
        (action_t, action_id.as_str()),
        (resource_t, request.resource_uid.entity_id.as_str()),
        context,
        &*activated.schema,
    ) {
        Ok(q) => q,
        Err(msg) => {
            if shadow {
                return Ok(schema_incompatible_deny());
            }
            return Err(CedarPlusError::RequestShapeInvalid(led("Cedar Request rejected: ", msg.as_str())));
        },
    };
    assert(cedar_request@ == request_texts(*request, activated.schema@));
    assert(entities@ == entity_texts(*request, activated.schema@));
    let (allow, matched) = authorize(&cedar_request, &activated.policy_set, &entities);
    let (decision, deny_reason) = decide(allow, &matched);
    proof {
        let reasons = cedar_reasons(cedar_request@, activated.policy_set@, entities@);
        assert(matched.deep_view().to_set() == reasons);
        if matched@.len() == 0 {
            assert(matched.deep_view().to_set() =~= Set::<Seq<char>>::empty());
        } else {
            assert(reasons.contains(matched.deep_view()[0]));
            assert(reasons.len() > 0) by {
                if reasons.len() == 0 {
                    assert(reasons =~= Set::<Seq<char>>::empty()) by {
                        vstd::set_lib::lemma_set_empty_equivalency_len(reasons);
                    }
                }
            }
        }
    }
    if !allow {
        return Ok(
            EvaluationOutcome {
                decision,
                deny_reason,
                matched_rule_ids: matched,
                score_contributions: Vec::new(),
                total_score: None,
                procedure_effects: Vec::new(),
            },
        );
    }
    let scoring = evaluate_scoring(&cedar_request, &entities, activated);
    let total_score = scoring.total_score();
    let procedure_effects = if shadow {
        Vec::new()
    } else {
        evaluate_procedures(
            &cedar_request,
            &entities,
            activated,
            index,
            instance_ids,
            request.action_kind.as_str(),
            request.current_wall_clock.as_str(),
        ).effects
    };
    Ok(
        EvaluationOutcome {
            decision,
            deny_reason,
            matched_rule_ids: matched,
            score_contributions: scoring.contributions,
            total_score,
            procedure_effects,
        },
    )
}

/// What an active evaluation decides does not depend on anything but the
/// request, the constitution and the bounds: two outcomes that both meet
/// [`evaluation_result`] for them agree on the decision, the deny reason,
/// the matched ids (as a set), the scoring and the total. So the active
/// outcome of [`CedarPlusEvaluator::evaluate_pair`] is the one
/// [`CedarPlusEvaluator::evaluate`] gives, whatever the shadow slot holds.
pub proof fn lemma_outcome_determined(
    r: EvaluationRequest,
    a: ActivatedConstitution,
    b: SandboxConfig,
    mode: EvaluationMode,
    o1: EvaluationOutcome,
    o2: EvaluationOutcome,
)
    requires
        evaluation_result(r, a, b, mode, Ok(o1)),
        evaluation_result(r, a, b, mode, Ok(o2)),
    ensures
        o1.decision == o2.decision,
        o1.deny_reason.deep_view() == o2.deny_reason.deep_view(),
        o1.matched_rule_ids.deep_view().to_set() == o2.matched_rule_ids.deep_view().to_set(),
        o1.score_contributions@.len() == o2.score_contributions@.len(),
        forall|i: int|
            0 <= i < o1.score_contributions@.len() ==> (#[trigger] o1.score_contributions@[i]).rule_id@
                == o2.score_contributions@[i].rule_id@ && o1.score_contributions@[i].score == o2.score_contributions@[i].score,
        o1.total_score is None <==> o2.total_score is None,
        o1.total_score matches Some(x) ==> (o2.total_score matches Some(y) && x.0@ == y.0@),
{
    if !cedar_reads(r, a.schema@) {
        assert(o1.deny_reason.deep_view() == o2.deny_reason.deep_view());
        assert(o1.matched_rule_ids.deep_view() =~= o2.matched_rule_ids.deep_view());
    } else {
        let req = request_texts(r, a.schema@);
        let ents = entity_texts(r, a.schema@);
        let h = scored_handles(a.layer_b, req, ents);
        if cedar_allows(req, a.policy_set@, ents) {
            assert forall|i: int| 0 <= i < o1.score_contributions@.len() implies (#[trigger] o1.score_contributions@[i]).rule_id@
                == o2.score_contributions@[i].rule_id@ && o1.score_contributions@[i].score
                == o2.score_contributions@[i].score by {
                assert(o1.score_contributions@[i].rule_id@ == h[i].rule_name@);
                assert(o2.score_contributions@[i].rule_id@ == h[i].rule_name@);
            }

        }
    }
}

// ---------------------------------------------------------------------------
// The active and shadow slots
// ---------------------------------------------------------------------------

/// What a promotion of the shadow constitution did.
pub struct PromoteShadowOutcome {
    /// The hash of the constitution active before, if any.
    pub from_active_constitution_hash: Option<ContentHash>,
    /// The hash of the newly active constitution.
    pub to_active_constitution_hash: ContentHash,
    /// Its version label.
    pub to_constitution_version: String,
    /// Its schema version.
    pub schema_version: String,
    /// The newly active constitution.
    pub promoted: Arc<ActivatedConstitution>,
}

/// The evaluator: a loader, the sandbox bounds, the active and shadow
/// constitutions, and the procedure index of the active one.
pub struct CedarPlusEvaluator {
    loader: ConstitutionLoader,
    sandbox: SandboxConfig,
    current: Option<Arc<ActivatedConstitution>>,
    current_shadow: Option<Arc<ActivatedConstitution>>,
    procedure_index: ProcedureIndex,
}

/// `h` copies `k` byte for byte.
pub open spec fn same_hash(h: ContentHash, k: ContentHash) -> bool {
    h.digest@ == k.digest@
}

/// `a` and `b` are both absent, or both present with the same digest.
pub open spec fn same_opt_hash(a: Option<ContentHash>, b: Option<ContentHash>) -> bool {
    match (a, b) {
        (None, None) => true,
        (Some(x), Some(y)) => same_hash(x, y),
        _ => false,
    }
}

/// The hash of the constitution in a slot.
pub open spec fn slot_hash(s: Option<Arc<ActivatedConstitution>>) -> Option<ContentHash> {
    match s {
        Some(a) => Some(a.constitution.constitution_hash),
        None => None,
    }
}

/// The message for a request pinned to another constitution.
pub open spec fn pinned_message(req: Seq<u8>, active: Seq<u8>) -> Seq<char> {
    "request pinned to constitution "@ + hex_spec(req) + ", active is "@ + hex_spec(active)
}

/// The active evaluation's part of a paired result.
pub open spec fn active_part(r: Result<(EvaluationOutcome, Option<EvaluationOutcome>), CedarPlusError>) -> Result<
    EvaluationOutcome,
    CedarPlusError,
> {
    match r {
        Ok(p) => Ok(p.0),
        Err(e) => Err(e),
    }
}

/// What an active evaluation with outcome `o` did to the procedure index
/// of `e0`, giving `e1`: a deny leaves it; a permit runs the procedure
/// pass of the active constitution.
pub open spec fn index_after(
    e0: CedarPlusEvaluator,
    e1: CedarPlusEvaluator,
    o: EvaluationOutcome,
    r: EvaluationRequest,
    ids: Map<Seq<char>, Seq<char>>,
) -> bool {
    &&& e0.active_slot() is Some
    &&& o.decision == Decision::Deny ==> e1.index_spec() == e0.index_spec()
    &&& o.decision == Decision::Permit ==> {
        let a = e0.active_slot()->0;
        procedure_pass(
            e0.index_spec(),
            e1.index_spec(),
            o.procedure_effects@,
            *a,
            ids,
            r.action_kind@,
            r.current_wall_clock@,
            request_texts(r, a.schema@),
            entity_texts(r, a.schema@),
        )
    }
}

impl CedarPlusEvaluator {
    /// The active slot.
    pub closed spec fn active_slot(&self) -> Option<Arc<ActivatedConstitution>> {
        self.current
    }

    /// The shadow slot.
    pub closed spec fn shadow_slot(&self) -> Option<Arc<ActivatedConstitution>> {
        self.current_shadow
    }

    /// The loader.
    pub closed spec fn loader_spec(&self) -> ConstitutionLoader {
        self.loader
    }

    /// The sandbox bounds.
    pub closed spec fn bounds_spec(&self) -> SandboxConfig {
        self.sandbox
    }

    /// The procedure index.
    pub closed spec fn index_spec(&self) -> Map<Seq<char>, (Seq<char>, Seq<char>, Seq<char>, bool)> {
        self.procedure_index@
    }

    /// An evaluator with both slots empty and an empty index.
    pub fn new(loader: ConstitutionLoader, sandbox: SandboxConfig) -> (e: CedarPlusEvaluator)
        ensures
            e.active_slot() is None,
            e.shadow_slot() is None,
            e.loader_spec() == loader,
            e.bounds_spec() == sandbox,
            e.index_spec() == Map::<Seq<char>, (Seq<char>, Seq<char>, Seq<char>, bool)>::empty(),
    {
        CedarPlusEvaluator {
            loader,
            sandbox,
            current: None,
            current_shadow: None,
            procedure_index: ProcedureIndex::new(),
        }
    }

    /// An evaluator with the default bounds.
    pub fn with_default_bounds(loader: ConstitutionLoader) -> (e: CedarPlusEvaluator)
        ensures
            e.active_slot() is None,
            e.shadow_slot() is None,
            e.loader_spec() == loader,
            default_bounds(e.bounds_spec()),
            e.index_spec() == Map::<Seq<char>, (Seq<char>, Seq<char>, Seq<char>, bool)>::empty(),
    {
        Self::new(loader, SandboxConfig::default())
    }

    /// The active constitution, if any.
    pub fn current(&self) -> (r: Option<Arc<ActivatedConstitution>>)
        ensures
            r == self.active_slot(),
    {
        match &self.current {
            Some(a) => Some(share(a)),
            None => None,
        }
    }

    /// The shadow constitution, if any.
    pub fn current_shadow(&self) -> (r: Option<Arc<ActivatedConstitution>>)
        ensures
            r == self.shadow_slot(),
    {
        match &self.current_shadow {
            Some(a) => Some(share(a)),
            None => None,
        }
    }

    /// Both slots.
    pub fn current_pair(&self) -> (r: (Option<Arc<ActivatedConstitution>>, Option<Arc<ActivatedConstitution>>))
        ensures
            r.0 == self.active_slot(),
            r.1 == self.shadow_slot(),
    {
        (self.current(), self.current_shadow())
    }

    /// Load a constitution into the active slot; the shadow slot and the
    /// index are kept. A load error leaves everything as it was.
    pub fn activate(&mut self, constitution: Constitution) -> (r: Result<ContentHash, CedarPlusError>)
        requires
            forall|i: int|
                0 <= i < constitution.engine_config.scoring_rules@.len() ==> score_in_range(
                    #[trigger] constitution.engine_config.scoring_rules@[i].score.0@,
                ),
        ensures
            load_refusals(
                constitution,
                old(self).loader_spec().bound_config(),
                old(self).loader_spec().shared_schema()@,
                unit_of(r),
            ),
            r matches Ok(h) ==> {
                &&& final(self).active_slot() matches Some(a) && loaded(
                    constitution,
                    old(self).loader_spec().bound_config(),
                    old(self).loader_spec().shared_schema(),
                    *a,
                )
                &&& same_hash(h, constitution.constitution_hash)
            },
            r is Err ==> final(self).active_slot() == old(self).active_slot(),
            final(self).shadow_slot() == old(self).shadow_slot(),
            final(self).loader_spec() == old(self).loader_spec(),
            final(self).bounds_spec() == old(self).bounds_spec(),
            final(self).index_spec() == old(self).index_spec(),
    {
        let activated = self.loader.load(constitution)?;
        let h = activated.constitution.constitution_hash.duplicate();
        self.current = Some(Arc::new(activated));
        Ok(h)
    }

    /// Load a constitution into the shadow slot, replacing any; the active
    /// slot and the index are kept. A load error leaves everything as it
    /// was.
    pub fn activate_shadow(&mut self, constitution: Constitution) -> (r: Result<ContentHash, CedarPlusError>)
        requires
            forall|i: int|
                0 <= i < constitution.engine_config.scoring_rules@.len() ==> score_in_range(
                    #[trigger] constitution.engine_config.scoring_rules@[i].score.0@,
                ),
        ensures
            load_refusals(
                constitution,
                old(self).loader_spec().bound_config(),
                old(self).loader_spec().shared_schema()@,
                unit_of(r),
            ),
            r matches Ok(h) ==> {
                &&& final(self).shadow_slot() matches Some(a) && loaded(
                    constitution,
                    old(self).loader_spec().bound_config(),
                    old(self).loader_spec().shared_schema(),
                    *a,
                )
                &&& same_hash(h, constitution.constitution_hash)
            },
            r is Err ==> final(self).shadow_slot() == old(self).shadow_slot(),
            final(self).active_slot() == old(self).active_slot(),
            final(self).loader_spec() == old(self).loader_spec(),
            final(self).bounds_spec() == old(self).bounds_spec(),
            final(self).index_spec() == old(self).index_spec(),
    {
        let activated = self.loader.load(constitution)?;
        let h = activated.constitution.constitution_hash.duplicate();
        self.current_shadow = Some(Arc::new(activated));
        Ok(h)
    }

    /// Empty the shadow slot, giving the hash of what it held.
    pub fn clear_shadow(&mut self) -> (r: Option<ContentHash>)
        ensures
            same_opt_hash(r, slot_hash(old(self).shadow_slot())),
            final(self).shadow_slot() is None,
            final(self).active_slot() == old(self).active_slot(),
            final(self).loader_spec() == old(self).loader_spec(),
            final(self).bounds_spec() == old(self).bounds_spec(),
            final(self).index_spec() == old(self).index_spec(),
    {
        match self.current_shadow.take() {
            Some(a) => Some(a.constitution.constitution_hash.duplicate()),
            None => None,
        }
    }

    /// Move the shadow constitution into the active slot, leaving the
    /// shadow slot empty; `None` (and no change) when there is no shadow.
    pub fn promote_shadow(&mut self) -> (r: Option<PromoteShadowOutcome>)
        ensures
            old(self).shadow_slot() is None <==> r is None,
            r is None ==> final(self).active_slot() == old(self).active_slot(),
            r matches Some(p) ==> {
                &&& final(self).active_slot() == old(self).shadow_slot()
                &&& old(self).shadow_slot() == Some(p.promoted)
                &&& same_opt_hash(p.from_active_constitution_hash, slot_hash(old(self).active_slot()))
                &&& same_hash(p.to_active_constitution_hash, p.promoted.constitution.constitution_hash)
                &&& p.to_constitution_version == p.promoted.constitution.constitution_version
                &&& p.schema_version == p.promoted.constitution.schema_version
            },
            final(self).shadow_slot() is None,
            final(self).loader_spec() == old(self).loader_spec(),
            final(self).bounds_spec() == old(self).bounds_spec(),
            final(self).index_spec() == old(self).index_spec(),
    {
        let shadow = match self.current_shadow.take() {
            Some(a) => a,
            None => return None,
        };
        let previous = self.current.take();
        self.current = Some(share(&shadow));
        let from_active_constitution_hash = match &previous {
            Some(a) => Some(a.constitution.constitution_hash.duplicate()),
            None => None,
        };
        Some(
            PromoteShadowOutcome {
                from_active_constitution_hash,
                to_active_constitution_hash: shadow.constitution.constitution_hash.duplicate(),
                to_constitution_version: shadow.constitution.constitution_version.clone(),
                schema_version: shadow.constitution.schema_version.clone(),
                promoted: shadow,
            },
        )
    }

    /// The active constitution that `request` is pinned to: an error when
    /// there is none or when its hash differs.
    fn pinned_active(&self, request: &EvaluationRequest) -> (r: Result<Arc<ActivatedConstitution>, CedarPlusError>)
        ensures
            self.active_slot() is None ==> (r matches Err(CedarPlusError::ConstitutionUnresolved(m)) && m@
                == "no active constitution; call activate() first"@),
            self.active_slot() matches Some(a) ==> if same_hash(request.constitution_hash, a.constitution.constitution_hash) {
                r == Ok::<Arc<ActivatedConstitution>, CedarPlusError>(a)
            } else {
                r matches Err(CedarPlusError::ConstitutionUnresolved(m)) && m@ == pinned_message(
                    request.constitution_hash.digest@,
                    a.constitution.constitution_hash.digest@,
                )
            },
    {
        let active = match &self.current {
            Some(a) => share(a),
            None => return Err(CedarPlusError::ConstitutionUnresolved(owned("no active constitution; call activate() first"))),
        };
        if !request.constitution_hash.same_as(&active.constitution.constitution_hash) {
            let mut m = owned("request pinned to constitution ");
            m.append(hex_encode(&request.constitution_hash.digest).as_str());
            m.append(", active is ");
            m.append(hex_encode(&active.constitution.constitution_hash.digest).as_str());
            return Err(CedarPlusError::ConstitutionUnresolved(m));
        }
        Ok(active)
    }

    /// Evaluate a request against the active constitution it is pinned
    /// to (see [`evaluate_against`]).
    pub fn evaluate(&mut self, request: &EvaluationRequest, instance_ids: &StringMap) -> (r: Result<
        EvaluationOutcome,
        CedarPlusError,
    >)
        ensures
            old(self).active_slot() is None ==> (r matches Err(CedarPlusError::ConstitutionUnresolved(m)) && m@
                == "no active constitution; call activate() first"@),
            old(self).active_slot() matches Some(a) ==> (!same_hash(request.constitution_hash, a.constitution.constitution_hash)
                ==> (r matches Err(CedarPlusError::ConstitutionUnresolved(m)) && m@ == pinned_message(
                request.constitution_hash.digest@,
                a.constitution.constitution_hash.digest@,
            ))),
            old(self).active_slot() matches Some(a) ==> (same_hash(request.constitution_hash, a.constitution.constitution_hash)
                ==> evaluation_result(*request, *a, old(self).bounds_spec(), EvaluationMode::Active, r)),
            r is Err ==> final(self).index_spec() == old(self).index_spec(),
            r matches Ok(o) ==> index_after(*old(self), *final(self), o, *request, instance_ids@),
            final(self).active_slot() == old(self).active_slot(),
            final(self).shadow_slot() == old(self).shadow_slot(),
            final(self).loader_spec() == old(self).loader_spec(),
            final(self).bounds_spec() == old(self).bounds_spec(),
    {
        let active = self.pinned_active(request)?;
        evaluate_against(request, &*active, &self.sandbox, EvaluationMode::Active, &mut self.procedure_index, instance_ids)
    }

    /// Evaluate a request against the active constitution it is pinned to
    /// and, when a shadow is loaded, against the shadow too (scoring only;
    /// a request that does not fit the shadow's schema gives the shadow
    /// deny).
    pub fn evaluate_pair(&mut self, request: &EvaluationRequest, instance_ids: &StringMap) -> (r: Result<
        (EvaluationOutcome, Option<EvaluationOutcome>),
        CedarPlusError,
    >)
        ensures
            old(self).active_slot() is None ==> (r matches Err(CedarPlusError::ConstitutionUnresolved(m)) && m@
                == "no active constitution; call activate() first"@),
            old(self).active_slot() matches Some(a) ==> (!same_hash(request.constitution_hash, a.constitution.constitution_hash)
                ==> (r matches Err(CedarPlusError::ConstitutionUnresolved(m)) && m@ == pinned_message(
                request.constitution_hash.digest@,
                a.constitution.constitution_hash.digest@,
            ))),
            old(self).active_slot() matches Some(a) ==> (same_hash(request.constitution_hash, a.constitution.constitution_hash)
                ==> evaluation_result(*request, *a, old(self).bounds_spec(), EvaluationMode::Active, active_part(r))),
            r is Err ==> final(self).index_spec() == old(self).index_spec(),
            r matches Ok(p) ==> index_after(*old(self), *final(self), p.0, *request, instance_ids@),
            r matches Ok(p) ==> {
                &&& (old(self).shadow_slot() is None <==> p.1 is None)
                &&& (old(self).shadow_slot() matches Some(s) ==> evaluation_result(
                    *request,
                    *s,
                    old(self).bounds_spec(),
                    EvaluationMode::Shadow,
                    Ok(p.1->0),
                ))
            },
            final(self).active_slot() == old(self).active_slot(),
            final(self).shadow_slot() == old(self).shadow_slot(),
            final(self).loader_spec() == old(self).loader_spec(),
            final(self).bounds_spec() == old(self).bounds_spec(),
    {
        let active = self.pinned_active(request)?;
        let active_outcome = evaluate_against(
            request,
            &*active,
            &self.sandbox,
            EvaluationMode::Active,
            &mut self.procedure_index,
            instance_ids,
        )?;
        let shadow_outcome = match &self.current_shadow {
            None => None,
            Some(shadow) => {
                let s = share(shadow);
                Some(
                    evaluate_against(
                        request,
                        &*s,
                        &self.sandbox,
                        EvaluationMode::Shadow,
                        &mut self.procedure_index,
                        instance_ids,
                    )?,
                )
            },
        };
        Ok((active_outcome, shadow_outcome))
    }
}

} // verus!
