//! Layer B: the stock-Cedar `permit` policies synthesized from the engine
//! config (one per scoring rule, procedure trigger and action-driven
//! procedure transition), and the handles recovered when one fires.
//! Each synthesized policy is read under its own id (`scoring__<rule>`,
//! `proc_trigger__<procedure>`, `proc_trans__<procedure>__<from>__<to>`),
//! so the ids Cedar gives as reasons lead back to the handles.

use vstd::prelude::*;

use crate::cedar::{build_policies, policy_ids, policy_parses, policy_views, read_policy, CedarPolicies, CedarPolicy};
use crate::engine_config::{EngineConfig, Procedure, ProcedureTransition, ScoringHead, ScoringRule};
use crate::error::CedarPlusError;
use crate::score::{parse_score_scaled, score_in_range, score_reads, score_scaled_value, Score};
use crate::text::{message, owned, quoted_in, starts_with_spec};

verus! {

/// A scoring rule behind a synthesized scoring policy.
#[derive(Debug, Clone)]
pub struct ScoringRuleHandle {
    /// The rule's name.
    pub rule_name: String,
    /// The rule's score as written.
    pub score: Score,
    /// The score × 10 000, for integer accumulation.
    pub score_scaled: i64,
}

/// A procedure transition behind a synthesized transition policy.
#[derive(Debug, Clone)]
pub struct TransitionHandle {
    /// The procedure.
    pub procedure_name: String,
    /// Source state.
    pub from_state: String,
    /// Destination state.
    pub to_state: String,
    /// The action that fires it.
    pub action: String,
}

// ---------------------------------------------------------------------------
// Policy text
// ---------------------------------------------------------------------------

/// `@id("<id>")`, then `permit (principal, <action>, resource)` with the
/// `when { <guard> }` clause.
pub open spec fn policy_text(id: Seq<char>, action: Seq<char>, when: Seq<char>) -> Seq<char> {
    quoted_in("@id("@, id, ")\npermit (principal, "@) + action + ", resource)\nwhen { "@ + when + " };"@
}

/// The action constraint `action == Yutha::Action::"<a>"`.
pub open spec fn action_is(a: Seq<char>) -> Seq<char> {
    quoted_in("action == Yutha::Action::"@, a, ""@)
}

/// The action constraint of a scoring head: its action, or any.
pub open spec fn scoring_action(h: ScoringHead) -> Seq<char> {
    match h.action {
        Some(a) => action_is(a@),
        None => "action"@,
    }
}

fn policy_text_exec(id: &str, action: &str, when: &str) -> (out: String)
    ensures
        out@ == policy_text(id@, action@, when@),
{
    let mut out = message("@id(", id, ")\npermit (principal, ");
    out.append(action);
    out.append(", resource)\nwhen { ");
    out.append(when);
    out.append(" };");
    out
}

fn action_is_exec(a: &str) -> (out: String)
    ensures
        out@ == action_is(a@),
{
    message("action == Yutha::Action::", a, "")
}

/// The policies of a synthesized set: the id of each pair of `table`
/// with the text at the same place.
pub open spec fn pairs_of<V>(table: Seq<(String, V)>, texts: Seq<Seq<char>>) -> Seq<(Seq<char>, Seq<char>)> {
    Seq::new(texts.len(), |i: int| (table[i].0@, texts[i]))
}

/// Every synthesized policy parses and no two share an id.
pub open spec fn synthesized_ok(ps: Seq<(Seq<char>, Seq<char>)>) -> bool {
    &&& forall|i: int| 0 <= i < ps.len() ==> policy_parses(#[trigger] ps[i].1)
    &&& policy_ids(ps).no_duplicates()
}

/// Read the synthesized policies, each under the id `table` gives it at
/// the same place, as one policy set.
fn parse_synthesized_set<V>(table: &Vec<(String, V)>, texts: &Vec<String>, domain: &str) -> (r: Result<
    CedarPolicies,
    CedarPlusError,
>)
    requires
        table@.len() == texts@.len(),
    ensures
        r is Ok <==> synthesized_ok(pairs_of(table@, texts.deep_view())),
        r matches Ok(p) ==> p@ == (None::<Seq<char>>, pairs_of(table@, texts.deep_view())),
        r matches Err(e) ==> (e matches CedarPlusError::Parse(m) && starts_with_spec(
            m@,
            "synthesized "@ + domain@ + " policy set failed to parse: "@,
        )),
{
    let ghost pairs = pairs_of(table@, texts.deep_view());
    let mut policies: Vec<CedarPolicy> = Vec::new();
    let mut i: usize = 0;
    while i < texts.len()
        invariant
            i <= texts@.len(),
            table@.len() == texts@.len(),
            pairs == pairs_of(table@, texts.deep_view()),
            policy_views(policies@) == pairs.take(i as int),
            forall|j: int| 0 <= j < i ==> policy_parses(#[trigger] pairs[j].1),
        decreases texts.len() - i,
    {
        match read_policy(table[i].0.as_str(), texts[i].as_str()) {
            Ok(p) => {
                let ghost before = policies@;
                policies.push(p);
                assert(policy_views(policies@) =~= policy_views(before).push(pairs[i as int]));
                assert(pairs.take(i + 1) =~= pairs.take(i as int).push(pairs[i as int]));
            },
            Err(msg) => {
                assert(pairs[i as int].1 == texts.deep_view()[i as int]);
                assert(!policy_parses(pairs[i as int].1));
                let mut m = owned("synthesized ");
                m.append(domain);
                m.append(" policy set failed to parse: ");
                let ghost prefix = m@;
                m.append(msg.as_str());
                assert(m@.take(prefix.len() as int) =~= prefix);
                return Err(CedarPlusError::Parse(m));
            },
        }
        i = i + 1;
    }
    assert(pairs.take(texts@.len() as int) =~= pairs);
    match build_policies(policies) {
        Ok(set) => Ok(set),
        Err(msg) => {
            let mut m = owned("synthesized ");
            m.append(domain);
            m.append(" policy set failed to parse: ");
            let ghost prefix = m@;
            m.append(msg.as_str());
            assert(m@.take(prefix.len() as int) =~= prefix);
            Err(CedarPlusError::Parse(m))
        },
    }
}

// ---------------------------------------------------------------------------
// Scoring
// ---------------------------------------------------------------------------

pub open spec fn scoring_policy_id(name: Seq<char>) -> Seq<char> {
    "scoring__"@ + name
}

/// The policy of each scoring rule, in order.
pub open spec fn scoring_texts(rules: Seq<ScoringRule>) -> Seq<Seq<char>> {
    Seq::new(
        rules.len(),
        |i: int| policy_text(scoring_policy_id(rules[i].name@), scoring_action(rules[i].head), rules[i].when@),
    )
}

/// The scoring policies, each its id and its text, in order.
pub open spec fn scoring_policies(rules: Seq<ScoringRule>) -> Seq<(Seq<char>, Seq<char>)> {
    Seq::new(rules.len(), |i: int| (scoring_policy_id(rules[i].name@), scoring_texts(rules)[i]))
}

/// Every score reads.
pub open spec fn scores_read(rules: Seq<ScoringRule>) -> bool {
    forall|i: int| 0 <= i < rules.len() ==> score_reads(#[trigger] rules[i].score.0@)
}

/// One policy per scoring rule and, by policy id, the rule's name, score
/// and scaled score. The first rule whose score does not read is
/// refused.
pub fn synthesize_scoring(rules: &Vec<ScoringRule>) -> (r: Result<(CedarPolicies, Vec<(String, ScoringRuleHandle)>), CedarPlusError>)
    requires
        forall|i: int| 0 <= i < rules@.len() ==> score_in_range(#[trigger] rules@[i].score.0@),
    ensures
        !scores_read(rules@) ==> (r matches Err(e) && exists|i: int|
            0 <= i < rules@.len() && (forall|j: int| 0 <= j < i ==> score_reads(#[trigger] rules@[j].score.0@))
                && !score_reads(rules@[i].score.0@) && (e matches CedarPlusError::InvalidScoringRule { rule, .. }
                && rule@ == rules@[i].name@)),
        scores_read(rules@) ==> (r is Ok <==> synthesized_ok(scoring_policies(rules@))),
        scores_read(rules@) && r is Err ==> (r matches Err(CedarPlusError::Parse(m)) && starts_with_spec(
            m@,
            "synthesized "@ + "scoring"@ + " policy set failed to parse: "@,
        )),
        r matches Ok(p) ==> {
            let handles = p.1@;
            &&& p.0@ == (None::<Seq<char>>, scoring_policies(rules@))
            &&& handles.len() == rules@.len()
            &&& forall|i: int|
                0 <= i < handles.len() ==> {
                    let h = #[trigger] handles[i];
                    &&& h.0@ == scoring_policy_id(rules@[i].name@)
                    &&& h.1.rule_name@ == rules@[i].name@
                    &&& h.1.score.0@ == rules@[i].score.0@
                    &&& h.1.score_scaled == score_scaled_value(rules@[i].score.0@)
                }
        },
{
    let mut handles: Vec<(String, ScoringRuleHandle)> = Vec::new();
    let mut texts: Vec<String> = Vec::new();
    let mut i: usize = 0;
    while i < rules.len()
        invariant
            i <= rules@.len(),
            forall|j: int| 0 <= j < rules@.len() ==> score_in_range(#[trigger] rules@[j].score.0@),
            forall|j: int| 0 <= j < i ==> score_reads(#[trigger] rules@[j].score.0@),
            texts.deep_view() == scoring_texts(rules@).take(i as int),
            handles@.len() == i,
            forall|j: int|
                0 <= j < i ==> {
                    let h = #[trigger] handles@[j];
                    &&& h.0@ == scoring_policy_id(rules@[j].name@)
                    &&& h.1.rule_name@ == rules@[j].name@
                    &&& h.1.score.0@ == rules@[j].score.0@
                    &&& h.1.score_scaled == score_scaled_value(rules@[j].score.0@)
                },
        decreases rules.len() - i,
    {
        let rule = &rules[i];
        let mut id = owned("scoring__");
        id.append(rule.name.as_str());
        let action = match &rule.head.action {
            Some(a) => action_is_exec(a.as_str()),
            None => owned("action"),
        };
        assert(id@ == scoring_policy_id(rules@[i as int].name@));
        assert(action@ == scoring_action(rules@[i as int].head));
        let text = policy_text_exec(id.as_str(), action.as_str(), rule.when.as_str());
        assert(text@ == scoring_texts(rules@)[i as int]);
        let ghost before = texts.deep_view();
        texts.push(text);
        assert(texts.deep_view() =~= before.push(text@));
        assert(texts.deep_view() =~= scoring_texts(rules@).take(i + 1));
        let scaled = match parse_score_scaled(&rule.score) {
            Ok(v) => v,
            Err(detail) => {
                return Err(CedarPlusError::InvalidScoringRule { rule: rule.name.clone(), detail });
            },
        };
        handles.push(
            (
                id,
                ScoringRuleHandle {
                    rule_name: rule.name.clone(),
                    score: Score(rule.score.0.clone()),
                    score_scaled: scaled,
                },
            ),
        );
        i = i + 1;
    }
    assert(scoring_texts(rules@).take(rules@.len() as int) =~= scoring_texts(rules@));
    assert(pairs_of(handles@, texts.deep_view()) =~= scoring_policies(rules@));
    let set = parse_synthesized_set(&handles, &texts, "scoring")?;
    Ok((set, handles))
}

// ---------------------------------------------------------------------------
// Procedure triggers and transitions
// ---------------------------------------------------------------------------

pub open spec fn trigger_policy_id(name: Seq<char>) -> Seq<char> {
    "proc_trigger__"@ + name
}

/// An optional guard, `true` when absent.
pub open spec fn guard_or_true(w: Option<String>) -> Seq<char> {
    match w {
        Some(x) => x@,
        None => "true"@,
    }
}

/// The trigger policy of each procedure, in order.
pub open spec fn trigger_texts(procs: Seq<Procedure>) -> Seq<Seq<char>> {
    Seq::new(
        procs.len(),
        |i: int|
            policy_text(
                trigger_policy_id(procs[i].name@),
                action_is(procs[i].trigger.action@),
                guard_or_true(procs[i].trigger.when),
            ),
    )
}

/// The trigger policies, each its id and its text, in order.
pub open spec fn trigger_policies(procs: Seq<Procedure>) -> Seq<(Seq<char>, Seq<char>)> {
    Seq::new(procs.len(), |i: int| (trigger_policy_id(procs[i].name@), trigger_texts(procs)[i]))
}

/// One policy per procedure trigger and, by policy id, the procedure's
/// name.
pub fn synthesize_triggers(procs: &Vec<Procedure>) -> (r: Result<(CedarPolicies, Vec<(String, String)>), CedarPlusError>)
    ensures
        r is Ok <==> synthesized_ok(trigger_policies(procs@)),
        r is Err ==> (r matches Err(CedarPlusError::Parse(m)) && starts_with_spec(
            m@,
            "synthesized "@ + "procedure trigger"@ + " policy set failed to parse: "@,
        )),
        r matches Ok(p) ==> {
            &&& p.0@ == (None::<Seq<char>>, trigger_policies(procs@))
            &&& p.1@.len() == procs@.len()
            &&& forall|i: int|
                0 <= i < procs@.len() ==> (#[trigger] p.1@[i]).0@ == trigger_policy_id(procs@[i].name@)
                    && p.1@[i].1@ == procs@[i].name@
        },
{
    let mut by_id: Vec<(String, String)> = Vec::new();
    let mut texts: Vec<String> = Vec::new();
    let mut i: usize = 0;
    while i < procs.len()
        invariant
            i <= procs@.len(),
            texts.deep_view() == trigger_texts(procs@).take(i as int),
            by_id@.len() == i,
            forall|j: int|
                0 <= j < i ==> (#[trigger] by_id@[j]).0@ == trigger_policy_id(procs@[j].name@) && by_id@[j].1@
                    == procs@[j].name@,
        decreases procs.len() - i,
    {
        let proc = &procs[i];
        let mut id = owned("proc_trigger__");
        id.append(proc.name.as_str());
        let action = action_is_exec(proc.trigger.action.as_str());
        let when = match &proc.trigger.when {
            Some(w) => w.clone(),
            None => owned("true"),
        };
        assert(when@ == guard_or_true(procs@[i as int].trigger.when));
        let text = policy_text_exec(id.as_str(), action.as_str(), when.as_str());
        assert(text@ == trigger_texts(procs@)[i as int]);
        let ghost before = texts.deep_view();
        texts.push(text);
        assert(texts.deep_view() =~= before.push(text@));
        assert(texts.deep_view() =~= trigger_texts(procs@).take(i + 1));
        by_id.push((id, proc.name.clone()));
        i = i + 1;
    }
    assert(trigger_texts(procs@).take(procs@.len() as int) =~= trigger_texts(procs@));
    assert(pairs_of(by_id@, texts.deep_view()) =~= trigger_policies(procs@));
    let set = parse_synthesized_set(&by_id, &texts, "procedure trigger")?;
    Ok((set, by_id))
}

/// A synthesized transition: policy id, policy text, and the handle's
/// procedure, source, destination and action.
pub struct TransitionEntry {
    pub id: Seq<char>,
    pub text: Seq<char>,
    pub procedure: Seq<char>,
    pub from: Seq<char>,
    pub to: Seq<char>,
    pub action: Seq<char>,
}

pub open spec fn transition_policy_id(p: Seq<char>, from: Seq<char>, to: Seq<char>) -> Seq<char> {
    "proc_trans__"@ + p + "__"@ + from + "__"@ + to
}

/// The entry of an action-driven transition of procedure `p`.
pub open spec fn transition_entry(p: Procedure, t: ProcedureTransition) -> TransitionEntry {
    let id = transition_policy_id(p.name@, t.from@, t.to@);
    TransitionEntry {
        id,
        text: policy_text(id, action_is(t.action->0@), guard_or_true(t.actor_when)),
        procedure: p.name@,
        from: t.from@,
        to: t.to@,
        action: t.action->0@,
    }
}

/// The entries of the action-driven transitions among `ts`, in order;
/// timeout transitions get none.
pub open spec fn proc_entries(p: Procedure, ts: Seq<ProcedureTransition>) -> Seq<TransitionEntry>
    decreases ts.len(),
{
    if ts.len() == 0 {
        Seq::empty()
    } else if ts.last().action is Some {
        proc_entries(p, ts.drop_last()).push(transition_entry(p, ts.last()))
    } else {
        proc_entries(p, ts.drop_last())
    }
}

/// The entries of all procedures, in order.
pub open spec fn all_entries(procs: Seq<Procedure>) -> Seq<TransitionEntry>
    decreases procs.len(),
{
    if procs.len() == 0 {
        Seq::empty()
    } else {
        all_entries(procs.drop_last()) + proc_entries(procs.last(), procs.last().transitions@)
    }
}

pub open spec fn entry_texts(e: Seq<TransitionEntry>) -> Seq<Seq<char>> {
    e.map_values(|x: TransitionEntry| x.text)
}

/// The transition policies, each its id and its text, in order.
pub open spec fn entry_policies(e: Seq<TransitionEntry>) -> Seq<(Seq<char>, Seq<char>)> {
    e.map_values(|x: TransitionEntry| (x.id, x.text))
}

/// A handle keyed by policy id, as plain values.
pub open spec fn handle_matches(h: (String, TransitionHandle), e: TransitionEntry) -> bool {
    &&& h.0@ == e.id
    &&& h.1.procedure_name@ == e.procedure
    &&& h.1.from_state@ == e.from
    &&& h.1.to_state@ == e.to
    &&& h.1.action@ == e.action
}

/// One policy per action-driven transition and, by policy id, the
/// transition's handle.
pub fn synthesize_transitions(procs: &Vec<Procedure>) -> (r: Result<(CedarPolicies, Vec<(String, TransitionHandle)>), CedarPlusError>)
    ensures
        r is Ok <==> synthesized_ok(entry_policies(all_entries(procs@))),
        r is Err ==> (r matches Err(CedarPlusError::Parse(m)) && starts_with_spec(
            m@,
            "synthesized "@ + "procedure transition"@ + " policy set failed to parse: "@,
        )),
        r matches Ok(p) ==> {
            &&& p.0@ == (None::<Seq<char>>, entry_policies(all_entries(procs@)))
            &&& p.1@.len() == all_entries(procs@).len()
            &&& forall|i: int| 0 <= i < p.1@.len() ==> handle_matches(#[trigger] p.1@[i], all_entries(procs@)[i])
        },
{
    let mut by_id: Vec<(String, TransitionHandle)> = Vec::new();
    let mut texts: Vec<String> = Vec::new();
    let mut i: usize = 0;
    assert(procs@.take(0) =~= Seq::<Procedure>::empty());
    while i < procs.len()
        invariant
            i <= procs@.len(),
            texts.deep_view() == entry_texts(all_entries(procs@.take(i as int))),
            by_id@.len() == all_entries(procs@.take(i as int)).len(),
            forall|j: int|
                0 <= j < by_id@.len() ==> handle_matches(#[trigger] by_id@[j], all_entries(procs@.take(i as int))[j]),
        decreases procs.len() - i,
    {
        let proc = &procs[i];
        let ghost base = all_entries(procs@.take(i as int));
        let ghost p = procs@[i as int];
        let mut k: usize = 0;
        assert(p.transitions@.take(0) =~= Seq::<ProcedureTransition>::empty());
        assert(base + proc_entries(p, p.transitions@.take(0)) =~= base);
        while k < proc.transitions.len()
            invariant
                i < procs@.len(),
                p == procs@[i as int],
                *proc == p,
                k <= p.transitions@.len(),
                texts.deep_view() == entry_texts(base + proc_entries(p, p.transitions@.take(k as int))),
                by_id@.len() == (base + proc_entries(p, p.transitions@.take(k as int))).len(),
                forall|j: int|
                    0 <= j < by_id@.len() ==> handle_matches(
                        #[trigger] by_id@[j],
                        (base + proc_entries(p, p.transitions@.take(k as int)))[j],
                    ),
            decreases p.transitions@.len() - k,
        {
            let t = &proc.transitions[k];
            let ghost prev = base + proc_entries(p, p.transitions@.take(k as int));
            assert(p.transitions@.take(k + 1).drop_last() =~= p.transitions@.take(k as int));
            assert(p.transitions@.take(k + 1).last() == *t);
            match &t.action {
                Some(a) => {
                    let mut id = owned("proc_trans__");
                    id.append(proc.name.as_str());
                    id.append("__");
                    id.append(t.from.as_str());
                    id.append("__");
                    id.append(t.to.as_str());
                    let action = action_is_exec(a.as_str());
                    let when = match &t.actor_when {
                        Some(w) => w.clone(),
                        None => owned("true"),
                    };
                    let text = policy_text_exec(id.as_str(), action.as_str(), when.as_str());
                    let ghost e = transition_entry(p, *t);
                    assert(id@ =~= e.id);
                    assert(text@ == e.text);
                    assert(base + proc_entries(p, p.transitions@.take(k + 1)) =~= prev.push(e));
                    let ghost tb = texts.deep_view();
                    texts.push(text);
                    assert(texts.deep_view() =~= tb.push(e.text));
                    assert(entry_texts(prev.push(e)) =~= entry_texts(prev).push(e.text));
                    by_id.push(
                        (
                            id,
                            TransitionHandle {
                                procedure_name: proc.name.clone(),
                                from_state: t.from.clone(),
                                to_state: t.to.clone(),
                                action: a.clone(),
                            },
                        ),
                    );
                },
                None => {
                    assert(base + proc_entries(p, p.transitions@.take(k + 1)) =~= prev);
                },
            }
            k = k + 1;
        }
        assert(p.transitions@.take(k as int) =~= p.transitions@);
        assert(procs@.take(i + 1).drop_last() =~= procs@.take(i as int));
        assert(procs@.take(i + 1).last() == p);
        i = i + 1;
    }
    assert(procs@.take(procs@.len() as int) =~= procs@);
    assert(pairs_of(by_id@, texts.deep_view()) =~= entry_policies(all_entries(procs@)));
    let set = parse_synthesized_set(&by_id, &texts, "procedure transition")?;
    Ok((set, by_id))
}

// ---------------------------------------------------------------------------
// All of Layer B
// ---------------------------------------------------------------------------

/// The synthesized policy sets and their handles.
pub struct LayerBArtifacts {
    /// One `permit` per scoring rule.
    pub scoring_policy_set: CedarPolicies,
    /// Scoring policy id to its rule.
    pub scoring_by_policy_id: Vec<(String, ScoringRuleHandle)>,
    /// One `permit` per procedure trigger.
    pub procedure_trigger_policy_set: CedarPolicies,
    /// Trigger policy id to its procedure's name.
    pub trigger_by_policy_id: Vec<(String, String)>,
    /// One `permit` per action-driven procedure transition.
    pub procedure_transition_policy_set: CedarPolicies,
    /// Transition policy id to its handle.
    pub transition_by_policy_id: Vec<(String, TransitionHandle)>,
}

/// Whether every synthesized policy set of `c` can be built: each policy
/// parses and no two of a set share an id.
pub open spec fn layer_b_parses(c: EngineConfig) -> bool {
    &&& synthesized_ok(scoring_policies(c.scoring_rules@))
    &&& synthesized_ok(trigger_policies(c.procedures@))
    &&& synthesized_ok(entry_policies(all_entries(c.procedures@)))
}

/// The handles of `a` are those of `c`'s scoring rules, procedure
/// triggers and action-driven transitions, in declaration order.
pub open spec fn artifacts_match(a: LayerBArtifacts, c: EngineConfig) -> bool {
    &&& a.scoring_policy_set@ == (None::<Seq<char>>, scoring_policies(c.scoring_rules@))
    &&& a.procedure_trigger_policy_set@ == (None::<Seq<char>>, trigger_policies(c.procedures@))
    &&& a.procedure_transition_policy_set@ == (None::<Seq<char>>, entry_policies(all_entries(c.procedures@)))
    &&& a.scoring_by_policy_id@.len() == c.scoring_rules@.len()
    &&& forall|i: int|
        0 <= i < c.scoring_rules@.len() ==> {
            let h = #[trigger] a.scoring_by_policy_id@[i];
            &&& h.0@ == scoring_policy_id(c.scoring_rules@[i].name@)
            &&& h.1.rule_name@ == c.scoring_rules@[i].name@
            &&& h.1.score.0@ == c.scoring_rules@[i].score.0@
            &&& h.1.score_scaled == score_scaled_value(c.scoring_rules@[i].score.0@)
        }
    &&& a.trigger_by_policy_id@.len() == c.procedures@.len()
    &&& forall|i: int|
        0 <= i < c.procedures@.len() ==> (#[trigger] a.trigger_by_policy_id@[i]).0@ == trigger_policy_id(
            c.procedures@[i].name@,
        ) && a.trigger_by_policy_id@[i].1@ == c.procedures@[i].name@
    &&& a.transition_by_policy_id@.len() == all_entries(c.procedures@).len()
    &&& forall|i: int|
        0 <= i < a.transition_by_policy_id@.len() ==> handle_matches(
            #[trigger] a.transition_by_policy_id@[i],
            all_entries(c.procedures@)[i],
        )
}

/// Synthesize the scoring, trigger and transition policy sets, in that
/// order.
pub fn synthesize(resolved: &EngineConfig) -> (r: Result<LayerBArtifacts, CedarPlusError>)
    requires
        forall|i: int| 0 <= i < resolved.scoring_rules@.len() ==> score_in_range(#[trigger] resolved.scoring_rules@[i].score.0@),
    ensures
        r is Ok <==> (scores_read(resolved.scoring_rules@) && layer_b_parses(*resolved)),
        r matches Ok(a) ==> artifacts_match(a, *resolved),
        r matches Err(e) ==> (e is InvalidScoringRule || e is Parse),
{
    let (scoring_policy_set, scoring_by_policy_id) = synthesize_scoring(&resolved.scoring_rules)?;
    let (procedure_trigger_policy_set, trigger_by_policy_id) = synthesize_triggers(&resolved.procedures)?;
    let (procedure_transition_policy_set, transition_by_policy_id) = synthesize_transitions(
        &resolved.procedures,
    )?;
    Ok(
        LayerBArtifacts {
            scoring_policy_set,
            scoring_by_policy_id,
            procedure_trigger_policy_set,
            trigger_by_policy_id,
            procedure_transition_policy_set,
            transition_by_policy_id,
        },
    )
}


// ---------------------------------------------------------------------------
// What the synthesized policies say
// ---------------------------------------------------------------------------

/// A synthesized policy as literal text: its id, the action constraint
/// `action` (the keyword alone for any action), and its `when` body.
pub open spec fn policy_literal(id: Seq<char>, action: Seq<char>, when: Seq<char>) -> Seq<char> {
    "@id(\""@ + id + "\")\npermit (principal, "@ + action + ", resource)\nwhen { "@ + when + " };"@
}

/// The literal constraint to one action of `Yutha::Action`.
pub open spec fn action_literal(a: Seq<char>) -> Seq<char> {
    "action == Yutha::Action::\""@ + a + "\""@
}

proof fn lemma_policy_text_literal(id: Seq<char>, action: Seq<char>, when: Seq<char>)
    ensures
        policy_text(id, action, when) == policy_literal(id, action, when),
{
    reveal_strlit("@id(");
    reveal_strlit(")\npermit (principal, ");
    reveal_strlit("@id(\"");
    reveal_strlit("\")\npermit (principal, ");
    assert(policy_text(id, action, when) =~= policy_literal(id, action, when));
}

proof fn lemma_action_is_literal(a: Seq<char>)
    ensures
        action_is(a) == action_literal(a),
{
    reveal_strlit("action == Yutha::Action::");
    reveal_strlit("");
    reveal_strlit("action == Yutha::Action::\"");
    reveal_strlit("\"");
    assert(action_is(a) =~= action_literal(a));
}

/// Equal texts around a middle part have equal middles.
proof fn lemma_same_frame(p: Seq<char>, x: Seq<char>, y: Seq<char>, s: Seq<char>)
    requires
        p + x + s == p + y + s,
    ensures
        x == y,
{
    let a = p + x + s;
    let b = p + y + s;
    assert(a.len() == p.len() + x.len() + s.len());
    assert(b.len() == p.len() + y.len() + s.len());
    assert(x.len() == y.len());
    let lo = p.len() as int;
    let hi = (p.len() + x.len()) as int;
    assert(x =~= a.subrange(lo, hi));
    assert(y =~= b.subrange(lo, hi));
}

/// The scoring policy of a rule, as text: `@id("scoring__<name>")`, then
/// a permit for any principal and resource whose action is the head's
/// action `Yutha::Action::"<a>"` when the head names one (else any
/// action), under the rule's `when` body.
pub proof fn lemma_scoring_policy_text(rules: Seq<ScoringRule>, i: int)
    requires
        0 <= i < rules.len(),
    ensures
        scoring_policies(rules)[i].0 == "scoring__"@ + rules[i].name@,
        scoring_policies(rules)[i].1 == policy_literal(
            "scoring__"@ + rules[i].name@,
            match rules[i].head.action {
                Some(a) => action_literal(a@),
                None => "action"@,
            },
            rules[i].when@,
        ),
{
    lemma_policy_text_literal(scoring_policy_id(rules[i].name@), scoring_action(rules[i].head), rules[i].when@);
    if let Some(a) = rules[i].head.action {
        lemma_action_is_literal(a@);
    }
}

/// A scoring rule's head action is kept: two rules that differ only in
/// their head action (one names an action the other does not, or they
/// name different actions) synthesize different policies. So a rule whose
/// head names an action is not the policy of a rule for any action.
pub proof fn lemma_scoring_head_action_kept(r1: ScoringRule, r2: ScoringRule)
    requires
        r1.name@ == r2.name@,
        r1.when@ == r2.when@,
        r1.head.action.deep_view() != r2.head.action.deep_view(),
    ensures
        scoring_policies(seq![r1])[0].1 != scoring_policies(seq![r2])[0].1,
{
    let rs1 = seq![r1];
    let rs2 = seq![r2];
    lemma_scoring_policy_text(rs1, 0);
    lemma_scoring_policy_text(rs2, 0);
    let act1 = match r1.head.action { Some(a) => action_literal(a@), None => "action"@ };
    let act2 = match r2.head.action { Some(a) => action_literal(a@), None => "action"@ };
    let id = "scoring__"@ + r1.name@;
    let pre = "@id(\""@ + id + "\")\npermit (principal, "@;
    let post = ", resource)\nwhen { "@ + r1.when@ + " };"@;
    assert(policy_literal(id, act1, r1.when@) =~= pre + act1 + post);
    assert(policy_literal(id, act2, r1.when@) =~= pre + act2 + post);
    if scoring_policies(rs1)[0].1 == scoring_policies(rs2)[0].1 {
        lemma_same_frame(pre, act1, act2, post);
        reveal_strlit("action");
        reveal_strlit("action == Yutha::Action::\"");
        reveal_strlit("\"");
        match (r1.head.action, r2.head.action) {
            (Some(a1), Some(a2)) => {
                lemma_same_frame("action == Yutha::Action::\""@, a1@, a2@, "\""@);
            },
            (Some(a1), None) => {
                assert(act1.len() > act2.len());
            },
            (None, Some(a2)) => {
                assert(act2.len() > act1.len());
            },
            (None, None) => {},
        }
    }
}

/// The policy of an action-driven transition, as text:
/// `@id("proc_trans__<procedure>__<from>__<to>")`, then a permit for any
/// principal and resource whose action is the transition's action, under
/// the transition's `actor_when` guard (`true` without one).
pub proof fn lemma_transition_policy_text(p: Procedure, t: ProcedureTransition)
    requires
        t.action is Some,
    ensures
        transition_entry(p, t).id == "proc_trans__"@ + p.name@ + "__"@ + t.from@ + "__"@ + t.to@,
        transition_entry(p, t).text == policy_literal(
            "proc_trans__"@ + p.name@ + "__"@ + t.from@ + "__"@ + t.to@,
            action_literal(t.action->0@),
            match t.actor_when {
                Some(w) => w@,
                None => "true"@,
            },
        ),
{
    let id = transition_policy_id(p.name@, t.from@, t.to@);
    lemma_policy_text_literal(id, action_is(t.action->0@), guard_or_true(t.actor_when));
    lemma_action_is_literal(t.action->0@);
}

/// A transition's guard is kept: two transitions that differ only in
/// their `actor_when` guard (one has a guard the other lacks, or the
/// guards differ) synthesize different policies. So a guarded transition
/// is not the policy of an unguarded one.
pub proof fn lemma_transition_guard_kept(p: Procedure, t1: ProcedureTransition, t2: ProcedureTransition)
    requires
        t1.action is Some,
        t2.action is Some,
        t1.action->0@ == t2.action->0@,
        t1.from@ == t2.from@,
        t1.to@ == t2.to@,
        match (t1.actor_when, t2.actor_when) {
            (Some(w1), Some(w2)) => w1@ != w2@,
            (Some(w1), None) => w1@ != "true"@,
            (None, Some(w2)) => w2@ != "true"@,
            (None, None) => false,
        },
    ensures
        transition_entry(p, t1).text != transition_entry(p, t2).text,
{
    lemma_transition_policy_text(p, t1);
    lemma_transition_policy_text(p, t2);
    let id = "proc_trans__"@ + p.name@ + "__"@ + t1.from@ + "__"@ + t1.to@;
    let w1 = match t1.actor_when { Some(w) => w@, None => "true"@ };
    let w2 = match t2.actor_when { Some(w) => w@, None => "true"@ };
    let pre = "@id(\""@ + id + "\")\npermit (principal, "@ + action_literal(t1.action->0@) + ", resource)\nwhen { "@;
    let post = " };"@;
    assert(transition_entry(p, t1).text =~= pre + w1 + post);
    assert(transition_entry(p, t2).text =~= pre + w2 + post);
    if transition_entry(p, t1).text == transition_entry(p, t2).text {
        lemma_same_frame(pre, w1, w2, post);
    }
}

/// The trigger policy of a procedure, as text:
/// `@id("proc_trigger__<name>")`, then a permit for any principal and
/// resource whose action is the trigger's action, under the trigger's
/// `when` guard (`true` without one).
pub proof fn lemma_trigger_policy_text(procs: Seq<Procedure>, i: int)
    requires
        0 <= i < procs.len(),
    ensures
        trigger_policies(procs)[i].0 == "proc_trigger__"@ + procs[i].name@,
        trigger_policies(procs)[i].1 == policy_literal(
            "proc_trigger__"@ + procs[i].name@,
            action_literal(procs[i].trigger.action@),
            match procs[i].trigger.when {
                Some(w) => w@,
                None => "true"@,
            },
        ),
{
    lemma_policy_text_literal(
        trigger_policy_id(procs[i].name@),
        action_is(procs[i].trigger.action@),
        guard_or_true(procs[i].trigger.when),
    );
    lemma_action_is_literal(procs[i].trigger.action@);
}
} // verus!
