//! The scoring evaluator: after stock Cedar permits a request, Cedar's
//! authorizer runs against the synthesized scoring policy set, and each
//! matched policy contributes its rule's score. Contributions come in
//! the rules' declaration order; the total is saturating integer
//! arithmetic on scores scaled by 10 000.

use vstd::prelude::*;

use crate::cedar::{authorize, count_policies, pass_reasons, CedarEntities, CedarRequest};
use crate::eval::ScoreContribution;
use crate::layer_b::{LayerBArtifacts, ScoringRuleHandle};
use crate::loader::ActivatedConstitution;
use crate::score::{render_score_scaled, render_spec, Score};
use crate::matched::{declared_matches, declared_upto, find_key, keyed, lemma_declared_none};

verus! {

/// The result of a scoring pass.
pub struct ScoringOutcome {
    /// One contribution per matched rule, in declaration order.
    pub contributions: Vec<ScoreContribution>,
    /// The saturating sum of the matched rules' scaled scores.
    pub total_scaled: i64,
}

impl Default for ScoringOutcome {
    /// No contributions, total zero.
    fn default() -> (o: ScoringOutcome)
        ensures
            o.contributions@.len() == 0,
            o.total_scaled == 0,
    {
        ScoringOutcome { contributions: Vec::new(), total_scaled: 0 }
    }
}

impl ScoringOutcome {
    /// The rendered total when some rule contributed, else `None`.
    pub fn total_score(&self) -> (s: Option<Score>)
        ensures
            self.contributions@.len() == 0 ==> s is None,
            self.contributions@.len() > 0 ==> (s matches Some(x) && x.0@ == render_spec(self.total_scaled as int)),
    {
        if self.contributions.len() == 0 {
            None
        } else {
            Some(render_score_scaled(self.total_scaled))
        }
    }
}

// ---------------------------------------------------------------------------
// Accumulating
// ---------------------------------------------------------------------------

/// `x` clamped to the range of `i64`.
pub open spec fn clamp_i64(x: int) -> int {
    if x > i64::MAX {
        i64::MAX as int
    } else if x < i64::MIN {
        i64::MIN as int
    } else {
        x
    }
}

/// The running saturating sum of the handles' scaled scores.
pub open spec fn saturating_total(h: Seq<ScoringRuleHandle>) -> int
    decreases h.len(),
{
    if h.len() == 0 {
        0
    } else {
        clamp_i64(saturating_total(h.drop_last()) + h.last().score_scaled)
    }
}

/// `o` holds one contribution per handle of `h`, in order, and their
/// saturating total.
pub open spec fn outcome_of(o: ScoringOutcome, h: Seq<ScoringRuleHandle>) -> bool {
    &&& o.contributions@.len() == h.len()
    &&& forall|i: int|
        0 <= i < h.len() ==> (#[trigger] o.contributions@[i]).rule_id@ == h[i].rule_name@
            && o.contributions@[i].score == h[i].score
    &&& o.total_scaled == saturating_total(h)
}

/// `a + b`, saturating at the bounds of `i64`.
fn saturating_add_i64(a: i64, b: i64) -> (r: i64)
    ensures
        r == clamp_i64(a + b),
{
    if b > 0 && a > i64::MAX - b {
        i64::MAX
    } else if b < 0 && a < i64::MIN - b {
        i64::MIN
    } else {
        a + b
    }
}

/// Score the matched policy ids: the handles of `table` whose policy id
/// is matched, in the table's (declaration) order, each once, and their
/// saturating total.
pub fn scoring_outcome(matched: &Vec<String>, table: &Vec<(String, ScoringRuleHandle)>) -> (o: ScoringOutcome)
    ensures
        outcome_of(o, declared_matches(keyed(table@), matched.deep_view().to_set())),
{
    let ghost t = keyed(table@);
    let ghost m = matched.deep_view().to_set();
    let mut contributions: Vec<ScoreContribution> = Vec::new();
    let mut total_scaled: i64 = 0;
    let mut k: usize = 0;
    while k < table.len()
        invariant
            k <= table@.len(),
            t == keyed(table@),
            m == matched.deep_view().to_set(),
            outcome_of(ScoringOutcome { contributions, total_scaled }, declared_upto(t, m, k as int)),
        decreases table.len() - k,
    {
        let ghost prev = declared_upto(t, m, k as int);
        assert(t[k as int].0 == table@[k as int].0@);
        let id = &table[k].0;
        let listed = crate::text::vec_contains(matched, id.as_str());
        let last = match find_key(table, id.as_str()) {
            Some(i) => i == k,
            None => false,
        };
        if listed && last {
            let h = &table[k].1;
            assert(t[k as int].1 == *h);
            let ghost old_contributions = contributions@;
            total_scaled = saturating_add_i64(total_scaled, h.score_scaled);
            contributions.push(ScoreContribution { rule_id: h.rule_name.clone(), score: Score(h.score.0.clone()) });
            proof {
                let hs = prev.push(*h);
                assert(declared_upto(t, m, k + 1) == hs);
                assert(hs.drop_last() =~= prev);
                assert(saturating_total(hs) == clamp_i64(saturating_total(prev) + h.score_scaled));
                assert forall|j: int| 0 <= j < hs.len() implies (#[trigger] contributions@[j]).rule_id@
                    == hs[j].rule_name@ && contributions@[j].score == hs[j].score by {
                    if j < prev.len() {
                        assert(contributions@[j] == old_contributions[j]);
                    }
                }
            }
        } else {
            assert(declared_upto(t, m, k + 1) == prev);
        }
        k = k + 1;
    }
    ScoringOutcome { contributions, total_scaled }
}

/// The handles a scoring pass scores: those of the scoring policies
/// Cedar gives as reasons for request `req` with entities `entities`, in
/// declaration order; none when there are no scoring policies.
pub open spec fn scored_handles(
    layer_b: LayerBArtifacts,
    req: crate::cedar::RequestTexts,
    entities: (Seq<char>, Seq<char>),
) -> Seq<ScoringRuleHandle> {
    declared_matches(keyed(layer_b.scoring_by_policy_id@), pass_reasons(layer_b.scoring_policy_set@, req, entities))
}

/// Run the scoring pass of an activated constitution on a request that
/// stock Cedar permitted: no scoring policies give the empty outcome;
/// else the scoring policies Cedar matches are scored by
/// [`scoring_outcome`].
pub fn evaluate_scoring(request: &CedarRequest, entities: &CedarEntities, activated: &ActivatedConstitution) -> (o: ScoringOutcome)
    ensures
        outcome_of(o, scored_handles(activated.layer_b, request@, entities@)),
{
    let layer_b: &LayerBArtifacts = &activated.layer_b;
    if count_policies(&layer_b.scoring_policy_set) == 0 {
        let o = ScoringOutcome::default();
        proof {
            lemma_declared_none(keyed(layer_b.scoring_by_policy_id@));
            assert(pass_reasons(layer_b.scoring_policy_set@, request@, entities@) =~= Set::<Seq<char>>::empty());
            assert(o.contributions@ =~= Seq::<ScoreContribution>::empty());
        }
        return o;
    }
    let (_, matched) = authorize(request, &layer_b.scoring_policy_set, entities);
    scoring_outcome(&matched, &layer_b.scoring_by_policy_id)
}

} // verus!
