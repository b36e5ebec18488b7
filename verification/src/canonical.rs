//! The canonical text of what an evaluation saw, the input of its
//! attribute digest: a JSON object with its keys in ascending order at
//! every level and no white space (the form `serde_json` writes for
//! key-sorted maps). It holds the action kind, the context attributes
//! sorted by name, the wall clock, the entity snapshot (entities sorted
//! by type then id, each with its attributes sorted by name and its
//! parents sorted by type then id), the principal and the resource.
//! Attribute values are JSON text and are written as stored. The
//! evidence text of an outcome is built the same way, over its matched
//! ids (sorted), its score contributions, its procedure effects and the
//! hexadecimal attribute digest.

use vstd::prelude::*;

use crate::eval::{EntityRecord, EntitySnapshot, EntityUid, ProcedureEffect, ScoreContribution};
use crate::evaluator::{json_str, push_json_str, EvaluationOutcome, EvaluationRequest};
use crate::matched::{sort_ids, sorted_ids};
use crate::loader::{join_texts, joined};
use crate::string_map::StringMap;
use crate::text::{owned, seq_le, str_eq, str_le};

verus! {

// ---------------------------------------------------------------------------
// Ordering by a pair of texts
// ---------------------------------------------------------------------------

/// Keys compare by their first text, then by their second.
pub open spec fn key_le(a: (Seq<char>, Seq<char>), b: (Seq<char>, Seq<char>)) -> bool {
    (seq_le(a.0, b.0) && a.0 != b.0) || (a.0 == b.0 && seq_le(a.1, b.1))
}

fn key_le_exec(a0: &str, a1: &str, b0: &str, b1: &str) -> (r: bool)
    ensures
        r == key_le((a0@, a1@), (b0@, b1@)),
{
    if str_eq(a0, b0) {
        str_le(a1, b1)
    } else {
        str_le(a0, b0)
    }
}

/// Where position `x` goes among the positions `p` (searching from `i`):
/// after every position whose key is not above its key.
pub open spec fn place(keys: Seq<(Seq<char>, Seq<char>)>, p: Seq<int>, x: int, i: int) -> int
    decreases p.len() - i,
{
    if i < 0 || i >= p.len() || !key_le(keys[p[i]], keys[x]) {
        i
    } else {
        place(keys, p, x, i + 1)
    }
}

/// The positions `0..n` of `keys` in ascending key order; positions with
/// equal keys keep their order.
pub open spec fn sorted_positions(keys: Seq<(Seq<char>, Seq<char>)>, n: int) -> Seq<int>
    decreases n,
{
    if n <= 0 {
        Seq::empty()
    } else {
        let p = sorted_positions(keys, n - 1);
        p.insert(place(keys, p, n - 1, 0), n - 1)
    }
}

/// The keys as texts.
pub open spec fn key_views(keys: Seq<(String, String)>) -> Seq<(Seq<char>, Seq<char>)> {
    Seq::new(keys.len(), |i: int| (keys[i].0@, keys[i].1@))
}

/// Positions as integers.
pub open spec fn as_ints(p: Seq<usize>) -> Seq<int> {
    p.map_values(|i: usize| i as int)
}

proof fn lemma_place_bounds(keys: Seq<(Seq<char>, Seq<char>)>, p: Seq<int>, x: int, i: int)
    requires
        0 <= i <= p.len(),
    ensures
        i <= place(keys, p, x, i) <= p.len(),
    decreases p.len() - i,
{
    if i < p.len() && key_le(keys[p[i]], keys[x]) {
        lemma_place_bounds(keys, p, x, i + 1);
    }
}

/// The positions of `keys` in ascending key order (a stable sort).
fn sort_positions(keys: &Vec<(String, String)>) -> (out: Vec<usize>)
    ensures
        as_ints(out@) == sorted_positions(key_views(keys@), keys@.len() as int),
        forall|j: int| 0 <= j < out@.len() ==> out@[j] < keys@.len(),
{
    let ghost kv = key_views(keys@);
    let mut out: Vec<usize> = Vec::new();
    let mut k: usize = 0;
    assert(as_ints(out@) =~= Seq::<int>::empty());
    while k < keys.len()
        invariant
            k <= keys@.len(),
            kv == key_views(keys@),
            as_ints(out@) == sorted_positions(kv, k as int),
            out@.len() == k,
            forall|j: int| 0 <= j < out@.len() ==> out@[j] < k,
        decreases keys.len() - k,
    {
        let ghost p = as_ints(out@);
        let mut pos: usize = 0;
        while pos < out.len() && key_le_exec(
            keys[out[pos]].0.as_str(),
            keys[out[pos]].1.as_str(),
            keys[k].0.as_str(),
            keys[k].1.as_str(),
        )
            invariant
                k < keys@.len(),
                kv == key_views(keys@),
                p == as_ints(out@),
                pos <= out@.len(),
                forall|j: int| 0 <= j < out@.len() ==> out@[j] < k,
                place(kv, p, k as int, 0) == place(kv, p, k as int, pos as int),
            decreases out.len() - pos,
        {
            assert(p[pos as int] == out@[pos as int] as int);
            pos = pos + 1;
        }
        proof {
            if pos < out.len() {
                assert(p[pos as int] == out@[pos as int] as int);
            }
            assert(place(kv, p, k as int, pos as int) == pos);
        }
        out.insert(pos, k);
        proof {
            assert(as_ints(out@) =~= p.insert(pos as int, k as int));
        }
        k = k + 1;
    }
    out
}

// ---------------------------------------------------------------------------
// Canonical JSON
// ---------------------------------------------------------------------------

/// The current pairs among the first `n` stored pairs of `m`, in order.
pub open spec fn current_pairs(m: StringMap, n: int) -> Seq<(Seq<char>, Seq<char>)>
    decreases n,
{
    if n <= 0 {
        Seq::empty()
    } else if m.is_current(n - 1) {
        current_pairs(m, n - 1).push(m.pairs()[n - 1])
    } else {
        current_pairs(m, n - 1)
    }
}

/// The members of an object, `"name":value`, in the order `order` gives.
pub open spec fn ordered_members(ps: Seq<(Seq<char>, Seq<char>)>, order: Seq<int>) -> Seq<Seq<char>> {
    Seq::new(order.len(), |j: int| json_str(ps[order[j]].0) + seq![':'] + ps[order[j]].1)
}

/// A map of JSON values as a JSON object with its names in ascending
/// order.
pub open spec fn canonical_object(m: StringMap) -> Seq<char> {
    let ps = current_pairs(m, m.pairs().len() as int);
    seq!['{'] + joined(ordered_members(ps, sorted_positions(ps, ps.len() as int)), seq![',']) + seq!['}']
}

/// A uid as `{"id":…,"type":…}`.
pub open spec fn canonical_uid(u: EntityUid) -> Seq<char> {
    "{\"id\":"@ + json_str(u.entity_id@) + ",\"type\":"@ + json_str(u.entity_type@) + "}"@
}

/// The sort keys of uids: type, then id.
pub open spec fn uid_keys(us: Seq<EntityUid>) -> Seq<(Seq<char>, Seq<char>)> {
    Seq::new(us.len(), |i: int| (us[i].entity_type@, us[i].entity_id@))
}

/// Uids as canonical JSON, sorted by type then id.
pub open spec fn sorted_uids_json(us: Seq<EntityUid>) -> Seq<Seq<char>> {
    let order = sorted_positions(uid_keys(us), us.len() as int);
    Seq::new(order.len(), |j: int| canonical_uid(us[order[j]]))
}

/// An entity record in canonical form: attributes, parents, uid.
pub open spec fn canonical_entity(e: EntityRecord) -> Seq<char> {
    "{\"attrs\":"@ + canonical_object(e.attrs) + ",\"parents\":["@ + joined(sorted_uids_json(e.parents@), seq![','])
        + "],\"uid\":"@ + canonical_uid(e.uid) + "}"@
}

/// The sort keys of entities: their uids' type, then id.
pub open spec fn entity_keys(es: Seq<EntityRecord>) -> Seq<(Seq<char>, Seq<char>)> {
    Seq::new(es.len(), |i: int| (es[i].uid.entity_type@, es[i].uid.entity_id@))
}

/// A snapshot in canonical form: its entities sorted by type then id.
pub open spec fn canonical_snapshot(s: EntitySnapshot) -> Seq<char> {
    let es = s.entities@;
    let order = sorted_positions(entity_keys(es), es.len() as int);
    seq!['['] + joined(Seq::new(order.len(), |j: int| canonical_entity(es[order[j]])), seq![','])
        + seq![']']
}

/// The canonical text of what an evaluation of `r` saw.
pub open spec fn hash_input_json(r: EvaluationRequest) -> Seq<char> {
    "{\"action_kind\":"@ + json_str(r.action_kind@) + ",\"context_attrs\":"@ + canonical_object(r.context_attrs)
        + ",\"current_wall_clock\":"@ + json_str(r.current_wall_clock@) + ",\"entity_snapshot\":"@
        + canonical_snapshot(r.entity_snapshot) + ",\"principal_id\":"@ + json_str(r.principal_id@)
        + ",\"resource_uid\":"@ + canonical_uid(r.resource_uid) + "}"@
}

fn canonical_uid_exec(u: &EntityUid) -> (out: String)
    ensures
        out@ == canonical_uid(*u),
{
    let mut out = owned("{\"id\":");
    push_json_str(&mut out, u.entity_id.as_str());
    out.append(",\"type\":");
    push_json_str(&mut out, u.entity_type.as_str());
    out.append("}");
    proof {
        assert(out@ =~= canonical_uid(*u));
    }
    out
}

fn current_pairs_exec(m: &StringMap) -> (out: Vec<(String, String)>)
    ensures
        key_views(out@) == current_pairs(*m, m.pairs().len() as int),
{
    let mut out: Vec<(String, String)> = Vec::new();
    let n = m.entry_count();
    let mut i: usize = 0;
    while i < n
        invariant
            i <= n,
            n == m.pairs().len(),
            key_views(out@) == current_pairs(*m, i as int),
        decreases n - i,
    {
        if m.current_at(i) {
            let ghost before = key_views(out@);
            out.push((m.key_at(i).clone(), m.value_at(i).clone()));
            assert(key_views(out@) =~= before.push(m.pairs()[i as int]));
        }
        i = i + 1;
    }
    out
}

/// `{`, the texts joined by commas, `}` (or the given brackets).
fn bracketed(open: &str, parts: &Vec<String>, close: &str) -> (out: String)
    ensures
        out@ == open@ + joined(parts.deep_view(), seq![',']) + close@,
{
    let body = join_texts(parts, ",");
    proof {
        reveal_strlit(",");
        assert(","@ =~= seq![',']);
    }
    let mut out = owned(open);
    out.append(body.as_str());
    out.append(close);
    out
}

fn canonical_object_exec(m: &StringMap) -> (out: String)
    ensures
        out@ == canonical_object(*m),
{
    let ps = current_pairs_exec(m);
    let order = sort_positions(&ps);
    let ghost pv = key_views(ps@);
    let ghost o = as_ints(order@);
    let mut members: Vec<String> = Vec::new();
    let mut j: usize = 0;
    while j < order.len()
        invariant
            j <= order@.len(),
            pv == key_views(ps@),
            o == as_ints(order@),
            forall|t: int| 0 <= t < order@.len() ==> order@[t] < ps@.len(),
            members.deep_view() == ordered_members(pv, o).take(j as int),
        decreases order.len() - j,
    {
        let idx = order[j];
        let mut member = owned("");
        push_json_str(&mut member, ps[idx].0.as_str());
        member.append(":");
        member.append(ps[idx].1.as_str());
        proof {
            reveal_strlit("");
            reveal_strlit(":");
            assert(o[j as int] == idx as int);
            assert(member@ =~= ordered_members(pv, o)[j as int]);
        }
        let ghost before = members.deep_view();
        let ghost mv = member@;
        members.push(member);
        assert(members.deep_view() =~= before.push(mv));
        assert(ordered_members(pv, o).take(j + 1) =~= ordered_members(pv, o).take(j as int).push(mv));
        j = j + 1;
    }
    assert(ordered_members(pv, o).take(order@.len() as int) =~= ordered_members(pv, o));
    let out = bracketed("{", &members, "}");
    proof {
        reveal_strlit("{");
        reveal_strlit("}");
        assert(out@ =~= canonical_object(*m));
    }
    out
}

fn uid_keys_exec(us: &Vec<EntityUid>) -> (out: Vec<(String, String)>)
    ensures
        key_views(out@) == uid_keys(us@),
{
    let mut out: Vec<(String, String)> = Vec::new();
    let mut i: usize = 0;
    while i < us.len()
        invariant
            i <= us@.len(),
            key_views(out@) == uid_keys(us@).take(i as int),
        decreases us.len() - i,
    {
        let ghost before = key_views(out@);
        out.push((us[i].entity_type.clone(), us[i].entity_id.clone()));
        assert(key_views(out@) =~= before.push(uid_keys(us@)[i as int]));
        assert(uid_keys(us@).take(i + 1) =~= uid_keys(us@).take(i as int).push(uid_keys(us@)[i as int]));
        i = i + 1;
    }
    assert(uid_keys(us@).take(us@.len() as int) =~= uid_keys(us@));
    out
}

fn canonical_entity_exec(e: &EntityRecord) -> (out: String)
    ensures
        out@ == canonical_entity(*e),
{
    let keys = uid_keys_exec(&e.parents);
    assert(key_views(keys@).len() == keys@.len());
    let order = sort_positions(&keys);
    let ghost o = as_ints(order@);
    let ghost all = sorted_uids_json(e.parents@);
    let mut parents: Vec<String> = Vec::new();
    let mut j: usize = 0;
    while j < order.len()
        invariant
            j <= order@.len(),
            keys@.len() == e.parents@.len(),
            key_views(keys@) == uid_keys(e.parents@),
            o == as_ints(order@),
            o == sorted_positions(uid_keys(e.parents@), e.parents@.len() as int),
            all == sorted_uids_json(e.parents@),
            forall|t: int| 0 <= t < order@.len() ==> order@[t] < keys@.len(),
            parents.deep_view() == all.take(j as int),
        decreases order.len() - j,
    {
        let idx = order[j];
        let u = canonical_uid_exec(&e.parents[idx]);
        proof {
            assert(o[j as int] == idx as int);
            assert(u@ == all[j as int]);
        }
        let ghost before = parents.deep_view();
        let ghost uv = u@;
        parents.push(u);
        assert(parents.deep_view() =~= before.push(uv));
        assert(all.take(j + 1) =~= all.take(j as int).push(uv));
        j = j + 1;
    }
    assert(all.take(order@.len() as int) =~= all);
    let mut out = owned("{\"attrs\":");
    out.append(canonical_object_exec(&e.attrs).as_str());
    out.append(bracketed(",\"parents\":[", &parents, "],\"uid\":").as_str());
    out.append(canonical_uid_exec(&e.uid).as_str());
    out.append("}");
    proof {
        reveal_strlit("}");
        assert(out@ =~= canonical_entity(*e));
    }
    out
}

fn entity_keys_exec(es: &Vec<EntityRecord>) -> (out: Vec<(String, String)>)
    ensures
        key_views(out@) == entity_keys(es@),
{
    let mut out: Vec<(String, String)> = Vec::new();
    let mut i: usize = 0;
    while i < es.len()
        invariant
            i <= es@.len(),
            key_views(out@) == entity_keys(es@).take(i as int),
        decreases es.len() - i,
    {
        let ghost before = key_views(out@);
        out.push((es[i].uid.entity_type.clone(), es[i].uid.entity_id.clone()));
        assert(key_views(out@) =~= before.push(entity_keys(es@)[i as int]));
        assert(entity_keys(es@).take(i + 1) =~= entity_keys(es@).take(i as int).push(entity_keys(es@)[i as int]));
        i = i + 1;
    }
    assert(entity_keys(es@).take(es@.len() as int) =~= entity_keys(es@));
    out
}

fn canonical_snapshot_exec(s: &EntitySnapshot) -> (out: String)
    ensures
        out@ == canonical_snapshot(*s),
{
    let es = &s.entities;
    let keys = entity_keys_exec(es);
    assert(key_views(keys@).len() == keys@.len());
    let order = sort_positions(&keys);
    let ghost o = as_ints(order@);
    let ghost all = Seq::new(o.len(), |j: int| canonical_entity(es@[o[j]]));
    let mut parts: Vec<String> = Vec::new();
    let mut j: usize = 0;
    while j < order.len()
        invariant
            j <= order@.len(),
            keys@.len() == es@.len(),
            o == as_ints(order@),
            all == Seq::new(o.len(), |j: int| canonical_entity(es@[o[j]])),
            forall|t: int| 0 <= t < order@.len() ==> order@[t] < keys@.len(),
            parts.deep_view() == all.take(j as int),
        decreases order.len() - j,
    {
        let idx = order[j];
        let t = canonical_entity_exec(&es[idx]);
        proof {
            assert(o[j as int] == idx as int);
        }
        let ghost before = parts.deep_view();
        let ghost tv = t@;
        parts.push(t);
        assert(parts.deep_view() =~= before.push(tv));
        assert(all.take(j + 1) =~= all.take(j as int).push(tv));
        j = j + 1;
    }
    assert(all.take(order@.len() as int) =~= all);
    let out = bracketed("[", &parts, "]");
    proof {
        reveal_strlit("[");
        reveal_strlit("]");
        assert(out@ =~= canonical_snapshot(*s));
    }
    out
}

/// The canonical text of what an evaluation of `request` saw (see the
/// module documentation): the input its attribute digest is taken over.
/// Two requests that differ only in the order of their context
/// attributes, entities, entity attributes or parents give the same
/// text.
pub fn hash_input_text(request: &EvaluationRequest) -> (out: String)
    ensures
        out@ == hash_input_json(*request),
{
    let mut out = owned("{\"action_kind\":");
    push_json_str(&mut out, request.action_kind.as_str());
    out.append(",\"context_attrs\":");
    out.append(canonical_object_exec(&request.context_attrs).as_str());
    out.append(",\"current_wall_clock\":");
    push_json_str(&mut out, request.current_wall_clock.as_str());
    out.append(",\"entity_snapshot\":");
    out.append(canonical_snapshot_exec(&request.entity_snapshot).as_str());
    out.append(",\"principal_id\":");
    push_json_str(&mut out, request.principal_id.as_str());
    out.append(",\"resource_uid\":");
    out.append(canonical_uid_exec(&request.resource_uid).as_str());
    out.append("}");
    proof {
        assert(out@ =~= hash_input_json(*request));
    }
    out
}


// ---------------------------------------------------------------------------
// Evidence
// ---------------------------------------------------------------------------

/// A score contribution as `{"rule_id":…,"score":…}`.
pub open spec fn contribution_json(c: ScoreContribution) -> Seq<char> {
    "{\"rule_id\":"@ + json_str(c.rule_id@) + ",\"score\":"@ + json_str(c.score.0@) + "}"@
}

/// A procedure effect as `{"action_kind":…,"instance_id":…}`.
pub open spec fn effect_json(e: ProcedureEffect) -> Seq<char> {
    "{\"action_kind\":"@ + json_str(e.action_kind@) + ",\"instance_id\":"@ + json_str(e.instance_id@) + "}"@
}

/// The canonical evidence text of outcome `o` given the hexadecimal
/// attribute digest `digest_hex`: the digest, the matched ids in
/// ascending order, the procedure effects and the score contributions
/// in their order.
pub open spec fn evidence_json(o: EvaluationOutcome, digest_hex: Seq<char>) -> Seq<char> {
    let ids = sorted_ids(o.matched_rule_ids.deep_view());
    let cs = o.score_contributions@;
    let es = o.procedure_effects@;
    "{\"input_attribute_digest\":"@ + json_str(digest_hex) + ",\"matched_rule_ids\":["@ + joined(
        Seq::new(ids.len(), |i: int| json_str(ids[i])),
        seq![','],
    ) + "],\"procedure_effects\":["@ + joined(Seq::new(es.len(), |i: int| effect_json(es[i])), seq![','])
        + "],\"score_contributions\":["@ + joined(Seq::new(cs.len(), |i: int| contribution_json(cs[i])), seq![','])
        + "]}"@
}

/// The canonical evidence text of `outcome` (see [`evidence_json`]), the
/// input of its evidence digest.
pub fn evidence_text(outcome: &EvaluationOutcome, digest_hex: &str) -> (out: String)
    ensures
        out@ == evidence_json(*outcome, digest_hex@),
{
    let ids = sort_ids(&outcome.matched_rule_ids);
    let ghost iv = ids.deep_view();
    let mut id_parts: Vec<String> = Vec::new();
    let mut i: usize = 0;
    while i < ids.len()
        invariant
            i <= ids@.len(),
            iv == ids.deep_view(),
            id_parts.deep_view() == Seq::new(iv.len(), |k: int| json_str(iv[k])).take(i as int),
        decreases ids.len() - i,
    {
        let mut t = owned("");
        push_json_str(&mut t, ids[i].as_str());
        proof {
            reveal_strlit("");
        }
        let ghost before = id_parts.deep_view();
        let ghost tv = t@;
        id_parts.push(t);
        assert(id_parts.deep_view() =~= before.push(tv));
        assert(Seq::new(iv.len(), |k: int| json_str(iv[k])).take(i + 1) =~= Seq::new(
            iv.len(),
            |k: int| json_str(iv[k]),
        ).take(i as int).push(tv));
        i = i + 1;
    }
    assert(Seq::new(iv.len(), |k: int| json_str(iv[k])).take(iv.len() as int) =~= Seq::new(
        iv.len(),
        |k: int| json_str(iv[k]),
    ));
    let es = &outcome.procedure_effects;
    let ghost ev = Seq::new(es@.len(), |k: int| effect_json(es@[k]));
    let mut effect_parts: Vec<String> = Vec::new();
    let mut i: usize = 0;
    while i < es.len()
        invariant
            i <= es@.len(),
            ev == Seq::new(es@.len(), |k: int| effect_json(es@[k])),
            effect_parts.deep_view() == ev.take(i as int),
        decreases es.len() - i,
    {
        let mut t = owned("{\"action_kind\":");
        push_json_str(&mut t, es[i].action_kind.as_str());
        t.append(",\"instance_id\":");
        push_json_str(&mut t, es[i].instance_id.as_str());
        t.append("}");
        assert(t@ =~= ev[i as int]);
        let ghost before = effect_parts.deep_view();
        let ghost tv = t@;
        effect_parts.push(t);
        assert(effect_parts.deep_view() =~= before.push(tv));
        assert(ev.take(i + 1) =~= ev.take(i as int).push(tv));
        i = i + 1;
    }
    assert(ev.take(es@.len() as int) =~= ev);
    let cs = &outcome.score_contributions;
    let ghost cv = Seq::new(cs@.len(), |k: int| contribution_json(cs@[k]));
    let mut score_parts: Vec<String> = Vec::new();
    let mut i: usize = 0;
    while i < cs.len()
        invariant
            i <= cs@.len(),
            cv == Seq::new(cs@.len(), |k: int| contribution_json(cs@[k])),
            score_parts.deep_view() == cv.take(i as int),
        decreases cs.len() - i,
    {
        let mut t = owned("{\"rule_id\":");
        push_json_str(&mut t, cs[i].rule_id.as_str());
        t.append(",\"score\":");
        push_json_str(&mut t, cs[i].score.0.as_str());
        t.append("}");
        assert(t@ =~= cv[i as int]);
        let ghost before = score_parts.deep_view();
        let ghost tv = t@;
        score_parts.push(t);
        assert(score_parts.deep_view() =~= before.push(tv));
        assert(cv.take(i + 1) =~= cv.take(i as int).push(tv));
        i = i + 1;
    }
    assert(cv.take(cs@.len() as int) =~= cv);
    let mut out = owned("{\"input_attribute_digest\":");
    push_json_str(&mut out, digest_hex);
    out.append(bracketed(",\"matched_rule_ids\":[", &id_parts, "],\"procedure_effects\":[").as_str());
    out.append(bracketed("", &effect_parts, "],\"score_contributions\":[").as_str());
    out.append(bracketed("", &score_parts, "]}").as_str());
    proof {
        reveal_strlit("");
        assert(out@ =~= evidence_json(*outcome, digest_hex@));
    }
    out
}

} // verus!
