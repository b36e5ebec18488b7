//! The index of procedure instances and the firing of transitions.
//!
//! An instance is keyed by its id; recording an entry with a known id
//! replaces that instance. Firing a transition moves every open instance
//! of the procedure that sits in the transition's source state.


use vstd::prelude::*;

use crate::engine_config::Procedure;
use crate::eval::ProcedureEffect;
use crate::layer_b::TransitionHandle;
use crate::table::{lemma_table, lemma_table_last_at, lemma_table_push, lemma_table_update, table_last, table_map};
use crate::cedar::{authorize, count_policies, pass_reasons, CedarEntities, CedarRequest, RequestTexts};
use crate::loader::ActivatedConstitution;
use crate::matched::{find_key, found_values, keyed, lemma_nothing_matched, sort_ids, sorted_ids};
use crate::string_map::StringMap;
use crate::text::{owned, str_eq, vec_contains};

verus! {

/// A live procedure instance.
#[derive(Debug, Clone)]
pub struct ProcedureInstance {
    /// Content-addressed instance id.
    pub instance_id: String,
    /// The procedure it instantiates.
    pub procedure_name: String,
    /// Its current state.
    pub current_state: String,
    /// Wall clock of entry (timeout base).
    pub entry_wall_clock: String,
    /// Whether it reached a terminal state.
    pub closed: bool,
}

/// An instance as plain values, without its id: procedure name, current
/// state, entry wall clock, closed.
pub open spec fn instance_view(i: ProcedureInstance) -> (Seq<char>, Seq<char>, Seq<char>, bool) {
    (i.procedure_name@, i.current_state@, i.entry_wall_clock@, i.closed)
}

/// A copy of an instance.
fn copy_instance(i: &ProcedureInstance) -> (c: ProcedureInstance)
    ensures
        c.instance_id@ == i.instance_id@,
        instance_view(c) == instance_view(*i),
{
    ProcedureInstance {
        instance_id: i.instance_id.clone(),
        procedure_name: i.procedure_name.clone(),
        current_state: i.current_state.clone(),
        entry_wall_clock: i.entry_wall_clock.clone(),
        closed: i.closed,
    }
}

/// The live procedure instances, by instance id.
#[derive(Debug)]
pub struct ProcedureIndex {
    instances: Vec<ProcedureInstance>,
}

impl View for ProcedureIndex {
    type V = Map<Seq<char>, (Seq<char>, Seq<char>, Seq<char>, bool)>;

    closed spec fn view(&self) -> Map<Seq<char>, (Seq<char>, Seq<char>, Seq<char>, bool)> {
        table_map(self.pairs())
    }
}

impl ProcedureIndex {
    pub closed spec fn pairs(&self) -> Seq<(Seq<char>, (Seq<char>, Seq<char>, Seq<char>, bool))> {
        Seq::new(
            self.instances@.len(),
            |i: int| (self.instances@[i].instance_id@, instance_view(self.instances@[i])),
        )
    }

    /// The `i`-th stored instance.
    pub closed spec fn stored(&self, i: int) -> ProcedureInstance {
        self.instances@[i]
    }

    /// Number of stored instances.
    pub closed spec fn stored_len(&self) -> nat {
        self.instances@.len()
    }

    /// The stored instance at `i` is the one its id maps to.
    pub open spec fn is_current(&self, i: int) -> bool {
        0 <= i < self.stored_len() && table_last(self.pairs(), self.stored(i).instance_id@) == i
    }

    /// An empty index.
    pub fn new() -> (x: ProcedureIndex)
        ensures
            x@ == Map::<Seq<char>, (Seq<char>, Seq<char>, Seq<char>, bool)>::empty(),
    {
        let x = ProcedureIndex { instances: Vec::new() };
        assert(x.pairs() =~= Seq::<(Seq<char>, (Seq<char>, Seq<char>, Seq<char>, bool))>::empty());
        assert(x@ =~= Map::<Seq<char>, (Seq<char>, Seq<char>, Seq<char>, bool)>::empty());
        x
    }

    fn find(&self, id: &str) -> (r: Option<usize>)
        ensures
            match r {
                Some(i) => i as int == table_last(self.pairs(), id@),
                None => table_last(self.pairs(), id@) == -1,
            },
    {
        let mut i: usize = self.instances.len();
        while i > 0
            invariant
                i <= self.instances@.len(),
                forall|j: int| i <= j < self.pairs().len() ==> self.pairs()[j].0 != id@,
            decreases i,
        {
            if str_eq(self.instances[i - 1].instance_id.as_str(), id) {
                proof {
                    lemma_table_last_at(self.pairs(), id@, i - 1);
                }
                return Some(i - 1);
            }
            i = i - 1;
        }
        proof {
            lemma_table(self.pairs(), id@);
            if table_last(self.pairs(), id@) >= 0 {
                assert(self.pairs()[table_last(self.pairs(), id@)].0 == id@);
            }
        }
        None
    }

    /// Record a freshly entered instance (replacing one with its id).
    pub fn record_enter(&mut self, instance: ProcedureInstance)
        ensures
            final(self)@ == old(self)@.insert(instance.instance_id@, instance_view(instance)),
    {
        let ghost p = self.pairs();
        let ghost k = instance.instance_id@;
        let ghost v = instance_view(instance);
        proof {
            lemma_table(p, k);
        }
        match self.find(instance.instance_id.as_str()) {
            Some(i) => {
                self.instances.set(i, instance);
                proof {
                    assert(self.pairs() =~= p.update(i as int, (k, v)));
                    lemma_table_update(p, k, v);
                }
            },
            None => {
                self.instances.push(instance);
                proof {
                    assert(self.pairs() =~= p.push((k, v)));
                    lemma_table_push(p, k, v);
                }
            },
        }
    }

    /// Move instance `instance_id` to `new_state`, closed iff `terminal`;
    /// an unknown id changes nothing.
    pub fn record_transition(&mut self, instance_id: &str, new_state: &str, terminal: bool)
        ensures
            old(self)@.contains_key(instance_id@) ==> final(self)@ == old(self)@.insert(
                instance_id@,
                (old(self)@[instance_id@].0, new_state@, old(self)@[instance_id@].2, terminal),
            ),
            !old(self)@.contains_key(instance_id@) ==> final(self)@ == old(self)@,
    {
        let ghost p = self.pairs();
        proof {
            lemma_table(p, instance_id@);
        }
        match self.find(instance_id) {
            Some(i) => {
                let old_inst = copy_instance(&self.instances[i]);
                let updated = ProcedureInstance {
                    instance_id: old_inst.instance_id,
                    procedure_name: old_inst.procedure_name,
                    current_state: owned(new_state),
                    entry_wall_clock: old_inst.entry_wall_clock,
                    closed: terminal,
                };
                let ghost v = instance_view(updated);
                self.instances.set(i, updated);
                proof {
                    assert(self.pairs() =~= p.update(i as int, (instance_id@, v)));
                    lemma_table_update(p, instance_id@, v);
                }
            },
            None => {},
        }
    }

    /// Whether instance `instance_id` exists and is open.
    pub fn has_open_instance(&self, instance_id: &str) -> (b: bool)
        ensures
            b == (self@.contains_key(instance_id@) && !self@[instance_id@].3),
    {
        proof {
            lemma_table(self.pairs(), instance_id@);
        }
        match self.find(instance_id) {
            Some(i) => !self.instances[i].closed,
            None => false,
        }
    }

    /// The open instances of procedure `procedure_name`, each once, in
    /// no particular order.
    pub fn open_instances_for(&self, procedure_name: &str) -> (r: Vec<&ProcedureInstance>)
        ensures
            forall|j: int|
                0 <= j < r@.len() ==> {
                    let inst = #[trigger] r@[j];
                    &&& self@.contains_key(inst.instance_id@)
                    &&& self@[inst.instance_id@] == instance_view(*inst)
                    &&& !inst.closed
                    &&& inst.procedure_name@ == procedure_name@
                },
            forall|id: Seq<char>|
                #[trigger] self@.contains_key(id) && !self@[id].3 && self@[id].0 == procedure_name@
                    ==> exists|j: int| 0 <= j < r@.len() && r@[j].instance_id@ == id,
            forall|a: int, b: int|
                0 <= a < b < r@.len() ==> (#[trigger] r@[a]).instance_id@ != (#[trigger] r@[b]).instance_id@,
    {
        let mut out: Vec<&ProcedureInstance> = Vec::new();
        let ghost mut idx: Seq<int> = Seq::empty();
        let mut i: usize = 0;
        while i < self.instances.len()
            invariant
                i <= self.instances@.len(),
                out@.len() == idx.len(),
                forall|j: int|
                    0 <= j < idx.len() ==> 0 <= #[trigger] idx[j] < i && out@[j] == self.instances@[idx[j]]
                        && table_last(self.pairs(), self.pairs()[idx[j]].0) == idx[j],
                forall|a: int, b: int| 0 <= a < b < idx.len() ==> #[trigger] idx[a] < #[trigger] idx[b],
                forall|j: int|
                    0 <= j < out@.len() ==> !(#[trigger] out@[j]).closed && out@[j].procedure_name@
                        == procedure_name@,
                forall|k: int|
                    0 <= k < i && table_last(self.pairs(), self.pairs()[k].0) == k
                        && !self.instances@[k].closed && self.instances@[k].procedure_name@ == procedure_name@
                        ==> exists|j: int| 0 <= j < idx.len() && #[trigger] idx[j] == k,
            decreases self.instances.len() - i,
        {
            let inst = &self.instances[i];
            let current = match self.find(inst.instance_id.as_str()) {
                Some(j) => j == i,
                None => false,
            };
            if current && !inst.closed && str_eq(inst.procedure_name.as_str(), procedure_name) {
                out.push(inst);
                proof {
                    let old_idx = idx;
                    idx = idx.push(i as int);
                    assert forall|k: int|
                        0 <= k < i + 1 && table_last(self.pairs(), self.pairs()[k].0) == k
                            && !self.instances@[k].closed && self.instances@[k].procedure_name@
                            == procedure_name@ implies exists|j: int|
                        0 <= j < idx.len() && #[trigger] idx[j] == k by {
                        if k < i {
                            let j = choose|j: int| 0 <= j < old_idx.len() && #[trigger] old_idx[j] == k;
                            assert(idx[j] == old_idx[j]);
                        } else {
                            assert(idx[idx.len() - 1] == k);
                        }
                    }
                }
            }
            i = i + 1;
        }
        proof {
            assert forall|j: int| 0 <= j < out@.len() implies {
                let inst = #[trigger] out@[j];
                &&& self@.contains_key(inst.instance_id@)
                &&& self@[inst.instance_id@] == instance_view(*inst)
            } by {
                let k = idx[j];
                lemma_table(self.pairs(), self.pairs()[k].0);
            }
            assert forall|id: Seq<char>|
                #[trigger] self@.contains_key(id) && !self@[id].3 && self@[id].0 == procedure_name@ implies exists|
                j: int,
            | 0 <= j < out@.len() && out@[j].instance_id@ == id by {
                lemma_table(self.pairs(), id);
                let k = table_last(self.pairs(), id);
                let j = choose|j: int| 0 <= j < idx.len() && #[trigger] idx[j] == k;
                assert(out@[j].instance_id@ == id);
            }
            assert forall|a: int, b: int| 0 <= a < b < out@.len() implies (#[trigger] out@[a]).instance_id@
                != (#[trigger] out@[b]).instance_id@ by {
                let ka = idx[a];
                let kb = idx[b];
                assert(ka < kb);
                if out@[a].instance_id@ == out@[b].instance_id@ {
                    assert(self.pairs()[ka].0 == self.pairs()[kb].0);
                }
            }
        }
        out
    }
}

impl Default for ProcedureIndex {
    /// An empty index.
    fn default() -> (x: ProcedureIndex)
        ensures
            x@ == Map::<Seq<char>, (Seq<char>, Seq<char>, Seq<char>, bool)>::empty(),
    {
        ProcedureIndex::new()
    }
}

/// Instance `id` is open, of procedure `name`, and in state `from`.
pub open spec fn moves(
    m: Map<Seq<char>, (Seq<char>, Seq<char>, Seq<char>, bool)>,
    name: Seq<char>,
    from: Seq<char>,
    id: Seq<char>,
) -> bool {
    m.contains_key(id) && !m[id].3 && m[id].0 == name && m[id].1 == from
}

/// The first procedure named `name` is at `i`.
pub open spec fn first_named_at(procs: Seq<Procedure>, name: Seq<char>, i: int) -> bool {
    0 <= i < procs.len() && procs[i].name@ == name && forall|j: int|
        0 <= j < i ==> (#[trigger] procs[j]).name@ != name
}

/// Fire a transition: when a procedure of the handle's name is declared
/// (the first one counts), every open instance of it in the source state
/// moves to the destination state, closed iff that state is terminal, and
/// a `procedure.transition` effect is appended for each, in no particular
/// order. Without such a procedure nothing changes.
pub fn fire_transition(
    procedures: &Vec<Procedure>,
    index: &mut ProcedureIndex,
    handle: &TransitionHandle,
    effects: &mut Vec<ProcedureEffect>,
)
    ensures
        (forall|i: int|
            0 <= i < procedures@.len() ==> (#[trigger] procedures@[i]).name@ != handle.procedure_name@)
            ==> final(index)@ == old(index)@ && final(effects)@ == old(effects)@,
        forall|i: int|
            #[trigger] first_named_at(procedures@, handle.procedure_name@, i) ==> {
                let terminal = procedures@[i].terminal_states.deep_view().contains(handle.to_state@);
                let m0 = old(index)@;
                &&& final(index)@.dom() == m0.dom()
                &&& forall|id: Seq<char>|
                    #[trigger] m0.contains_key(id) ==> final(index)@[id] == if moves(m0, handle.procedure_name@, handle.from_state@, id) {
                        (m0[id].0, handle.to_state@, m0[id].2, terminal)
                    } else {
                        m0[id]
                    }
                &&& final(effects)@.len() >= old(effects)@.len()
                &&& final(effects)@.take(old(effects)@.len() as int) == old(effects)@
                &&& forall|j: int|
                    old(effects)@.len() <= j < final(effects)@.len() ==> (#[trigger] final(effects)@[j]).action_kind@
                        == "procedure.transition"@ && moves(m0, handle.procedure_name@, handle.from_state@, final(effects)@[j].instance_id@)
                &&& forall|id: Seq<char>|
                    #[trigger] moves(m0, handle.procedure_name@, handle.from_state@, id) ==> exists|j: int|
                        old(effects)@.len() <= j < final(effects)@.len() && (#[trigger] final(effects)@[j]).instance_id@ == id
                &&& forall|a: int, b: int|
                    old(effects)@.len() <= a < b < final(effects)@.len() ==> (#[trigger] final(effects)@[a]).instance_id@ != (#[trigger] final(effects)@[b]).instance_id@
            },
{
    let ghost m0 = index@;
    let ghost e0 = effects@;
    let name = handle.procedure_name.as_str();
    let from = handle.from_state.as_str();
    let mut ids: Vec<String> = Vec::new();
    {
        let open = index.open_instances_for(name);
        let mut k: usize = 0;
        while k < open.len()
            invariant
                k <= open@.len(),
                m0 == index@,
                forall|j: int|
                    0 <= j < open@.len() ==> {
                        let inst = #[trigger] open@[j];
                        &&& m0.contains_key(inst.instance_id@)
                        &&& m0[inst.instance_id@] == instance_view(*inst)
                        &&& !inst.closed
                        &&& inst.procedure_name@ == name@
                    },
                forall|id: Seq<char>|
                    #[trigger] m0.contains_key(id) && !m0[id].3 && m0[id].0 == name@ ==> exists|j: int|
                        0 <= j < open@.len() && open@[j].instance_id@ == id,
                forall|a: int, b: int|
                    0 <= a < b < open@.len() ==> (#[trigger] open@[a]).instance_id@ != (#[trigger] open@[b]).instance_id@,
                forall|j: int| 0 <= j < ids@.len() ==> moves(m0, name@, from@, (#[trigger] ids@[j])@),
                forall|a: int, b: int| 0 <= a < b < ids@.len() ==> (#[trigger] ids@[a])@ != (#[trigger] ids@[b])@,
                forall|j: int| 0 <= j < ids@.len() ==> exists|q: int| 0 <= q < k && open@[q].instance_id@ == (#[trigger] ids@[j])@,
                forall|q: int|
                    0 <= q < k && (#[trigger] open@[q]).current_state@ == from@ ==> exists|j: int|
                        0 <= j < ids@.len() && ids@[j]@ == open@[q].instance_id@,
            decreases open@.len() - k,
        {
            let inst = open[k];
            if str_eq(inst.current_state.as_str(), from) {
                let ghost before = ids@;
                proof {
                    assert forall|j: int| 0 <= j < before.len() implies (#[trigger] before[j])@ != inst.instance_id@ by {
                        let q = choose|q: int| 0 <= q < k && open@[q].instance_id@ == before[j]@;
                        assert(open@[q].instance_id@ != open@[k as int].instance_id@);
                    }
                }
                ids.push(inst.instance_id.clone());
                proof {
                    assert forall|q: int|
                        0 <= q < k + 1 && (#[trigger] open@[q]).current_state@ == from@ implies exists|j: int|
                        0 <= j < ids@.len() && ids@[j]@ == open@[q].instance_id@ by {
                        if q == k {
                            assert(ids@[ids@.len() - 1]@ == open@[q].instance_id@);
                        } else {
                            let j = choose|j: int| 0 <= j < before.len() && before[j]@ == open@[q].instance_id@;
                            assert(ids@[j] == before[j]);
                        }
                    }
                    assert forall|j: int| 0 <= j < ids@.len() implies exists|q: int|
                        0 <= q < k + 1 && open@[q].instance_id@ == (#[trigger] ids@[j])@ by {
                        if j < before.len() {
                            assert(ids@[j] == before[j]);
                            let q = choose|q: int| 0 <= q < k && open@[q].instance_id@ == before[j]@;
                        } else {
                            assert(open@[k as int].instance_id@ == ids@[j]@);
                        }
                    }
                }
            }
            k = k + 1;
        }
        proof {
            assert forall|id: Seq<char>| moves(m0, name@, from@, id) implies exists|j: int|
                0 <= j < ids@.len() && (#[trigger] ids@[j])@ == id by {
                assert(m0.contains_key(id) && !m0[id].3 && m0[id].0 == name@);
                let q = choose|q: int| 0 <= q < open@.len() && open@[q].instance_id@ == id;
                assert(open@[q].current_state@ == from@);
            }
        }
    }
    let mut p: usize = 0;
    while p < procedures.len() && !str_eq(procedures[p].name.as_str(), name)
        invariant
            p <= procedures@.len(),
            forall|j: int| 0 <= j < p ==> (#[trigger] procedures@[j]).name@ != name@,
        decreases procedures.len() - p,
    {
        p = p + 1;
    }
    if p == procedures.len() {
        return;
    }
    assert(first_named_at(procedures@, handle.procedure_name@, p as int));
    let terminal = vec_contains(&procedures[p].terminal_states, handle.to_state.as_str());
    let to = handle.to_state.as_str();
    let mut k: usize = 0;
    while k < ids.len()
        invariant
            k <= ids@.len(),
            forall|j: int| 0 <= j < ids@.len() ==> moves(m0, name@, from@, (#[trigger] ids@[j])@),
            forall|a: int, b: int| 0 <= a < b < ids@.len() ==> (#[trigger] ids@[a])@ != (#[trigger] ids@[b])@,
            index@.dom() == m0.dom(),
            forall|id: Seq<char>|
                #[trigger] m0.contains_key(id) ==> index@[id] == if exists|j: int|
                    0 <= j < k && (#[trigger] ids@[j])@ == id {
                    (m0[id].0, to@, m0[id].2, terminal)
                } else {
                    m0[id]
                },
            effects@.len() == e0.len() + k,
            effects@.take(e0.len() as int) == e0,
            forall|j: int|
                0 <= j < k ==> (#[trigger] effects@[e0.len() + j]).action_kind@ == "procedure.transition"@
                    && effects@[e0.len() + j].instance_id@ == ids@[j]@,
        decreases ids.len() - k,
    {
        let id = ids[k].as_str();
        let ghost before = index@;
        let ghost eb = effects@;
        index.record_transition(id, to, terminal);
        proof {
            assert(index@.dom() =~= m0.dom());
            assert forall|x: Seq<char>| #[trigger] m0.contains_key(x) implies index@[x] == if exists|j: int|
                0 <= j < k + 1 && (#[trigger] ids@[j])@ == x {
                (m0[x].0, to@, m0[x].2, terminal)
            } else {
                m0[x]
            } by {
                if x == id@ {
                    assert(ids@[k as int]@ == x);
                    if exists|j: int| 0 <= j < k && (#[trigger] ids@[j])@ == x {
                        let j = choose|j: int| 0 <= j < k && (#[trigger] ids@[j])@ == x;
                        assert(ids@[j]@ != ids@[k as int]@);
                    }
                } else {
                    if exists|j: int| 0 <= j < k + 1 && (#[trigger] ids@[j])@ == x {
                        let j = choose|j: int| 0 <= j < k + 1 && (#[trigger] ids@[j])@ == x;
                        assert(j < k);
                    }
                }
            }
        }
        effects.push(ProcedureEffect { action_kind: owned("procedure.transition"), instance_id: ids[k].clone() });
        proof {
            assert(effects@.take(e0.len() as int) =~= eb.take(e0.len() as int));
            assert forall|j: int| 0 <= j < k + 1 implies (#[trigger] effects@[e0.len() + j]).action_kind@
                == "procedure.transition"@ && effects@[e0.len() + j].instance_id@ == ids@[j]@ by {
                if j < k {
                    assert(effects@[e0.len() + j] == eb[e0.len() + j]);
                }
            }
        }
        k = k + 1;
    }
    proof {
        assert forall|id: Seq<char>| #[trigger] m0.contains_key(id) implies index@[id] == if moves(
            m0,
            name@,
            from@,
            id,
        ) {
            (m0[id].0, to@, m0[id].2, terminal)
        } else {
            m0[id]
        } by {
            if moves(m0, name@, from@, id) {
                let j = choose|j: int| 0 <= j < ids@.len() && (#[trigger] ids@[j])@ == id;
                assert(0 <= j < k && ids@[j]@ == id);
            } else {
                if exists|j: int| 0 <= j < k && (#[trigger] ids@[j])@ == id {
                    let j = choose|j: int| 0 <= j < k && (#[trigger] ids@[j])@ == id;
                    assert(moves(m0, name@, from@, ids@[j]@));
                }
            }
        }
        assert forall|j: int|
            e0.len() <= j < effects@.len() implies (#[trigger] effects@[j]).action_kind@ == "procedure.transition"@
                && moves(m0, name@, from@, effects@[j].instance_id@) by {
            let q = j - e0.len();
            assert(effects@[e0.len() + q] == effects@[j]);
        }
        assert forall|id: Seq<char>| moves(m0, name@, from@, id) implies exists|j: int|
            e0.len() <= j < effects@.len() && (#[trigger] effects@[j]).instance_id@ == id by {
            let q = choose|q: int| 0 <= q < ids@.len() && (#[trigger] ids@[q])@ == id;
            assert(effects@[e0.len() + q].instance_id@ == id);
        }
        assert forall|a: int, b: int|
            e0.len() <= a < b < effects@.len() implies (#[trigger] effects@[a]).instance_id@
                != (#[trigger] effects@[b]).instance_id@ by {
            let qa = a - e0.len();
            let qb = b - e0.len();
            assert(effects@[e0.len() + qa] == effects@[a]);
            assert(effects@[e0.len() + qb] == effects@[b]);
        }
    }
}

// ---------------------------------------------------------------------------
// Trigger and transition matching
// ---------------------------------------------------------------------------

/// The index after firing `h`: when a procedure of its name is declared
/// (the first one counts), every open instance of it in the source state
/// moves to the destination state, closed iff that state is terminal.
pub open spec fn fired(
    m: Map<Seq<char>, (Seq<char>, Seq<char>, Seq<char>, bool)>,
    procs: Seq<Procedure>,
    h: TransitionHandle,
) -> Map<Seq<char>, (Seq<char>, Seq<char>, Seq<char>, bool)> {
    if exists|i: int| first_named_at(procs, h.procedure_name@, i) {
        let i = choose|i: int| first_named_at(procs, h.procedure_name@, i);
        let terminal = procs[i].terminal_states.deep_view().contains(h.to_state@);
        Map::new(
            |id: Seq<char>| m.contains_key(id),
            |id: Seq<char>|
                if moves(m, h.procedure_name@, h.from_state@, id) {
                    (m[id].0, h.to_state@, m[id].2, terminal)
                } else {
                    m[id]
                },
        )
    } else {
        m
    }
}

/// The index after firing the handles in order.
pub open spec fn fired_all(
    m: Map<Seq<char>, (Seq<char>, Seq<char>, Seq<char>, bool)>,
    procs: Seq<Procedure>,
    hs: Seq<TransitionHandle>,
) -> Map<Seq<char>, (Seq<char>, Seq<char>, Seq<char>, bool)>
    decreases hs.len(),
{
    if hs.len() == 0 {
        m
    } else {
        fired(fired_all(m, procs, hs.drop_last()), procs, hs.last())
    }
}

/// The handles whose action is `kind`, in order.
pub open spec fn for_action(hs: Seq<TransitionHandle>, kind: Seq<char>) -> Seq<TransitionHandle>
    decreases hs.len(),
{
    if hs.len() == 0 {
        Seq::empty()
    } else {
        let r = for_action(hs.drop_last(), kind);
        if hs.last().action@ == kind {
            r.push(hs.last())
        } else {
            r
        }
    }
}

proof fn lemma_first_named_unique(procs: Seq<Procedure>, name: Seq<char>, i: int, j: int)
    requires
        first_named_at(procs, name, i),
        first_named_at(procs, name, j),
    ensures
        i == j,
{
    if i < j {
        assert(procs[i].name@ != name);
    } else if j < i {
        assert(procs[j].name@ != name);
    }
}

proof fn lemma_first_named_exists(procs: Seq<Procedure>, name: Seq<char>, j: int)
    requires
        0 <= j < procs.len(),
        procs[j].name@ == name,
    ensures
        exists|i: int| first_named_at(procs, name, i),
    decreases j,
{
    if exists|k: int| 0 <= k < j && (#[trigger] procs[k]).name@ == name {
        let k = choose|k: int| 0 <= k < j && (#[trigger] procs[k]).name@ == name;
        lemma_first_named_exists(procs, name, k);
    } else {
        assert(first_named_at(procs, name, j));
    }
}

/// Fire the transitions of the matched transition policies: the ids in
/// ascending order, each looked up in `table`; a handle whose action is
/// not the request's is skipped. Every new effect is a
/// `procedure.transition` of an instance of the index.
pub fn apply_transitions(
    matched: &Vec<String>,
    table: &Vec<(String, TransitionHandle)>,
    procedures: &Vec<Procedure>,
    request_action_kind: &str,
    index: &mut ProcedureIndex,
    effects: &mut Vec<ProcedureEffect>,
)
    ensures
        final(index)@ == fired_all(
            old(index)@,
            procedures@,
            for_action(found_values(sorted_ids(matched.deep_view()), keyed(table@)), request_action_kind@),
        ),
        final(effects)@.len() >= old(effects)@.len(),
        final(effects)@.take(old(effects)@.len() as int) == old(effects)@,
        forall|j: int|
            old(effects)@.len() <= j < final(effects)@.len() ==> (#[trigger] final(effects)@[j]).action_kind@
                == "procedure.transition"@ && old(index)@.contains_key(final(effects)@[j].instance_id@),
{
    let ids = sort_ids(matched);
    let ghost t = keyed(table@);
    let ghost m0 = index@;
    let ghost e0 = effects@;
    let mut k: usize = 0;
    while k < ids.len()
        invariant
            k <= ids@.len(),
            t == keyed(table@),
            index@ == fired_all(m0, procedures@, for_action(found_values(ids.deep_view().take(k as int), t), request_action_kind@)),
            effects@.len() >= e0.len(),
            effects@.take(e0.len() as int) == e0,
            forall|j: int| e0.len() <= j < effects@.len() ==> (#[trigger] effects@[j]).action_kind@ == "procedure.transition"@,
            index@.dom() == m0.dom(),
            forall|j: int| e0.len() <= j < effects@.len() ==> m0.contains_key((#[trigger] effects@[j]).instance_id@),
        decreases ids.len() - k,
    {
        let ghost prev = found_values(ids.deep_view().take(k as int), t);
        let ghost key = ids@[k as int]@;
        let ghost e1 = effects@;
        let ghost m1 = index@;
        assert(ids.deep_view().take(k + 1).drop_last() =~= ids.deep_view().take(k as int));
        assert(ids.deep_view().take(k + 1).last() == key);
        proof {
            lemma_table(t, key);
        }
        match find_key(table, ids[k].as_str()) {
            Some(i) => {
                assert(t[i as int].1 == table@[i as int].1);
                let handle = &table[i].1;
                assert(found_values(ids.deep_view().take(k + 1), t) == prev.push(*handle));
                assert(prev.push(*handle).drop_last() =~= prev);
                if str_eq(handle.action.as_str(), request_action_kind) {
                    fire_transition(procedures, index, handle, effects);
                    proof {
                        let hs = for_action(prev.push(*handle), request_action_kind@);
                        assert(hs == for_action(prev, request_action_kind@).push(*handle));
                        assert(hs.drop_last() =~= for_action(prev, request_action_kind@));
                        if exists|p: int| first_named_at(procedures@, handle.procedure_name@, p) {
                            let p = choose|p: int| first_named_at(procedures@, handle.procedure_name@, p);
                            assert(index@ =~= fired(m1, procedures@, *handle)) by {
                                assert forall|q: int| first_named_at(procedures@, handle.procedure_name@, q) implies q == p by {
                                    lemma_first_named_unique(procedures@, handle.procedure_name@, p, q);
                                }
                            }
                        } else {
                            assert forall|q: int| 0 <= q < procedures@.len() implies (#[trigger] procedures@[q]).name@
                                != handle.procedure_name@ by {
                                if procedures@[q].name@ == handle.procedure_name@ {
                                    lemma_first_named_exists(procedures@, handle.procedure_name@, q);
                                }
                            }
                            assert(index@ == m1);
                            assert(effects@ == e1);
                        }
                        assert forall|j: int| e0.len() <= j < effects@.len() implies (#[trigger] effects@[j]).action_kind@
                            == "procedure.transition"@ && m0.contains_key(effects@[j].instance_id@) by {
                            if j < e1.len() {
                                assert(effects@.take(e1.len() as int)[j] == e1[j]);
                            } else {
                                let p = choose|p: int| first_named_at(procedures@, handle.procedure_name@, p);
                                assert(moves(m1, handle.procedure_name@, handle.from_state@, effects@[j].instance_id@));
                                assert(m1.dom().contains(effects@[j].instance_id@));
                            }
                        }
                        assert(effects@.take(e0.len() as int) =~= e0) by {
                            assert(effects@.take(e1.len() as int) == e1);
                            assert forall|j: int| 0 <= j < e0.len() implies effects@[j] == e0[j] by {
                                assert(effects@.take(e1.len() as int)[j] == e1[j]);
                                assert(e1.take(e0.len() as int)[j] == e0[j]);
                            }
                        }
                    }
                } else {
                    assert(for_action(prev.push(*handle), request_action_kind@) == for_action(prev, request_action_kind@));
                }
            },
            None => {
                assert(found_values(ids.deep_view().take(k + 1), t) == prev);
            },
        }
        k = k + 1;
    }
    assert(ids.deep_view().take(ids@.len() as int) =~= ids.deep_view());
}

/// What entering procedure `name` does to index `m`: its instance id is
/// `ids[name]`; nothing happens without an id, when that instance is
/// open, or when no procedure of the name is declared; else the id and
/// the initial state of the first procedure of the name.
pub open spec fn enter_one(
    m: Map<Seq<char>, (Seq<char>, Seq<char>, Seq<char>, bool)>,
    procs: Seq<Procedure>,
    ids: Map<Seq<char>, Seq<char>>,
    name: Seq<char>,
) -> Option<(Seq<char>, Seq<char>)> {
    if !ids.contains_key(name) {
        None
    } else if m.contains_key(ids[name]) && !m[ids[name]].3 {
        None
    } else if exists|i: int| first_named_at(procs, name, i) {
        let i = choose|i: int| first_named_at(procs, name, i);
        Some((ids[name], procs[i].initial_state@))
    } else {
        None
    }
}

/// The index after entering the named procedures in order, and the ids
/// of the instances that entered.
pub open spec fn entered_all(
    m: Map<Seq<char>, (Seq<char>, Seq<char>, Seq<char>, bool)>,
    procs: Seq<Procedure>,
    ids: Map<Seq<char>, Seq<char>>,
    wall_clock: Seq<char>,
    names: Seq<String>,
) -> (Map<Seq<char>, (Seq<char>, Seq<char>, Seq<char>, bool)>, Seq<Seq<char>>)
    decreases names.len(),
{
    if names.len() == 0 {
        (m, Seq::empty())
    } else {
        let r = entered_all(m, procs, ids, wall_clock, names.drop_last());
        let name = names.last()@;
        match enter_one(r.0, procs, ids, name) {
            Some((id, state)) => (r.0.insert(id, (name, state, wall_clock, false)), r.1.push(id)),
            None => r,
        }
    }
}

/// The effects as plain values: kind and instance id.
pub open spec fn effect_views(e: Seq<ProcedureEffect>) -> Seq<(Seq<char>, Seq<char>)> {
    Seq::new(e.len(), |i: int| (e[i].action_kind@, e[i].instance_id@))
}

/// `procedure.enter` effects for the ids, in order.
pub open spec fn enter_effects(ids: Seq<Seq<char>>) -> Seq<(Seq<char>, Seq<char>)> {
    Seq::new(ids.len(), |i: int| ("procedure.enter"@, ids[i]))
}

/// Enter procedures for the matched trigger policies: the ids in
/// ascending order, each looked up in `table` for its procedure's name;
/// the instance id of a procedure's entry is given by `instance_ids`
/// (the content address of the entry). An instance that is already open
/// is not entered again. Each entry appends a `procedure.enter` effect.
pub fn apply_triggers(
    matched: &Vec<String>,
    table: &Vec<(String, String)>,
    procedures: &Vec<Procedure>,
    instance_ids: &StringMap,
    wall_clock: &str,
    index: &mut ProcedureIndex,
    effects: &mut Vec<ProcedureEffect>,
)
    ensures
        ({
            let r = entered_all(
                old(index)@,
                procedures@,
                instance_ids@,
                wall_clock@,
                found_values(sorted_ids(matched.deep_view()), keyed(table@)),
            );
            &&& final(index)@ == r.0
            &&& effect_views(final(effects)@) == effect_views(old(effects)@) + enter_effects(r.1)
        }),
{
    let ids = sort_ids(matched);
    let ghost t = keyed(table@);
    let ghost m0 = index@;
    let ghost e0 = effects@;
    let mut k: usize = 0;
    while k < ids.len()
        invariant
            k <= ids@.len(),
            t == keyed(table@),
            ({
                let r = entered_all(m0, procedures@, instance_ids@, wall_clock@, found_values(ids.deep_view().take(k as int), t));
                &&& index@ == r.0
                &&& effect_views(effects@) == effect_views(e0) + enter_effects(r.1)
            }),
        decreases ids.len() - k,
    {
        let ghost prev = found_values(ids.deep_view().take(k as int), t);
        let ghost r = entered_all(m0, procedures@, instance_ids@, wall_clock@, prev);
        let ghost key = ids@[k as int]@;
        assert(ids.deep_view().take(k + 1).drop_last() =~= ids.deep_view().take(k as int));
        assert(ids.deep_view().take(k + 1).last() == key);
        proof {
            lemma_table(t, key);
        }
        match find_key(table, ids[k].as_str()) {
            Some(i) => {
                assert(t[i as int].1 == table@[i as int].1);
                let name = &table[i].1;
                assert(found_values(ids.deep_view().take(k + 1), t) == prev.push(*name));
                assert(prev.push(*name).drop_last() =~= prev);
                assert(prev.push(*name).last() == *name);
                let ghost ev = effects@;
                if let Some(id) = instance_ids.get(name.as_str()) {
                    if !index.has_open_instance(id.as_str()) {
                        let mut p: usize = 0;
                        while p < procedures.len() && !str_eq(procedures[p].name.as_str(), name.as_str())
                            invariant
                                p <= procedures@.len(),
                                forall|j: int| 0 <= j < p ==> (#[trigger] procedures@[j]).name@ != name@,
                            decreases procedures.len() - p,
                        {
                            p = p + 1;
                        }
                        if p < procedures.len() {
                            proof {
                                assert(first_named_at(procedures@, name@, p as int));
                                assert forall|q: int| first_named_at(procedures@, name@, q) implies q == p by {
                                    lemma_first_named_unique(procedures@, name@, p as int, q);
                                }
                            }
                            let instance = ProcedureInstance {
                                instance_id: id.clone(),
                                procedure_name: name.clone(),
                                current_state: procedures[p].initial_state.clone(),
                                entry_wall_clock: owned(wall_clock),
                                closed: false,
                            };
                            index.record_enter(instance);
                            effects.push(ProcedureEffect { action_kind: owned("procedure.enter"), instance_id: id.clone() });
                            proof {
                                assert(enter_effects(r.1.push(id@)) =~= enter_effects(r.1).push(("procedure.enter"@, id@)));
                                assert(effect_views(effects@) =~= effect_views(ev).push(("procedure.enter"@, id@)));
                                assert(effect_views(effects@) =~= effect_views(e0) + enter_effects(r.1.push(id@)));
                            }
                        } else {
                            proof {
                                assert forall|q: int| !first_named_at(procedures@, name@, q) by {
                                    if first_named_at(procedures@, name@, q) {
                                        assert(procedures@[q].name@ != name@);
                                    }
                                }
                            }
                        }
                    }
                }
            },
            None => {
                assert(found_values(ids.deep_view().take(k + 1), t) == prev);
            },
        }
        k = k + 1;
    }
    assert(ids.deep_view().take(ids@.len() as int) =~= ids.deep_view());
}

/// Enter the procedures whose trigger policies Cedar matches for the
/// request (see [`apply_triggers`]); with no trigger policies nothing is
/// entered. An instance that is open is not entered again (see
/// [`lemma_open_instance_not_reentered`] and
/// [`lemma_entering_twice_enters_once`]). The matched policies are the reasons Cedar gives, taken in
/// ascending order.
pub fn triggers(
    request: &CedarRequest,
    entities: &CedarEntities,
    activated: &ActivatedConstitution,
    instance_ids: &StringMap,
    wall_clock: &str,
    index: &mut ProcedureIndex,
    effects: &mut Vec<ProcedureEffect>,
)
    ensures
        exists|matched: Seq<Seq<char>>|
            #![trigger sorted_ids(matched)]
            {
                let r = entered_all(
                    old(index)@,
                    activated.resolved_engine_config.procedures@,
                    instance_ids@,
                    wall_clock@,
                    found_values(sorted_ids(matched), keyed(activated.layer_b.trigger_by_policy_id@)),
                );
                &&& matched.no_duplicates()
                &&& matched.to_set() == pass_reasons(activated.layer_b.procedure_trigger_policy_set@, request@, entities@)
                &&& final(index)@ == r.0
                &&& effect_views(final(effects)@) == effect_views(old(effects)@) + enter_effects(r.1)
            },
{
    let layer_b = &activated.layer_b;
    if count_policies(&layer_b.procedure_trigger_policy_set) == 0 {
        proof {
            lemma_nothing_matched(keyed(layer_b.trigger_by_policy_id@));
            assert(effect_views(effects@) + enter_effects(Seq::empty()) =~= effect_views(effects@));
            let w = Seq::<Seq<char>>::empty();
            assert(found_values(sorted_ids(w), keyed(layer_b.trigger_by_policy_id@)) =~= Seq::<String>::empty());
            assert(w.to_set() =~= pass_reasons(layer_b.procedure_trigger_policy_set@, request@, entities@));
        }
        return;
    }
    let (_, matched) = authorize(request, &layer_b.procedure_trigger_policy_set, entities);
    apply_triggers(
        &matched,
        &layer_b.trigger_by_policy_id,
        &activated.resolved_engine_config.procedures,
        instance_ids,
        wall_clock,
        index,
        effects,
    );
}

/// Fire the transitions whose policies Cedar matches for the request
/// (see [`apply_transitions`]); with no transition policies nothing
/// fires. The matched policies are the reasons Cedar gives, taken in
/// ascending order. Each effect names an instance the index held.
pub fn transitions(
    request: &CedarRequest,
    entities: &CedarEntities,
    activated: &ActivatedConstitution,
    request_action_kind: &str,
    index: &mut ProcedureIndex,
    effects: &mut Vec<ProcedureEffect>,
)
    ensures
        exists|matched: Seq<Seq<char>>|
            #![trigger sorted_ids(matched)]
            matched.no_duplicates() && matched.to_set() == pass_reasons(
                activated.layer_b.procedure_transition_policy_set@,
                request@,
                entities@,
            ) && final(index)@ == fired_all(
                old(index)@,
                activated.resolved_engine_config.procedures@,
                for_action(
                    found_values(sorted_ids(matched), keyed(activated.layer_b.transition_by_policy_id@)),
                    request_action_kind@,
                ),
            ),
        final(effects)@.len() >= old(effects)@.len(),
        final(effects)@.take(old(effects)@.len() as int) == old(effects)@,
        forall|j: int|
            old(effects)@.len() <= j < final(effects)@.len() ==> (#[trigger] final(effects)@[j]).action_kind@
                == "procedure.transition"@ && old(index)@.contains_key(final(effects)@[j].instance_id@),
{
    let layer_b = &activated.layer_b;
    if count_policies(&layer_b.procedure_transition_policy_set) == 0 {
        proof {
            lemma_nothing_matched(keyed(layer_b.transition_by_policy_id@));
            let w = Seq::<Seq<char>>::empty();
            assert(found_values(sorted_ids(w), keyed(layer_b.transition_by_policy_id@)) =~= Seq::<TransitionHandle>::empty());
            assert(effects@.take(effects@.len() as int) =~= effects@);
            assert(w.to_set() =~= pass_reasons(layer_b.procedure_transition_policy_set@, request@, entities@));
        }
        return;
    }
    let (_, matched) = authorize(request, &layer_b.procedure_transition_policy_set, entities);
    apply_transitions(
        &matched,
        &layer_b.transition_by_policy_id,
        &activated.resolved_engine_config.procedures,
        request_action_kind,
        index,
        effects,
    );
}

/// The effects of a procedure pass.
pub struct ProcedureOutcome {
    /// Entries first, then transitions.
    pub effects: Vec<ProcedureEffect>,
}

/// A procedure pass took index `m0` to `m1` with `effects`, for a
/// request Cedar reads as `req` with entities `ents`: the trigger ids
/// `mt` and transition ids `mx` are the reasons Cedar gives for the
/// trigger and transition policy sets (each once, any order); the matched
/// procedures were entered, then the matched transitions fired; the
/// effects start with the entries and hold only entries and transitions.
pub open spec fn procedure_pass(
    m0: Map<Seq<char>, (Seq<char>, Seq<char>, Seq<char>, bool)>,
    m1: Map<Seq<char>, (Seq<char>, Seq<char>, Seq<char>, bool)>,
    effects: Seq<ProcedureEffect>,
    a: ActivatedConstitution,
    ids: Map<Seq<char>, Seq<char>>,
    kind: Seq<char>,
    wall_clock: Seq<char>,
    req: RequestTexts,
    ents: (Seq<char>, Seq<char>),
) -> bool {
    &&& exists|mt: Seq<Seq<char>>, mx: Seq<Seq<char>>|
        #![trigger sorted_ids(mt), sorted_ids(mx)]
        {
            let r = entered_all(
                m0,
                a.resolved_engine_config.procedures@,
                ids,
                wall_clock,
                found_values(sorted_ids(mt), keyed(a.layer_b.trigger_by_policy_id@)),
            );
            &&& mt.no_duplicates()
            &&& mt.to_set() == pass_reasons(a.layer_b.procedure_trigger_policy_set@, req, ents)
            &&& mx.no_duplicates()
            &&& mx.to_set() == pass_reasons(a.layer_b.procedure_transition_policy_set@, req, ents)
            &&& m1 == fired_all(
                r.0,
                a.resolved_engine_config.procedures@,
                for_action(found_values(sorted_ids(mx), keyed(a.layer_b.transition_by_policy_id@)), kind),
            )
            &&& effects.len() >= r.1.len()
            &&& effect_views(effects.take(r.1.len() as int)) == enter_effects(r.1)
        }
    &&& forall|j: int|
        0 <= j < effects.len() ==> (#[trigger] effects[j]).action_kind@ == "procedure.enter"@
            || effects[j].action_kind@ == "procedure.transition"@
}

/// Run trigger matching, then transition matching, for a request that
/// stock Cedar permitted; the index is updated as the effects are staged.
pub fn evaluate_procedures(
    request: &CedarRequest,
    entities: &CedarEntities,
    activated: &ActivatedConstitution,
    index: &mut ProcedureIndex,
    instance_ids: &StringMap,
    request_action_kind: &str,
    current_wall_clock: &str,
) -> (o: ProcedureOutcome)
    ensures
        procedure_pass(
            old(index)@,
            final(index)@,
            o.effects@,
            *activated,
            instance_ids@,
            request_action_kind@,
            current_wall_clock@,
            request@,
            entities@,
        ),
{
    let mut effects: Vec<ProcedureEffect> = Vec::new();
    let ghost m0 = index@;
    triggers(request, entities, activated, instance_ids, current_wall_clock, index, &mut effects);
    let ghost m1 = index@;
    let ghost e1 = effects@;
    transitions(request, entities, activated, request_action_kind, index, &mut effects);
    proof {
        let mt = choose|mt: Seq<Seq<char>>|
            #![trigger sorted_ids(mt)]
            {
                let r = entered_all(
                    m0,
                    activated.resolved_engine_config.procedures@,
                    instance_ids@,
                    current_wall_clock@,
                    found_values(sorted_ids(mt), keyed(activated.layer_b.trigger_by_policy_id@)),
                );
                &&& mt.no_duplicates()
                &&& mt.to_set() == pass_reasons(activated.layer_b.procedure_trigger_policy_set@, request@, entities@)
                &&& m1 == r.0
                &&& effect_views(e1) == effect_views(Seq::<ProcedureEffect>::empty()) + enter_effects(r.1)
            };
        let r = entered_all(
            m0,
            activated.resolved_engine_config.procedures@,
            instance_ids@,
            current_wall_clock@,
            found_values(sorted_ids(mt), keyed(activated.layer_b.trigger_by_policy_id@)),
        );
        assert(effect_views(Seq::<ProcedureEffect>::empty()) =~= Seq::<(Seq<char>, Seq<char>)>::empty());
        assert(effect_views(e1) =~= enter_effects(r.1));
        assert(e1.len() == r.1.len()) by {
            assert(effect_views(e1).len() == e1.len());
        }
        assert(effects@.take(e1.len() as int) == e1);
        let mx = choose|mx: Seq<Seq<char>>|
            #![trigger sorted_ids(mx)]
            mx.no_duplicates() && mx.to_set() == pass_reasons(
                activated.layer_b.procedure_transition_policy_set@,
                request@,
                entities@,
            ) && index@ == fired_all(
                m1,
                activated.resolved_engine_config.procedures@,
                for_action(
                    found_values(sorted_ids(mx), keyed(activated.layer_b.transition_by_policy_id@)),
                    request_action_kind@,
                ),
            );
        assert(effect_views(effects@.take(r.1.len() as int)) == enter_effects(r.1));
        assert forall|j: int| 0 <= j < effects@.len() implies (#[trigger] effects@[j]).action_kind@ == "procedure.enter"@
            || effects@[j].action_kind@ == "procedure.transition"@ by {
            if j < e1.len() {
                assert(effects@.take(e1.len() as int)[j] == e1[j]);
                assert(effect_views(e1)[j] == enter_effects(r.1)[j]);
            }
        }
    }
    ProcedureOutcome { effects }
}


// ---------------------------------------------------------------------------
// Entering is idempotent
// ---------------------------------------------------------------------------

/// Instance `k` is open in `m`.
pub open spec fn open_in(m: Map<Seq<char>, (Seq<char>, Seq<char>, Seq<char>, bool)>, k: Seq<char>) -> bool {
    m.contains_key(k) && !m[k].3
}

proof fn lemma_entering_keeps_open(
    m: Map<Seq<char>, (Seq<char>, Seq<char>, Seq<char>, bool)>,
    procs: Seq<Procedure>,
    ids: Map<Seq<char>, Seq<char>>,
    wall_clock: Seq<char>,
    names: Seq<String>,
    k: Seq<char>,
)
    requires
        open_in(m, k),
    ensures
        open_in(entered_all(m, procs, ids, wall_clock, names).0, k),
    decreases names.len(),
{
    if names.len() > 0 {
        lemma_entering_keeps_open(m, procs, ids, wall_clock, names.drop_last(), k);
    }
}

/// Where `m2` keeps every open instance of `m1` open, a name that `m1`
/// would not enter is not entered in `m2` either.
proof fn lemma_no_entry_persists(
    m1: Map<Seq<char>, (Seq<char>, Seq<char>, Seq<char>, bool)>,
    m2: Map<Seq<char>, (Seq<char>, Seq<char>, Seq<char>, bool)>,
    procs: Seq<Procedure>,
    ids: Map<Seq<char>, Seq<char>>,
    name: Seq<char>,
)
    requires
        enter_one(m1, procs, ids, name) is None,
        forall|k: Seq<char>| open_in(m1, k) ==> #[trigger] open_in(m2, k),
    ensures
        enter_one(m2, procs, ids, name) is None,
{
    if ids.contains_key(name) {
        assert(open_in(m1, ids[name]) ==> open_in(m2, ids[name]));
    }
}

/// After entering `names`, none of them would be entered again.
proof fn lemma_entered_names_settled(
    m: Map<Seq<char>, (Seq<char>, Seq<char>, Seq<char>, bool)>,
    procs: Seq<Procedure>,
    ids: Map<Seq<char>, Seq<char>>,
    wall_clock: Seq<char>,
    names: Seq<String>,
)
    ensures
        forall|j: int|
            0 <= j < names.len() ==> enter_one(
                entered_all(m, procs, ids, wall_clock, names).0,
                procs,
                ids,
                (#[trigger] names[j])@,
            ) is None,
    decreases names.len(),
{
    if names.len() > 0 {
        let prev = entered_all(m, procs, ids, wall_clock, names.drop_last());
        let r = entered_all(m, procs, ids, wall_clock, names);
        lemma_entered_names_settled(m, procs, ids, wall_clock, names.drop_last());
        let name = names.last()@;
        assert forall|k: Seq<char>| open_in(prev.0, k) implies #[trigger] open_in(r.0, k) by {}
        assert forall|j: int| 0 <= j < names.len() implies enter_one(r.0, procs, ids, (#[trigger] names[j])@) is None by {
            if j < names.len() - 1 {
                assert(names[j] == names.drop_last()[j]);
                lemma_no_entry_persists(prev.0, r.0, procs, ids, names[j]@);
            } else {
                match enter_one(prev.0, procs, ids, name) {
                    Some((id, state)) => {
                        assert(open_in(r.0, id));
                    },
                    None => {
                        lemma_no_entry_persists(prev.0, r.0, procs, ids, name);
                    },
                }
            }
        }
    }
}

proof fn lemma_nothing_to_enter(
    m: Map<Seq<char>, (Seq<char>, Seq<char>, Seq<char>, bool)>,
    procs: Seq<Procedure>,
    ids: Map<Seq<char>, Seq<char>>,
    wall_clock: Seq<char>,
    names: Seq<String>,
)
    requires
        forall|j: int| 0 <= j < names.len() ==> enter_one(m, procs, ids, (#[trigger] names[j])@) is None,
    ensures
        entered_all(m, procs, ids, wall_clock, names) == (m, Seq::<Seq<char>>::empty()),
    decreases names.len(),
{
    if names.len() > 0 {
        assert forall|j: int| 0 <= j < names.drop_last().len() implies enter_one(
            m,
            procs,
            ids,
            (#[trigger] names.drop_last()[j])@,
        ) is None by {
            assert(names.drop_last()[j] == names[j]);
        }
        lemma_nothing_to_enter(m, procs, ids, wall_clock, names.drop_last());
        assert(enter_one(m, procs, ids, names[names.len() - 1]@) is None);
    }
}

/// Entering is idempotent: entering the same procedures again, with the
/// same instance ids (at any wall clock), enters nothing and leaves the
/// index as the first pass left it. An instance that is open is never
/// entered twice.
pub proof fn lemma_entering_twice_enters_once(
    m: Map<Seq<char>, (Seq<char>, Seq<char>, Seq<char>, bool)>,
    procs: Seq<Procedure>,
    ids: Map<Seq<char>, Seq<char>>,
    wall_clock: Seq<char>,
    later_wall_clock: Seq<char>,
    names: Seq<String>,
)
    ensures
        ({
            let first = entered_all(m, procs, ids, wall_clock, names);
            entered_all(first.0, procs, ids, later_wall_clock, names) == (first.0, Seq::<Seq<char>>::empty())
        }),
{
    lemma_entered_names_settled(m, procs, ids, wall_clock, names);
    lemma_nothing_to_enter(entered_all(m, procs, ids, wall_clock, names).0, procs, ids, later_wall_clock, names);
}


/// An open instance is never entered again: when instance `k` is open
/// before entering `names`, entering them pushes no `procedure.enter`
/// for `k` and leaves its entry as it was. So repeated calls of
/// [`triggers`] with the same instance ids enter an instance at most
/// once while it is open.
pub proof fn lemma_open_instance_not_reentered(
    m: Map<Seq<char>, (Seq<char>, Seq<char>, Seq<char>, bool)>,
    procs: Seq<Procedure>,
    ids: Map<Seq<char>, Seq<char>>,
    wall_clock: Seq<char>,
    names: Seq<String>,
    k: Seq<char>,
)
    requires
        open_in(m, k),
    ensures
        ({
            let r = entered_all(m, procs, ids, wall_clock, names);
            &&& !r.1.contains(k)
            &&& r.0.contains_key(k)
            &&& r.0[k] == m[k]
        }),
    decreases names.len(),
{
    if names.len() > 0 {
        lemma_open_instance_not_reentered(m, procs, ids, wall_clock, names.drop_last(), k);
        let prev = entered_all(m, procs, ids, wall_clock, names.drop_last());
        let r = entered_all(m, procs, ids, wall_clock, names);
        assert(open_in(prev.0, k));
        match enter_one(prev.0, procs, ids, names.last()@) {
            Some((id, state)) => {
                assert(id != k);
                assert forall|j: int| 0 <= j < r.1.len() implies r.1[j] != k by {
                    if j < prev.1.len() {
                        assert(r.1[j] == prev.1[j]);
                    }
                }
            },
            None => {},
        }
    }
}
} // verus!
