//! The in-memory capability store: issuance, attenuation, revocation,
//! lookup, and the bounded chain walk of a check.
//!
//! Capabilities are keyed by their content address, which the caller
//! computes. Whether the presenting subject is quarantined is decided
//! outside the store and handed in. The receipts a store operation
//! produces are the caller's to emit.

use vstd::prelude::*;

use crate::capability::{caveat_labels, evaluate_caveats, Capability};
use crate::caveat::{caveat_label_spec, caveat_permits_spec, Caveat};
use crate::check::{ActionDescriptor, CheckOutcome};
use crate::error::CapabilityError;
use crate::ids::{AgentId, ContentHash, SwarmId, Timestamp};
use crate::scope::{
    intersect_bounds_spec, intersect_dim, optional_admitted, tags_admitted, within_bounds, Scope,
    dim_admits, Dim,
};
use crate::table::{lemma_table, lemma_table_last_at, lemma_table_push, lemma_table_update, table_last, table_map};
use crate::text::owned;
use crate::enforcement::{agents_step, flagged, lemma_quarantine_follows_receipts, quarantine_verdict, AgentState, ReceiptView};


verus! {

// ---------------------------------------------------------------------------
// Hex
// ---------------------------------------------------------------------------

/// The lower-case hex digit of `d < 16`.
pub open spec fn hex_digit(d: int) -> char {
    if d < 10 {
        ('0' as int + d) as char
    } else {
        ('a' as int + d - 10) as char
    }
}

/// Lower-case hex of `b`, two digits per byte.
pub open spec fn hex_spec(b: Seq<u8>) -> Seq<char>
    decreases b.len(),
{
    if b.len() == 0 {
        Seq::empty()
    } else {
        hex_spec(b.drop_last()) + seq![hex_digit(b.last() as int / 16), hex_digit(b.last() as int % 16)]
    }
}

/// `hex::encode`: the bytes as lower-case hex, two digits per byte.
#[verifier::external_body]
pub(crate) fn hex_encode(bytes: &Vec<u8>) -> (s: String)
    ensures
        s@ == hex_spec(bytes@),
{
    hex::encode(bytes)
}

// ---------------------------------------------------------------------------
// Scopes as values
// ---------------------------------------------------------------------------

/// A scope as plain values.
pub struct ScopeView {
    pub actions: Dim,
    pub tags: Dim,
    pub bounds: Map<Seq<char>, Seq<char>>,
    pub recipients: Dim,
    pub memory: Dim,
}

pub open spec fn scope_view(s: Scope) -> ScopeView {
    ScopeView {
        actions: s.actions_dim(),
        tags: s.tags_dim(),
        bounds: s.bounds@,
        recipients: s.recipients_dim(),
        memory: s.memory_dim(),
    }
}

/// The intersection of two scopes.
pub open spec fn intersect_views(a: ScopeView, b: ScopeView) -> ScopeView {
    ScopeView {
        actions: intersect_dim(a.actions, b.actions),
        tags: intersect_dim(a.tags, b.tags),
        bounds: intersect_bounds_spec(a.bounds, b.bounds),
        recipients: intersect_dim(a.recipients, b.recipients),
        memory: intersect_dim(a.memory, b.memory),
    }
}

/// Whether a scope admits an action on every dimension.
pub open spec fn view_permits(v: ScopeView, d: ActionDescriptor) -> bool {
    &&& dim_admits(v.actions, d.action_kind@)
    &&& tags_admitted(v.tags, d.resource_tags.deep_view())
    &&& within_bounds(v.bounds, d.numeric_values@)
    &&& optional_admitted(v.recipients, d.recipient.deep_view())
    &&& optional_admitted(v.memory, d.memory_scope.deep_view())
}

// ---------------------------------------------------------------------------
// The chain walk
// ---------------------------------------------------------------------------

/// `d` capped at `u32::MAX`.
pub open spec fn capped_u32(d: int) -> int {
    if d > u32::MAX {
        u32::MAX as int
    } else {
        d
    }
}

/// Where a walk up the parent links from a leaf ends.
pub enum ChainWalk {
    /// More links than the maximum depth; the depth reached.
    TooDeep(int),
    /// A link is revoked.
    Revoked,
    /// A link is not stored; its content address.
    Missing(Seq<u8>),
    /// A link is outside its validity window.
    OutsideWindow,
    /// The links from the leaf up to the root.
    Complete(Seq<Capability>),
}

/// `now` lies in the capability's validity window.
pub open spec fn within_window(c: Capability, now: u64) -> bool {
    c.valid_from.monotonic_ns <= now <= c.valid_until.monotonic_ns
}

/// The walk from link `id` at depth `depth` (links walked so far).
pub open spec fn walk(
    caps: Map<Seq<u8>, Capability>,
    revoked: Map<Seq<u8>, Seq<char>>,
    id: Seq<u8>,
    depth: int,
    max: int,
    now: u64,
) -> ChainWalk
    decreases max - depth,
{
    if depth + 1 > max {
        ChainWalk::TooDeep(depth + 1)
    } else if revoked.contains_key(id) {
        ChainWalk::Revoked
    } else if !caps.contains_key(id) {
        ChainWalk::Missing(id)
    } else if !within_window(caps[id], now) {
        ChainWalk::OutsideWindow
    } else {
        match caps[id].parent {
            None => ChainWalk::Complete(seq![caps[id]]),
            Some(p) => match walk(caps, revoked, p.digest@, depth + 1, max, now) {
                ChainWalk::Complete(rest) => ChainWalk::Complete(seq![caps[id]] + rest),
                other => other,
            },
        }
    }
}

/// The effective scope of a chain given leaf first: the root's scope
/// intersected with each link's down to the leaf.
pub open spec fn effective_scope(chain: Seq<Capability>) -> ScopeView
    decreases chain.len(),
{
    if chain.len() <= 1 {
        scope_view(chain[0].scope)
    } else {
        intersect_views(effective_scope(chain.drop_first()), scope_view(chain[0].scope))
    }
}

/// The labels of the chain's caveats that admit (`admitted`) or refuse
/// the action, root first.
pub open spec fn chain_labels(chain: Seq<Capability>, tags: Seq<Seq<char>>, admitted: bool) -> Seq<Seq<char>>
    decreases chain.len(),
{
    if chain.len() == 0 {
        Seq::empty()
    } else {
        chain_labels(chain.drop_first(), tags, admitted) + caveat_labels(chain[0].caveats@, tags, admitted)
    }
}

/// `o` denies with `reason`, no unmet caveats, for capability `id`.
pub open spec fn plain_deny(o: CheckOutcome, id: Seq<u8>, reason: Seq<char>) -> bool {
    &&& !o.permitted
    &&& o.deny_reason@ == reason
    &&& o.matched_caveats@.len() == 0
    &&& o.unmet_caveats@.len() == 0
    &&& o.capability matches Some(h) && h.digest@ == id
}

/// What a check of capability `id` gives for `d` at time `now`, with the
/// leaf's subject quarantined or not: a stored, unrevoked leaf whose
/// subject is quarantined is denied outright; otherwise the walk of the
/// chain decides (too deep and missing links are errors; a revoked link
/// or one outside its window denies; a complete chain is judged by its
/// effective scope and caveats).
pub open spec fn check_result(
    caps: Map<Seq<u8>, Capability>,
    revoked: Map<Seq<u8>, Seq<char>>,
    max: u32,
    id: Seq<u8>,
    d: ActionDescriptor,
    now: u64,
    leaf_quarantined: bool,
    r: Result<(CheckOutcome, Option<SwarmId>), CapabilityError>,
) -> bool {
    if caps.contains_key(id) && !revoked.contains_key(id) && leaf_quarantined {
        r matches Ok(p) && plain_deny(p.0, id, "subject_quarantined"@)
    } else {
        match walk(caps, revoked, id, 0, max as int, now) {
            ChainWalk::TooDeep(dp) => r matches Err(CapabilityError::ChainTooDeep { actual, max: m }) && actual == capped_u32(dp)
                && m == max,
            ChainWalk::Revoked => r matches Ok(p) && plain_deny(p.0, id, "capability revoked in chain"@),
            ChainWalk::Missing(x) => r matches Err(CapabilityError::Backend(m)) && m@ == "missing chain link: "@ + hex_spec(x),
            ChainWalk::OutsideWindow => r matches Ok(p) && plain_deny(p.0, id, "capability outside validity window"@),
            ChainWalk::Complete(chain) => r matches Ok(p) && chain_outcome(p.0, id, chain, d),
        }
    }
}

/// Quarantine reaches checks: after any run of enforcement calls from a
/// fresh engine (as in
/// [`crate::enforcement::lemma_quarantine_follows_receipts`]) whose last
/// quarantine, reverse or evict receipt about agent `a` is a quarantine,
/// a check of a stored, unrevoked capability, made with the flag the
/// engine then reports for `a` as the leaf subject's, is denied as
/// `subject_quarantined`.
pub proof fn lemma_quarantine_denies_checks<'a>(
    trace: Seq<Map<Seq<char>, AgentState>>,
    calls: Seq<Option<ReceiptView<'a>>>,
    a: Seq<char>,
    caps: Map<Seq<u8>, Capability>,
    revoked: Map<Seq<u8>, Seq<char>>,
    max: u32,
    id: Seq<u8>,
    d: ActionDescriptor,
    now: u64,
    r: Result<(CheckOutcome, Option<SwarmId>), CapabilityError>,
)
    requires
        trace.len() == calls.len() + 1,
        trace[0] == Map::<Seq<char>, AgentState>::empty(),
        forall|i: int| 0 <= i < calls.len() ==> agents_step(#[trigger] trace[i], calls[i], trace[i + 1]),
        quarantine_verdict(calls, a),
        caps.contains_key(id),
        !revoked.contains_key(id),
        check_result(caps, revoked, max, id, d, now, flagged(trace.last(), a), r),
    ensures
        r matches Ok(p) && plain_deny(p.0, id, "subject_quarantined"@),
{
    lemma_quarantine_follows_receipts(trace, calls, a);
}

/// What a check of `id` yields for a completely walked chain: the
/// effective scope decides, then every caveat of the chain.
pub open spec fn chain_outcome(o: CheckOutcome, id: Seq<u8>, chain: Seq<Capability>, d: ActionDescriptor) -> bool {
    let tags = d.resource_tags.deep_view();
    &&& o.capability matches Some(h) && h.digest@ == id
    &&& if !view_permits(effective_scope(chain), d) {
        &&& !o.permitted
        &&& o.deny_reason@ == "effective scope (after chain intersection) does not permit action"@
        &&& o.matched_caveats@.len() == 0
        &&& o.unmet_caveats@.len() == 0
    } else if chain_labels(chain, tags, false).len() > 0 {
        &&& !o.permitted
        &&& o.deny_reason@ == "caveat(s) in chain not met"@
        &&& o.unmet_caveats.deep_view() == chain_labels(chain, tags, false)
        &&& o.matched_caveats@.len() == 0
    } else {
        &&& o.permitted
        &&& o.deny_reason@.len() == 0
        &&& o.matched_caveats.deep_view() == chain_labels(chain, tags, true)
        &&& o.unmet_caveats@.len() == 0
    }
}

// ---------------------------------------------------------------------------
// The store
// ---------------------------------------------------------------------------

/// In-memory capability store with bounded-depth chain walks.
#[derive(Debug)]
pub struct MemoryCapabilityStore {
    caps: Vec<(ContentHash, Capability)>,
    revoked: Vec<(ContentHash, String)>,
    max_depth: u32,
}

impl MemoryCapabilityStore {
    pub closed spec fn cap_pairs(&self) -> Seq<(Seq<u8>, Capability)> {
        Seq::new(self.caps@.len(), |i: int| (self.caps@[i].0.digest@, self.caps@[i].1))
    }

    pub closed spec fn revoked_pairs(&self) -> Seq<(Seq<u8>, Seq<char>)> {
        Seq::new(self.revoked@.len(), |i: int| (self.revoked@[i].0.digest@, self.revoked@[i].1@))
    }

    /// Stored capabilities by content address.
    pub open spec fn caps_map(&self) -> Map<Seq<u8>, Capability> {
        table_map(self.cap_pairs())
    }

    /// Revocation reasons by content address.
    pub open spec fn revoked_map(&self) -> Map<Seq<u8>, Seq<char>> {
        table_map(self.revoked_pairs())
    }

    /// The configured maximum chain depth.
    pub closed spec fn max_depth_spec(&self) -> u32 {
        self.max_depth
    }

    /// An empty store with the default maximum chain depth.
    pub fn new() -> (s: MemoryCapabilityStore)
        ensures
            s.caps_map() == Map::<Seq<u8>, Capability>::empty(),
            s.revoked_map() == Map::<Seq<u8>, Seq<char>>::empty(),
            s.max_depth_spec() == crate::DEFAULT_MAX_CHAIN_DEPTH,
    {
        MemoryCapabilityStore::with_max_depth(crate::DEFAULT_MAX_CHAIN_DEPTH)
    }

    /// An empty store with the given maximum chain depth.
    pub fn with_max_depth(max_depth: u32) -> (s: MemoryCapabilityStore)
        ensures
            s.caps_map() == Map::<Seq<u8>, Capability>::empty(),
            s.revoked_map() == Map::<Seq<u8>, Seq<char>>::empty(),
            s.max_depth_spec() == max_depth,
    {
        let s = MemoryCapabilityStore { caps: Vec::new(), revoked: Vec::new(), max_depth };
        assert(s.cap_pairs() =~= Seq::<(Seq<u8>, Capability)>::empty());
        assert(s.revoked_pairs() =~= Seq::<(Seq<u8>, Seq<char>)>::empty());
        assert(s.caps_map() =~= Map::<Seq<u8>, Capability>::empty());
        assert(s.revoked_map() =~= Map::<Seq<u8>, Seq<char>>::empty());
        s
    }

    /// The configured maximum chain depth.
    pub fn max_depth(&self) -> (m: u32)
        ensures
            m == self.max_depth_spec(),
    {
        self.max_depth
    }

    fn find_cap(&self, id: &ContentHash) -> (r: Option<usize>)
        ensures
            match r {
                Some(i) => i as int == table_last(self.cap_pairs(), id.digest@),
                None => table_last(self.cap_pairs(), id.digest@) == -1,
            },
    {
        let mut i: usize = self.caps.len();
        while i > 0
            invariant
                i <= self.caps@.len(),
                forall|j: int| i <= j < self.cap_pairs().len() ==> self.cap_pairs()[j].0 != id.digest@,
            decreases i,
        {
            if self.caps[i - 1].0.same_as(id) {
                proof {
                    lemma_table_last_at(self.cap_pairs(), id.digest@, i - 1);
                }
                return Some(i - 1);
            }
            i = i - 1;
        }
        proof {
            lemma_table(self.cap_pairs(), id.digest@);
            if table_last(self.cap_pairs(), id.digest@) >= 0 {
                assert(self.cap_pairs()[table_last(self.cap_pairs(), id.digest@)].0 == id.digest@);
            }
        }
        None
    }

    fn find_revoked(&self, id: &ContentHash) -> (r: Option<usize>)
        ensures
            match r {
                Some(i) => i as int == table_last(self.revoked_pairs(), id.digest@),
                None => table_last(self.revoked_pairs(), id.digest@) == -1,
            },
    {
        let mut i: usize = self.revoked.len();
        while i > 0
            invariant
                i <= self.revoked@.len(),
                forall|j: int| i <= j < self.revoked_pairs().len() ==> self.revoked_pairs()[j].0 != id.digest@,
            decreases i,
        {
            if self.revoked[i - 1].0.same_as(id) {
                proof {
                    lemma_table_last_at(self.revoked_pairs(), id.digest@, i - 1);
                }
                return Some(i - 1);
            }
            i = i - 1;
        }
        proof {
            lemma_table(self.revoked_pairs(), id.digest@);
            if table_last(self.revoked_pairs(), id.digest@) >= 0 {
                assert(self.revoked_pairs()[table_last(self.revoked_pairs(), id.digest@)].0 == id.digest@);
            }
        }
        None
    }

    /// The stored capability `id`, revoked or not.
    fn stored(&self, id: &ContentHash) -> (r: Option<&Capability>)
        ensures
            match r {
                Some(c) => self.caps_map().contains_key(id.digest@) && *c == self.caps_map()[id.digest@],
                None => !self.caps_map().contains_key(id.digest@),
            },
    {
        proof {
            lemma_table(self.cap_pairs(), id.digest@);
        }
        match self.find_cap(id) {
            Some(i) => Some(&self.caps[i].1),
            None => None,
        }
    }

    /// Whether `id` is revoked.
    pub fn is_revoked(&self, id: &ContentHash) -> (b: bool)
        ensures
            b == self.revoked_map().contains_key(id.digest@),
    {
        proof {
            lemma_table(self.revoked_pairs(), id.digest@);
        }
        self.find_revoked(id).is_some()
    }

    fn put(&mut self, id: ContentHash, cap: Capability)
        ensures
            final(self).caps_map() == old(self).caps_map().insert(id.digest@, cap),
            final(self).revoked_map() == old(self).revoked_map(),
            final(self).max_depth_spec() == old(self).max_depth_spec(),
    {
        let ghost p = self.cap_pairs();
        let ghost k = id.digest@;
        proof {
            lemma_table(p, k);
        }
        match self.find_cap(&id) {
            Some(i) => {
                self.caps.set(i, (id, cap));
                proof {
                    assert(self.cap_pairs() =~= p.update(i as int, (k, cap)));
                    lemma_table_update(p, k, cap);
                }
            },
            None => {
                self.caps.push((id, cap));
                proof {
                    assert(self.cap_pairs() =~= p.push((k, cap)));
                    lemma_table_push(p, k, cap);
                }
            },
        }
    }

    /// Store a root capability under its content address `capability_id`,
    /// unless its subject is quarantined.
    pub fn issue(&mut self, capability_id: ContentHash, capability: Capability, subject_quarantined: bool) -> (r:
        Result<ContentHash, CapabilityError>)
        ensures
            subject_quarantined ==> (r matches Err(CapabilityError::SubjectQuarantined(a))
                && a.bytes@ == capability.subject.bytes@) && final(self).caps_map() == old(self).caps_map(),
            !subject_quarantined ==> (r matches Ok(h) && h.digest@ == capability_id.digest@)
                && final(self).caps_map() == old(self).caps_map().insert(capability_id.digest@, capability),
            final(self).revoked_map() == old(self).revoked_map(),
            final(self).max_depth_spec() == old(self).max_depth_spec(),
    {
        if subject_quarantined {
            return Err(CapabilityError::SubjectQuarantined(capability.subject));
        }
        let out = capability_id.duplicate();
        self.put(capability_id, capability);
        Ok(out)
    }

    /// Store an attenuated capability under `child_id`: refused when its
    /// subject is quarantined, when it names no parent or an unknown one,
    /// or when its scope is not within the parent's (the intersection of
    /// the two must equal the child's scope).
    pub fn attenuate(&mut self, child_id: ContentHash, child: Capability, subject_quarantined: bool) -> (r:
        Result<ContentHash, CapabilityError>)
        ensures
            final(self).revoked_map() == old(self).revoked_map(),
            final(self).max_depth_spec() == old(self).max_depth_spec(),
            subject_quarantined ==> (r matches Err(CapabilityError::SubjectQuarantined(a)) && a.bytes@
                == child.subject.bytes@),
            !subject_quarantined && child.parent is None ==> (r matches Err(
                CapabilityError::MissingField(f),
            ) && f@ == "parent"@),
            !subject_quarantined && child.parent is Some && !old(self).caps_map().contains_key(
                child.parent->0.digest@,
            ) ==> (r matches Err(CapabilityError::ParentNotFound(h)) && h.digest@ == child.parent->0.digest@),
            !subject_quarantined && child.parent is Some && old(self).caps_map().contains_key(
                child.parent->0.digest@,
            ) ==> {
                let inter = intersect_views(
                    scope_view(old(self).caps_map()[child.parent->0.digest@].scope),
                    scope_view(child.scope),
                );
                if inter != scope_view(child.scope) {
                    r matches Err(CapabilityError::AttenuationBroadens { detail }) && detail@
                        == "child scope is not a subset of parent's"@
                } else {
                    r matches Ok(h) && h.digest@ == child_id.digest@
                }
            },
            r is Ok ==> final(self).caps_map() == old(self).caps_map().insert(child_id.digest@, child),
            r is Err ==> final(self).caps_map() == old(self).caps_map(),
    {
        if subject_quarantined {
            return Err(CapabilityError::SubjectQuarantined(child.subject));
        }
        let parent_hash = match &child.parent {
            Some(p) => p.duplicate(),
            None => {
                return Err(CapabilityError::MissingField("parent"));
            },
        };
        let parent = match self.stored(&parent_hash) {
            Some(p) => p,
            None => {
                return Err(CapabilityError::ParentNotFound(parent_hash));
            },
        };
        let intersected = parent.scope.intersect(&child.scope);
        if !intersected.same_as(&child.scope) {
            proof {
                assert(scope_view(intersected) == intersect_views(scope_view(parent.scope), scope_view(child.scope)));
                if intersect_views(scope_view(parent.scope), scope_view(child.scope)) == scope_view(child.scope) {
                    assert(intersected.same_spec(&child.scope));
                }
            }
            return Err(
                CapabilityError::AttenuationBroadens { detail: owned("child scope is not a subset of parent's") },
            );
        }
        proof {
            assert(scope_view(intersected) =~= scope_view(child.scope));
        }
        let out = child_id.duplicate();
        self.put(child_id, child);
        Ok(out)
    }

    /// Revoke a stored capability, recording the reason; returns its swarm
    /// (the swarm its revocation is recorded against).
    pub fn revoke(&mut self, capability_id: &ContentHash, reason: &str) -> (r: Result<SwarmId, CapabilityError>)
        ensures
            final(self).caps_map() == old(self).caps_map(),
            final(self).max_depth_spec() == old(self).max_depth_spec(),
            !old(self).caps_map().contains_key(capability_id.digest@) ==> (r matches Err(
                CapabilityError::Backend(m),
            ) && m@ == "capability not found: "@ + hex_spec(capability_id.digest@))
                && final(self).revoked_map() == old(self).revoked_map(),
            old(self).caps_map().contains_key(capability_id.digest@) ==> (r matches Ok(s) && s.bytes@
                == old(self).caps_map()[capability_id.digest@].swarm_id.bytes@) && final(self).revoked_map()
                == old(self).revoked_map().insert(capability_id.digest@, reason@),
    {
        let swarm = match self.stored(capability_id) {
            Some(c) => c.swarm_id.duplicate(),
            None => {
                let mut m = owned("capability not found: ");
                m.append(hex_encode(&capability_id.digest).as_str());
                return Err(CapabilityError::Backend(m));
            },
        };
        let ghost p = self.revoked_pairs();
        let ghost k = capability_id.digest@;
        let ghost v = reason@;
        proof {
            lemma_table(p, k);
        }
        match self.find_revoked(capability_id) {
            Some(i) => {
                self.revoked.set(i, (capability_id.duplicate(), owned(reason)));
                proof {
                    assert(self.revoked_pairs() =~= p.update(i as int, (k, v)));
                    lemma_table_update(p, k, v);
                }
            },
            None => {
                self.revoked.push((capability_id.duplicate(), owned(reason)));
                proof {
                    assert(self.revoked_pairs() =~= p.push((k, v)));
                    lemma_table_push(p, k, v);
                }
            },
        }
        Ok(swarm)
    }

    /// The capability `capability_id`, unless unknown or revoked.
    pub fn lookup(&self, capability_id: &ContentHash) -> (r: Option<&Capability>)
        ensures
            match r {
                Some(c) => !self.revoked_map().contains_key(capability_id.digest@)
                    && self.caps_map().contains_key(capability_id.digest@) && *c
                    == self.caps_map()[capability_id.digest@],
                None => self.revoked_map().contains_key(capability_id.digest@)
                    || !self.caps_map().contains_key(capability_id.digest@),
            },
    {
        if self.is_revoked(capability_id) {
            return None;
        }
        self.stored(capability_id)
    }
}

/// `walk` continued after the links `chain`: a completed rest is put
/// behind them; any other end passes through.
pub open spec fn after_links(chain: Seq<Capability>, w: ChainWalk) -> ChainWalk {
    match w {
        ChainWalk::Complete(rest) => ChainWalk::Complete(chain + rest),
        other => other,
    }
}

/// The capabilities behind references.
pub open spec fn deref_caps(v: Seq<&Capability>) -> Seq<Capability> {
    v.map_values(|c: &Capability| *c)
}

/// The swarm reported with an outcome: the leaf's, when it is stored.
pub open spec fn leaf_swarm(caps: Map<Seq<u8>, Capability>, id: Seq<u8>, s: Option<SwarmId>) -> bool {
    if caps.contains_key(id) {
        s matches Some(w) && w.bytes@ == caps[id].swarm_id.bytes@
    } else {
        s is None
    }
}

impl MemoryCapabilityStore {
    /// The leaf's swarm, when the leaf is stored.
    fn leaf_swarm_of(&self, id: &ContentHash) -> (s: Option<SwarmId>)
        ensures
            leaf_swarm(self.caps_map(), id.digest@, s),
    {
        match self.stored(id) {
            Some(c) => Some(c.swarm_id.duplicate()),
            None => None,
        }
    }

    /// Walk the parent links from `capability_id` up to the root.
    #[verifier::loop_isolation(false)]
    fn walk_chain(&self, capability_id: &ContentHash, now: &Timestamp) -> (r: Result<Vec<&Capability>, Result<CheckOutcome, CapabilityError>>)
        ensures
            match walk(self.caps_map(), self.revoked_map(), capability_id.digest@, 0, self.max_depth_spec() as int, now.monotonic_ns) {
                ChainWalk::TooDeep(d) => r matches Err(Err(CapabilityError::ChainTooDeep { actual, max })) && actual == capped_u32(d) && max == self.max_depth_spec(),
                ChainWalk::Revoked => r matches Err(Ok(o)) && plain_deny(o, capability_id.digest@, "capability revoked in chain"@),
                ChainWalk::Missing(x) => r matches Err(Err(CapabilityError::Backend(m))) && m@ == "missing chain link: "@ + hex_spec(x),
                ChainWalk::OutsideWindow => r matches Err(Ok(o)) && plain_deny(o, capability_id.digest@, "capability outside validity window"@),
                ChainWalk::Complete(chain) => r matches Ok(v) && deref_caps(v@) == chain && chain.len() > 0,
            },
    {
        let ghost caps = self.caps_map();
        let ghost rev = self.revoked_map();
        let ghost id = capability_id.digest@;
        let ghost max = self.max_depth_spec() as int;
        let ghost nowt = now.monotonic_ns;
        let mut chain: Vec<&Capability> = Vec::new();
        let mut cursor: ContentHash = capability_id.duplicate();
        let mut depth: u64 = 0;
        let mut done = false;
        assert(deref_caps(chain@) =~= Seq::<Capability>::empty());
        assert(after_links(Seq::empty(), walk(caps, rev, id, 0, max, nowt)) == walk(caps, rev, id, 0, max, nowt)) by {
            if let ChainWalk::Complete(rest) = walk(caps, rev, id, 0, max, nowt) {
                assert(Seq::<Capability>::empty() + rest =~= rest);
            }
        }
        while !done
            invariant
                depth as int == chain@.len(),
                depth <= self.max_depth_spec(),
                done ==> walk(caps, rev, id, 0, max, nowt) == ChainWalk::Complete(deref_caps(chain@)),
                done ==> chain@.len() > 0,
                !done ==> walk(caps, rev, id, 0, max, nowt) == after_links(
                    deref_caps(chain@),
                    walk(caps, rev, cursor.digest@, depth as int, max, nowt),
                ),
            decreases self.max_depth_spec() - depth + if done { 0int } else { 1int },
        {
            let ghost before = deref_caps(chain@);
            let ghost w = walk(caps, rev, cursor.digest@, depth as int, max, nowt);
            depth = depth + 1;
            if depth > self.max_depth as u64 {
                let actual: u32 = if depth > 4294967295u64 {
                    4294967295u32
                } else {
                    depth as u32
                };
                return Err(Err(CapabilityError::ChainTooDeep { actual, max: self.max_depth }));
            }
            if self.is_revoked(&cursor) {
                return Err(Ok(CheckOutcome::deny(Some(capability_id.duplicate()), owned("capability revoked in chain"), Vec::new())));
            }
            let cap = match self.stored(&cursor) {
                Some(c) => c,
                None => {
                    let mut m = owned("missing chain link: ");
                    m.append(hex_encode(&cursor.digest).as_str());
                    return Err(Err(CapabilityError::Backend(m)));
                },
            };
            if !cap.is_within_window(now) {
                return Err(Ok(CheckOutcome::deny(Some(capability_id.duplicate()), owned("capability outside validity window"), Vec::new())));
            }
            chain.push(cap);
            proof {
                assert(deref_caps(chain@) =~= before.push(*cap));
            }
            match &cap.parent {
                None => {
                    proof {
                        assert(w == ChainWalk::Complete(seq![*cap]));
                        assert(before + seq![*cap] =~= before.push(*cap));
                    }
                    done = true;
                },
                Some(p) => {
                    let ghost rest = walk(caps, rev, p.digest@, depth as int, max, nowt);
                    proof {
                        assert(after_links(before, w) == after_links(before.push(*cap), rest)) by {
                            if let ChainWalk::Complete(r2) = rest {
                                assert(before + (seq![*cap] + r2) =~= before.push(*cap) + r2);
                            }
                        }
                    }
                    cursor = p.duplicate();
                },
            }
        }
        Ok(chain)
    }

    /// Check an action against capability `capability_id` and its chain
    /// at time `now`: a stored, unrevoked leaf whose subject is
    /// quarantined is denied outright; otherwise the chain is walked
    /// (too deep and missing links are errors; a revoked link or one
    /// outside its window denies), then the effective scope and every
    /// caveat of the chain decide. The leaf's swarm comes with the
    /// outcome.
    pub fn check_inner(
        &self,
        capability_id: &ContentHash,
        descriptor: &ActionDescriptor,
        now: &Timestamp,
        leaf_quarantined: bool,
    ) -> (r: Result<(CheckOutcome, Option<SwarmId>), CapabilityError>)
        ensures
            r matches Ok(p) ==> leaf_swarm(self.caps_map(), capability_id.digest@, p.1),
            check_result(
                self.caps_map(),
                self.revoked_map(),
                self.max_depth_spec(),
                capability_id.digest@,
                *descriptor,
                now.monotonic_ns,
                leaf_quarantined,
                r,
            ),
    {
        let swarm = self.leaf_swarm_of(capability_id);
        if swarm.is_some() && !self.is_revoked(capability_id) && leaf_quarantined {
            return Ok((CheckOutcome::deny(Some(capability_id.duplicate()), owned("subject_quarantined"), Vec::new()), swarm));
        }
        let chain = match self.walk_chain(capability_id, now) {
            Ok(c) => c,
            Err(Ok(o)) => {
                return Ok((o, swarm));
            },
            Err(Err(e)) => {
                return Err(e);
            },
        };
        let ghost g = deref_caps(chain@);
        let n = chain.len();
        let mut eff = chain[n - 1].scope.duplicate();
        proof {
            assert(g.skip(n - 1).len() == 1);
            assert(g.skip(n - 1)[0] == g[n - 1]);
            assert(g[n - 1] == *chain@[n - 1]);
        }
        let mut i: usize = n - 1;
        while i > 0
            invariant
                n == chain@.len(),
                g == deref_caps(chain@),
                i < n,
                scope_view(eff) == effective_scope(g.skip(i as int)),
            decreases i,
        {
            let next = eff.intersect(&chain[i - 1].scope);
            proof {
                assert(g.skip(i - 1).drop_first() =~= g.skip(i as int));
                assert(g.skip(i - 1)[0] == g[i - 1]);
                assert(g[i - 1] == *chain@[i - 1]);
                assert(scope_view(next) =~= intersect_views(scope_view(eff), scope_view(chain@[i - 1].scope)));
            }
            eff = next;
            i = i - 1;
        }
        assert(g.skip(0) =~= g);
        if !eff.permits(descriptor) {
            return Ok(
                (
                    CheckOutcome::deny(
                        Some(capability_id.duplicate()),
                        owned("effective scope (after chain intersection) does not permit action"),
                        Vec::new(),
                    ),
                    swarm,
                ),
            );
        }
        let ghost tags = descriptor.resource_tags.deep_view();
        let mut matched: Vec<String> = Vec::new();
        let mut unmet: Vec<String> = Vec::new();
        let mut k: usize = n;
        assert(g.skip(n as int) =~= Seq::<Capability>::empty());
        while k > 0
            invariant
                n == chain@.len(),
                g == deref_caps(chain@),
                k <= n,
                tags == descriptor.resource_tags.deep_view(),
                matched.deep_view() == chain_labels(g.skip(k as int), tags, true),
                unmet.deep_view() == chain_labels(g.skip(k as int), tags, false),
            decreases k,
        {
            let (mut m, mut u) = evaluate_caveats(&chain[k - 1].caveats, descriptor);
            let ghost m0 = matched.deep_view();
            let ghost u0 = unmet.deep_view();
            let ghost mv = m.deep_view();
            let ghost uv = u.deep_view();
            matched.append(&mut m);
            unmet.append(&mut u);
            proof {
                assert(g.skip(k - 1).drop_first() =~= g.skip(k as int));
                assert(g.skip(k - 1)[0] == g[k - 1]);
                assert(g[k - 1] == *chain@[k - 1]);
                assert(matched.deep_view() =~= m0 + mv);
                assert(unmet.deep_view() =~= u0 + uv);
            }
            k = k - 1;
        }
        if unmet.len() > 0 {
            return Ok((CheckOutcome::deny(Some(capability_id.duplicate()), owned("caveat(s) in chain not met"), unmet), swarm));
        }
        Ok((CheckOutcome::permit(Some(capability_id.duplicate()), matched), swarm))
    }
}

impl MemoryCapabilityStore {
    /// The stored pair at `i` is the one its key maps to.
    pub open spec fn cap_current(&self, i: int) -> bool {
        0 <= i < self.cap_pairs().len() && table_last(self.cap_pairs(), self.cap_pairs()[i].0) == i
    }

    /// The unrevoked capabilities of `agent_id`, each once, in no
    /// particular order.
    pub fn list_for_subject(&self, agent_id: &AgentId) -> (r: Vec<ContentHash>)
        ensures
            forall|j: int|
                0 <= j < r@.len() ==> {
                    let k = (#[trigger] r@[j]).digest@;
                    &&& self.caps_map().contains_key(k)
                    &&& self.caps_map()[k].subject.bytes@ == agent_id.bytes@
                    &&& !self.revoked_map().contains_key(k)
                },
            forall|k: Seq<u8>|
                #[trigger] self.caps_map().contains_key(k) && self.caps_map()[k].subject.bytes@ == agent_id.bytes@
                    && !self.revoked_map().contains_key(k) ==> exists|j: int| 0 <= j < r@.len() && r@[j].digest@ == k,
            forall|a: int, b: int| 0 <= a < b < r@.len() ==> (#[trigger] r@[a]).digest@ != (#[trigger] r@[b]).digest@,
    {
        let mut out: Vec<ContentHash> = Vec::new();
        let ghost mut idx: Seq<int> = Seq::empty();
        let mut i: usize = 0;
        while i < self.caps.len()
            invariant
                i <= self.caps@.len(),
                out@.len() == idx.len(),
                forall|j: int|
                    0 <= j < idx.len() ==> 0 <= #[trigger] idx[j] < i && out@[j].digest@ == self.cap_pairs()[idx[j]].0
                        && self.cap_current(idx[j]),
                forall|a: int, b: int| 0 <= a < b < idx.len() ==> #[trigger] idx[a] < #[trigger] idx[b],
                forall|j: int|
                    0 <= j < out@.len() ==> self.cap_pairs()[idx[j]].1.subject.bytes@ == agent_id.bytes@
                        && !self.revoked_map().contains_key((#[trigger] out@[j]).digest@),
                forall|k: int|
                    0 <= k < i && self.cap_current(k) && self.cap_pairs()[k].1.subject.bytes@ == agent_id.bytes@
                        && !self.revoked_map().contains_key(self.cap_pairs()[k].0) ==> exists|j: int|
                        0 <= j < idx.len() && #[trigger] idx[j] == k,
            decreases self.caps.len() - i,
        {
            let id = &self.caps[i].0;
            let current = match self.find_cap(id) {
                Some(j) => j == i,
                None => false,
            };
            if current && self.caps[i].1.subject.same_as(agent_id) && !self.is_revoked(id) {
                out.push(id.duplicate());
                proof {
                    let old_idx = idx;
                    idx = idx.push(i as int);
                    assert forall|k: int|
                        0 <= k < i + 1 && self.cap_current(k) && self.cap_pairs()[k].1.subject.bytes@
                            == agent_id.bytes@ && !self.revoked_map().contains_key(self.cap_pairs()[k].0)
                            implies exists|j: int| 0 <= j < idx.len() && #[trigger] idx[j] == k by {
                        if k < i {
                            let j = choose|j: int| 0 <= j < old_idx.len() && #[trigger] old_idx[j] == k;
                            assert(idx[j] == old_idx[j]);
                        } else {
                            assert(idx[idx.len() - 1] == k);
                        }
                    }
                }
            }
            i = i + 1;
        }
        proof {
            assert forall|j: int| 0 <= j < out@.len() implies {
                let k = (#[trigger] out@[j]).digest@;
                &&& self.caps_map().contains_key(k)
                &&& self.caps_map()[k].subject.bytes@ == agent_id.bytes@
                &&& !self.revoked_map().contains_key(k)
            } by {
                lemma_table(self.cap_pairs(), self.cap_pairs()[idx[j]].0);
            }
            assert forall|k: Seq<u8>|
                #[trigger] self.caps_map().contains_key(k) && self.caps_map()[k].subject.bytes@ == agent_id.bytes@
                    && !self.revoked_map().contains_key(k) implies exists|j: int| 0 <= j < out@.len() && out@[j].digest@ == k by {
                lemma_table(self.cap_pairs(), k);
                let t = table_last(self.cap_pairs(), k);
                assert(self.cap_pairs()[t].0 == k);
                assert(self.cap_current(t));
                assert(0 <= t < i);
                assert(exists|j: int| 0 <= j < idx.len() && #[trigger] idx[j] == t);
                let j = choose|j: int| 0 <= j < idx.len() && #[trigger] idx[j] == t;
                assert(out@[j].digest@ == k);
            }
            assert forall|a: int, b: int| 0 <= a < b < out@.len() implies (#[trigger] out@[a]).digest@
                != (#[trigger] out@[b]).digest@ by {
                let ka = idx[a];
                let kb = idx[b];
                assert(ka < kb);
            }
        }
        out
    }
}

/// Attenuation never broadens: a child whose scope is the intersection
/// of its parent's and its own (what `attenuate` requires) admits only
/// actions the parent admits, wherever the bounds both set on one key read
/// as comparable decimals.
pub proof fn lemma_attenuation_within_parent(parent: Scope, child: Scope, d: ActionDescriptor)
    requires
        intersect_views(scope_view(parent), scope_view(child)) == scope_view(child),
        crate::scope::bounds_comparable(parent.bounds@, child.bounds@),
        child.permits_spec(&d),
    ensures
        parent.permits_spec(&d),
{
    assert(child.is_intersection(&parent, &child));
    crate::scope::lemma_intersection_narrows(parent, child, child, d);
}

/// Revocation takes effect at once: after revoking capability `id`, the
/// walk from it stops at the revocation (a check of it denies with
/// `capability revoked in chain`), whenever the depth limit admits one
/// link.
pub proof fn lemma_revocation_denies(
    caps: Map<Seq<u8>, Capability>,
    revoked: Map<Seq<u8>, Seq<char>>,
    id: Seq<u8>,
    reason: Seq<char>,
    max: int,
    now: u64,
)
    requires
        max >= 1,
    ensures
        walk(caps, revoked.insert(id, reason), id, 0, max, now) == ChainWalk::Revoked,
{
}

/// A walk that completes passes no revoked link: neither the leaf nor the
/// parent named by any link of the chain is revoked, and each link's
/// parent is the next link.
pub proof fn lemma_complete_walk_unrevoked(
    caps: Map<Seq<u8>, Capability>,
    revoked: Map<Seq<u8>, Seq<char>>,
    id: Seq<u8>,
    depth: int,
    max: int,
    now: u64,
)
    requires
        walk(caps, revoked, id, depth, max, now) is Complete,
    ensures
        ({
            let c = walk(caps, revoked, id, depth, max, now)->Complete_0;
            &&& !revoked.contains_key(id)
            &&& c.len() >= 1
            &&& c[0] == caps[id]
            &&& forall|k: int|
                0 <= k < c.len() - 1 ==> ((#[trigger] c[k]).parent matches Some(p) && !revoked.contains_key(
                    p.digest@,
                ) && c[k + 1] == caps[p.digest@])
            &&& c[c.len() - 1].parent is None
        }),
    decreases max - depth,
{
    let c = walk(caps, revoked, id, depth, max, now)->Complete_0;
    match caps[id].parent {
        None => {},
        Some(p) => {
            lemma_complete_walk_unrevoked(caps, revoked, p.digest@, depth + 1, max, now);
            let rest = walk(caps, revoked, p.digest@, depth + 1, max, now)->Complete_0;
            assert(c == seq![caps[id]] + rest);
            assert forall|k: int| 0 <= k < c.len() - 1 implies ((#[trigger] c[k]).parent matches Some(q)
                && !revoked.contains_key(q.digest@) && c[k + 1] == caps[q.digest@]) by {
                if k == 0 {
                    assert(c[1] == rest[0]);
                } else {
                    assert(c[k] == rest[k - 1]);
                    assert(c[k + 1] == rest[k]);
                }
            }
        },
    }
}


proof fn lemma_refused_caveat_listed(cs: Seq<Caveat>, tags: Seq<Seq<char>>, j: int)
    requires
        0 <= j < cs.len(),
        !caveat_permits_spec(cs[j], tags),
    ensures
        caveat_labels(cs, tags, false).contains(caveat_label_spec(cs[j])),
    decreases cs.len(),
{
    let prefix = caveat_labels(cs.drop_last(), tags, false);
    if j == cs.len() - 1 {
        assert(caveat_labels(cs, tags, false) == prefix.push(caveat_label_spec(cs[j])));
        assert(caveat_labels(cs, tags, false)[prefix.len() as int] == caveat_label_spec(cs[j]));
    } else {
        assert(cs.drop_last()[j] == cs[j]);
        lemma_refused_caveat_listed(cs.drop_last(), tags, j);
        let k = choose|k: int| 0 <= k < prefix.len() && prefix[k] == caveat_label_spec(cs[j]);
        if caveat_permits_spec(cs.last(), tags) == false {
            assert(caveat_labels(cs, tags, false)[k] == prefix[k]);
        }
    }
}

proof fn lemma_refused_in_chain(chain: Seq<Capability>, tags: Seq<Seq<char>>, k: int, j: int)
    requires
        0 <= k < chain.len(),
        0 <= j < chain[k].caveats@.len(),
        !caveat_permits_spec(chain[k].caveats@[j], tags),
    ensures
        chain_labels(chain, tags, false).contains(caveat_label_spec(chain[k].caveats@[j])),
    decreases chain.len(),
{
    let c = chain[k].caveats@[j];
    let rest = chain_labels(chain.drop_first(), tags, false);
    let own = caveat_labels(chain[0].caveats@, tags, false);
    assert(chain_labels(chain, tags, false) == rest + own);
    if k == 0 {
        lemma_refused_caveat_listed(chain[0].caveats@, tags, j);
        let q = choose|q: int| 0 <= q < own.len() && own[q] == caveat_label_spec(c);
        assert((rest + own)[rest.len() + q] == own[q]);
    } else {
        assert(chain.drop_first()[k - 1] == chain[k]);
        lemma_refused_in_chain(chain.drop_first(), tags, k - 1, j);
        let q = choose|q: int| 0 <= q < rest.len() && rest[q] == caveat_label_spec(c);
        assert((rest + own)[q] == rest[q]);
    }
}

/// Every caveat of every link binds: when a caveat of any capability of
/// a completely walked chain (the leaf or any ancestor) refuses the
/// action, the check is not permitted, and when the effective scope
/// admits the action the refusal is reported among the unmet caveats.
/// So delegation never sheds an ancestor's caveats.
pub proof fn lemma_chain_caveats_bind(
    o: CheckOutcome,
    id: Seq<u8>,
    chain: Seq<Capability>,
    d: ActionDescriptor,
    k: int,
    j: int,
)
    requires
        chain_outcome(o, id, chain, d),
        0 <= k < chain.len(),
        0 <= j < chain[k].caveats@.len(),
        !caveat_permits_spec(chain[k].caveats@[j], d.resource_tags.deep_view()),
    ensures
        !o.permitted,
        view_permits(effective_scope(chain), d) ==> o.unmet_caveats.deep_view().contains(
            caveat_label_spec(chain[k].caveats@[j]),
        ),
{
    lemma_refused_in_chain(chain, d.resource_tags.deep_view(), k, j);
}
} // verus!
