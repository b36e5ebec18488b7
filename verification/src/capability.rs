//! [`Capability`] — the authority token itself — and its builder.

use vstd::prelude::*;

use crate::caveat::{caveat_label, caveat_label_spec, caveat_permits_spec, Caveat};
use crate::check::{ActionDescriptor, CheckOutcome};
use crate::error::CapabilityError;
use crate::ids::{AgentId, ContentHash, SwarmId, Timestamp};
use crate::scope::Scope;
use crate::text::owned;

verus! {

/// Who minted a capability.
#[derive(Debug, Clone)]
pub enum Issuer {
    /// Attenuating from a held capability.
    Agent(AgentId),
    /// Operator-issued root capability; the value is the operator-key
    /// fingerprint.
    Operator(Vec<u8>),
    /// Control-plane-issued capability.
    ControlPlane(ControlPlaneIssuer),
}

/// Control-plane issuer identity.
#[derive(Debug, Clone)]
pub struct ControlPlaneIssuer {
    /// SHA-256 of the control-plane's signing key. 32 bytes.
    pub control_plane_key_fingerprint: Vec<u8>,
    /// Control-plane-instance identifier; observability hint.
    pub instance_id: String,
}

/// A signed authority token.
#[derive(Debug, Clone)]
pub struct Capability {
    /// Spec version (semver text).
    pub spec_version: String,
    /// Stable capability id (UUID v7, 16 bytes).
    pub capability_id: Vec<u8>,
    /// Swarm where this capability is valid.
    pub swarm_id: SwarmId,
    /// Who issued it.
    pub issuer: Issuer,
    /// Who can use it.
    pub subject: AgentId,
    /// What it permits.
    pub scope: Scope,
    /// Content-address of the parent capability (None for a root).
    pub parent: Option<ContentHash>,
    /// Window: not before.
    pub valid_from: Timestamp,
    /// Window: not after.
    pub valid_until: Timestamp,
    /// Caveats further constraining when the capability is valid.
    pub caveats: Vec<Caveat>,
    /// Optional revocation-check endpoint.
    pub revocation_endpoint: String,
    /// Issuer's signature over the canonical bytes.
    pub issuer_signature: Option<Vec<u8>>,
}

/// Labels of the caveats in `cs` that admit (`admitted`) or refuse
/// (`!admitted`) an action with the resource tags `tags`, in order.
pub open spec fn caveat_labels(cs: Seq<Caveat>, tags: Seq<Seq<char>>, admitted: bool) -> Seq<Seq<char>>
    decreases cs.len(),
{
    if cs.len() == 0 {
        Seq::empty()
    } else {
        let prefix = caveat_labels(cs.drop_last(), tags, admitted);
        if caveat_permits_spec(cs.last(), tags) == admitted {
            prefix.push(caveat_label_spec(cs.last()))
        } else {
            prefix
        }
    }
}

/// The outcome a single capability gives an action: the scope decides
/// first, then every caveat.
pub open spec fn check_outcome_spec(
    scope_permits: bool,
    caveats: Seq<Caveat>,
    tags: Seq<Seq<char>>,
    capability: Option<ContentHash>,
    o: CheckOutcome,
) -> bool {
    &&& o.capability == capability
    &&& if !scope_permits {
        &&& !o.permitted
        &&& o.deny_reason@ == "scope does not permit action"@
        &&& o.unmet_caveats@.len() == 0
        &&& o.matched_caveats@.len() == 0
    } else if caveat_labels(caveats, tags, false).len() > 0 {
        &&& !o.permitted
        &&& o.deny_reason@ == "caveat(s) not met"@
        &&& o.unmet_caveats.deep_view() == caveat_labels(caveats, tags, false)
        &&& o.matched_caveats@.len() == 0
    } else {
        &&& o.permitted
        &&& o.deny_reason@ == Seq::<char>::empty()
        &&& o.matched_caveats.deep_view() == caveat_labels(caveats, tags, true)
        &&& o.unmet_caveats@.len() == 0
    }
}

/// Evaluate a list of caveats: the labels of those that admit the action
/// and of those that refuse it.
pub fn evaluate_caveats(caveats: &Vec<Caveat>, descriptor: &ActionDescriptor) -> (r: (Vec<String>, Vec<String>))
    ensures
        r.0.deep_view() == caveat_labels(caveats@, descriptor.resource_tags.deep_view(), true),
        r.1.deep_view() == caveat_labels(caveats@, descriptor.resource_tags.deep_view(), false),
{
    let ghost tags = descriptor.resource_tags.deep_view();
    let mut matched: Vec<String> = Vec::new();
    let mut unmet: Vec<String> = Vec::new();
    let mut i: usize = 0;
    while i < caveats.len()
        invariant
            i <= caveats.len(),
            tags == descriptor.resource_tags.deep_view(),
            matched.deep_view() == caveat_labels(caveats@.take(i as int), tags, true),
            unmet.deep_view() == caveat_labels(caveats@.take(i as int), tags, false),
        decreases caveats.len() - i,
    {
        let label = caveat_label(&caveats[i]);
        assert(caveats@.take(i + 1).drop_last() =~= caveats@.take(i as int));
        assert(caveats@.take(i + 1).last() == caveats@[i as int]);
        let ghost m0 = matched@;
        let ghost u0 = unmet@;
        if caveats[i].permits(descriptor) {
            matched.push(label);
            assert(matched.deep_view() =~= caveat_labels(caveats@.take(i as int), tags, true).push(
                caveat_label_spec(caveats@[i as int]),
            )) by {
                assert forall|j: int| 0 <= j < m0.len() implies matched@[j] == m0[j] by {}
            }
        } else {
            unmet.push(label);
            assert(unmet.deep_view() =~= caveat_labels(caveats@.take(i as int), tags, false).push(
                caveat_label_spec(caveats@[i as int]),
            )) by {
                assert forall|j: int| 0 <= j < u0.len() implies unmet@[j] == u0[j] by {}
            }
        }
        i = i + 1;
    }
    assert(caveats@.take(caveats.len() as int) =~= caveats@);
    (matched, unmet)
}

impl Capability {
    /// A builder with every field unset.
    pub fn builder() -> (b: CapabilityBuilder)
        ensures
            b.is_fresh(),
    {
        CapabilityBuilder::new()
    }

    /// Whether `now` lies within the validity window (both ends inclusive,
    /// by monotonic time).
    pub fn is_within_window(&self, now: &Timestamp) -> (r: bool)
        ensures
            r == (self.valid_from.monotonic_ns <= now.monotonic_ns <= self.valid_until.monotonic_ns),
    {
        now.monotonic_ns >= self.valid_from.monotonic_ns && now.monotonic_ns <= self.valid_until.monotonic_ns
    }

    /// Evaluate this capability alone (ignoring any parent chain) against
    /// an action. `cap_id` is the capability's content address, recorded
    /// in the outcome.
    pub fn check(&self, cap_id: Option<ContentHash>, descriptor: &ActionDescriptor) -> (o: CheckOutcome)
        ensures
            check_outcome_spec(
                self.scope.permits_spec(descriptor),
                self.caveats@,
                descriptor.resource_tags.deep_view(),
                cap_id,
                o,
            ),
    {
        if !self.scope.permits(descriptor) {
            return CheckOutcome::deny(cap_id, owned("scope does not permit action"), Vec::new());
        }
        let (matched, unmet) = evaluate_caveats(&self.caveats, descriptor);
        if unmet.len() > 0 {
            return CheckOutcome::deny(cap_id, owned("caveat(s) not met"), unmet);
        }
        CheckOutcome::permit(cap_id, matched)
    }
}

/// Builder for [`Capability`].
#[derive(Debug)]
pub struct CapabilityBuilder {
    spec_version: Option<String>,
    capability_id: Option<Vec<u8>>,
    swarm_id: Option<SwarmId>,
    issuer: Option<Issuer>,
    subject: Option<AgentId>,
    scope: Scope,
    parent: Option<ContentHash>,
    valid_from: Option<Timestamp>,
    valid_until: Option<Timestamp>,
    caveats: Vec<Caveat>,
    revocation_endpoint: String,
}

/// The name of the first required field a builder lacks, in the order
/// `build` checks them.
pub open spec fn first_missing(b: CapabilityBuilder) -> Option<Seq<char>> {
    if b.spec_version_spec().is_none() {
        Some("spec_version"@)
    } else if b.capability_id_spec().is_none() {
        Some("capability_id"@)
    } else if b.swarm_id_spec().is_none() {
        Some("swarm_id"@)
    } else if b.issuer_spec().is_none() {
        Some("issuer"@)
    } else if b.subject_spec().is_none() {
        Some("subject"@)
    } else if b.valid_from_spec().is_none() {
        Some("valid_from"@)
    } else if b.valid_until_spec().is_none() {
        Some("valid_until"@)
    } else {
        None
    }
}

impl CapabilityBuilder {
    pub closed spec fn spec_version_spec(&self) -> Option<String> {
        self.spec_version
    }

    pub closed spec fn capability_id_spec(&self) -> Option<Vec<u8>> {
        self.capability_id
    }

    pub closed spec fn swarm_id_spec(&self) -> Option<SwarmId> {
        self.swarm_id
    }

    pub closed spec fn issuer_spec(&self) -> Option<Issuer> {
        self.issuer
    }

    pub closed spec fn subject_spec(&self) -> Option<AgentId> {
        self.subject
    }

    pub closed spec fn scope_spec(&self) -> Scope {
        self.scope
    }

    pub closed spec fn parent_spec(&self) -> Option<ContentHash> {
        self.parent
    }

    pub closed spec fn valid_from_spec(&self) -> Option<Timestamp> {
        self.valid_from
    }

    pub closed spec fn valid_until_spec(&self) -> Option<Timestamp> {
        self.valid_until
    }

    pub closed spec fn caveats_spec(&self) -> Seq<Caveat> {
        self.caveats@
    }

    pub closed spec fn revocation_endpoint_spec(&self) -> Seq<char> {
        self.revocation_endpoint@
    }

    /// No field set yet: empty scope, no caveats, empty endpoint.
    pub open spec fn is_fresh(&self) -> bool {
        &&& self.spec_version_spec().is_none()
        &&& self.capability_id_spec().is_none()
        &&& self.swarm_id_spec().is_none()
        &&& self.issuer_spec().is_none()
        &&& self.subject_spec().is_none()
        &&& self.scope_spec().is_empty_spec()
        &&& self.parent_spec().is_none()
        &&& self.valid_from_spec().is_none()
        &&& self.valid_until_spec().is_none()
        &&& self.caveats_spec().len() == 0
        &&& self.revocation_endpoint_spec().len() == 0
    }

    /// Every field of `self` but the ones a setter names equals `old`'s.
    pub open spec fn same_except(&self, old: &CapabilityBuilder, field: int) -> bool {
        &&& (field != 0 ==> self.spec_version_spec() == old.spec_version_spec())
        &&& (field != 1 ==> self.capability_id_spec() == old.capability_id_spec())
        &&& (field != 2 ==> self.swarm_id_spec() == old.swarm_id_spec())
        &&& (field != 3 ==> self.issuer_spec() == old.issuer_spec())
        &&& (field != 4 ==> self.subject_spec() == old.subject_spec())
        &&& (field != 5 ==> self.scope_spec() == old.scope_spec())
        &&& (field != 6 ==> self.parent_spec() == old.parent_spec())
        &&& (field != 7 ==> self.valid_from_spec() == old.valid_from_spec())
        &&& (field != 8 ==> self.valid_until_spec() == old.valid_until_spec())
        &&& (field != 9 ==> self.caveats_spec() == old.caveats_spec())
        &&& (field != 10 ==> self.revocation_endpoint_spec() == old.revocation_endpoint_spec())
    }

    /// A builder with every field unset.
    pub fn new() -> (b: CapabilityBuilder)
        ensures
            b.is_fresh(),
    {
        CapabilityBuilder {
            spec_version: None,
            capability_id: None,
            swarm_id: None,
            issuer: None,
            subject: None,
            scope: Scope::empty(),
            parent: None,
            valid_from: None,
            valid_until: None,
            caveats: Vec::new(),
            revocation_endpoint: String::new(),
        }
    }

    /// Required: spec version.
    pub fn spec_version(self, v: String) -> (b: CapabilityBuilder)
        ensures
            b.spec_version_spec() == Some(v),
            b.same_except(&self, 0),
    {
        let mut b = self;
        b.spec_version = Some(v);
        b
    }

    /// Required: capability id (16-byte UUID v7).
    pub fn capability_id(self, id: Vec<u8>) -> (b: CapabilityBuilder)
        ensures
            b.capability_id_spec() == Some(id),
            b.same_except(&self, 1),
    {
        let mut b = self;
        b.capability_id = Some(id);
        b
    }

    /// Required: swarm id.
    pub fn swarm_id(self, id: SwarmId) -> (b: CapabilityBuilder)
        ensures
            b.swarm_id_spec() == Some(id),
            b.same_except(&self, 2),
    {
        let mut b = self;
        b.swarm_id = Some(id);
        b
    }

    /// Required: issuer.
    pub fn issuer(self, issuer: Issuer) -> (b: CapabilityBuilder)
        ensures
            b.issuer_spec() == Some(issuer),
            b.same_except(&self, 3),
    {
        let mut b = self;
        b.issuer = Some(issuer);
        b
    }

    /// Required: subject (agent permitted to use the capability).
    pub fn subject(self, id: AgentId) -> (b: CapabilityBuilder)
        ensures
            b.subject_spec() == Some(id),
            b.same_except(&self, 4),
    {
        let mut b = self;
        b.subject = Some(id);
        b
    }

    /// Scope (empty unless set).
    pub fn scope(self, s: Scope) -> (b: CapabilityBuilder)
        ensures
            b.scope_spec() == s,
            b.same_except(&self, 5),
    {
        let mut b = self;
        b.scope = s;
        b
    }

    /// Optional: parent capability for attenuated children.
    pub fn parent(self, hash: ContentHash) -> (b: CapabilityBuilder)
        ensures
            b.parent_spec() == Some(hash),
            b.same_except(&self, 6),
    {
        let mut b = self;
        b.parent = Some(hash);
        b
    }

    /// Required: validity window start.
    pub fn valid_from(self, t: Timestamp) -> (b: CapabilityBuilder)
        ensures
            b.valid_from_spec() == Some(t),
            b.same_except(&self, 7),
    {
        let mut b = self;
        b.valid_from = Some(t);
        b
    }

    /// Required: validity window end.
    pub fn valid_until(self, t: Timestamp) -> (b: CapabilityBuilder)
        ensures
            b.valid_until_spec() == Some(t),
            b.same_except(&self, 8),
    {
        let mut b = self;
        b.valid_until = Some(t);
        b
    }

    /// Optional: add a caveat.
    pub fn caveat(self, caveat: Caveat) -> (b: CapabilityBuilder)
        ensures
            b.caveats_spec() == self.caveats_spec().push(caveat),
            b.same_except(&self, 9),
    {
        let mut b = self;
        b.caveats.push(caveat);
        b
    }

    /// Optional: revocation endpoint URL.
    pub fn revocation_endpoint(self, url: &str) -> (b: CapabilityBuilder)
        ensures
            b.revocation_endpoint_spec() == url@,
            b.same_except(&self, 10),
    {
        let mut b = self;
        b.revocation_endpoint = owned(url);
        b
    }

    /// Build (unsigned). Fails with `MissingField` naming the first
    /// required field that is unset.
    pub fn build(self) -> (r: Result<Capability, CapabilityError>)
        ensures
            match first_missing(self) {
                Some(name) => r matches Err(CapabilityError::MissingField(f)) && f@ == name,
                None => r matches Ok(c) && {
                    &&& Some(c.spec_version) == self.spec_version_spec()
                    &&& Some(c.capability_id) == self.capability_id_spec()
                    &&& Some(c.swarm_id) == self.swarm_id_spec()
                    &&& Some(c.issuer) == self.issuer_spec()
                    &&& Some(c.subject) == self.subject_spec()
                    &&& c.scope == self.scope_spec()
                    &&& c.parent == self.parent_spec()
                    &&& Some(c.valid_from) == self.valid_from_spec()
                    &&& Some(c.valid_until) == self.valid_until_spec()
                    &&& c.caveats@ == self.caveats_spec()
                    &&& c.revocation_endpoint@ == self.revocation_endpoint_spec()
                    &&& c.issuer_signature.is_none()
                },
            },
    {
        let spec_version = match self.spec_version {
            Some(v) => v,
            None => return Err(CapabilityError::MissingField("spec_version")),
        };
        let capability_id = match self.capability_id {
            Some(v) => v,
            None => return Err(CapabilityError::MissingField("capability_id")),
        };
        let swarm_id = match self.swarm_id {
            Some(v) => v,
            None => return Err(CapabilityError::MissingField("swarm_id")),
        };
        let issuer = match self.issuer {
            Some(v) => v,
            None => return Err(CapabilityError::MissingField("issuer")),
        };
        let subject = match self.subject {
            Some(v) => v,
            None => return Err(CapabilityError::MissingField("subject")),
        };
        let valid_from = match self.valid_from {
            Some(v) => v,
            None => return Err(CapabilityError::MissingField("valid_from")),
        };
        let valid_until = match self.valid_until {
            Some(v) => v,
            None => return Err(CapabilityError::MissingField("valid_until")),
        };
        Ok(Capability {
            spec_version,
            capability_id,
            swarm_id,
            issuer,
            subject,
            scope: self.scope,
            parent: self.parent,
            valid_from,
            valid_until,
            caveats: self.caveats,
            revocation_endpoint: self.revocation_endpoint,
            issuer_signature: None,
        })
    }
}

} // verus!
