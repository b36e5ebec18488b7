//! [`Scope`] — what actions / resources / bounds a capability authorizes.
//!
//! Five dimensions: action kinds, resource tags, numeric bounds,
//! recipients, memory scopes. An empty list on a dimension means "all",
//! unless an intersection closed the dimension: two restricting lists that
//! share nothing leave an empty list that admits nothing.
//! Attenuation intersects each dimension.

use vstd::prelude::*;

use crate::check::ActionDescriptor;
use crate::decimal::{decimal_le, lemma_ext_le_total, lemma_ext_le_trans, read_decimal, spec_decimal_le, ExtDecimal};
use crate::string_map::StringMap;
use crate::text::{copy_strings, owned, vec_contains};

verus! {

// ---------------------------------------------------------------------------
// Model
// ---------------------------------------------------------------------------

/// A list dimension as values: its list, and whether it is closed (an
/// empty closed list admits nothing instead of everything).
pub struct Dim {
    pub list: Seq<Seq<char>>,
    pub closed: bool,
}

/// The dimension of list `v` with flag `closed`.
pub open spec fn dim_of(v: &Vec<String>, closed: bool) -> Dim {
    Dim { list: v.deep_view(), closed }
}

/// The dimension admits everything: its list is empty and it is not
/// closed.
pub open spec fn admits_all(d: Dim) -> bool {
    d.list.len() == 0 && !d.closed
}

/// A list dimension admits `x`: it admits everything or lists `x`.
pub open spec fn dim_admits(d: Dim, x: Seq<char>) -> bool {
    admits_all(d) || d.list.contains(x)
}

/// The elements of `l` that `r` lists, in the order of `l`.
pub open spec fn keep_listed(l: Seq<Seq<char>>, r: Seq<Seq<char>>) -> Seq<Seq<char>>
    decreases l.len(),
{
    if l.len() == 0 {
        Seq::empty()
    } else {
        let prefix = keep_listed(l.drop_last(), r);
        if r.contains(l.last()) {
            prefix.push(l.last())
        } else {
            prefix
        }
    }
}

/// Intersection of two list dimensions: a side that admits everything
/// takes the other side; otherwise the common elements, closed when there
/// are none (or when both sides were closed).
pub open spec fn intersect_dim(l: Dim, r: Dim) -> Dim {
    if admits_all(l) {
        r
    } else if admits_all(r) {
        l
    } else {
        let k = keep_listed(l.list, r.list);
        Dim { list: k, closed: k.len() == 0 || (l.closed && r.closed) }
    }
}

/// Intersection of two bound maps: every key of either; where both
/// bound a key, the smaller bound (the right one on ties).
pub open spec fn intersect_bounds_spec(
    l: Map<Seq<char>, Seq<char>>,
    r: Map<Seq<char>, Seq<char>>,
) -> Map<Seq<char>, Seq<char>> {
    Map::new(
        |k: Seq<char>| l.contains_key(k) || r.contains_key(k),
        |k: Seq<char>|
            if l.contains_key(k) && r.contains_key(k) {
                if spec_decimal_le(r[k], l[k]) {
                    r[k]
                } else {
                    l[k]
                }
            } else if l.contains_key(k) {
                l[k]
            } else {
                r[k]
            },
    )
}

/// Every numeric value the action carries is within the bound, where
/// there is one.
pub open spec fn within_bounds(
    bounds: Map<Seq<char>, Seq<char>>,
    values: Map<Seq<char>, Seq<char>>,
) -> bool {
    forall|k: Seq<char>|
        #![trigger values.contains_key(k), bounds.contains_key(k)]
        values.contains_key(k) && bounds.contains_key(k) ==> spec_decimal_le(values[k], bounds[k])
}

/// The tag dimension admits the action: it admits everything, or every
/// tag of the action is listed.
pub open spec fn tags_admitted(tags: Dim, action_tags: Seq<Seq<char>>) -> bool {
    admits_all(tags) || forall|i: int| 0 <= i < action_tags.len() ==> tags.list.contains(#[trigger] action_tags[i])
}

/// An optional dimension admits the action: the action names nothing,
/// or the dimension admits what it names.
pub open spec fn optional_admitted(dim: Dim, x: Option<Seq<char>>) -> bool {
    match x {
        Some(v) => dim_admits(dim, v),
        None => true,
    }
}

/// The list dimensions that an intersection closed: there an empty list
/// admits nothing.
#[derive(Debug, Clone, Copy)]
pub struct ClosedDims {
    /// The action kinds.
    pub actions: bool,
    /// The resource tags.
    pub tags: bool,
    /// The recipients.
    pub recipients: bool,
    /// The memory scopes.
    pub memory_scopes: bool,
}

impl ClosedDims {
    /// No dimension closed.
    pub fn none() -> (c: ClosedDims)
        ensures
            !c.actions && !c.tags && !c.recipients && !c.memory_scopes,
    {
        ClosedDims { actions: false, tags: false, recipients: false, memory_scopes: false }
    }
}

/// Capability scope. All five dimensions must admit the action for a
/// check to pass.
#[derive(Debug, Clone)]
pub struct Scope {
    /// Action kinds this capability permits. Empty = all kinds.
    pub permitted_actions: Vec<String>,
    /// Resource tags this capability applies to. Empty = all resources.
    pub resource_tags: Vec<String>,
    /// Numeric bounds (decimal strings), e.g. `usd_max`.
    pub bounds: StringMap,
    /// Recipient constraint for envelope-send actions. Empty = any.
    pub permitted_recipients: Vec<String>,
    /// Memory-scope constraint. Empty = any.
    pub memory_scopes: Vec<String>,
    /// The list dimensions closed by an intersection whose sides shared
    /// nothing.
    pub closed: ClosedDims,
}

impl Scope {
    /// The action-kind dimension.
    pub open spec fn actions_dim(&self) -> Dim {
        dim_of(&self.permitted_actions, self.closed.actions)
    }

    /// The resource-tag dimension.
    pub open spec fn tags_dim(&self) -> Dim {
        dim_of(&self.resource_tags, self.closed.tags)
    }

    /// The recipient dimension.
    pub open spec fn recipients_dim(&self) -> Dim {
        dim_of(&self.permitted_recipients, self.closed.recipients)
    }

    /// The memory-scope dimension.
    pub open spec fn memory_dim(&self) -> Dim {
        dim_of(&self.memory_scopes, self.closed.memory_scopes)
    }

    /// Whether this scope admits `d` on every dimension.
    pub open spec fn permits_spec(&self, d: &ActionDescriptor) -> bool {
        &&& dim_admits(self.actions_dim(), d.action_kind@)
        &&& tags_admitted(self.tags_dim(), d.resource_tags.deep_view())
        &&& within_bounds(self.bounds@, d.numeric_values@)
        &&& optional_admitted(self.recipients_dim(), d.recipient.deep_view())
        &&& optional_admitted(self.memory_dim(), d.memory_scope.deep_view())
    }

    /// The scope is the intersection of `a` and `b`.
    pub open spec fn is_intersection(&self, a: &Scope, b: &Scope) -> bool {
        &&& self.actions_dim() == intersect_dim(a.actions_dim(), b.actions_dim())
        &&& self.tags_dim() == intersect_dim(a.tags_dim(), b.tags_dim())
        &&& self.bounds@ == intersect_bounds_spec(a.bounds@, b.bounds@)
        &&& self.recipients_dim() == intersect_dim(a.recipients_dim(), b.recipients_dim())
        &&& self.memory_dim() == intersect_dim(a.memory_dim(), b.memory_dim())
    }

    /// Two scopes are equal dimension by dimension.
    pub open spec fn same_spec(&self, other: &Scope) -> bool {
        &&& self.actions_dim() == other.actions_dim()
        &&& self.tags_dim() == other.tags_dim()
        &&& self.bounds@ == other.bounds@
        &&& self.recipients_dim() == other.recipients_dim()
        &&& self.memory_dim() == other.memory_dim()
    }

    /// Whether every dimension is empty and none is closed.
    pub open spec fn is_empty_spec(&self) -> bool {
        &&& self.permitted_actions@.len() == 0
        &&& self.resource_tags@.len() == 0
        &&& self.bounds@ == Map::<Seq<char>, Seq<char>>::empty()
        &&& self.permitted_recipients@.len() == 0
        &&& self.memory_scopes@.len() == 0
        &&& !self.closed.actions && !self.closed.tags && !self.closed.recipients && !self.closed.memory_scopes
    }

    /// Empty (and thus maximally permissive) scope.
    pub fn empty() -> (s: Scope)
        ensures
            s.is_empty_spec(),
    {
        Scope {
            permitted_actions: Vec::new(),
            resource_tags: Vec::new(),
            bounds: StringMap::new(),
            permitted_recipients: Vec::new(),
            memory_scopes: Vec::new(),
            closed: ClosedDims::none(),
        }
    }

    /// A scope permitting the single action kind `kind`.
    pub fn for_action(kind: &str) -> (s: Scope)
        ensures
            s.permitted_actions.deep_view() == seq![kind@],
            s.resource_tags@.len() == 0,
            s.bounds@ == Map::<Seq<char>, Seq<char>>::empty(),
            s.permitted_recipients@.len() == 0,
            s.memory_scopes@.len() == 0,
            !s.closed.actions && !s.closed.tags && !s.closed.recipients && !s.closed.memory_scopes,
    {
        let mut s = Scope::empty();
        s.permitted_actions.push(owned(kind));
        assert(s.permitted_actions.deep_view() =~= seq![kind@]);
        s
    }

    /// Builder: add a resource tag.
    pub fn with_tag(self, tag: &str) -> (s: Scope)
        ensures
            s.permitted_actions.deep_view() == self.permitted_actions.deep_view(),
            s.resource_tags.deep_view() == self.resource_tags.deep_view().push(tag@),
            s.bounds@ == self.bounds@,
            s.permitted_recipients.deep_view() == self.permitted_recipients.deep_view(),
            s.memory_scopes.deep_view() == self.memory_scopes.deep_view(),
            s.closed == self.closed,
    {
        let mut s = self;
        let ghost before = s.resource_tags.deep_view();
        s.resource_tags.push(owned(tag));
        assert(s.resource_tags.deep_view() =~= before.push(tag@));
        s
    }

    /// Builder: set a numeric bound.
    pub fn with_bound(self, key: &str, value: &str) -> (s: Scope)
        ensures
            s.permitted_actions.deep_view() == self.permitted_actions.deep_view(),
            s.resource_tags.deep_view() == self.resource_tags.deep_view(),
            s.bounds@ == self.bounds@.insert(key@, value@),
            s.permitted_recipients.deep_view() == self.permitted_recipients.deep_view(),
            s.memory_scopes.deep_view() == self.memory_scopes.deep_view(),
            s.closed == self.closed,
    {
        let mut s = self;
        s.bounds.insert(owned(key), owned(value));
        s
    }

    /// Builder: permit sending to a specific recipient.
    pub fn with_recipient(self, recipient: &str) -> (s: Scope)
        ensures
            s.permitted_actions.deep_view() == self.permitted_actions.deep_view(),
            s.resource_tags.deep_view() == self.resource_tags.deep_view(),
            s.bounds@ == self.bounds@,
            s.permitted_recipients.deep_view() == self.permitted_recipients.deep_view().push(recipient@),
            s.memory_scopes.deep_view() == self.memory_scopes.deep_view(),
            s.closed == self.closed,
    {
        let mut s = self;
        let ghost before = s.permitted_recipients.deep_view();
        s.permitted_recipients.push(owned(recipient));
        assert(s.permitted_recipients.deep_view() =~= before.push(recipient@));
        s
    }

    /// Intersect this scope with another: on each list dimension the
    /// common elements (a side that admits everything takes the other
    /// side; two restricting sides that share nothing close the
    /// dimension); on bounds, every key of either with the smaller bound
    /// where both have one.
    pub fn intersect(&self, other: &Scope) -> (s: Scope)
        ensures
            s.is_intersection(self, other),
    {
        let (permitted_actions, actions) = intersect_or_take_one(
            &self.permitted_actions,
            self.closed.actions,
            &other.permitted_actions,
            other.closed.actions,
        );
        let (resource_tags, tags) = intersect_or_take_one(
            &self.resource_tags,
            self.closed.tags,
            &other.resource_tags,
            other.closed.tags,
        );
        let (permitted_recipients, recipients) = intersect_or_take_one(
            &self.permitted_recipients,
            self.closed.recipients,
            &other.permitted_recipients,
            other.closed.recipients,
        );
        let (memory_scopes, memory) = intersect_or_take_one(
            &self.memory_scopes,
            self.closed.memory_scopes,
            &other.memory_scopes,
            other.closed.memory_scopes,
        );
        Scope {
            permitted_actions,
            resource_tags,
            bounds: intersect_bounds(&self.bounds, &other.bounds),
            permitted_recipients,
            memory_scopes,
            closed: ClosedDims { actions, tags, recipients, memory_scopes: memory },
        }
    }

    /// Whether `descriptor` is permitted by this scope: every dimension
    /// must admit it.
    pub fn permits(&self, descriptor: &ActionDescriptor) -> (r: bool)
        ensures
            r == self.permits_spec(descriptor),
    {
        if !admits(&self.permitted_actions, self.closed.actions, descriptor.action_kind.as_str()) {
            return false;
        }
        if !tags_ok(&self.resource_tags, self.closed.tags, &descriptor.resource_tags) {
            return false;
        }
        if !bounds_ok(&self.bounds, &descriptor.numeric_values) {
            return false;
        }
        match &descriptor.recipient {
            Some(recipient) => {
                if !admits(&self.permitted_recipients, self.closed.recipients, recipient.as_str()) {
                    return false;
                }
            },
            None => {},
        }
        match &descriptor.memory_scope {
            Some(mscope) => {
                if !admits(&self.memory_scopes, self.closed.memory_scopes, mscope.as_str()) {
                    return false;
                }
            },
            None => {},
        }
        true
    }

    /// A copy of this scope, dimension by dimension.
    pub fn duplicate(&self) -> (s: Scope)
        ensures
            s.same_spec(self),
    {
        Scope {
            permitted_actions: crate::text::copy_strings(&self.permitted_actions),
            resource_tags: crate::text::copy_strings(&self.resource_tags),
            bounds: self.bounds.duplicate(),
            permitted_recipients: crate::text::copy_strings(&self.permitted_recipients),
            memory_scopes: crate::text::copy_strings(&self.memory_scopes),
            closed: self.closed,
        }
    }

    /// Whether two scopes are equal dimension by dimension.
    pub fn same_as(&self, other: &Scope) -> (r: bool)
        ensures
            r == self.same_spec(other),
    {
        crate::text::strings_eq(&self.permitted_actions, &other.permitted_actions)
            && crate::text::strings_eq(&self.resource_tags, &other.resource_tags)
            && self.bounds.same_as(&other.bounds)
            && crate::text::strings_eq(&self.permitted_recipients, &other.permitted_recipients)
            && crate::text::strings_eq(&self.memory_scopes, &other.memory_scopes)
            && self.closed.actions == other.closed.actions
            && self.closed.tags == other.closed.tags
            && self.closed.recipients == other.closed.recipients
            && self.closed.memory_scopes == other.closed.memory_scopes
    }
}

impl Default for Scope {
    fn default() -> (s: Scope)
        ensures
            s.is_empty_spec(),
    {
        Scope::empty()
    }
}

// ---------------------------------------------------------------------------
// Dimension helpers
// ---------------------------------------------------------------------------

/// `lhs ∩ rhs`: a side that admits everything takes the other side;
/// otherwise the elements of `lhs` that `rhs` lists, closed when there
/// are none.
fn intersect_or_take_one(lhs: &Vec<String>, lhs_closed: bool, rhs: &Vec<String>, rhs_closed: bool) -> (out: (
    Vec<String>,
    bool,
))
    ensures
        dim_of(&out.0, out.1) == intersect_dim(dim_of(lhs, lhs_closed), dim_of(rhs, rhs_closed)),
{
    if lhs.len() == 0 && !lhs_closed {
        return (copy_strings(rhs), rhs_closed);
    }
    if rhs.len() == 0 && !rhs_closed {
        return (copy_strings(lhs), lhs_closed);
    }
    let mut out: Vec<String> = Vec::new();
    let mut i: usize = 0;
    while i < lhs.len()
        invariant
            i <= lhs.len(),
            out.deep_view() == keep_listed(lhs.deep_view().take(i as int), rhs.deep_view()),
        decreases lhs.len() - i,
    {
        let ghost prev = out@;
        assert(lhs.deep_view().take(i + 1).drop_last() =~= lhs.deep_view().take(i as int));
        assert(lhs.deep_view().take(i + 1).last() == lhs.deep_view()[i as int]);
        if vec_contains(rhs, lhs[i].as_str()) {
            out.push(lhs[i].clone());
            assert(out.deep_view() =~= keep_listed(lhs.deep_view().take(i as int), rhs.deep_view()).push(
                lhs.deep_view()[i as int],
            )) by {
                assert forall|j: int| 0 <= j < prev.len() implies out@[j] == prev[j] by {}
            }
        }
        i = i + 1;
    }
    assert(lhs.deep_view().take(lhs.len() as int) =~= lhs.deep_view());
    let closed = out.len() == 0 || (lhs_closed && rhs_closed);
    (out, closed)
}

/// The dimension admits everything or lists `needle`.
fn admits(dim: &Vec<String>, closed: bool, needle: &str) -> (r: bool)
    ensures
        r == dim_admits(dim_of(dim, closed), needle@),
{
    (dim.len() == 0 && !closed) || vec_contains(dim, needle)
}

fn tags_ok(tags: &Vec<String>, closed: bool, action_tags: &Vec<String>) -> (r: bool)
    ensures
        r == tags_admitted(dim_of(tags, closed), action_tags.deep_view()),
{
    if tags.len() == 0 && !closed {
        return true;
    }
    let mut i: usize = 0;
    while i < action_tags.len()
        invariant
            i <= action_tags.len(),
            !(tags.len() == 0 && !closed),
            forall|j: int| 0 <= j < i ==> tags.deep_view().contains(#[trigger] action_tags.deep_view()[j]),
        decreases action_tags.len() - i,
    {
        if !vec_contains(tags, action_tags[i].as_str()) {
            assert(!tags.deep_view().contains(action_tags.deep_view()[i as int]));
            return false;
        }
        i = i + 1;
    }
    true
}

fn bounds_ok(bounds: &StringMap, values: &StringMap) -> (r: bool)
    ensures
        r == within_bounds(bounds@, values@),
{
    let mut i: usize = 0;
    while i < values.entry_count()
        invariant
            i <= values.pairs().len(),
            forall|j: int|
                0 <= j < i ==> {
                    let k = #[trigger] values.pairs()[j].0;
                    values@.contains_key(k) && bounds@.contains_key(k) ==> spec_decimal_le(values@[k], bounds@[k])
                },
        decreases values.pairs().len() - i,
    {
        let k = values.key_at(i);
        proof {
            values.lemma_pair_in_map(i as int);
        }
        let v = values.get(k.as_str());
        match (v, bounds.get(k.as_str())) {
            (Some(v), Some(b)) => {
                if !decimal_le(v.as_str(), b.as_str()) {
                    return false;
                }
            },
            _ => {},
        }
        i = i + 1;
    }
    proof {
        assert forall|k: Seq<char>|
            #![trigger values@.contains_key(k), bounds@.contains_key(k)]
            values@.contains_key(k) && bounds@.contains_key(k) implies spec_decimal_le(values@[k], bounds@[k]) by {
            values.lemma_key_stored(k);
            let j = choose|j: int| 0 <= j < values.pairs().len() && values.pairs()[j].0 == k;
            assert(values.pairs()[j].0 == k);
        }
    }
    true
}

/// Intersect numeric bounds: every key of either side; where both bound a
/// key, the smaller bound (the right one on ties).
fn intersect_bounds(lhs: &StringMap, rhs: &StringMap) -> (out: StringMap)
    ensures
        out@ == intersect_bounds_spec(lhs@, rhs@),
{
    let ghost spec_map = intersect_bounds_spec(lhs@, rhs@);
    let mut out = StringMap::new();
    let mut i: usize = 0;
    while i < lhs.entry_count()
        invariant
            i <= lhs.pairs().len(),
            spec_map == intersect_bounds_spec(lhs@, rhs@),
            forall|k: Seq<char>|
                #[trigger] out@.contains_key(k) <==> exists|j: int|
                    0 <= j < i && #[trigger] lhs.pairs()[j].0 == k,
            forall|k: Seq<char>| #[trigger] out@.contains_key(k) ==> out@[k] == spec_map[k],
        decreases lhs.pairs().len() - i,
    {
        let k = lhs.key_at(i);
        proof {
            lhs.lemma_pair_in_map(i as int);
        }
        let ghost prev = out@;
        let v = lhs.get(k.as_str()).unwrap();
        match rhs.get(k.as_str()) {
            Some(rv) => {
                if decimal_le(rv.as_str(), v.as_str()) {
                    out.insert(k.clone(), rv.clone());
                } else {
                    out.insert(k.clone(), v.clone());
                }
            },
            None => {
                out.insert(k.clone(), v.clone());
            },
        }
        proof {
            assert forall|key: Seq<char>|
                #[trigger] out@.contains_key(key) <==> exists|j: int|
                    0 <= j < i + 1 && #[trigger] lhs.pairs()[j].0 == key by {
                if key == lhs.pairs()[i as int].0 {
                    assert(0 <= i < i + 1 && lhs.pairs()[i as int].0 == key);
                } else if prev.contains_key(key) {
                    let j = choose|j: int| 0 <= j < i && #[trigger] lhs.pairs()[j].0 == key;
                    assert(0 <= j < i + 1 && lhs.pairs()[j].0 == key);
                } else {
                    if exists|j: int| 0 <= j < i + 1 && #[trigger] lhs.pairs()[j].0 == key {
                        let j = choose|j: int| 0 <= j < i + 1 && #[trigger] lhs.pairs()[j].0 == key;
                        assert(j != i);
                        assert(0 <= j < i && lhs.pairs()[j].0 == key);
                    }
                }
            }
        }
        i = i + 1;
    }
    // Now every key of `lhs` is in `out`; add the keys only `rhs` has.
    proof {
        assert forall|k: Seq<char>| #[trigger] out@.contains_key(k) <==> lhs@.contains_key(k) by {
            if out@.contains_key(k) {
                let j = choose|j: int| 0 <= j < lhs.pairs().len() && #[trigger] lhs.pairs()[j].0 == k;
                lhs.lemma_pair_in_map(j);
            }
            if lhs@.contains_key(k) {
                lhs.lemma_key_stored(k);
                let j = choose|j: int| 0 <= j < lhs.pairs().len() && #[trigger] lhs.pairs()[j].0 == k;
                assert(lhs.pairs()[j].0 == k);
            }
        }
    }
    let mut t: usize = 0;
    while t < rhs.entry_count()
        invariant
            t <= rhs.pairs().len(),
            spec_map == intersect_bounds_spec(lhs@, rhs@),
            forall|k: Seq<char>|
                #[trigger] out@.contains_key(k) <==> (lhs@.contains_key(k) || exists|j: int|
                    0 <= j < t && #[trigger] rhs.pairs()[j].0 == k),
            forall|k: Seq<char>| #[trigger] out@.contains_key(k) ==> out@[k] == spec_map[k],
        decreases rhs.pairs().len() - t,
    {
        let k = rhs.key_at(t);
        proof {
            rhs.lemma_pair_in_map(t as int);
        }
        let ghost prev = out@;
        if !out.contains_key(k.as_str()) {
            let v = rhs.get(k.as_str()).unwrap();
            out.insert(k.clone(), v.clone());
            proof {
                assert(!lhs@.contains_key(k@));
            }
        }
        proof {
            assert forall|key: Seq<char>|
                #[trigger] out@.contains_key(key) <==> (lhs@.contains_key(key) || exists|j: int|
                    0 <= j < t + 1 && #[trigger] rhs.pairs()[j].0 == key) by {
                if key == rhs.pairs()[t as int].0 {
                    assert(0 <= t < t + 1 && rhs.pairs()[t as int].0 == key);
                } else if prev.contains_key(key) {
                    if !lhs@.contains_key(key) {
                        let j = choose|j: int| 0 <= j < t && #[trigger] rhs.pairs()[j].0 == key;
                        assert(0 <= j < t + 1 && rhs.pairs()[j].0 == key);
                    }
                } else {
                    if exists|j: int| 0 <= j < t + 1 && #[trigger] rhs.pairs()[j].0 == key {
                        let j = choose|j: int| 0 <= j < t + 1 && #[trigger] rhs.pairs()[j].0 == key;
                        assert(j != t);
                        assert(0 <= j < t && rhs.pairs()[j].0 == key);
                    }
                }
            }
        }
        t = t + 1;
    }
    proof {
        assert forall|k: Seq<char>| #[trigger] out@.dom().contains(k) == spec_map.dom().contains(k) by {
            if rhs@.contains_key(k) && !lhs@.contains_key(k) {
                rhs.lemma_key_stored(k);
                let j = choose|j: int| 0 <= j < rhs.pairs().len() && #[trigger] rhs.pairs()[j].0 == k;
                assert(rhs.pairs()[j].0 == k);
            }
            if out@.contains_key(k) && !lhs@.contains_key(k) {
                let j = choose|j: int| 0 <= j < rhs.pairs().len() && #[trigger] rhs.pairs()[j].0 == k;
                rhs.lemma_pair_in_map(j);
            }
        }
        assert(out@ =~= spec_map);
    }
    out
}

// ---------------------------------------------------------------------------
// Laws of intersection
// ---------------------------------------------------------------------------

/// `v` reads as a decimal other than NaN.
pub open spec fn reads_comparable(v: Seq<char>) -> bool {
    read_decimal(v) matches Some(x) && !(x is NaN)
}

/// Where both maps bound a key, both bounds read as comparable decimals.
pub open spec fn bounds_comparable(l: Map<Seq<char>, Seq<char>>, r: Map<Seq<char>, Seq<char>>) -> bool {
    forall|k: Seq<char>|
        #![trigger l.contains_key(k), r.contains_key(k)]
        l.contains_key(k) && r.contains_key(k) ==> reads_comparable(l[k]) && reads_comparable(r[k])
}

pub proof fn lemma_keep_listed(l: Seq<Seq<char>>, r: Seq<Seq<char>>, x: Seq<char>)
    ensures
        keep_listed(l, r).contains(x) <==> (l.contains(x) && r.contains(x)),
    decreases l.len(),
{
    if l.len() > 0 {
        lemma_keep_listed(l.drop_last(), r, x);
        let prefix = keep_listed(l.drop_last(), r);
        if l.contains(x) && r.contains(x) {
            let i = choose|i: int| 0 <= i < l.len() && l[i] == x;
            if i < l.len() - 1 {
                assert(l.drop_last()[i] == x);
                let j = choose|j: int| 0 <= j < prefix.len() && prefix[j] == x;
                if r.contains(l.last()) {
                    assert(prefix.push(l.last())[j] == x);
                }
            } else {
                assert(keep_listed(l, r) == prefix.push(l.last()));
                assert(keep_listed(l, r)[prefix.len() as int] == x);
            }
        }
        if keep_listed(l, r).contains(x) {
            let j = choose|j: int| 0 <= j < keep_listed(l, r).len() && keep_listed(l, r)[j] == x;
            if r.contains(l.last()) && j == prefix.len() {
                assert(l[l.len() - 1] == x);
            } else {
                assert(prefix[j] == x);
                let i = choose|i: int| 0 <= i < l.drop_last().len() && l.drop_last()[i] == x;
                assert(l[i] == x);
            }
        }
    }
}

/// A list dimension of an intersection admits only what both sides admit.
pub proof fn lemma_dim_narrows(l: Dim, r: Dim, x: Seq<char>)
    requires
        dim_admits(intersect_dim(l, r), x),
    ensures
        dim_admits(l, x),
        dim_admits(r, x),
{
    lemma_keep_listed(l.list, r.list, x);
}

/// The tag dimension of an intersection admits only what both admit.
proof fn lemma_tags_narrow(l: Dim, r: Dim, tags: Seq<Seq<char>>)
    requires
        tags_admitted(intersect_dim(l, r), tags),
    ensures
        tags_admitted(l, tags),
        tags_admitted(r, tags),
{
    if !admits_all(l) && !admits_all(r) {
        assert forall|i: int| 0 <= i < tags.len() implies l.list.contains(#[trigger] tags[i]) && r.list.contains(
            tags[i],
        ) by {
            lemma_keep_listed(l.list, r.list, tags[i]);
        }
    }
}

/// The bounds of an intersection admit only what both sides admit.
proof fn lemma_bounds_narrow(
    l: Map<Seq<char>, Seq<char>>,
    r: Map<Seq<char>, Seq<char>>,
    values: Map<Seq<char>, Seq<char>>,
)
    requires
        bounds_comparable(l, r),
        within_bounds(intersect_bounds_spec(l, r), values),
    ensures
        within_bounds(l, values),
        within_bounds(r, values),
{
    let m = intersect_bounds_spec(l, r);
    assert forall|k: Seq<char>| values.contains_key(k) && l.contains_key(k) implies spec_decimal_le(
        values[k],
        l[k],
    ) by {
        assert(m.contains_key(k));
        assert(spec_decimal_le(values[k], m[k]));
        if r.contains_key(k) && spec_decimal_le(r[k], l[k]) {
            let v = match read_decimal(values[k]) { Some(x) => x, None => ExtDecimal::PosInf };
            let rv = read_decimal(r[k])->0;
            let lv = read_decimal(l[k])->0;
            lemma_ext_le_trans(v, rv, lv);
        }
    }
    assert forall|k: Seq<char>| values.contains_key(k) && r.contains_key(k) implies spec_decimal_le(
        values[k],
        r[k],
    ) by {
        assert(m.contains_key(k));
        assert(spec_decimal_le(values[k], m[k]));
        if l.contains_key(k) && !spec_decimal_le(r[k], l[k]) {
            let v = match read_decimal(values[k]) { Some(x) => x, None => ExtDecimal::PosInf };
            let rv = read_decimal(r[k])->0;
            let lv = read_decimal(l[k])->0;
            lemma_ext_le_total(rv, lv);
            lemma_ext_le_trans(v, lv, rv);
        }
    }
}

/// Narrowing: an action that the intersection of two scopes admits is
/// admitted by each of them, wherever the bounds both scopes set on one
/// key read as comparable decimals (otherwise the smaller bound cannot be
/// picked).
pub proof fn lemma_intersection_narrows(a: Scope, b: Scope, s: Scope, d: ActionDescriptor)
    requires
        s.is_intersection(&a, &b),
        bounds_comparable(a.bounds@, b.bounds@),
        s.permits_spec(&d),
    ensures
        a.permits_spec(&d),
        b.permits_spec(&d),
{
    lemma_dim_narrows(a.actions_dim(), b.actions_dim(), d.action_kind@);
    lemma_tags_narrow(a.tags_dim(), b.tags_dim(), d.resource_tags.deep_view());
    lemma_bounds_narrow(a.bounds@, b.bounds@, d.numeric_values@);
    if let Some(x) = d.recipient.deep_view() {
        lemma_dim_narrows(a.recipients_dim(), b.recipients_dim(), x);
    }
    if let Some(x) = d.memory_scope.deep_view() {
        lemma_dim_narrows(a.memory_dim(), b.memory_dim(), x);
    }
}

/// Two restricting dimensions that list nothing in common intersect to a
/// dimension that admits nothing.
pub proof fn lemma_disjoint_admits_nothing(l: Dim, r: Dim, x: Seq<char>)
    requires
        !admits_all(l),
        !admits_all(r),
        forall|y: Seq<char>| l.list.contains(y) ==> !r.list.contains(y),
    ensures
        !dim_admits(intersect_dim(l, r), x),
{
    lemma_keep_listed(l.list, r.list, x);
    if keep_listed(l.list, r.list).len() > 0 {
        lemma_keep_listed(l.list, r.list, keep_listed(l.list, r.list)[0]);
    }
}

proof fn lemma_keep_all_in(l: Seq<Seq<char>>, r: Seq<Seq<char>>)
    requires
        forall|i: int| 0 <= i < l.len() ==> r.contains(#[trigger] l[i]),
    ensures
        keep_listed(l, r) == l,
    decreases l.len(),
{
    if l.len() > 0 {
        let d = l.drop_last();
        assert forall|i: int| 0 <= i < d.len() implies r.contains(#[trigger] d[i]) by {
            assert(d[i] == l[i]);
        }
        lemma_keep_all_in(d, r);
        assert(r.contains(l[l.len() - 1]));
        assert(d.push(l.last()) =~= l);
    }
}

/// Idempotence: a scope intersected with itself is the same scope.
pub proof fn lemma_intersect_idempotent(a: Scope, s: Scope)
    requires
        s.is_intersection(&a, &a),
    ensures
        s.same_spec(&a),
{
    let dims = seq![a.actions_dim(), a.tags_dim(), a.recipients_dim(), a.memory_dim()];
    assert forall|i: int| 0 <= i < 4 implies intersect_dim(#[trigger] dims[i], dims[i]) == dims[i] by {
        let l = dims[i].list;
        if !admits_all(dims[i]) {
            assert forall|j: int| 0 <= j < l.len() implies l.contains(#[trigger] l[j]) by {}
            lemma_keep_all_in(l, l);
        }
    }
    assert(intersect_dim(dims[0], dims[0]) == dims[0]);
    assert(intersect_dim(dims[1], dims[1]) == dims[1]);
    assert(intersect_dim(dims[2], dims[2]) == dims[2]);
    assert(intersect_dim(dims[3], dims[3]) == dims[3]);
    assert(intersect_bounds_spec(a.bounds@, a.bounds@) =~= a.bounds@);
}

/// Identity: the empty scope intersected with `b` is `b`.
pub proof fn lemma_empty_intersect(e: Scope, b: Scope, s: Scope)
    requires
        e.is_empty_spec(),
        s.is_intersection(&e, &b),
    ensures
        s.same_spec(&b),
{
    assert(admits_all(e.actions_dim()));
    assert(admits_all(e.tags_dim()));
    assert(admits_all(e.recipients_dim()));
    assert(admits_all(e.memory_dim()));
    assert(intersect_bounds_spec(e.bounds@, b.bounds@) =~= b.bounds@);
}

} // verus!
