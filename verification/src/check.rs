//! Check types: [`ActionDescriptor`] and [`CheckOutcome`].

use vstd::prelude::*;

use crate::ids::ContentHash;
use crate::string_map::StringMap;

verus! {

/// Describes an action being checked against a capability.
#[derive(Debug, Clone)]
pub struct ActionDescriptor {
    /// Action kind, e.g. `"envelope.send"`, `"issue_refund"`.
    pub action_kind: String,
    /// Tags on the target resource.
    pub resource_tags: Vec<String>,
    /// Numeric values being applied (e.g. refund amount), decimal-string
    /// encoded.
    pub numeric_values: StringMap,
    /// For envelope-send actions: the recipient.
    pub recipient: Option<String>,
    /// For memory actions: the memory scope.
    pub memory_scope: Option<String>,
}

impl ActionDescriptor {
    /// A descriptor for `action_kind` with every other dimension empty.
    pub fn for_kind(action_kind: &str) -> (d: ActionDescriptor)
        ensures
            d.action_kind@ == action_kind@,
            d.resource_tags@.len() == 0,
            d.numeric_values@ == Map::<Seq<char>, Seq<char>>::empty(),
            d.recipient.is_none(),
            d.memory_scope.is_none(),
    {
        ActionDescriptor {
            action_kind: crate::text::owned(action_kind),
            resource_tags: Vec::new(),
            numeric_values: StringMap::new(),
            recipient: None,
            memory_scope: None,
        }
    }
}

impl Default for ActionDescriptor {
    fn default() -> (d: ActionDescriptor)
        ensures
            d.action_kind@ == Seq::<char>::empty(),
            d.resource_tags@.len() == 0,
            d.numeric_values@ == Map::<Seq<char>, Seq<char>>::empty(),
            d.recipient.is_none(),
            d.memory_scope.is_none(),
    {
        ActionDescriptor {
            action_kind: String::new(),
            resource_tags: Vec::new(),
            numeric_values: StringMap::new(),
            recipient: None,
            memory_scope: None,
        }
    }
}

/// Outcome of a capability check.
#[derive(Debug, Clone)]
pub struct CheckOutcome {
    /// Whether the action is permitted.
    pub permitted: bool,
    /// On deny: a human-readable reason.
    pub deny_reason: String,
    /// Caveats that were evaluated and passed.
    pub matched_caveats: Vec<String>,
    /// Caveats that were evaluated and failed.
    pub unmet_caveats: Vec<String>,
    /// The capability id used, if the check ran against a stored one.
    pub capability: Option<ContentHash>,
}

impl CheckOutcome {
    /// Construct a permit outcome.
    pub fn permit(capability: Option<ContentHash>, matched: Vec<String>) -> (o: CheckOutcome)
        ensures
            o.permitted,
            o.deny_reason@ == Seq::<char>::empty(),
            o.matched_caveats@ == matched@,
            o.unmet_caveats@.len() == 0,
            o.capability == capability,
    {
        CheckOutcome {
            permitted: true,
            deny_reason: String::new(),
            matched_caveats: matched,
            unmet_caveats: Vec::new(),
            capability,
        }
    }

    /// Construct a deny outcome with a reason.
    pub fn deny(capability: Option<ContentHash>, reason: String, unmet: Vec<String>) -> (o: CheckOutcome)
        ensures
            !o.permitted,
            o.deny_reason@ == reason@,
            o.matched_caveats@.len() == 0,
            o.unmet_caveats@ == unmet@,
            o.capability == capability,
    {
        CheckOutcome {
            permitted: false,
            deny_reason: reason,
            matched_caveats: Vec::new(),
            unmet_caveats: unmet,
            capability,
        }
    }
}

} // verus!
