//! Where the capability layer learns whether an agent is quarantined.

use vstd::prelude::*;

use crate::ids::AgentId;

verus! {

/// A source of quarantine state, consulted on every capability check.
pub trait QuarantineSource {
    /// Whether `agent_id` is quarantined.
    fn is_agent_quarantined(&self, agent_id: &AgentId) -> bool;
}

/// A source under which no agent is ever quarantined.
#[derive(Debug, Default, Clone, Copy)]
pub struct AlwaysAllowed;

impl QuarantineSource for AlwaysAllowed {
    /// Never quarantined.
    fn is_agent_quarantined(&self, agent_id: &AgentId) -> (q: bool)
        ensures
            !q,
    {
        false
    }
}

} // verus!
