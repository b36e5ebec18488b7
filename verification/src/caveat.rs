//! [`Caveat`] — additional conditions that further constrain a capability.
//!
//! Six caveat types. Only the two tag caveats can be decided from the
//! action descriptor alone; the others need runtime context held higher
//! up the stack (clock, rate limiter, constitution layer, receipt shape)
//! and pass at this layer.

use vstd::prelude::*;

use crate::check::ActionDescriptor;
use crate::text::{owned, vec_contains};

verus! {

/// Caveats that constrain a capability beyond its scope.
#[derive(Debug, Clone)]
pub enum Caveat {
    /// "Only between HH:MM and HH:MM UTC."
    TimeOfDay(TimeOfDay),
    /// "Only under constitution version in [min, max]."
    ConstitutionVersion {
        /// Inclusive minimum semver.
        min_version: String,
        /// Inclusive maximum semver, or None for no upper bound.
        max_version: Option<String>,
    },
    /// "Requires a supervisor with this role to countersign the receipt."
    SupervisorRequired {
        /// Role string the supervisor must have.
        supervisor_role: String,
    },
    /// "At most N actions per window seconds."
    RateLimit(RateLimit),
    /// "Only on resources tagged with ALL of these."
    OnlyIfTagged {
        /// All tags must be present in the action descriptor.
        required_tags: Vec<String>,
    },
    /// "Never on resources tagged with ANY of these."
    NeverIfTagged {
        /// Any of these tags being present denies the action.
        forbidden_tags: Vec<String>,
    },
}

/// Time-of-day caveat (UTC).
#[derive(Debug, Clone)]
pub struct TimeOfDay {
    /// Format `"HH:MM"` (24-hour, UTC).
    pub from_utc: String,
    /// Format `"HH:MM"` (24-hour, UTC).
    pub to_utc: String,
}

/// Rate-limit caveat.
#[derive(Debug, Clone)]
pub struct RateLimit {
    /// Maximum permitted actions in `window_seconds`.
    pub max_actions: u32,
    /// Window length in seconds.
    pub window_seconds: u64,
}

/// Whether the caveat admits an action carrying the resource tags `tags`.
pub open spec fn caveat_permits_spec(c: Caveat, tags: Seq<Seq<char>>) -> bool {
    match c {
        Caveat::OnlyIfTagged { required_tags } => forall|i: int|
            0 <= i < required_tags.deep_view().len() ==> tags.contains(#[trigger] required_tags.deep_view()[i]),
        Caveat::NeverIfTagged { forbidden_tags } => !exists|i: int|
            0 <= i < forbidden_tags.deep_view().len() && tags.contains(#[trigger] forbidden_tags.deep_view()[i]),
        _ => true,
    }
}

/// The label recorded for a caveat in check outcomes and receipts.
pub open spec fn caveat_label_spec(c: Caveat) -> Seq<char> {
    match c {
        Caveat::TimeOfDay(_) => "time_of_day"@,
        Caveat::ConstitutionVersion { .. } => "constitution_version"@,
        Caveat::SupervisorRequired { .. } => "supervisor_required"@,
        Caveat::RateLimit(_) => "rate_limit"@,
        Caveat::OnlyIfTagged { .. } => "only_if_tagged"@,
        Caveat::NeverIfTagged { .. } => "never_if_tagged"@,
    }
}

impl Caveat {
    /// Evaluate this caveat against an action descriptor: the tag caveats
    /// are decided by the descriptor's resource tags; the other four pass
    /// here.
    #[verifier::loop_isolation(false)]
    pub fn permits(&self, descriptor: &ActionDescriptor) -> (r: bool)
        ensures
            r == caveat_permits_spec(*self, descriptor.resource_tags.deep_view()),
    {
        match self {
            Caveat::OnlyIfTagged { required_tags } => {
                let mut i: usize = 0;
                while i < required_tags.len()
                    invariant
                        i <= required_tags.len(),
                        forall|j: int|
                            0 <= j < i ==> descriptor.resource_tags.deep_view().contains(
                                #[trigger] required_tags.deep_view()[j],
                            ),
                    decreases required_tags.len() - i,
                {
                    if !vec_contains(&descriptor.resource_tags, required_tags[i].as_str()) {
                        assert(!descriptor.resource_tags.deep_view().contains(required_tags.deep_view()[i as int]));
                        return false;
                    }
                    i = i + 1;
                }
                true
            },
            Caveat::NeverIfTagged { forbidden_tags } => {
                let mut i: usize = 0;
                while i < forbidden_tags.len()
                    invariant
                        i <= forbidden_tags.len(),
                        forall|j: int|
                            0 <= j < i ==> !descriptor.resource_tags.deep_view().contains(
                                #[trigger] forbidden_tags.deep_view()[j],
                            ),
                    decreases forbidden_tags.len() - i,
                {
                    if vec_contains(&descriptor.resource_tags, forbidden_tags[i].as_str()) {
                        assert(descriptor.resource_tags.deep_view().contains(forbidden_tags.deep_view()[i as int]));
                        return false;
                    }
                    i = i + 1;
                }
                true
            },
            Caveat::TimeOfDay(_) => true,
            Caveat::RateLimit(_) => true,
            Caveat::ConstitutionVersion { .. } => true,
            Caveat::SupervisorRequired { .. } => true,
        }
    }
}

/// Label string for a caveat, as recorded in check outcomes.
pub fn caveat_label(c: &Caveat) -> (r: String)
    ensures
        r@ == caveat_label_spec(*c),
{
    match c {
        Caveat::TimeOfDay(_) => owned("time_of_day"),
        Caveat::ConstitutionVersion { .. } => owned("constitution_version"),
        Caveat::SupervisorRequired { .. } => owned("supervisor_required"),
        Caveat::RateLimit(_) => owned("rate_limit"),
        Caveat::OnlyIfTagged { .. } => owned("only_if_tagged"),
        Caveat::NeverIfTagged { .. } => owned("never_if_tagged"),
    }
}

} // verus!
