//! Per-evaluation sandbox bounds: wall-clock caps by action kind and the
//! load-time count limits.

use std::time::Duration;

use vstd::prelude::*;

verus! {

/// The `Duration` that `Duration::from_millis(ms)` builds.
pub uninterp spec fn millis_duration(ms: u64) -> Duration;

/// The `Duration` that `Duration::from_secs(secs)` builds.
pub uninterp spec fn secs_duration(secs: u64) -> Duration;

/// `Duration::from_millis`: the span of `ms` milliseconds. Its result is
/// named [`millis_duration`]; nothing more is claimed of it.
#[verifier::external_body]
pub(crate) fn duration_from_millis(ms: u64) -> (d: Duration)
    ensures
        d == millis_duration(ms),
{
    Duration::from_millis(ms)
}

/// `Duration::from_secs`: the span of `secs` seconds. Its result is named
/// [`secs_duration`]; nothing more is claimed of it.
#[verifier::external_body]
pub(crate) fn duration_from_secs(secs: u64) -> (d: Duration)
    ensures
        d == secs_duration(secs),
{
    Duration::from_secs(secs)
}

/// Per-swarm sandbox configuration.
#[derive(Debug, Clone, Copy)]
pub struct SandboxConfig {
    /// Wall-clock cap for `SendEnvelope` (default 10 ms).
    pub send_envelope_max_time: Duration,
    /// Wall-clock cap for every other action (default 100 ms).
    pub other_action_max_time: Duration,
    /// Default 1,000.
    pub max_entity_count: usize,
    /// Default 1,000.
    pub max_scoring_rules: usize,
    /// Default 100.
    pub max_procedures: usize,
    /// Default 100.
    pub max_open_procedure_instances_examined: usize,
    /// Default 1,000.
    pub max_cedar_policies: usize,
    /// Default 16.
    pub max_policy_depth_at_load: u32,
}

/// `c` holds the documented default bounds.
pub open spec fn default_bounds(c: SandboxConfig) -> bool {
    &&& c.send_envelope_max_time == millis_duration(10)
    &&& c.other_action_max_time == millis_duration(100)
    &&& c.max_entity_count == 1000
    &&& c.max_scoring_rules == 1000
    &&& c.max_procedures == 100
    &&& c.max_open_procedure_instances_examined == 100
    &&& c.max_cedar_policies == 1000
    &&& c.max_policy_depth_at_load == 16
}

impl Default for SandboxConfig {
    /// The documented default bounds.
    fn default() -> (c: SandboxConfig)
        ensures
            c.send_envelope_max_time == millis_duration(10),
            c.other_action_max_time == millis_duration(100),
            c.max_entity_count == 1000,
            c.max_scoring_rules == 1000,
            c.max_procedures == 100,
            c.max_open_procedure_instances_examined == 100,
            c.max_cedar_policies == 1000,
            c.max_policy_depth_at_load == 16,
    {
        SandboxConfig {
            send_envelope_max_time: duration_from_millis(10),
            other_action_max_time: duration_from_millis(100),
            max_entity_count: 1000,
            max_scoring_rules: 1000,
            max_procedures: 100,
            max_open_procedure_instances_examined: 100,
            max_cedar_policies: 1000,
            max_policy_depth_at_load: 16,
        }
    }
}

impl SandboxConfig {
    /// The wall-clock cap for an action kind: the tight hot-path bound for
    /// `SendEnvelope`, the looser one for everything else.
    pub fn max_time_for(&self, action_kind: &str) -> (d: Duration)
        ensures
            d == (if action_kind@ == "SendEnvelope"@ {
                self.send_envelope_max_time
            } else {
                self.other_action_max_time
            }),
    {
        if crate::text::str_eq(action_kind, "SendEnvelope") {
            self.send_envelope_max_time
        } else {
            self.other_action_max_time
        }
    }
}

} // verus!
