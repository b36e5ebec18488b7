//! The signed, versioned constitution artifact.

use vstd::prelude::*;

use crate::engine_config::EngineConfig;
use crate::ids::{ContentHash, SwarmId, Timestamp};

verus! {

/// A constitution: its Cedar source and engine config, with identity and
/// versioning metadata.
#[derive(Debug, Clone)]
pub struct Constitution {
    /// Content address of the canonical encoding.
    pub constitution_hash: ContentHash,
    /// Spec version (semver text).
    pub spec_version: String,
    /// Schema version pin.
    pub schema_version: String,
    /// Operator-facing version label.
    pub constitution_version: String,
    /// The constitution this one amends, if any.
    pub parent_version: Option<ContentHash>,
    /// The swarm it governs.
    pub swarm_id: SwarmId,
    /// Stock Cedar policy source.
    pub cedar_source: String,
    /// Scoring rules, procedures, enforcement rules, predicates.
    pub engine_config: EngineConfig,
    /// When it was issued.
    pub issued_at: Timestamp,
}

} // verus!
