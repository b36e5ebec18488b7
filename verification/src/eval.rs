//! Request and outcome types of constitution evaluation.

use vstd::prelude::*;

use crate::score::Score;
use crate::string_map::StringMap;

verus! {

/// The entity snapshot of a request.
#[derive(Debug, Clone)]
pub struct EntitySnapshot {
    /// The entities, in request order.
    pub entities: Vec<EntityRecord>,
}

/// One entity of a snapshot.
#[derive(Debug, Clone)]
pub struct EntityRecord {
    /// The entity's UID.
    pub uid: EntityUid,
    /// Attribute name to the attribute's JSON text.
    pub attrs: StringMap,
    /// Parent entities.
    pub parents: Vec<EntityUid>,
}

impl EntitySnapshot {
    /// Number of entities in the snapshot.
    pub fn entity_count(&self) -> (n: usize)
        ensures
            n == self.entities@.len(),
    {
        self.entities.len()
    }
}

/// A Cedar entity UID (`Type::"id"`).
#[derive(Debug, Clone, PartialEq, Eq, Hash)]
pub struct EntityUid {
    /// The entity type (e.g. `"Yutha::Agent"`).
    pub entity_type: String,
    /// The entity id.
    pub entity_id: String,
}

impl EntityUid {
    /// The UID of type `entity_type` and id `entity_id`.
    pub fn new(entity_type: &str, entity_id: &str) -> (u: EntityUid)
        ensures
            u.entity_type@ == entity_type@,
            u.entity_id@ == entity_id@,
    {
        EntityUid { entity_type: String::from_str(entity_type), entity_id: String::from_str(entity_id) }
    }
}

/// The Layer A decision.
#[derive(Debug, Clone, Copy, PartialEq, Eq, Structural)]
pub enum Decision {
    Permit,
    Deny,
}

/// One scoring rule's contribution to a permitted request.
#[derive(Debug, Clone)]
pub struct ScoreContribution {
    /// The contributing rule.
    pub rule_id: String,
    /// Its score.
    pub score: Score,
}

/// A procedure effect for the caller to emit as a receipt.
#[derive(Debug, Clone)]
pub struct ProcedureEffect {
    /// `procedure.enter`, `procedure.transition`, …
    pub action_kind: String,
    /// The procedure instance.
    pub instance_id: String,
}

} // verus!
