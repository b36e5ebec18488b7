//! Error types of the capability layer and the constitution stack.

use vstd::prelude::*;

use crate::ids::{AgentId, ContentHash};
use crate::text::owned;

verus! {

/// Errors raised by capability construction, storage, or checks.
#[derive(Debug)]
pub enum CapabilityError {
    /// The capability's issuer signature did not verify.
    IssuerSignatureInvalid,
    /// Required field missing.
    MissingField(&'static str),
    /// The capability is outside its validity window.
    OutOfValidityWindow,
    /// The capability chain exceeds the configured maximum depth.
    ChainTooDeep {
        /// Observed depth.
        actual: u32,
        /// Configured maximum.
        max: u32,
    },
    /// Attenuation attempted to broaden a parent's scope.
    AttenuationBroadens {
        /// Which dimension was broadened.
        detail: String,
    },
    /// Parent capability referenced does not exist.
    ParentNotFound(ContentHash),
    /// Capability has been revoked.
    Revoked,
    /// The capability's subject is currently quarantined.
    SubjectQuarantined(AgentId),
    /// Generic backend error.
    Backend(String),
    /// Crypto-layer error (its message).
    Crypto(String),
    /// Core-layer error (its message).
    Core(String),
    /// The signer failed to produce a signature.
    Signer(String),
}

/// All error variants surfaced by the constitution stack.
#[derive(Debug)]
pub enum CedarPlusError {
    /// The constitution artifact failed to parse.
    Parse(String),
    /// The pinned schema version is not supported.
    SchemaVersionUnsupported(String),
    /// A scoring rule is invalid.
    InvalidScoringRule {
        /// The offending rule's `name`.
        rule: String,
        /// Underlying detail.
        detail: String,
    },
    /// A procedure is invalid.
    InvalidProcedure {
        /// The offending procedure's `name`.
        procedure: String,
        /// Underlying detail.
        detail: String,
    },
    /// An enforcement rule is invalid.
    InvalidEnforcementRule {
        /// The offending rule's `name`.
        rule: String,
        /// Underlying detail.
        detail: String,
    },
    /// A load-time bound was exceeded.
    LoadBoundExceeded(LoadBoundReason),
    /// The request's shape doesn't match the schema.
    RequestShapeInvalid(String),
    /// The request references an entity not present in the snapshot.
    EntityUnresolved(String),
    /// The constitution hash didn't resolve to a loaded constitution.
    ConstitutionUnresolved(String),
    /// Uncategorized evaluation error.
    EvaluatorInternalError(String),
    /// A per-evaluation sandbox bound was exceeded at runtime.
    EvaluationBoundExceeded(EvalBoundReason),
    /// Two procedure transitions matched at runtime.
    ProcedureTransitionAmbiguous {
        /// The open instance whose transitions conflicted.
        instance: String,
        /// The conflicting transition ids.
        candidates: Vec<String>,
    },
    /// Infrastructural failure.
    Infrastructure(String),
}

/// Reason kinds for [`CedarPlusError::LoadBoundExceeded`].
#[derive(Debug, Clone, Copy, PartialEq, Eq)]
pub enum LoadBoundReason {
    /// Scoring rule count > configured cap.
    ScoringRuleCount,
    /// Procedure count > configured cap.
    ProcedureCount,
    /// Cedar policy count > configured cap.
    PolicyCount,
    /// Cedar policy max depth > cap.
    PolicyDepth,
}

/// Reason kinds for [`CedarPlusError::EvaluationBoundExceeded`].
#[derive(Debug, Clone, Copy, PartialEq, Eq)]
pub enum EvalBoundReason {
    /// Wall-clock evaluation time exceeded the per-action cap.
    EvaluationTime,
    /// Entity snapshot exceeded the cap.
    EntityStoreSize,
    /// Open procedure instances examined per request exceeded the cap.
    OpenProcedureInstanceCount,
    /// Cedar's internal evaluation depth limit was hit.
    EvaluationDepth,
}

pub open spec fn load_bound_label(r: LoadBoundReason) -> Seq<char> {
    match r {
        LoadBoundReason::ScoringRuleCount => "scoring_rule_count_exceeded"@,
        LoadBoundReason::ProcedureCount => "procedure_count_exceeded"@,
        LoadBoundReason::PolicyCount => "policy_count_exceeded"@,
        LoadBoundReason::PolicyDepth => "policy_depth_exceeded"@,
    }
}

pub open spec fn eval_bound_label(r: EvalBoundReason) -> Seq<char> {
    match r {
        EvalBoundReason::EvaluationTime => "evaluation_time_exceeded"@,
        EvalBoundReason::EntityStoreSize => "entity_store_size_exceeded"@,
        EvalBoundReason::OpenProcedureInstanceCount => "open_procedure_instance_count_exceeded"@,
        EvalBoundReason::EvaluationDepth => "evaluation_depth_exceeded"@,
    }
}

impl LoadBoundReason {
    /// The `deny_reason` text of this bound.
    pub fn label(&self) -> (s: String)
        ensures
            s@ == load_bound_label(*self),
    {
        match self {
            LoadBoundReason::ScoringRuleCount => owned("scoring_rule_count_exceeded"),
            LoadBoundReason::ProcedureCount => owned("procedure_count_exceeded"),
            LoadBoundReason::PolicyCount => owned("policy_count_exceeded"),
            LoadBoundReason::PolicyDepth => owned("policy_depth_exceeded"),
        }
    }
}

impl EvalBoundReason {
    /// The `deny_reason` text of this bound.
    pub fn label(&self) -> (s: String)
        ensures
            s@ == eval_bound_label(*self),
    {
        match self {
            EvalBoundReason::EvaluationTime => owned("evaluation_time_exceeded"),
            EvalBoundReason::EntityStoreSize => owned("entity_store_size_exceeded"),
            EvalBoundReason::OpenProcedureInstanceCount => owned("open_procedure_instance_count_exceeded"),
            EvalBoundReason::EvaluationDepth => owned("evaluation_depth_exceeded"),
        }
    }
}

} // verus!
