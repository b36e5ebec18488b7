//! Attenuable capabilities, the constitution engine's load-time and
//! enforcement logic, and conformance bookkeeping, with their contracts
//! proved by Verus.

use vstd::prelude::*;

pub mod canonical;
pub mod capability;
pub mod caveat;
pub mod cedar;
pub mod check;
pub mod constitution;
pub mod decimal;
pub mod enforcement;
pub mod engine_config;
pub mod error;
pub mod eval;
pub mod evaluator;
pub mod ids;
pub mod layer_b;
pub mod loader;
pub mod matched;
pub mod numtext;
pub mod outcome;
pub mod procedure;
pub mod quarantine;
pub mod sandbox;
pub mod scenarios;
pub mod scope;
pub mod score;
pub mod scoring;
pub mod store;
pub mod string_map;
pub mod table;
pub mod text;
pub mod validate;

verus! {

/// Default maximum attenuation chain depth.
pub const DEFAULT_MAX_CHAIN_DEPTH: u32 = 8;

/// Default maximum capability lifetime in seconds (90 days).
pub const DEFAULT_MAX_LIFETIME_SECS: u64 = 7776000;

} // verus!
