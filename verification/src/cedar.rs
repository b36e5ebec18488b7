//! The calls into `cedar-policy`: parsing policy sets, schemas, entity
//! type names, entities, contexts and expressions, building requests,
//! counting policies, strict validation and authorization.
//!
//! Each Cedar value the engine keeps is held together with the text it
//! was read from (`CedarSchema`, `CedarPolicies`, ...). Their fields are
//! private to this module, and each is built only here, from a successful
//! read of that very text, so the text is what the value stands for. What
//! Cedar answers is named as a function of those texts.

use cedar_policy::{Context, Entities, EntityTypeName, Policy, PolicySet, Request, Schema};

use vstd::prelude::*;

verus! {

/// `cedar_policy::PolicySet`, carried through opaquely.
#[verifier::external_type_specification]
#[verifier::external_body]
pub struct ExPolicySet(cedar_policy::PolicySet);

/// `cedar_policy::Policy`, carried through opaquely.
#[verifier::external_type_specification]
#[verifier::external_body]
pub struct ExPolicy(cedar_policy::Policy);

/// `cedar_policy::Schema`, carried through opaquely.
#[verifier::external_type_specification]
#[verifier::external_body]
pub struct ExSchema(cedar_policy::Schema);

/// `cedar_policy::Request`, carried through opaquely.
#[verifier::external_type_specification]
#[verifier::external_body]
pub struct ExRequest(cedar_policy::Request);

/// `cedar_policy::Entities`, carried through opaquely.
#[verifier::external_type_specification]
#[verifier::external_body]
pub struct ExEntities(cedar_policy::Entities);

/// `cedar_policy::EntityTypeName`, carried through opaquely.
#[verifier::external_type_specification]
#[verifier::external_body]
pub struct ExEntityTypeName(cedar_policy::EntityTypeName);

/// `cedar_policy::Context`, carried through opaquely.
#[verifier::external_type_specification]
#[verifier::external_body]
pub struct ExContext(cedar_policy::Context);

// ---------------------------------------------------------------------------
// What Cedar answers, named over texts
// ---------------------------------------------------------------------------

/// A request as texts: principal, action and resource (each its type
/// name and id), the context JSON and the schema.
pub type RequestTexts = ((Seq<char>, Seq<char>), (Seq<char>, Seq<char>), (Seq<char>, Seq<char>), Seq<char>, Seq<char>);

/// A policy set as texts: the source it was read from (its policies get
/// Cedar's generated ids), or none and the policies it was built from,
/// each its id and its text.
pub type PolicyTexts = (Option<Seq<char>>, Seq<(Seq<char>, Seq<char>)>);

/// The policy set read from the source `src`.
pub open spec fn sourced(src: Seq<char>) -> PolicyTexts {
    (Some(src), Seq::empty())
}

/// The ids of policies given as id and text.
pub open spec fn policy_ids(ps: Seq<(Seq<char>, Seq<char>)>) -> Seq<Seq<char>> {
    ps.map_values(|p: (Seq<char>, Seq<char>)| p.0)
}

/// Whether Cedar reads `src` as a policy set.
pub uninterp spec fn policy_set_parses(src: Seq<char>) -> bool;

/// Whether Cedar reads `text` as one policy.
pub uninterp spec fn policy_parses(text: Seq<char>) -> bool;

/// How many policies Cedar reads from the policy source `src`.
pub uninterp spec fn policy_count(src: Seq<char>) -> nat;

/// Whether strict validation of the policies `policies` against the
/// schema read from `schema` reports no error.
pub uninterp spec fn strict_valid(schema: Seq<char>, policies: (Option<Seq<char>>, Seq<(Seq<char>, Seq<char>)>)) -> bool;

/// Whether Cedar reads `src` as a schema in its natural syntax.
pub uninterp spec fn schema_parses(src: Seq<char>) -> bool;

/// Whether Cedar reads `src` as an expression.
pub uninterp spec fn expression_parses(src: Seq<char>) -> bool;

/// Whether Cedar reads `src` as an entity type name.
pub uninterp spec fn entity_type_parses(src: Seq<char>) -> bool;

/// Whether Cedar reads `src` as a context (JSON, no schema).
pub uninterp spec fn context_json_reads(src: Seq<char>) -> bool;

/// Whether Cedar reads the entities JSON `json` against the schema read
/// from `schema`.
pub uninterp spec fn entities_read(json: Seq<char>, schema: Seq<char>) -> bool;

/// Whether Cedar accepts the request given as texts (see
/// [`CedarRequest`]'s view) against its schema.
pub uninterp spec fn request_accepted(
    req: ((Seq<char>, Seq<char>), (Seq<char>, Seq<char>), (Seq<char>, Seq<char>), Seq<char>, Seq<char>),
) -> bool;

/// Whether Cedar's authorizer allows the request `req` under the
/// policies `policies` with the entities `entities` (their JSON and
/// schema texts).
pub uninterp spec fn cedar_allows(
    req: ((Seq<char>, Seq<char>), (Seq<char>, Seq<char>), (Seq<char>, Seq<char>), Seq<char>, Seq<char>),
    policies: (Option<Seq<char>>, Seq<(Seq<char>, Seq<char>)>),
    entities: (Seq<char>, Seq<char>),
) -> bool;

/// The ids of the policies that Cedar's authorizer gives as reasons for
/// its decision on the same inputs as [`cedar_allows`].
pub uninterp spec fn cedar_reasons(
    req: ((Seq<char>, Seq<char>), (Seq<char>, Seq<char>), (Seq<char>, Seq<char>), Seq<char>, Seq<char>),
    policies: (Option<Seq<char>>, Seq<(Seq<char>, Seq<char>)>),
    entities: (Seq<char>, Seq<char>),
) -> Set<Seq<char>>;

// ---------------------------------------------------------------------------
// Cedar values with their texts
// ---------------------------------------------------------------------------

/// A schema and the text Cedar read it from.
pub struct CedarSchema {
    schema: Schema,
    text: Ghost<Seq<char>>,
}

impl View for CedarSchema {
    type V = Seq<char>;

    closed spec fn view(&self) -> Seq<char> {
        self.text@
    }
}

/// A policy set and its texts (see [`PolicyTexts`]).
pub struct CedarPolicies {
    set: PolicySet,
    text: Ghost<PolicyTexts>,
}

impl View for CedarPolicies {
    type V = PolicyTexts;

    closed spec fn view(&self) -> PolicyTexts {
        self.text@
    }
}

/// One policy and the id and text it was read with.
pub struct CedarPolicy {
    policy: Policy,
    text: Ghost<(Seq<char>, Seq<char>)>,
}

impl View for CedarPolicy {
    type V = (Seq<char>, Seq<char>);

    closed spec fn view(&self) -> (Seq<char>, Seq<char>) {
        self.text@
    }
}

/// The texts of a list of policies.
pub open spec fn policy_views(ps: Seq<CedarPolicy>) -> Seq<(Seq<char>, Seq<char>)> {
    ps.map_values(|p: CedarPolicy| p@)
}

/// How many policies the set holds: those Cedar reads from the source,
/// or those it was built from.
pub open spec fn policies_count(p: PolicyTexts) -> nat {
    match p.0 {
        Some(src) => policy_count(src),
        None => p.1.len(),
    }
}

/// An entity type name and the text Cedar read it from.
pub struct CedarTypeName {
    name: EntityTypeName,
    text: Ghost<Seq<char>>,
}

impl View for CedarTypeName {
    type V = Seq<char>;

    closed spec fn view(&self) -> Seq<char> {
        self.text@
    }
}

/// Entities and the JSON and schema texts Cedar read them from.
pub struct CedarEntities {
    entities: Entities,
    text: Ghost<(Seq<char>, Seq<char>)>,
}

impl View for CedarEntities {
    type V = (Seq<char>, Seq<char>);

    closed spec fn view(&self) -> (Seq<char>, Seq<char>) {
        self.text@
    }
}

/// A context and the JSON text Cedar read it from.
pub struct CedarContext {
    context: Context,
    text: Ghost<Seq<char>>,
}

impl View for CedarContext {
    type V = Seq<char>;

    closed spec fn view(&self) -> Seq<char> {
        self.text@
    }
}

/// A request and what it was built from: principal, action and resource
/// (each type name and id text), the context JSON and the schema text.
pub struct CedarRequest {
    request: Request,
    text: Ghost<((Seq<char>, Seq<char>), (Seq<char>, Seq<char>), (Seq<char>, Seq<char>), Seq<char>, Seq<char>)>,
}

impl View for CedarRequest {
    type V = ((Seq<char>, Seq<char>), (Seq<char>, Seq<char>), (Seq<char>, Seq<char>), Seq<char>, Seq<char>);

    closed spec fn view(&self) -> Self::V {
        self.text@
    }
}

// ---------------------------------------------------------------------------
// The calls
// ---------------------------------------------------------------------------

/// `PolicySet::from_str`: the parsed set, or the parse error's message.
/// Whether it succeeds is named [`policy_set_parses`]; the message is not
/// described.
#[verifier::external_body]
fn parse_policy_set(src: &str) -> (r: Result<PolicySet, String>)
    ensures
        r is Ok == policy_set_parses(src@),
{
    src.parse::<PolicySet>().map_err(|e| e.to_string())
}

/// `Policy::parse` with the given id: the policy, or the parse error's
/// message. Whether it succeeds is named [`policy_parses`] of the text
/// (any string is an id).
#[verifier::external_body]
fn parse_policy(id: &str, text: &str) -> (r: Result<Policy, String>)
    ensures
        r is Ok == policy_parses(text@),
{
    Policy::parse(Some(id.to_string()), text).map_err(|e| e.to_string())
}

/// `PolicySet::from_policies`: the set of the given (static) policies, or
/// the error's message; it fails exactly when two of them share an id.
#[verifier::external_body]
fn policy_set_from(policies: Vec<CedarPolicy>) -> (r: Result<PolicySet, String>)
    ensures
        r is Ok == policy_ids(policy_views(policies@)).no_duplicates(),
{
    PolicySet::from_policies(policies.into_iter().map(|p| p.policy)).map_err(|e| e.to_string())
}

/// `PolicySet::policies().count()`: the number of policies, named
/// [`policy_count`] of the source for a set read from one; a set built
/// from policies holds each of them.
#[verifier::external_body]
pub(crate) fn count_policies(p: &CedarPolicies) -> (r: usize)
    ensures
        r == match p@.0 {
            Some(src) => policy_count(src),
            None => p@.1.len(),
        },
{
    p.set.policies().count()
}

/// `Validator::new(schema).validate(set, ValidationMode::Strict)`: the
/// messages of the validation errors. Whether there are none is named
/// [`strict_valid`]; the messages are not described.
#[verifier::external_body]
pub(crate) fn validate_strict(schema: &CedarSchema, p: &CedarPolicies) -> (r: Vec<String>)
    ensures
        (r@.len() == 0) == strict_valid(schema@, p@),
{
    let validator = cedar_policy::Validator::new(schema.schema.clone());
    let result = validator.validate(&p.set, cedar_policy::ValidationMode::Strict);
    result.validation_errors().map(|e| e.to_string()).collect()
}

/// `Expression::from_str`: `Ok` when `src` parses as an expression, else
/// the error's message. Success is named [`expression_parses`]; the
/// message is not described.
#[verifier::external_body]
pub(crate) fn parse_expression(src: &str) -> (r: Result<(), String>)
    ensures
        r is Ok == expression_parses(src@),
{
    src.parse::<cedar_policy::Expression>().map(|_| ()).map_err(|e| e.to_string())
}

/// `Schema::from_cedarschema_str`: the schema (its warnings dropped), or
/// the error's message. Success is named [`schema_parses`]; the message
/// is not described.
#[verifier::external_body]
fn parse_schema(src: &str) -> (r: Result<Schema, String>)
    ensures
        r is Ok == schema_parses(src@),
{
    Schema::from_cedarschema_str(src).map(|(schema, _warnings)| schema).map_err(|e| e.to_string())
}

/// `EntityTypeName::from_str`: the name, or the error's message. Success
/// is named [`entity_type_parses`].
#[verifier::external_body]
fn parse_entity_type(src: &str) -> (r: Result<EntityTypeName, String>)
    ensures
        r is Ok == entity_type_parses(src@),
{
    src.parse::<EntityTypeName>().map_err(|e| e.to_string())
}

/// `Entities::from_json_str` checked against the schema: the entities,
/// or the error's message. Success is named [`entities_read`].
#[verifier::external_body]
fn entities_from_json(json: &str, schema: &CedarSchema) -> (r: Result<Entities, String>)
    ensures
        r is Ok == entities_read(json@, schema@),
{
    Entities::from_json_str(json, Some(&schema.schema)).map_err(|e| e.to_string())
}

/// `Context::from_json_str` without a schema: the context, or the
/// error's message. Success is named [`context_json_reads`].
#[verifier::external_body]
fn context_from_json(json: &str) -> (r: Result<Context, String>)
    ensures
        r is Ok == context_json_reads(json@),
{
    Context::from_json_str(json, None).map_err(|e| e.to_string())
}

/// `Request::new` with principal, action and resource given and checked
/// against the schema: the request, or the error's message. Each part is
/// Cedar's uid of its type name and its id text, as given. Success is
/// named [`request_accepted`] of the texts.
#[verifier::external_body]
fn new_request(
    principal: (CedarTypeName, &str),
    action: (CedarTypeName, &str),
    resource: (CedarTypeName, &str),
    context: CedarContext,
    schema: &CedarSchema,
) -> (r: Result<Request, String>)
    ensures
        r is Ok == request_accepted(
            (
                (principal.0@, principal.1@),
                (action.0@, action.1@),
                (resource.0@, resource.1@),
                context@,
                schema@,
            ),
        ),
{
    let p = cedar_policy::EntityUid::from_type_name_and_id(principal.0.name, cedar_policy::EntityId::new(principal.1));
    let a = cedar_policy::EntityUid::from_type_name_and_id(action.0.name, cedar_policy::EntityId::new(action.1));
    let r = cedar_policy::EntityUid::from_type_name_and_id(resource.0.name, cedar_policy::EntityId::new(resource.1));
    Request::new(Some(p), Some(a), Some(r), context.context, Some(&schema.schema)).map_err(|e| e.to_string())
}

/// `Authorizer::is_authorized`: whether the decision is `Allow`, and the
/// ids of the policies given as reasons. Both are named over the texts
/// ([`cedar_allows`], [`cedar_reasons`]); Cedar keeps the reasons in a
/// hash set, so only which ids come is claimed, each once, not their
/// order.
#[verifier::external_body]
pub(crate) fn authorize(request: &CedarRequest, p: &CedarPolicies, entities: &CedarEntities) -> (r: (
    bool,
    Vec<String>,
))
    ensures
        r.1.deep_view().no_duplicates(),
        r.0 == cedar_allows(request@, p@, entities@),
        r.1.deep_view().to_set() == cedar_reasons(request@, p@, entities@),
{
    let response = cedar_policy::Authorizer::new().is_authorized(&request.request, &p.set, &entities.entities);
    let allow = match response.decision() {
        cedar_policy::Decision::Allow => true,
        cedar_policy::Decision::Deny => false,
    };
    (allow, response.diagnostics().reason().map(|id| id.to_string()).collect())
}

// ---------------------------------------------------------------------------
// Reading texts into Cedar values
// ---------------------------------------------------------------------------

/// Read a policy source; its policies get Cedar's generated ids.
pub fn parse_policies(src: &str) -> (r: Result<CedarPolicies, String>)
    ensures
        r is Ok == policy_set_parses(src@),
        r matches Ok(p) ==> p@ == sourced(src@),
{
    match parse_policy_set(src) {
        Ok(set) => Ok(CedarPolicies { set, text: Ghost(sourced(src@)) }),
        Err(e) => Err(e),
    }
}

/// Read one policy under the given id.
pub fn read_policy(id: &str, text: &str) -> (r: Result<CedarPolicy, String>)
    ensures
        r is Ok == policy_parses(text@),
        r matches Ok(p) ==> p@ == (id@, text@),
{
    match parse_policy(id, text) {
        Ok(policy) => Ok(CedarPolicy { policy, text: Ghost((id@, text@)) }),
        Err(e) => Err(e),
    }
}

/// The set of the given policies, each under its own id.
pub fn build_policies(policies: Vec<CedarPolicy>) -> (r: Result<CedarPolicies, String>)
    ensures
        r is Ok == policy_ids(policy_views(policies@)).no_duplicates(),
        r matches Ok(p) ==> p@ == (None::<Seq<char>>, policy_views(policies@)),
{
    let ghost v = policy_views(policies@);
    match policy_set_from(policies) {
        Ok(set) => Ok(CedarPolicies { set, text: Ghost((None, v)) }),
        Err(e) => Err(e),
    }
}

/// Read a schema in Cedar's natural syntax.
pub fn parse_cedar_schema(src: &str) -> (r: Result<CedarSchema, String>)
    ensures
        r is Ok == schema_parses(src@),
        r matches Ok(s) ==> s@ == src@,
{
    match parse_schema(src) {
        Ok(schema) => Ok(CedarSchema { schema, text: Ghost(src@) }),
        Err(e) => Err(e),
    }
}

/// Read an entity type name.
pub fn parse_type_name(src: &str) -> (r: Result<CedarTypeName, String>)
    ensures
        r is Ok == entity_type_parses(src@),
        r matches Ok(t) ==> t@ == src@,
{
    match parse_entity_type(src) {
        Ok(name) => Ok(CedarTypeName { name, text: Ghost(src@) }),
        Err(e) => Err(e),
    }
}

/// Read entities from JSON against a schema.
pub fn read_entities(json: &str, schema: &CedarSchema) -> (r: Result<CedarEntities, String>)
    ensures
        r is Ok == entities_read(json@, schema@),
        r matches Ok(e) ==> e@ == (json@, schema@),
{
    match entities_from_json(json, schema) {
        Ok(entities) => Ok(CedarEntities { entities, text: Ghost((json@, schema@)) }),
        Err(e) => Err(e),
    }
}

/// Read a context from JSON.
pub fn read_context(json: &str) -> (r: Result<CedarContext, String>)
    ensures
        r is Ok == context_json_reads(json@),
        r matches Ok(c) ==> c@ == json@,
{
    match context_from_json(json) {
        Ok(context) => Ok(CedarContext { context, text: Ghost(json@) }),
        Err(e) => Err(e),
    }
}

/// Build a request checked against a schema.
pub fn build_request(
    principal: (CedarTypeName, &str),
    action: (CedarTypeName, &str),
    resource: (CedarTypeName, &str),
    context: CedarContext,
    schema: &CedarSchema,
) -> (r: Result<CedarRequest, String>)
    ensures
        ({
            let v = ((principal.0@, principal.1@), (action.0@, action.1@), (resource.0@, resource.1@), context@, schema@);
            &&& r is Ok == request_accepted(v)
            &&& r matches Ok(q) ==> q@ == v
        }),
{
    let ghost v = ((principal.0@, principal.1@), (action.0@, action.1@), (resource.0@, resource.1@), context@, schema@);
    match new_request(principal, action, resource, context, schema) {
        Ok(request) => Ok(CedarRequest { request, text: Ghost(v) }),
        Err(e) => Err(e),
    }
}

} // verus!

verus! {

/// The reasons of a pass that skips the authorizer when the policy set is
/// empty.
pub open spec fn pass_reasons(p: PolicyTexts, req: RequestTexts, entities: (Seq<char>, Seq<char>)) -> Set<Seq<char>> {
    if policies_count(p) == 0 {
        Set::empty()
    } else {
        cedar_reasons(req, p, entities)
    }
}

} // verus!
