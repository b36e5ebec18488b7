use yutha::decimal::decimal_le;
use yutha::capability::{Capability, Issuer};
use yutha::caveat::Caveat;
use yutha::check::ActionDescriptor;
use yutha::ids::{AgentId, ContentHash, SwarmId, Timestamp};
use yutha::scope::Scope;
use yutha::store::MemoryCapabilityStore;
use yutha::string_map::StringMap;

fn descriptor(kind: &str, tags: &[&str]) -> ActionDescriptor {
    let mut d = ActionDescriptor::for_kind(kind);
    d.resource_tags = tags.iter().map(|t| t.to_string()).collect();
    d
}

fn ts(wall: &str, ns: u64) -> Timestamp {
    Timestamp { wall_clock: wall.to_string(), monotonic_ns: ns }
}

fn make_cap_with(scope: Scope, subject: u8, parent: Option<ContentHash>, caveats: Vec<Caveat>) -> Capability {
    let mut b = Capability::builder()
        .spec_version("1.0.0".to_string())
        .capability_id(vec![0u8; 16])
        .swarm_id(SwarmId { bytes: vec![7u8; 16] })
        .issuer(Issuer::Agent(AgentId { bytes: vec![1u8; 16] }))
        .subject(AgentId { bytes: vec![subject; 16] })
        .scope(scope)
        .valid_from(ts("2026-01-01T00:00:00Z", 1_000))
        .valid_until(ts("2099-01-01T00:00:00Z", u64::MAX / 2));
    if let Some(p) = parent {
        b = b.parent(p);
    }
    for c in caveats {
        b = b.caveat(c);
    }
    b.build().unwrap()
}

fn make_cap(scope: Scope) -> Capability {
    make_cap_with(scope, 2, None, vec![])
}

fn hash(n: u8) -> ContentHash {
    ContentHash { digest: vec![n; 32] }
}

#[test]
fn only_if_tagged_requires_all_tags() {
    let c = Caveat::OnlyIfTagged { required_tags: vec!["pii".into(), "external".into()] };
    let with_all = descriptor("x", &["pii", "external"]);
    assert!(c.permits(&with_all));
    let with_one = descriptor("x", &["pii"]);
    assert!(!c.permits(&with_one));
}

#[test]
fn never_if_tagged_blocks_on_any() {
    let c = Caveat::NeverIfTagged { forbidden_tags: vec!["external".into()] };
    let without = descriptor("x", &["internal"]);
    assert!(c.permits(&without));
    let with = descriptor("x", &["external"]);
    assert!(!c.permits(&with));
}

#[test]
fn intersect_empty_takes_other() {
    let a = Scope::empty();
    let b = Scope::for_action("send_message");
    let i = a.intersect(&b);
    assert_eq!(i.permitted_actions, vec!["send_message"]);
}

#[test]
fn intersect_two_sets_keeps_common() {
    let mut a = Scope::default();
    a.permitted_actions = vec!["x".into(), "y".into()];
    let mut b = Scope::default();
    b.permitted_actions = vec!["y".into(), "z".into()];
    let i = a.intersect(&b);
    assert_eq!(i.permitted_actions, vec!["y"]);
}

#[test]
fn disjoint_intersection_permits_no_action() {
    let i = Scope::for_action("x").intersect(&Scope::for_action("y"));
    assert!(i.permitted_actions.is_empty());
    assert!(i.closed.actions);
    assert!(!i.permits(&ActionDescriptor::for_kind("z")));
    assert!(!i.permits(&ActionDescriptor::for_kind("x")));
    assert!(!i.permits(&ActionDescriptor::for_kind("y")));
    // A closed dimension stays closed under further intersection.
    let j = i.intersect(&Scope::empty());
    assert!(!j.permits(&ActionDescriptor::for_kind("z")));
    let k = Scope::empty().intersect(&i);
    assert!(!k.permits(&ActionDescriptor::for_kind("x")));
}

#[test]
fn disjoint_tags_admit_only_untagged_actions() {
    let a = Scope::empty().with_tag("pii");
    let b = Scope::empty().with_tag("public");
    let i = a.intersect(&b);
    assert!(i.closed.tags);
    assert!(!i.permits(&descriptor("x", &["pii"])));
    assert!(!i.permits(&descriptor("x", &["public"])));
    assert!(i.permits(&descriptor("x", &[])));
}

#[test]
fn intersect_is_idempotent_on_listed_dimensions() {
    let a = Scope::for_action("x").with_tag("t").with_recipient("r");
    let i = a.intersect(&a);
    assert!(i.same_as(&a));
}

#[test]
fn intersect_bounds_takes_smaller() {
    let a = Scope::empty().with_bound("usd_max", "500");
    let b = Scope::empty().with_bound("usd_max", "100");
    let i = a.intersect(&b);
    assert_eq!(i.bounds.get("usd_max"), Some(&"100".to_string()));
}

#[test]
fn permits_action_only_if_listed() {
    let scope = Scope::for_action("issue_refund");
    let d = ActionDescriptor::for_kind("issue_refund");
    assert!(scope.permits(&d));
    let d = ActionDescriptor::for_kind("exfiltrate");
    assert!(!scope.permits(&d));
}

#[test]
fn permits_respects_numeric_bound() {
    let scope = Scope::for_action("issue_refund").with_bound("usd", "500");
    let mut within = ActionDescriptor::for_kind("issue_refund");
    within.numeric_values = StringMap::from_pairs(vec![("usd".to_string(), "100".to_string())]);
    assert!(scope.permits(&within));
    let mut exceeding = ActionDescriptor::for_kind("issue_refund");
    exceeding.numeric_values = StringMap::from_pairs(vec![("usd".to_string(), "501".to_string())]);
    assert!(!scope.permits(&exceeding));
}

#[test]
fn check_permits_matching_action() {
    let cap = make_cap(Scope::for_action("send_message"));
    let outcome = cap.check(None, &ActionDescriptor::for_kind("send_message"));
    assert!(outcome.permitted);
}

#[test]
fn check_denies_disallowed_action() {
    let cap = make_cap(Scope::for_action("send_message"));
    let outcome = cap.check(None, &ActionDescriptor::for_kind("exfiltrate"));
    assert!(!outcome.permitted);
    assert!(outcome.deny_reason.contains("scope"));
}

#[test]
fn check_denies_when_caveat_fails() {
    let cap = make_cap_with(
        Scope::for_action("send_message"),
        2,
        None,
        vec![Caveat::NeverIfTagged { forbidden_tags: vec!["external".into()] }],
    );
    let denied = cap.check(None, &descriptor("send_message", &["external"]));
    assert!(!denied.permitted);
    assert!(denied.unmet_caveats.contains(&"never_if_tagged".to_string()));
    let permitted = cap.check(None, &descriptor("send_message", &["internal"]));
    assert!(permitted.permitted);
}

#[test]
fn is_within_window_respects_bounds() {
    let cap = make_cap(Scope::empty());
    assert!(cap.is_within_window(&cap.valid_from));
    let past = ts("1990-01-01T00:00:00Z", 0);
    assert!(!cap.is_within_window(&past));
}

#[test]
fn intersect_with_itself_keeps_scope() {
    let a = Scope::for_action("send_message").with_tag("pii").with_bound("usd", "10");
    let i = a.intersect(&a);
    assert!(i.same_as(&a));
}

#[test]
fn list_for_subject_empty_store_returns_empty() {
    let store = MemoryCapabilityStore::new();
    assert!(store.list_for_subject(&AgentId { bytes: vec![9u8; 16] }).is_empty());
}

#[test]
fn list_for_subject_filters_by_subject() {
    let mut store = MemoryCapabilityStore::new();
    let target = AgentId { bytes: vec![3u8; 16] };
    let other = AgentId { bytes: vec![4u8; 16] };
    let id_a = store.issue(hash(1), make_cap_with(Scope::for_action("send_message"), 3, None, vec![]), false).unwrap();
    let id_b = store.issue(hash(2), make_cap_with(Scope::for_action("envelope.send"), 3, None, vec![]), false).unwrap();
    let _id_c = store.issue(hash(3), make_cap_with(Scope::for_action("send_message"), 4, None, vec![]), false).unwrap();
    let mut got: Vec<Vec<u8>> = store.list_for_subject(&target).into_iter().map(|h| h.digest).collect();
    got.sort();
    let mut want = vec![id_a.digest, id_b.digest];
    want.sort();
    assert_eq!(got, want);
    assert_eq!(store.list_for_subject(&other).len(), 1);
}

#[test]
fn list_for_subject_excludes_revoked() {
    let mut store = MemoryCapabilityStore::new();
    let target = AgentId { bytes: vec![3u8; 16] };
    let id_live = store.issue(hash(1), make_cap_with(Scope::for_action("send_message"), 3, None, vec![]), false).unwrap();
    let id_dead = store.issue(hash(2), make_cap_with(Scope::for_action("envelope.send"), 3, None, vec![]), false).unwrap();
    store.revoke(&id_dead, "pre-cascade self-revoke").unwrap();
    let ids: Vec<Vec<u8>> = store.list_for_subject(&target).into_iter().map(|h| h.digest).collect();
    assert_eq!(ids, vec![id_live.digest]);
}

#[test]
fn check_denies_when_subject_is_quarantined() {
    let mut store = MemoryCapabilityStore::new();
    let id = store.issue(hash(1), make_cap(Scope::for_action("send_message")), false).unwrap();
    let now = ts("2026-05-15T00:00:00Z", 5_000);
    let (outcome, _) = store.check_inner(&id, &ActionDescriptor::for_kind("send_message"), &now, true).unwrap();
    assert!(!outcome.permitted);
    assert_eq!(outcome.deny_reason, "subject_quarantined");
    let (outcome, swarm) = store.check_inner(&id, &ActionDescriptor::for_kind("send_message"), &now, false).unwrap();
    assert!(outcome.permitted);
    assert_eq!(swarm.unwrap().bytes, vec![7u8; 16]);
}

#[test]
fn issue_refused_when_subject_is_quarantined() {
    let mut store = MemoryCapabilityStore::new();
    let r = store.issue(hash(1), make_cap(Scope::for_action("send_message")), true);
    assert!(matches!(r, Err(yutha::error::CapabilityError::SubjectQuarantined(_))));
    assert!(store.lookup(&hash(1)).is_none());
}

#[test]
fn chain_walk_intersects_parent_scope() {
    let mut store = MemoryCapabilityStore::new();
    let parent = make_cap(Scope::for_action("send_message").with_bound("usd", "500"));
    let pid = store.issue(hash(1), parent, false).unwrap();
    let child = make_cap_with(
        Scope::for_action("send_message").with_bound("usd", "100"),
        2,
        Some(pid.clone()),
        vec![Caveat::OnlyIfTagged { required_tags: vec!["internal".into()] }],
    );
    let cid = store.attenuate(hash(2), child, false).unwrap();
    let now = ts("2026-05-15T00:00:00Z", 5_000);
    let mut d = descriptor("send_message", &["internal"]);
    d.numeric_values = StringMap::from_pairs(vec![("usd".to_string(), "50".to_string())]);
    let (o, _) = store.check_inner(&cid, &d, &now, false).unwrap();
    assert!(o.permitted);
    assert_eq!(o.matched_caveats, vec!["only_if_tagged".to_string()]);
    d.numeric_values = StringMap::from_pairs(vec![("usd".to_string(), "150".to_string())]);
    let (o, _) = store.check_inner(&cid, &d, &now, false).unwrap();
    assert!(!o.permitted);
    assert_eq!(o.deny_reason, "effective scope (after chain intersection) does not permit action");
    let external = descriptor("send_message", &["external"]);
    let (o, _) = store.check_inner(&cid, &external, &now, false).unwrap();
    assert!(!o.permitted);
    assert_eq!(o.unmet_caveats, vec!["only_if_tagged".to_string()]);
}

#[test]
fn attenuation_that_broadens_is_refused() {
    let mut store = MemoryCapabilityStore::new();
    let pid = store.issue(hash(1), make_cap(Scope::for_action("send_message")), false).unwrap();
    let child = make_cap_with(Scope::for_action("exfiltrate"), 2, Some(pid), vec![]);
    let r = store.attenuate(hash(2), child, false);
    assert!(matches!(r, Err(yutha::error::CapabilityError::AttenuationBroadens { .. })));
    let orphan = make_cap_with(Scope::for_action("send_message"), 2, Some(hash(9)), vec![]);
    assert!(matches!(
        store.attenuate(hash(3), orphan, false),
        Err(yutha::error::CapabilityError::ParentNotFound(_))
    ));
}

#[test]
fn revoked_link_denies_and_missing_link_errors() {
    let mut store = MemoryCapabilityStore::new();
    let pid = store.issue(hash(1), make_cap(Scope::for_action("send_message")), false).unwrap();
    let child = make_cap_with(Scope::for_action("send_message"), 2, Some(pid.clone()), vec![]);
    let cid = store.attenuate(hash(2), child, false).unwrap();
    store.revoke(&pid, "compromised").unwrap();
    let now = ts("2026-05-15T00:00:00Z", 5_000);
    let (o, _) = store.check_inner(&cid, &ActionDescriptor::for_kind("send_message"), &now, false).unwrap();
    assert!(!o.permitted);
    assert_eq!(o.deny_reason, "capability revoked in chain");
    let err = store.check_inner(&hash(5), &ActionDescriptor::for_kind("send_message"), &now, false).unwrap_err();
    match err {
        yutha::error::CapabilityError::Backend(m) => assert_eq!(m, format!("missing chain link: {}", "05".repeat(32))),
        other => panic!("unexpected {other:?}"),
    }
}

#[test]
fn chain_deeper_than_max_is_refused() {
    let mut store = MemoryCapabilityStore::with_max_depth(1);
    let pid = store.issue(hash(1), make_cap(Scope::for_action("send_message")), false).unwrap();
    let child = make_cap_with(Scope::for_action("send_message"), 2, Some(pid.clone()), vec![]);
    let cid = store.attenuate(hash(2), child, false).unwrap();
    let now = ts("2026-05-15T00:00:00Z", 5_000);
    let err = store.check_inner(&cid, &ActionDescriptor::for_kind("send_message"), &now, false).unwrap_err();
    assert!(matches!(err, yutha::error::CapabilityError::ChainTooDeep { actual: 2, max: 1 }));
    let late = ts("2100-01-01T00:00:00Z", u64::MAX);
    let (o, _) = store.check_inner(&pid, &ActionDescriptor::for_kind("send_message"), &late, false).unwrap();
    assert_eq!(o.deny_reason, "capability outside validity window");
}

#[test]
fn decimal_bounds_compare_exactly() {
    assert!(decimal_le("500", "500.00"));
    assert!(decimal_le("-0.25", "0"));
    assert!(!decimal_le("0.30000000000000001", "0.3"));
    assert!(decimal_le("1", "inf"));
    assert!(!decimal_le("nan", "1"));
    // Exponent notation is not read: as a value it never passes a bound,
    // as a bound it admits nothing.
    assert!(!decimal_le("1e3", "2000"));
    assert!(!decimal_le("1", "1e3"));
}
