use std::collections::HashMap;

use growlerdb_engine::admin::AlterPlan;
use growlerdb_engine::authn::{Authenticator, AuthnError, SharedAuthn};
use growlerdb_engine::control::{
    login_busy, login_checked, session_answer, subject_of, wiring_is_safe, Caller,
    ControlPlaneService, License,
};
use growlerdb_engine::definition::{
    field_mappings, source_type_str, time_format_str, windowing_config, FieldType, ResolvedField,
    ResolvedIndex, SourceType, TimeFormat, TimeWindowing, WindowGranularity,
};
use growlerdb_engine::endpoint::validate_endpoint;
use growlerdb_engine::index_info::{get_index, list_indexes, IndexEntry};
use growlerdb_engine::ingestion::{
    checkpoint_failure_state, index_ingestion, ingestion_gauges, ingestion_names, ingestion_state,
    probe_of, probe_targets, sampled_names, unassigned_probe, IndexStatus, IngestionEntry,
    ProbeOutcome, RoutingStrategy, ShardProbe,
};
use growlerdb_engine::jobs::{
    admit_job, job_to_wire, job_wants_to_continue, reindex_outcome, units_to_interrupt, JobKind,
    JobShard, JobState, ReindexJob, ShardPhase,
};
use growlerdb_engine::jwt::{
    JwtAuthenticator, BUILTIN_SESSION_AUDIENCE, BUILTIN_SESSION_ISSUER, BUILTIN_SESSION_TTL_SECS,
};
use growlerdb_engine::metadata::{PRINCIPAL_KEY, ROLES_KEY};
use growlerdb_engine::placement::{
    claim_shards, may_subscribe, named_unit, node_assignments_wire, plan_announcement,
    plan_reindex_shards, precheck_reindex_disk, shard_statuses, window_announces, Assignment,
    Claims, DiskProbe, IndexPlacement, ServedWindow, UnitId, WindowAssignment,
};
use growlerdb_engine::registry::{
    created_or_present, placement_status, registry_status, RegistryError,
};
use growlerdb_engine::reindex_driver::{
    build_outcome, plan_drive, Action, BuildOutcome, Event, ReindexDriver, Turn, Unit,
};
use growlerdb_engine::requests::{
    alias_activity, alter_action, alter_activity, created_activity, dead_owner_period_ms,
    definition_refused, may_bind_roles, may_create, may_mint, named_alias, new_token,
    placement_period_ms, query_to_save, sample_period_secs, token_meta, wire_saved, AlterAction,
    DefinitionFault, WireSavedQuery,
};
use growlerdb_engine::reshard::{
    plan_apply_reshard, plan_bucket_move, plan_growth_reshard, reshard_activity, reshard_response,
    routed_over, swap_owners, BucketMap, BucketMove, Reassignment, ReshardAction, ReshardDriver, ReshardStep, ShardNode,
};
use growlerdb_engine::status::{Code, Status};
use growlerdb_engine::throttle::{LoginThrottle, LOGIN_FAILURES_BEFORE_LOCKOUT, MAX_TRACKED_ACCOUNTS};
use jsonwebtoken::{encode, get_current_timestamp, Algorithm, EncodingKey, Header};
use serde_json::Value;
use tonic::metadata::MetadataMap;

#[test]
fn ingestion_state_tolerates_a_fresh_lag_so_the_badge_doesnt_flap() {
    let tol = 15_000;
    assert_eq!(
        ingestion_state(100, 100, true, Some(5_000), 5_000, tol),
        ("in_sync", 0)
    );
    assert_eq!(
        ingestion_state(90, 100, true, Some(2_000), 10_000, tol),
        ("in_sync", 8_000)
    );
    assert_eq!(
        ingestion_state(90, 100, true, Some(0), 30_000, tol),
        ("behind", 30_000)
    );
    assert_eq!(
        ingestion_state(90, 100, true, None, 10_000, tol),
        ("behind", 0)
    );
    assert_eq!(
        ingestion_state(0, 100, true, None, 10_000, tol),
        ("uninitialized", 0)
    );
    assert_eq!(
        ingestion_state(90, 100, false, Some(0), 10_000, tol),
        ("unknown", 0)
    );
}

#[test]
fn login_throttle_locks_after_repeated_failures() {
    let now = 1_000_000;
    let mut t = LoginThrottle::new();
    for _ in 0..LOGIN_FAILURES_BEFORE_LOCKOUT - 1 {
        t.record_failure("alice", now);
        assert!(t.locked_for("alice", now).is_none(), "not yet locked");
    }
    t.record_failure("alice", now);
    assert!(
        t.locked_for("alice", now).is_some(),
        "locked after the threshold"
    );
    assert!(t.locked_for("bob", now).is_none());
    t.record_success("alice");
    assert!(t.locked_for("alice", now).is_none());
}

#[test]
fn a_lockout_ends_and_grows_with_further_failures() {
    let mut t = LoginThrottle::new();
    for _ in 0..LOGIN_FAILURES_BEFORE_LOCKOUT {
        t.record_failure("alice", 0);
    }
    let first = t.locked_for("alice", 0).unwrap();
    assert_eq!(first, 1_000);
    assert!(t.locked_for("alice", first).is_none());
    t.record_failure("alice", 0);
    assert_eq!(t.locked_for("alice", 0), Some(2_000));
    for _ in 0..100 {
        t.record_failure("alice", 0);
    }
    assert_eq!(t.locked_for("alice", 0), Some(300_000));
}

#[test]
fn a_full_throttle_forgets_the_accounts_that_are_not_locked() {
    let mut t = LoginThrottle::new();
    for _ in 0..LOGIN_FAILURES_BEFORE_LOCKOUT {
        t.record_failure("locked", 0);
    }
    for _ in 0..LOGIN_FAILURES_BEFORE_LOCKOUT - 1 {
        t.record_failure("alice", 0);
    }
    for i in 2..MAX_TRACKED_ACCOUNTS {
        t.record_failure(&format!("{i}"), 0);
    }
    t.record_failure("one-too-many", 0);
    t.record_failure("alice", 0);
    assert!(t.locked_for("alice", 0).is_none(), "the count starts anew");
    assert_eq!(t.locked_for("locked", 0), Some(1_000));
}

const SECRET: &[u8] = b"session-secret";

#[test]
fn builtin_login_mints_a_session_token_the_gateway_accepts() {
    let secret = b"shared-deployment-secret".to_vec();
    let open = ControlPlaneService::new();
    let svc = ControlPlaneService::new().with_session_secret(secret.clone());
    let mut throttle = LoginThrottle::new();

    assert!(svc.admit_login("alice", &throttle, 0).is_ok());
    let err = login_checked(&mut throttle, "alice", false, 0).unwrap_err();
    assert_eq!(err.code, Code::Unauthenticated);
    assert_eq!(err.message, "invalid username or password");

    login_checked(&mut throttle, "alice", true, 0).unwrap();
    let resp = svc
        .open_session("alice", vec!["admin".to_string()], &vec![], 1_000)
        .unwrap();
    assert!(resp.roles.contains(&"admin".to_string()));
    let authn = JwtAuthenticator::from_hs256_secret(
        &secret,
        BUILTIN_SESSION_ISSUER,
        BUILTIN_SESSION_AUDIENCE,
    );
    let v = authn
        .authenticate(Some(&format!("Bearer {}", resp.token)))
        .unwrap();
    assert_eq!(v.principal, "alice");
    assert!(v.roles.contains(&"admin".to_string()));

    assert_eq!(
        open.admit_login("alice", &throttle, 0).unwrap_err().code,
        Code::Unimplemented
    );
}

#[test]
fn a_session_is_answered_with_its_token_and_its_end() {
    let roles = vec!["admin".to_string()];
    let ok = session_answer(Ok("t".to_string()), roles.clone(), 1_000).unwrap();
    assert_eq!((ok.token.as_str(), &ok.roles), ("t", &roles));
    assert_eq!(ok.expires_at_ms, 1_000 + 1_000 * BUILTIN_SESSION_TTL_SECS as i64);
    let err = session_answer(Err(AuthnError::Invalid("no key".to_string())), roles, 0).unwrap_err();
    assert_eq!(err.code, Code::Internal);
    assert_eq!(err.message, "invalid token: no key");
}

#[test]
fn a_locked_account_is_not_asked_for_its_password() {
    let svc = ControlPlaneService::new().with_session_secret(SECRET.to_vec());
    let mut throttle = LoginThrottle::new();
    assert_eq!(
        svc.admit_login("", &throttle, 0).unwrap_err().code,
        Code::InvalidArgument
    );
    for _ in 0..LOGIN_FAILURES_BEFORE_LOCKOUT {
        assert!(login_checked(&mut throttle, "admin", false, 0).is_err());
    }
    assert_eq!(
        svc.admit_login("admin", &throttle, 0).unwrap_err().code,
        Code::Unavailable
    );
    assert_eq!(login_busy().message, "login is busy; retry shortly");
}

fn caller(issued_at: Option<u64>) -> Caller {
    Caller {
        principal: "alice".to_string(),
        roles: vec!["reader".to_string()],
        tenant: None,
        issued_at,
    }
}

#[test]
fn role_change_revokes_outstanding_sessions() {
    let secret = b"shared-deployment-secret".to_vec();
    let authn = JwtAuthenticator::from_hs256_secret(
        &secret,
        BUILTIN_SESSION_ISSUER,
        BUILTIN_SESSION_AUDIENCE,
    );
    let svc = ControlPlaneService::new().with_authn(SharedAuthn {
        authn: Box::new(authn),
    });
    let now = get_current_timestamp();
    let mut claims = serde_json::Map::new();
    claims.insert("sub".to_string(), Value::from("alice"));
    claims.insert("roles".to_string(), Value::from(vec!["reader"]));
    claims.insert("iss".to_string(), Value::from(BUILTIN_SESSION_ISSUER));
    claims.insert("aud".to_string(), Value::from(BUILTIN_SESSION_AUDIENCE));
    claims.insert("exp".to_string(), Value::from(now + 3600));
    claims.insert("iat".to_string(), Value::from(now - 100));
    let stale = encode(
        &Header::new(Algorithm::HS256),
        &claims,
        &EncodingKey::from_secret(&secret),
    )
    .unwrap();
    let mut md = MetadataMap::new();
    md.insert("authorization", format!("Bearer {stale}").parse().unwrap());

    let caller = svc.identify(&md).unwrap();
    assert_eq!(caller.issued_at, Some(now - 100));
    assert!(svc.gate("ListIndexes", caller, 0, &vec![]).is_ok());

    let caller = svc.identify(&md).unwrap();
    let epoch_ms = (now * 1000) as i64;
    let err = svc
        .gate("ListIndexes", caller, epoch_ms, &vec!["admin".to_string()])
        .unwrap_err();
    assert_eq!(err.code, Code::Unauthenticated);
    assert!(err.message.contains("superseded"));
}

#[test]
fn a_session_outlives_an_epoch_in_its_own_second() {
    let svc = ControlPlaneService::new();
    assert!(svc
        .gate("ListIndexes", caller(Some(100)), 100_000, &vec![])
        .is_ok());
    assert!(svc
        .gate("ListIndexes", caller(Some(100)), 101_000, &vec![])
        .is_err());
    assert!(svc
        .gate("ListIndexes", caller(None), 101_000, &vec![])
        .is_ok());
}

#[test]
fn bound_roles_are_counted_in() {
    let svc = ControlPlaneService::new();
    let ctx = svc
        .gate(
            "ListIndexes",
            caller(None),
            0,
            &vec!["admin".to_string(), "reader".to_string()],
        )
        .unwrap();
    assert_eq!(ctx.roles, vec!["reader", "admin"]);
    assert_eq!(subject_of(&ctx), "alice");
}

#[test]
fn without_an_authenticator_the_stamped_identity_counts() {
    let mut md = MetadataMap::new();
    md.insert(PRINCIPAL_KEY, "bob".parse().unwrap());
    md.insert(ROLES_KEY, "a,b".parse().unwrap());
    let c = ControlPlaneService::new().identify(&md).unwrap();
    assert_eq!(c.principal, "bob");
    assert_eq!(c.roles, vec!["a", "b"]);
    assert!(wiring_is_safe(true, true));
    assert!(wiring_is_safe(false, false));
    assert!(!wiring_is_safe(false, true));
}

#[test]
fn a_license_raises_the_node_limit() {
    let svc = ControlPlaneService::new();
    assert_eq!(svc.entitled_nodes(), 3);
    let free = svc.license_status(2);
    assert!(!free.licensed);
    assert_eq!((free.max_nodes, free.current_nodes), (3, 2));
    let svc = svc.with_license(Some(License {
        licensee: "acme".to_string(),
        max_nodes: 50,
        expires_at: None,
    }));
    let paid = svc.license_status(2);
    assert!(paid.licensed);
    assert_eq!(paid.licensee, "acme");
    assert_eq!(paid.max_nodes, 50);
    assert_eq!(ControlPlaneService::new().with_replication_factor(0).replication_factor, 1);
}

#[test]
fn register_node_rejects_malformed_endpoints() {
    for bad in [
        "",
        "logs",
        "http://",
        "host:notaport",
        "http://host",
        "ho st:1",
        "ftp://h:1",
    ] {
        let err = validate_endpoint(bad).expect_err(&format!("`{bad}` must be rejected"));
        assert_eq!(err.code, Code::InvalidArgument, "`{bad}`");
    }
    for good in ["http://n1:50051", "https://n1:443", "n1:1", "[::1]:50051"] {
        assert!(validate_endpoint(good).is_ok(), "`{good}` must be accepted");
    }
}

#[test]
fn a_refused_endpoint_says_why() {
    let why = |e: &str| validate_endpoint(e).unwrap_err().message;
    assert_eq!(why(""), "endpoint is required");
    assert_eq!(
        why("ho st:1"),
        "invalid endpoint `ho st:1`: contains whitespace (expected [http[s]://]host:port)"
    );
    assert!(why("ftp://h:1").contains("unsupported scheme or path"));
    assert!(why("http://host").contains("missing `:port`"));
    assert!(why(":1").contains("empty host"));
    assert!(why("h:65536").contains("port is not a number in 0-65535"));
    assert!(why("h:").contains("port is not a number in 0-65535"));
    assert!(validate_endpoint("h:65535").is_ok());
}

// Resharding.

fn staffed(n: u32) -> Vec<ShardNode> {
    (0..n)
        .map(|o| ShardNode {
            ordinal: o,
            primary: Some(format!("http://node{o}:50051")),
        })
        .collect()
}

fn mv(bucket: u32, from_shard: u32, to_shard: u32) -> BucketMove {
    BucketMove {
        bucket,
        from_shard,
        to_shard,
    }
}

/// Six buckets over two shards, two of which move onto a third.
fn growth() -> Reassignment {
    Reassignment {
        owners: vec![0, 1, 0, 1, 2, 2],
        moved: vec![mv(4, 0, 2), mv(5, 1, 2)],
    }
}

/// The owners that the growth is planned from.
fn before_growth() -> Option<Vec<u32>> {
    Some(vec![0, 1, 0, 1, 0, 1])
}

#[test]
fn plan_growth_reshard_accepts_growth_builds_new_and_trims_old() {
    let g = plan_growth_reshard(before_growth(), growth(), &staffed(3), 2, 3).expect("growth plan");
    assert_eq!(g.build.iter().map(|t| t.ordinal).collect::<Vec<_>>(), vec![2]);
    assert_eq!(
        g.trim.iter().map(|t| t.ordinal).collect::<Vec<_>>(),
        vec![0, 1]
    );
    assert_eq!(g.build[0].endpoint, "http://node2:50051");
    assert_eq!(g.owners, growth().owners);
    assert_eq!(g.planned_from, before_growth());
}

#[test]
fn plan_growth_reshard_rejects_non_growth_and_unready_topology() {
    assert!(plan_growth_reshard(before_growth(), growth(), &staffed(3), 3, 3).is_err());
    assert_eq!(
        plan_growth_reshard(before_growth(), growth(), &staffed(4), 4, 3).unwrap_err(),
        "apply-reshard grows an index; new shard count 3 must exceed the current 4 (shrink/rebalance is not supported online)"
    );
    assert_eq!(
        plan_growth_reshard(before_growth(), growth(), &staffed(2), 2, 3).unwrap_err(),
        "shard 2 has no assigned node — bring up + register shards 2..3 (`serve --shards 3 --shard-ordinal K`) first"
    );
}

#[test]
fn plan_growth_reshard_rejects_a_rebalance_onto_existing_shards() {
    let plan = Reassignment {
        owners: vec![0, 1, 2],
        moved: vec![mv(5, 2, 0)],
    };
    assert_eq!(
        plan_growth_reshard(before_growth(), plan, &staffed(3), 2, 3).unwrap_err(),
        "reassignment moves bucket 5 onto existing shard 0 (a rebalance); apply-reshard supports growth only"
    );
}

fn failure() -> Status {
    Status::fixed(Code::Unavailable, "down")
}

#[test]
fn a_normally_registered_index_completes_an_online_grow() {
    assert_eq!(routed_over(Some(2), 3), 2);
    assert_eq!(routed_over(None, 3), 3);
    let g = plan_growth_reshard(before_growth(), growth(), &staffed(3), 2, 3).unwrap();
    let mut d = ReshardDriver::start(g);
    assert!(matches!(d.action(), ReshardAction::Rebuild(t) if t.ordinal == 2));
    d.advance(Ok(())).unwrap();
    let mut stored = before_growth();
    match d.action() {
        ReshardAction::Commit { expected, owners } => {
            assert_eq!(*expected, before_growth());
            assert!(swap_owners(&mut stored, expected, owners));
        }
        _ => panic!("the owners are committed after the builds"),
    }
    assert_eq!(stored, Some(growth().owners));
    d.advance(Ok(())).unwrap();
    assert!(matches!(d.action(), ReshardAction::Rebuild(t) if t.ordinal == 0));
    d.advance(Ok(())).unwrap();
    assert!(matches!(d.action(), ReshardAction::Rebuild(t) if t.ordinal == 1));
    d.advance(Ok(())).unwrap();
    assert_eq!(d.step, ReshardStep::Done);
    let r = reshard_response(d, growth().moved, 6);
    assert_eq!(r.built_shards, vec![2]);
    assert_eq!(r.trimmed_shards, vec![0, 1]);
    assert_eq!(r.moved.len(), 2);
    assert_eq!(r.bucket_count, 6);
    assert_eq!(reshard_activity(3), "resharded to 3 shards");
}

#[test]
fn a_trim_that_fails_is_left_for_later() {
    let g = plan_growth_reshard(before_growth(), growth(), &staffed(3), 2, 3).unwrap();
    let mut d = ReshardDriver::start(g);
    d.advance(Ok(())).unwrap();
    d.advance(Ok(())).unwrap();
    d.advance(Err(failure())).unwrap();
    d.advance(Ok(())).unwrap();
    assert_eq!(d.step, ReshardStep::Done);
    assert_eq!(reshard_response(d, growth().moved, 6).trimmed_shards, vec![1]);
}

#[test]
fn an_applied_reshard_is_planned_from_the_stored_map() {
    let map = || {
        Some(BucketMap {
            owners: before_growth().unwrap(),
            shards: 2,
        })
    };
    let g = plan_apply_reshard(map(), growth(), &staffed(3), 3).unwrap();
    assert_eq!(g.planned_from, before_growth());
    assert_eq!(g.build.iter().map(|t| t.ordinal).collect::<Vec<_>>(), vec![2]);
    let err = plan_apply_reshard(map(), growth(), &staffed(3), 2).unwrap_err();
    assert_eq!(err.code, Code::FailedPrecondition);
    assert_eq!(
        err.message,
        "apply-reshard grows an index; new shard count 2 must exceed the current 2 (shrink/rebalance is not supported online)"
    );
    // Without a map the registered shards count, which here are as many as are asked for.
    let err = plan_apply_reshard(None, growth(), &staffed(3), 3).unwrap_err();
    assert_eq!(err.code, Code::FailedPrecondition);
}

#[test]
fn move_bucket_relocates_and_trims() {
    let mut stored = Some(vec![0, 1, 0, 1]);
    let p = plan_bucket_move("docs", stored.clone(), 0, 1, None, &staffed(2)).unwrap();
    assert_eq!(p.answer, mv(0, 0, 1));
    let mut d = ReshardDriver::start(p.change);
    assert!(matches!(d.action(), ReshardAction::Rebuild(t) if t.ordinal == 1));
    d.advance(Ok(())).unwrap();
    match d.action() {
        ReshardAction::Commit { expected, owners } => {
            assert!(swap_owners(&mut stored, expected, owners))
        }
        _ => panic!("the owner changes after the build"),
    }
    assert_eq!(stored, Some(vec![1, 1, 0, 1]));
    d.advance(Ok(())).unwrap();
    assert!(matches!(d.action(), ReshardAction::Rebuild(t) if t.ordinal == 0));
    d.advance(Ok(())).unwrap();
    assert_eq!(d.step, ReshardStep::Done);
    assert_eq!(d.trimmed, vec![0]);
}

#[test]
fn a_placement_op_racing_another_cutover_is_refused() {
    let mut stored = Some(vec![0, 1, 0, 1, 0, 1]);
    let p = plan_bucket_move("docs", stored.clone(), 0, 1, None, &staffed(2)).unwrap();
    let mut d = ReshardDriver::start(p.change);
    d.advance(Ok(())).unwrap();
    let other = Some(vec![0, 1, 0, 1, 0, 0]);
    assert!(swap_owners(
        &mut stored,
        &Some(vec![0, 1, 0, 1, 0, 1]),
        &vec![0, 1, 0, 1, 0, 0]
    ));
    match d.action() {
        ReshardAction::Commit { expected, owners } => {
            assert!(!swap_owners(&mut stored, expected, owners))
        }
        _ => panic!("the owner changes after the build"),
    }
    assert_eq!(stored, other, "the other commit survives");
    let conflict = registry_status(RegistryError::PlacementConflict("moved".to_string()));
    let err = d.advance(Err(conflict)).unwrap_err();
    assert_eq!(err.code, Code::FailedPrecondition);
    assert_eq!(d.step, ReshardStep::Aborted);
    assert!(matches!(d.action(), ReshardAction::Nothing));
    assert!(d.trimmed.is_empty());
    let mut none: Option<Vec<u32>> = None;
    assert!(!swap_owners(&mut none, &other, &vec![1]));
    assert!(swap_owners(&mut none, &None, &vec![1]));
    assert_eq!(none, Some(vec![1]));
}

#[test]
fn move_bucket_validates_before_touching_nodes() {
    let err = plan_bucket_move("docs", None, 0, 1, None, &staffed(2)).unwrap_err();
    assert_eq!(err.code, Code::FailedPrecondition);
    assert_eq!(
        err.message,
        "index `docs` is not bucketed (legacy routing); a reshard establishes buckets first"
    );
    let map = Some(vec![0, 1, 0, 1, 0]);
    let err = plan_bucket_move("docs", map, 4, 0, None, &staffed(2)).unwrap_err();
    assert_eq!(err.code, Code::FailedPrecondition);
    assert_eq!(err.message, "bucket 4 already lives on shard 0");
}

#[test]
fn a_bucket_moves_only_where_both_shards_have_nodes() {
    let map = || Some(vec![0, 1, 0, 1, 0]);
    let fault = Some("empties".to_string());
    let err = plan_bucket_move("docs", map(), 4, 1, fault, &staffed(2)).unwrap_err();
    assert_eq!(err.code, Code::InvalidArgument);
    assert_eq!(err.message, "empties");
    let err = plan_bucket_move("docs", map(), 4, 7, None, &staffed(2)).unwrap_err();
    assert_eq!(err.message, "shard 7 of `docs` has no node");
    let lone = vec![ShardNode {
        ordinal: 1,
        primary: Some("http://node1:50051".to_string()),
    }];
    let err = plan_bucket_move("docs", map(), 4, 1, None, &lone).unwrap_err();
    assert_eq!(err.message, "shard 0 of `docs` has no node");
}

// Placement.

#[test]
fn an_announcement_claims_nothing_where_it_is_refused() {
    let at = "http://node:50051";
    let none: Vec<ServedWindow> = vec![];
    let e = plan_announcement("", Ok(false), 2, &vec![], false, &none).unwrap_err();
    assert_eq!(e.status.message, "endpoint is required");
    assert!(!e.alive && !e.registered);
    let unread = Err("eof".to_string());
    let e = plan_announcement(at, unread, 2, &vec![], false, &none).unwrap_err();
    assert_eq!(e.status.message, "invalid definition_json: eof");
    assert!(e.alive && !e.registered);
    let e = plan_announcement(at, Ok(false), 2, &vec![0, 2], false, &none).unwrap_err();
    assert_eq!(
        e.status.message,
        "shard ordinal 2 is out of range for a 2-shard index"
    );
    assert!(e.alive && e.registered);
    assert!(matches!(
        plan_announcement(at, Ok(false), 2, &vec![], false, &none).unwrap(),
        Claims::Shards { of: 2, ordinals } if ordinals == vec![0, 1]
    ));
    assert!(matches!(
        plan_announcement(at, Ok(true), 2, &vec![9], true, &none).unwrap(),
        Claims::Windows(w) if w.is_empty()
    ));
}

fn assigned(node: &str, replicas: &[&str]) -> Assignment {
    Assignment {
        primary: Some(node.to_string()),
        replicas: replicas.iter().map(|r| r.to_string()).collect(),
    }
}

fn window(node: &str, cold: bool) -> WindowAssignment {
    WindowAssignment {
        assignment: assigned(node, &[]),
        event_min: None,
        event_max: None,
        cold,
    }
}

fn no_units() -> IndexPlacement {
    IndexPlacement {
        shards: vec![],
        windows: vec![],
    }
}

fn resolved(name: &str) -> ResolvedIndex {
    ResolvedIndex {
        name: name.to_string(),
        partition_fields: vec![],
        identifier_fields: vec!["id".to_string()],
        fields: vec![field("id", FieldType::Keyword)],
        windowing: None,
    }
}

fn resolved_windowed(name: &str) -> ResolvedIndex {
    ResolvedIndex {
        windowing: Some(TimeWindowing {
            field: "ingest".to_string(),
            granularity: WindowGranularity::Daily,
            event_time_field: Some("event".to_string()),
            hot_windows: None,
        }),
        ..resolved(name)
    }
}

fn registered(definition: ResolvedIndex, placement: IndexPlacement) -> IndexEntry {
    IndexEntry {
        definition,
        status: IndexStatus::Building,
        routing: RoutingStrategy::Hash,
        placement,
        bucket_owners: vec![],
        generation: 0,
        definition_version: 0,
        definition_json: None,
    }
}

#[test]
fn get_index_returns_shard_count_and_routing() {
    let entry = registered(
        resolved("docs"),
        IndexPlacement {
            shards: vec![
                (0, assigned("node-a", &["node-a2"])),
                (1, assigned("node-b", &[])),
            ],
            windows: vec![],
        },
    );
    let resp = get_index("docs".to_string(), Some(entry), 100).unwrap();
    assert_eq!(resp.name, "docs");
    assert_eq!(resp.shard_count, 2);
    assert_eq!(resp.routing, RoutingStrategy::Hash);
    assert_eq!(resp.status, "building");
    assert!(resp.bucket_owners.is_empty());

    let s0 = resp.shard_status.iter().find(|s| s.ordinal == 0).unwrap();
    assert_eq!(s0.primary, "node-a");
    assert_eq!(s0.replicas, vec!["node-a2".to_string()]);
    assert_eq!(s0.state, "active");
    assert!(!s0.has_event_bounds);
    assert_eq!(
        resp.shard_status
            .iter()
            .find(|s| s.ordinal == 1)
            .unwrap()
            .primary,
        "node-b"
    );

    let err = get_index("nope".to_string(), None, 100).unwrap_err();
    assert_eq!(err.code, Code::NotFound);
}

#[test]
fn get_index_reports_partition_routing() {
    let mut entry = registered(resolved("ptd"), no_units());
    entry.routing = RoutingStrategy::Partition;
    let resp = get_index("ptd".to_string(), Some(entry), 100).unwrap();
    assert_eq!(resp.routing, RoutingStrategy::Partition);
}

#[test]
fn get_index_carries_the_authoritative_definition_json() {
    let json = r#"{"name":"reload"}"#;
    let mut entry = registered(resolved("reload"), no_units());
    entry.definition_json = Some(json.to_string());
    entry.generation = 4;
    entry.definition_version = 9;
    entry.bucket_owners = vec![0, 1, 0];
    let resp = get_index("reload".to_string(), Some(entry), 100).unwrap();
    assert_eq!(resp.definition_json, json);
    assert_eq!((resp.generation, resp.definition_version), (4, 9));
    assert_eq!(resp.bucket_owners, vec![0, 1, 0]);
    let bare = registered(resolved("reload"), no_units());
    let resp = get_index("reload".to_string(), Some(bare), 100).unwrap();
    assert_eq!(resp.definition_json, "");
}

#[test]
fn list_and_drop_over_the_registry() {
    let listed = list_indexes(vec![
        ("docs".to_string(), IndexStatus::Building),
        ("logs".to_string(), IndexStatus::Building),
    ]);
    let names: Vec<&str> = listed.iter().map(|s| s.name.as_str()).collect();
    assert_eq!(names, vec!["docs", "logs"]);
    assert!(listed.iter().all(|s| s.status == "building"));
    let err = registry_status(RegistryError::NotFound("logs".to_string()));
    assert_eq!(err.code, Code::NotFound);
}

#[test]
fn get_index_carries_windowing_config_and_event_bounds() {
    let (w0, w1) = (1_700_000_000_000_i64, 1_700_086_400_000_i64);
    let mut bounded = window("node-a", false);
    bounded.event_min = Some(10);
    bounded.event_max = Some(99);
    let entry = registered(
        resolved_windowed("logs"),
        IndexPlacement {
            shards: vec![],
            windows: vec![(w0, bounded), (w1, window("node-b", false))],
        },
    );
    let resp = get_index("logs".to_string(), Some(entry), 100).unwrap();

    let wc = resp
        .windowing
        .expect("windowed index carries a windowing config");
    assert_eq!(wc.field, "ingest");
    assert_eq!(wc.granularity, "daily");
    assert_eq!(wc.event_time_field, "event");

    let s0 = resp.shard_status.iter().find(|s| s.window == w0).unwrap();
    assert_eq!(s0.primary, "node-a");
    assert!(s0.has_event_bounds);
    assert_eq!((s0.event_min, s0.event_max), (10, 99));
    let s1 = resp.shard_status.iter().find(|s| s.window == w1).unwrap();
    assert_eq!(s1.primary, "node-b");
    assert!(!s1.has_event_bounds);

    let ord = get_index(
        "docs".to_string(),
        Some(registered(resolved("docs"), no_units())),
        100,
    )
    .unwrap();
    assert!(ord.windowing.is_none());
}

#[test]
fn units_are_shown_with_their_place_and_state() {
    let unassigned = Assignment {
        primary: None,
        replicas: vec![],
    };
    let s = shard_statuses(&IndexPlacement {
        shards: vec![(3, unassigned)],
        windows: vec![],
    });
    assert_eq!((s[0].ordinal, s[0].state, s[0].primary.as_str()), (3, "building", ""));
    let mut half = window("n", true);
    half.event_min = Some(3);
    let s = shard_statuses(&IndexPlacement {
        shards: vec![],
        windows: vec![(100, window("n", false)), (200, half)],
    });
    assert_eq!((s[1].ordinal, s[1].window, s[1].cold), (1, 200, true));
    assert_eq!((s[1].event_min, s[1].event_max, s[1].has_event_bounds), (0, 0, false));
}

#[test]
fn windowed_reindex_plan_enumerates_hot_windows_and_skips_cold() {
    let (w0, w1, w2) = (
        1_700_000_000_000_i64,
        1_700_086_400_000_i64,
        1_700_172_800_000_i64,
    );
    let placed = |cold: [bool; 3]| IndexPlacement {
        shards: vec![],
        windows: vec![
            (w0, window("node-a", cold[0])),
            (w1, window("node-b", cold[1])),
            (w2, window("node-c", cold[2])),
        ],
    };
    let plan = plan_reindex_shards("logs", true, Some(&placed([false, true, false])))
        .expect("windowed plan");
    let mut windows: Vec<i64> = plan
        .iter()
        .map(|u| {
            assert_eq!(u.ordinal, 0, "windowed units carry ordinal 0");
            u.window
        })
        .collect();
    windows.sort();
    assert_eq!(
        windows,
        vec![w0, w2],
        "hot windows enumerated, cold w1 skipped"
    );
    let endpoint = |w: i64| plan.iter().find(|u| u.window == w).map(|u| u.node.clone());
    assert_eq!(endpoint(w0).as_deref(), Some("node-a"));
    assert_eq!(endpoint(w2).as_deref(), Some("node-c"));

    let err = plan_reindex_shards("logs", true, Some(&placed([true, true, true]))).unwrap_err();
    assert_eq!(err.code, Code::FailedPrecondition);
    assert_eq!(
        err.message,
        "index `logs` has no hot windows to reindex (3 cold windows skipped; cold-window reindex is a follow-up)"
    );
}

#[test]
fn a_window_without_a_primary_cannot_be_reindexed() {
    let p = IndexPlacement {
        shards: vec![],
        windows: vec![(-5, window("", false))],
    };
    let err = plan_reindex_shards("logs", true, Some(&p)).unwrap_err();
    assert_eq!(err.message, "window -5 of `logs` has no primary; cannot reindex");
}

#[test]
fn an_ordinal_reindex_plan_needs_a_primary_for_each_shard() {
    let p = |shards: Vec<(u32, Assignment)>| IndexPlacement {
        shards,
        windows: vec![],
    };
    let units = plan_reindex_shards("docs", false, Some(&p(vec![(4, assigned("http://a:1", &[]))]))).unwrap();
    assert_eq!((units[0].ordinal, units[0].window), (4, 0));
    let err = plan_reindex_shards("docs", false, None).unwrap_err();
    assert_eq!((err.code, err.message.as_str()), (Code::NotFound, "index `docs` not found"));
    assert_eq!(
        plan_reindex_shards("docs", false, Some(&p(vec![]))).unwrap_err().message,
        "index `docs` has no assigned shards to reindex"
    );
    let homeless = Assignment {
        primary: None,
        replicas: vec![],
    };
    assert_eq!(
        plan_reindex_shards("docs", false, Some(&p(vec![(0, assigned("n", &[])), (1, homeless)])))
            .unwrap_err()
            .message,
        "shard 1 of `docs` has no primary; cannot reindex"
    );
}

fn unit(ordinal: u32, window: i64, node: &str) -> Unit {
    Unit {
        ordinal,
        window,
        node: node.to_string(),
    }
}

#[test]
fn reindex_refused_up_front_when_a_node_is_disk_short() {
    let (ep0, ep1) = ("http://127.0.0.1:4000", "http://127.0.0.1:4001");
    let units = vec![unit(0, 0, ep0), unit(1, 0, ep1)];
    let probe = |ok: bool| {
        Some(DiskProbe {
            probed: true,
            ok,
            needed_bytes: 100,
            free_bytes: if ok { 1_000_000 } else { 10 },
        })
    };
    let err = precheck_reindex_disk("docs", &units, &vec![probe(true), probe(false)]).unwrap_err();
    assert_eq!(err.code, Code::FailedPrecondition);
    assert!(
        err.message.contains("free disk") && err.message.contains(ep1),
        "the error names the disk-short node: {}",
        err.message
    );
}

#[test]
fn a_disk_check_counts_only_nodes_that_answered() {
    let units = vec![unit(0, 0, "http://a:1"), unit(1, 0, "http://b:1"), unit(0, 7, "http://c:1")];
    let probe = |probed: bool, ok: bool| {
        Some(DiskProbe {
            probed,
            ok,
            needed_bytes: 300,
            free_bytes: 100,
        })
    };
    let fine = vec![None, probe(false, false), probe(true, true)];
    assert!(precheck_reindex_disk("docs", &units, &fine).is_ok());
    let short = vec![probe(true, false), probe(true, true), probe(true, false)];
    assert_eq!(
        precheck_reindex_disk("docs", &units, &short).unwrap_err().message,
        "insufficient free disk to reindex `docs` on 2 node(s): shard 0 on http://a:1: need ~300 bytes, only 100 free; window 7 on http://c:1: need ~300 bytes, only 100 free"
    );
}

#[test]
fn register_served_index_assigns_only_its_ordinal_for_multi_node() {
    for ord in [0u32, 1u32] {
        assert_eq!(claim_shards(2, &vec![ord], false).unwrap(), (2, vec![ord]));
    }
    let err = claim_shards(2, &vec![5], false).unwrap_err();
    assert_eq!(err.code, Code::InvalidArgument);
    assert_eq!(
        err.message,
        "shard ordinal 5 is out of range for a 2-shard index"
    );
}

#[test]
fn a_node_that_names_no_shards_claims_them_all_unless_the_pool_places_them() {
    assert_eq!(claim_shards(2, &vec![], false).unwrap(), (2, vec![0, 1]));
    assert_eq!(claim_shards(0, &vec![], false).unwrap(), (1, vec![0]));
    assert_eq!(claim_shards(3, &vec![], true).unwrap(), (3, vec![]));
    assert!(claim_shards(2, &vec![1, 2], true).is_err());
}

#[test]
fn register_served_index_records_windows_and_zone_maps() {
    let out = window_announces(&vec![
        ServedWindow {
            window: 100,
            event_min: 5,
            event_max: 80,
            has_event_bounds: true,
            cold: false,
        },
        ServedWindow {
            window: 200,
            event_min: 0,
            event_max: 0,
            has_event_bounds: false,
            cold: true,
        },
    ]);
    assert_eq!(out.len(), 2);
    assert_eq!((out[0].window, out[0].bounds), (100, Some((5, 80))));
    assert_eq!((out[1].window, out[1].bounds), (200, None));
    assert!(!out[0].cold, "window 100 reported hot");
    assert!(out[1].cold, "window 200 reported cold");
}

#[test]
fn assignments_are_told_as_they_are() {
    let a = node_assignments_wire(vec![
        ("docs".to_string(), UnitId::Shard(1), true),
        ("logs".to_string(), UnitId::Window(9), false),
    ]);
    assert_eq!(a.units.len(), 2);
    assert_eq!(a.units[0].unit, UnitId::Shard(1));
    assert!(a.units[0].primary);
    assert_eq!(a.units[1].index, "logs");
    assert_eq!(named_unit(Some(UnitId::Shard(2))).unwrap(), UnitId::Shard(2));
    assert_eq!(named_unit(None).unwrap_err().code, Code::InvalidArgument);
}

#[test]
fn subscribe_rejects_an_unregistered_endpoint() {
    let ep = "http://ghost:50051";
    let err = may_subscribe(ep, false).unwrap_err();
    assert_eq!(err.code, Code::FailedPrecondition);
    assert_eq!(
        err.message,
        "`http://ghost:50051` is not a registered pool node — RegisterNode first, then subscribe"
    );
    assert!(may_subscribe(ep, true).is_ok());
}

// Registry errors.

#[test]
fn registry_errors_have_codes_and_reasons() {
    let s = registry_status(RegistryError::NotFound("docs".to_string()));
    assert_eq!(s.code, Code::NotFound);
    assert_eq!(s.reason, "NOT_FOUND");
    assert_eq!(s.message, "index `docs` not found");
    let s = registry_status(RegistryError::EntitlementExceeded {
        nodes: 3,
        entitled: 3,
    });
    assert_eq!(s.code, Code::ResourceExhausted);
    assert!(s.message.starts_with(
        "scale limit reached: 3 primary-serving nodes in use, entitlement is 3 (free tier is 3)."
    ));
    assert_eq!(
        registry_status(RegistryError::AlreadyExists("d".to_string())).code,
        Code::AlreadyExists
    );
    assert_eq!(
        registry_status(RegistryError::PlacementConflict("x".to_string())).reason,
        "PLACEMENT_CONFLICT"
    );
    assert_eq!(
        registry_status(RegistryError::NotLeader("x".to_string())).reason,
        "NOT_LEADER"
    );
    assert_eq!(
        registry_status(RegistryError::AliasNameClash("a".to_string())).code,
        Code::InvalidArgument
    );
    assert_eq!(
        placement_status(RegistryError::NoLiveNode("none".to_string())).code,
        Code::Unavailable
    );
    assert!(created_or_present(Err(RegistryError::AlreadyExists("d".to_string()))).is_ok());
    assert!(created_or_present(Err(RegistryError::Other("d".to_string()))).is_err());
}

// Definitions.

fn field(path: &str, ty: FieldType) -> ResolvedField {
    ResolvedField {
        path: path.to_string(),
        ty,
        analyzer: None,
        fast: false,
        cached: false,
        sensitive: false,
        max_bytes: None,
        format: None,
    }
}

#[test]
fn get_index_returns_rich_field_mapping() {
    let def = ResolvedIndex {
        name: "rich".to_string(),
        partition_fields: vec![],
        identifier_fields: vec!["id".to_string()],
        fields: vec![
            field("id", FieldType::Keyword),
            ResolvedField {
                fast: true,
                ..field("city", FieldType::Keyword)
            },
            ResolvedField {
                cached: true,
                ..field("body", FieldType::Text)
            },
            ResolvedField {
                sensitive: true,
                ..field("ssn", FieldType::Keyword)
            },
        ],
        windowing: None,
    };
    let resp = get_index("rich".to_string(), Some(registered(def, no_units())), 100).unwrap();
    let f = |p: &str| resp.fields.iter().find(|x| x.path == p).expect(p);
    assert!(f("id").pk, "id is the identifier key");
    assert_eq!(f("id").ty, "KEYWORD");
    assert!(f("city").fast);
    assert!(f("body").cached);
    assert_eq!(f("body").ty, "TEXT");
    assert!(!f("ssn").cached);
    assert!(f("ssn").blocked.contains("sensitive"));
}

#[test]
fn field_mappings_tell_keys_formats_and_why_a_field_is_not_cached() {
    let def = ResolvedIndex {
        name: "docs".to_string(),
        partition_fields: vec!["region".to_string()],
        identifier_fields: vec!["id".to_string()],
        fields: vec![
            field("region", FieldType::Keyword),
            ResolvedField {
                analyzer: Some("en".to_string()),
                max_bytes: Some(101),
                ..field("body", FieldType::Text)
            },
            ResolvedField {
                format: Some(TimeFormat::EpochMillis),
                max_bytes: Some(100),
                ..field("ts", FieldType::Date)
            },
        ],
        windowing: None,
    };
    let m = field_mappings(&def, 100);
    assert!(m[0].pk && !m[1].pk);
    assert_eq!(m[1].analyzer, "en");
    assert_eq!(m[1].blocked, "big text (D23)");
    assert_eq!(m[2].field_format, "epoch_millis");
    assert_eq!(m[2].blocked, "");
}

#[test]
fn the_windows_of_an_index_are_sent() {
    let mut def = ResolvedIndex {
        name: "logs".to_string(),
        partition_fields: vec![],
        identifier_fields: vec!["id".to_string()],
        fields: vec![ResolvedField {
            format: Some(TimeFormat::DateOnly),
            ..field("ingest", FieldType::Date)
        }],
        windowing: Some(TimeWindowing {
            field: "ingest".to_string(),
            granularity: WindowGranularity::Daily,
            event_time_field: Some("event".to_string()),
            hot_windows: Some(7),
        }),
    };
    let c = windowing_config(&def).unwrap();
    assert_eq!((c.field.as_str(), c.granularity), ("ingest", "daily"));
    assert_eq!(c.event_time_field, "event");
    assert_eq!((c.hot_windows, c.has_hot_windows), (7, true));
    assert_eq!(c.field_format, "date");
    def.windowing = Some(TimeWindowing {
        field: "other".to_string(),
        granularity: WindowGranularity::Weekly,
        event_time_field: None,
        hot_windows: None,
    });
    let c = windowing_config(&def).unwrap();
    assert_eq!((c.granularity, c.field_format), ("weekly", ""));
    assert_eq!((c.hot_windows, c.has_hot_windows), (0, false));
    assert_eq!(time_format_str(TimeFormat::Rfc3339), "rfc3339");
    assert_eq!(source_type_str(SourceType::Text), "string");
}

// Smaller requests.

fn saved(name: &str, query: &str) -> WireSavedQuery {
    WireSavedQuery {
        id: "q1".to_string(),
        name: name.to_string(),
        owner: "alice".to_string(),
        query: query.to_string(),
        state: "{}".to_string(),
        shared: true,
        created_at_ms: 5,
    }
}

#[test]
fn a_saved_query_needs_a_name_or_a_query() {
    assert_eq!(query_to_save(None).unwrap_err().message, "query is required");
    assert_eq!(
        query_to_save(Some(saved(" ", "\t"))).unwrap_err().message,
        "a saved query needs a name or a query"
    );
    let q = query_to_save(Some(saved("", "x"))).unwrap();
    assert_eq!(q.id, "q1");
    let w = wire_saved(q);
    assert_eq!((w.query.as_str(), w.shared, w.created_at_ms), ("x", true, 5));
}

#[test]
fn roles_are_given_only_by_those_who_hold_them() {
    assert_eq!(
        may_bind_roles("  ", Ok(())).unwrap_err().message,
        "subject is required"
    );
    let err = may_bind_roles("bob", Err("not yours".to_string())).unwrap_err();
    assert_eq!((err.code, err.message.as_str()), (Code::PermissionDenied, "not yours"));
    assert!(may_bind_roles("bob", Ok(())).is_ok());
    assert_eq!(
        may_mint("", Ok(())).unwrap_err().message,
        "a token needs a label"
    );
    assert!(may_mint("ci", Ok(())).is_ok());
}

#[test]
fn a_token_shows_its_first_characters_only() {
    let t = new_token(
        "t1".to_string(),
        "ci".to_string(),
        vec!["reader".to_string()],
        Some("alice".to_string()),
        "gdb_live_abcdefgh",
        "hash".to_string(),
    );
    assert_eq!(t.prefix, "gdb_live_abcd");
    assert_eq!(t.owner, "alice");
    assert_eq!(t.hash, "hash");
    let m = token_meta(t);
    assert_eq!((m.id.as_str(), m.prefix.as_str()), ("t1", "gdb_live_abcd"));
    let short = new_token(String::new(), String::new(), vec![], None, "abc", String::new());
    assert_eq!((short.prefix.as_str(), short.owner.as_str()), ("abc", ""));
}

#[test]
fn alias_rpcs_set_list_and_drop() {
    assert!(named_alias("events").is_ok());
    let err = named_alias("").unwrap_err();
    assert_eq!(err.code, Code::InvalidArgument);
    assert_eq!(err.message, "alias name is required");
    assert_eq!(
        alias_activity("events", "events_v1"),
        "alias `events` → `events_v1` swapped"
    );
}

#[test]
fn create_rejects_bad_yaml_and_duplicates_before_connecting() {
    let s = definition_refused(DefinitionFault::Unreadable("eof".to_string()));
    assert_eq!(s.code, Code::InvalidArgument);
    assert_eq!(s.message, "invalid definition: eof");
    assert_eq!(
        definition_refused(DefinitionFault::Unresolved("x".to_string())).message,
        "definition does not resolve: x"
    );
    assert_eq!(
        definition_refused(DefinitionFault::UnreadableJson("x".to_string())).message,
        "invalid definition_json: x"
    );
    assert!(may_create("docs".to_string(), false).is_ok());
    assert_eq!(
        may_create("docs".to_string(), true).unwrap_err().code,
        Code::AlreadyExists
    );
    assert_eq!(created_activity("docs"), "index `docs` created");
}

#[test]
fn a_change_is_planned_stored_or_rebuilt() {
    let plan = |r: &[&str], p: &[&str]| AlterPlan {
        reindex_reasons: r.iter().map(|s| s.to_string()).collect(),
        in_place: p.iter().map(|s| s.to_string()).collect(),
    };
    let (a, resp) = alter_action(plan(&["x"], &[]), false, 8, 4);
    assert_eq!(a, AlterAction::Answer);
    assert!(resp.requires_reindex && !resp.applied);
    assert_eq!(alter_action(plan(&[], &[]), true, 8, 4).0, AlterAction::Answer);
    let (a, resp) = alter_action(plan(&[], &["y"]), true, 8, 4);
    assert_eq!(a, AlterAction::Store { expected: 8 });
    let resp = resp.done(None);
    assert!(resp.applied && !resp.reindex_triggered);
    assert_eq!(resp.generation, 4);
    let (a, resp) = alter_action(plan(&["x"], &["y"]), true, 8, 4);
    assert_eq!(a, AlterAction::StoreAndReindex { expected: 8 });
    let resp = resp.done(Some(5));
    assert!(resp.reindex_triggered);
    assert_eq!(resp.generation, 5);
    assert_eq!(alter_activity("docs", true), "altered `docs` (reindex=true)");
}

#[test]
fn sweeps_have_a_shortest_period() {
    assert_eq!(dead_owner_period_ms(30_000), 15_000);
    assert_eq!(dead_owner_period_ms(100), 1_000);
    assert_eq!(placement_period_ms(10_000), 2_500);
    assert_eq!(placement_period_ms(-1), 1_000);
    assert_eq!(sample_period_secs(0), 1);
    assert_eq!(sample_period_secs(30), 30);
}

// Reindex jobs.

fn job(n: u32) -> ReindexJob {
    ReindexJob {
        id: "j1".to_string(),
        index: "docs".to_string(),
        kind: JobKind::Reindex,
        state: JobState::Pending,
        shards: (0..n)
            .map(|o| JobShard {
                ordinal: o,
                window: 0,
                node: format!("http://node{o}:1"),
                phase: ShardPhase::Pending,
                docs_done: 0,
                docs_total: 0,
            })
            .collect(),
        generation: 0,
        cancel_requested: false,
        error: String::new(),
        created_ms: 1,
        updated_ms: 1,
    }
}

/// Drives a job with a node that answers each action, and lists what it was asked to do.
fn drive(job: &mut ReindexJob, answer: &dyn Fn(Action) -> Event) -> Vec<Action> {
    let plan = plan_drive(job, 0, false);
    let (mut driver, mut turn): (ReindexDriver, Turn) = ReindexDriver::start(plan);
    let mut asked = Vec::new();
    loop {
        for effect in &turn.effects {
            driver.record(*effect, job);
        }
        if turn.action == Action::Stop {
            return asked;
        }
        if turn.action != Action::AskWanted {
            asked.push(turn.action);
        }
        let event = answer(turn.action);
        turn = driver.advance(event);
    }
}

#[test]
fn coordinated_reindex_builds_all_then_promotes_all_and_bumps_generation() {
    let mut j = job(2);
    let asked = drive(&mut j, &|a| match a {
        Action::AskWanted => Event::Wanted(true),
        Action::Build(_) => Event::Built,
        Action::Promote(_) => Event::Promoted(3),
        Action::Discard(_) => Event::Discarded,
        Action::SetGeneration { to, .. } => Event::GenerationSet(to),
        Action::Stop => unreachable!(),
    });
    assert_eq!(
        asked,
        vec![
            Action::Build(0),
            Action::Build(1),
            Action::Promote(0),
            Action::Promote(1),
            Action::SetGeneration { from: 0, to: 1 }
        ]
    );
    let resp = reindex_outcome(Some(j), "docs").unwrap();
    assert_eq!(resp.shards, 2);
    assert_eq!(resp.generation, 1, "routing generation bumped at cutover");
    assert_eq!(
        resp.doc_count, 6,
        "aggregates promote doc_count (3 per shard)"
    );
}

#[test]
fn coordinated_reindex_aborts_and_discards_when_a_build_fails() {
    let mut j = job(2);
    let asked = drive(&mut j, &|a| match a {
        Action::AskWanted => Event::Wanted(true),
        Action::Build(0) => Event::Built,
        Action::Build(_) => Event::BuildFailed("stub build failure".to_string()),
        Action::Discard(_) => Event::Discarded,
        _ => unreachable!(),
    });
    assert_eq!(
        asked,
        vec![Action::Build(0), Action::Build(1), Action::Discard(0)]
    );
    assert_eq!(j.state, JobState::Failed);
    assert_eq!(j.generation, 0, "no cutover on a build failure");
    assert_eq!(
        j.error,
        "build of shard 1 failed (no cutover; old generation intact): stub build failure"
    );
    assert_eq!(j.shards[0].phase, ShardPhase::Discarded);
    let err = reindex_outcome(Some(j), "docs").unwrap_err();
    assert_eq!(err.code, Code::Internal);
}

#[test]
fn async_reindex_job_cancels_mid_build_and_discards() {
    let mut j = job(2);
    let asked = drive(&mut j, &|a| match a {
        Action::AskWanted => Event::Wanted(true),
        Action::Build(_) => Event::BuildCanceled,
        Action::Discard(_) => Event::Discarded,
        _ => unreachable!(),
    });
    assert_eq!(job_to_wire(&j).state, "canceled");
    assert_eq!(j.generation, 0, "no cutover on cancel");
    assert_eq!(asked, vec![Action::Build(0), Action::Discard(0)]);
}

#[test]
fn a_canceled_job_drops_what_it_had_built() {
    let mut j = job(3);
    let asked = drive(&mut j, &|a| match a {
        Action::AskWanted => Event::Wanted(true),
        Action::Build(2) => Event::BuildCanceled,
        Action::Build(_) => Event::Built,
        Action::Discard(_) => Event::Discarded,
        _ => unreachable!(),
    });
    assert_eq!(j.state, JobState::Canceled);
    assert_eq!(
        asked[3..],
        [Action::Discard(2), Action::Discard(0), Action::Discard(1)]
    );
    assert_eq!(build_outcome(false, true, true), BuildOutcome::Canceled);
    assert_eq!(build_outcome(false, false, false), BuildOutcome::Canceled);
    assert_eq!(build_outcome(false, false, true), BuildOutcome::Failed);
    assert_eq!(build_outcome(true, false, false), BuildOutcome::Built);
}

#[test]
fn a_promotion_that_fails_drops_the_units_after_it() {
    let mut j = job(3);
    let asked = drive(&mut j, &|a| match a {
        Action::AskWanted => Event::Wanted(true),
        Action::Build(_) => Event::Built,
        Action::Promote(1) => Event::PromoteFailed("gone".to_string()),
        Action::Promote(_) => Event::Promoted(3),
        Action::Discard(_) => Event::Discarded,
        _ => unreachable!(),
    });
    assert_eq!(
        asked[3..],
        [
            Action::Promote(0),
            Action::Promote(1),
            Action::Discard(1),
            Action::Discard(2)
        ]
    );
    assert_eq!(
        j.error,
        "promote of shard 1 failed after 1/3 units; discarded the rest (index is queryable, mixed-generation; retry to converge): gone"
    );
}

#[test]
fn async_reindex_job_starts_polls_and_completes() {
    let mut j = job(2);
    drive(&mut j, &|a| match a {
        Action::AskWanted => Event::Wanted(true),
        Action::Build(_) => Event::Built,
        Action::Promote(_) => Event::Promoted(3),
        Action::SetGeneration { to, .. } => Event::GenerationSet(to),
        _ => unreachable!(),
    });
    let done = job_to_wire(&j);
    assert_eq!(done.state, "done");
    assert_eq!(done.generation, 1);
    assert_eq!(done.docs_done, 6, "sum of the promoted doc counts");
    assert!(done.shards.iter().all(|s| s.phase == "promoted"));
}

#[test]
fn one_job_runs_per_index() {
    let mut j = job(1);
    j.state = JobState::Building;
    j.shards[0].phase = ShardPhase::Building;
    let err = admit_job(&vec![job(1)], "docs").unwrap_err();
    assert_eq!(err.message, "a reindex job is already running for `docs`");
    assert!(admit_job(&vec![job(1)], "logs").is_ok());
    assert!(job_wants_to_continue(Some(&j)));
    assert!(!job_wants_to_continue(None));
    assert_eq!(units_to_interrupt(&j), vec![0]);
    assert_eq!(job_to_wire(&j).state, "building");
    j.cancel_requested = true;
    assert!(!job_wants_to_continue(Some(&j)));
}

// Ingestion.

fn entry() -> IngestionEntry {
    IngestionEntry {
        name: "docs".to_string(),
        status: IndexStatus::Active,
        source_table: "g.docs".to_string(),
        routing: RoutingStrategy::Hash,
        windowed: false,
        has_variant_field: false,
        shards: vec![(0, Some("http://a:1".to_string())), (1, None)],
        windows: vec![],
    }
}

#[test]
fn ingestion_status_reports_binding_and_per_shard_state() {
    let node = "http://127.0.0.1:1";
    let e = IngestionEntry {
        shards: vec![(0, Some(node.to_string())), (1, None)],
        ..entry()
    };
    let targets = probe_targets(&e);
    assert_eq!(targets[0].node.as_deref(), Some(node));
    let probes: Vec<ShardProbe> = targets
        .into_iter()
        .map(|t| probe_of(t, Err(Code::Unavailable)))
        .collect();
    let docs = index_ingestion(&e, None, &HashMap::new(), &probes);
    assert_eq!(docs.name, "docs");
    assert_eq!(docs.source_table, "g.docs");
    assert!(!docs.source_readable);
    let s0 = docs.shards.iter().find(|s| s.ordinal == 0).unwrap();
    assert_eq!(s0.node, node);
    assert_eq!(s0.state, "unreachable");
    let s1 = docs.shards.iter().find(|s| s.ordinal == 1).unwrap();
    assert_eq!((s1.node.as_str(), s1.state.as_str()), ("", "no_primary"));
}

#[test]
fn a_sample_covers_the_registered_indexes() {
    let names = |v: &[&str]| v.iter().map(|s| s.to_string()).collect::<Vec<String>>();
    let registered = names(&["b", "a", "c"]);
    assert!(sampled_names(&vec![], &registered).is_empty());
    assert_eq!(sampled_names(&registered, &registered), registered);
    assert_eq!(
        sampled_names(&names(&["c", "x", "b"]), &registered),
        names(&["c", "b"])
    );
    assert!(sampled_names(&names(&["x"]), &registered).is_empty());
}

#[test]
fn ingestion_lag_is_that_of_the_shard_furthest_behind() {
    let e = entry();
    let probes = vec![
        unassigned_probe(1, 0),
        ShardProbe {
            ordinal: 0,
            window: 0,
            node: "http://a:1".to_string(),
            outcome: ProbeOutcome::Checkpoint {
                committed: 7,
                snapshot: 3,
            },
        },
    ];
    let mut ts: HashMap<i64, i64> = HashMap::new();
    ts.insert(7, 1_000);
    ts.insert(9, 90_000);
    let item = index_ingestion(&e, Some((9, 90_000)), &ts, &probes);
    assert_eq!(item.status, "active");
    assert_eq!(item.shard_count, 2);
    assert!(item.source_readable && item.source_probeable);
    let states: Vec<(u32, &str, i64)> = item
        .shards
        .iter()
        .map(|s| (s.ordinal, s.state.as_str(), s.lag_ms))
        .collect();
    assert_eq!(states[0], (0, "behind", 89_000));
    assert_eq!(states[1].0, 1);
    let g = ingestion_gauges(&item.shards);
    assert_eq!((g.lag_ms, g.up, g.total), (89_000, 1, 2));
    assert_eq!(checkpoint_failure_state(Code::FailedPrecondition), "source_recreated");
    assert_eq!(checkpoint_failure_state(Code::Internal), "unreachable");
    assert_eq!(
        ingestion_names("docs".to_string(), vec!["a".to_string()]),
        vec!["docs"]
    );
    assert_eq!(
        ingestion_names(String::new(), vec!["a".to_string()]),
        vec!["a"]
    );
}

#[test]
fn ingestion_status_reports_windows_for_a_windowed_index() {
    let node = "http://127.0.0.1:1";
    let e = IngestionEntry {
        name: "wdocs".to_string(),
        windowed: true,
        shards: vec![],
        windows: vec![(86_400_000_000, Some(node.to_string()))],
        ..entry()
    };
    let targets = probe_targets(&e);
    assert_eq!(targets.len(), 1);
    let probes = vec![ShardProbe {
        ordinal: targets[0].ordinal,
        window: targets[0].window,
        node: node.to_string(),
        outcome: ProbeOutcome::State(checkpoint_failure_state(Code::Unavailable)),
    }];
    let w = index_ingestion(&e, None, &HashMap::new(), &probes);
    assert_eq!(w.shard_count, 1);
    assert_eq!(w.shards.len(), 1);
    assert_eq!(w.shards[0].window, 86_400_000_000);
    assert_eq!(w.shards[0].ordinal, 0);
    assert_eq!(w.shards[0].node, node);
    assert_eq!(w.shards[0].state, "unreachable");
}
