use growlerdb_engine::admin::{
    apply_in_place, empty_rebuild_abort_reason, owner_filter, precheck_free_disk,
    reindex_commit, render_checkpoint, wire_plan, AdminService, AlterPlan,
    BackupManifest, Rebuild, SourceCheckpoint, SourceUse,
};
use growlerdb_engine::auth::{AuthContext, AuthDenied, AuthHook, SharedAuth};
use growlerdb_engine::drift::DriftReport;
use growlerdb_engine::fence::{ReindexFence, ReindexGuard};
use growlerdb_engine::node_rebuild::{NodeRebuild, RebuildAction, RebuildEvent};
use growlerdb_engine::node_reconcile::{
    NodeReconcile, ReconcileAction, ReconcileEvent, ReconcileStep,
};
use growlerdb_engine::reconcile::{
    count_response, full_response, gate_applies, reconcile_route, GateAction, GateResult,
    GatedReconcile, PartitionCount, ReconcileRoute,
};
use growlerdb_engine::requests::{definition_refused, DefinitionFault};
use growlerdb_engine::status::{Code, Status};
use tonic::metadata::MetadataMap;

fn at(snapshot: i64, sequence: Option<i64>) -> SourceCheckpoint {
    SourceCheckpoint { snapshot, sequence }
}

#[test]
fn reindex_commit_carries_checkpoint_and_unique_ids() {
    let c1 = reindex_commit(0, 2, 42, 7, 1);
    let c2 = reindex_commit(2, 3, 42, 7, 2);
    assert_eq!(c1.checkpoint, at(42, Some(7)));
    assert_eq!(c2.checkpoint, at(42, Some(7)));
    assert_eq!(
        reindex_commit(0, 1, 42, 0, 3).checkpoint,
        at(42, None),
        "a v1 table (sequence 0) stamps no order"
    );
    assert_eq!(c1.end - c1.start, 2);
    assert_eq!(c2.end - c2.start, 1);
    assert_eq!(c1.batch_id, "reindex-42-1");
    assert_eq!(c2.batch_id, "reindex-42-2");
    assert_ne!(c1.batch_id, c2.batch_id);

    let empty = reindex_commit(0, 0, 7, 0, 0);
    assert_eq!(empty.end - empty.start, 0);
    assert_eq!(empty.batch_id, "reindex-7-0");
    assert_eq!(empty.checkpoint, at(7, None));
}

#[test]
fn empty_rebuild_aborts_only_on_nonempty_source() {
    let reason = empty_rebuild_abort_reason(0, Some(2_000_000)).expect("should abort");
    assert!(
        reason.contains("2000000"),
        "names the source row count: {reason}"
    );
    assert!(
        reason.contains("unchanged"),
        "promises the live index is preserved: {reason}"
    );

    assert_eq!(empty_rebuild_abort_reason(0, Some(0)), None);
    assert_eq!(empty_rebuild_abort_reason(0, None), None);
    assert_eq!(empty_rebuild_abort_reason(5, Some(5)), None);
    assert_eq!(empty_rebuild_abort_reason(5, Some(9)), None);
}

#[test]
fn a_rebuild_commits_in_slices_that_cover_each_chunk() {
    let mut r = Rebuild::new(42, 7);
    let first = r.commit_chunk(25_000);
    let spans: Vec<(usize, usize)> = first.iter().map(|c| (c.start, c.end)).collect();
    assert_eq!(spans, vec![(0, 10_000), (10_000, 20_000), (20_000, 25_000)]);
    assert_eq!(first[2].batch_id, "reindex-42-3");
    assert!(r.commit_chunk(0).is_empty());
    let next = r.commit_chunk(10_000);
    assert_eq!(next.len(), 1);
    assert_eq!(next[0].batch_id, "reindex-42-4");
    assert_eq!(r.doc_count, 35_000);
    assert!(r.finish(false, Some(35_000)).unwrap().is_none());
}

#[test]
fn an_empty_rebuild_still_records_its_position() {
    let r = Rebuild::new(7, 0);
    let anchor = r.finish(false, Some(0)).unwrap().unwrap();
    assert_eq!(anchor.batch_id, "reindex-7-0");
    assert_eq!(anchor.checkpoint, at(7, None));
    assert!(r.finish(false, Some(3)).is_err());
    assert!(r.finish(true, Some(3)).unwrap().is_some());
}

fn plan(reindex_reasons: &[&str], in_place: &[&str]) -> AlterPlan {
    AlterPlan {
        reindex_reasons: reindex_reasons.iter().map(|s| s.to_string()).collect(),
        in_place: in_place.iter().map(|s| s.to_string()).collect(),
    }
}

#[test]
fn plan_alter_detects_noop_reindex_and_in_place() {
    let p = wire_plan(plan(&[], &[]));
    assert!(p.is_noop);
    assert!(!p.requires_reindex);

    let p = wire_plan(plan(&["field `rank` added"], &[]));
    assert!(p.requires_reindex);
    assert!(!p.is_noop);
    assert!(p.reindex_reasons.iter().any(|r| r.contains("rank")));

    let p = wire_plan(plan(&[], &["renamed"]));
    assert!(!p.requires_reindex);
    assert!(!p.is_noop);
    assert!(p.in_place_changes.iter().any(|c| c.contains("renamed")));

    let err = definition_refused(DefinitionFault::UnreadableCandidate("eof".to_string()));
    assert_eq!(err.code, Code::InvalidArgument);
    assert_eq!(err.message, "invalid candidate definition: eof");
    let err = definition_refused(DefinitionFault::UnresolvedCandidate("x".to_string()));
    assert_eq!(err.message, "candidate does not resolve: x");
}

#[test]
fn apply_in_place_rejects_reindex_rename_and_restart_required_policy() {
    let err = apply_in_place(&plan(&[], &["city: sensitive"]), "docs", "docs").unwrap_err();
    assert_eq!(err.code, Code::FailedPrecondition);
    assert!(err.message.contains("restart"), "{}", err.message);
    assert!(err.message.starts_with("alter changes (city: sensitive) are restart-required"));

    let err = apply_in_place(&plan(&["a", "b"], &["c"]), "docs", "docs").unwrap_err();
    assert_eq!(err.code, Code::FailedPrecondition);
    assert_eq!(
        err.message,
        "alter requires a reindex (a, b); update the definition and run ReindexIndex"
    );

    let err = apply_in_place(&plan(&[], &["renamed"]), "docs", "docs2").unwrap_err();
    assert_eq!(err.code, Code::FailedPrecondition);
    assert_eq!(
        err.message,
        "renaming the served index is not supported on a single-index node"
    );
}

#[test]
fn apply_in_place_noop_succeeds_without_error() {
    assert!(apply_in_place(&plan(&[], &[]), "docs", "docs").is_ok());
}

#[test]
fn backup_unconfigured_is_unimplemented_and_status_reports_it() {
    let svc = AdminService::new("docs".to_string());
    let err = svc.backup_target("").unwrap_err();
    assert_eq!(err.code, Code::Unimplemented);
    let status = svc.backup_status(None);
    assert!(!status.configured);
    assert!(!status.present);
}

#[test]
fn backup_to_object_store_round_trips_status() {
    let svc = AdminService::new("docs".to_string()).with_backup("node-backups".to_string());
    let st0 = svc.backup_status(None);
    assert!(st0.configured && !st0.present);
    assert_eq!(svc.backup_target("").unwrap(), "node-backups");
    let st1 = svc.backup_status(Some(BackupManifest {
        snapshot: 2,
        created_ms: 5,
        file_count: 9,
    }));
    assert!(st1.configured && st1.present);
    assert_eq!(st1.snapshot, 2);
    assert_eq!(st1.created_ms, 5);
    assert_eq!(st1.file_count, 9);
}

#[test]
fn a_backup_may_name_its_target() {
    let svc = AdminService::new("docs".to_string()).with_backup("node-backups".to_string());
    assert_eq!(svc.backup_target("other").unwrap(), "other");
    assert_eq!(svc.backup_staging(), ".backup-staging-docs");
}

struct DenyAll;

impl AuthHook for DenyAll {
    fn authorize(&self, _ctx: &AuthContext) -> Result<(), AuthDenied> {
        Err(AuthDenied::new("nope".to_string()))
    }
}

#[test]
fn auth_gates_describe() {
    let svc = AdminService::with_auth(
        "docs".to_string(),
        SharedAuth {
            hook: Box::new(DenyAll),
        },
    );
    let err = svc
        .accepts("DescribeIndex", "", &MetadataMap::new())
        .unwrap_err();
    assert_eq!(err.code, Code::PermissionDenied);
}

#[test]
fn describing_another_index_is_not_found() {
    let svc = AdminService::new("docs".to_string());
    let md = MetadataMap::new();
    assert!(svc.accepts("DescribeIndex", "", &md).is_ok());
    assert!(svc.accepts("DescribeIndex", "docs", &md).is_ok());
    let err = svc.accepts("DescribeIndex", "other", &md).unwrap_err();
    assert_eq!(err.code, Code::NotFound);
}

#[test]
fn altering_another_index_is_not_found() {
    let svc = AdminService::new("docs".to_string());
    let err = svc
        .accepts("AlterIndex", "other", &MetadataMap::new())
        .unwrap_err();
    assert_eq!(err.code, Code::NotFound);
}

#[test]
fn reindexing_another_index_is_not_found() {
    let svc = AdminService::new("docs".to_string());
    let err = svc
        .accepts("ReindexIndex", "other", &MetadataMap::new())
        .unwrap_err();
    assert_eq!(err.code, Code::NotFound);
}

#[test]
fn reconciling_another_index_is_not_found() {
    let svc = AdminService::new("docs".to_string());
    let err = svc
        .accepts("ReconcileIndex", "other", &MetadataMap::new())
        .unwrap_err();
    assert_eq!(err.code, Code::NotFound);
}

#[test]
fn alter_without_source_access_is_unimplemented() {
    let svc = AdminService::new("docs".to_string());
    let err = svc.needs_source(SourceUse::Alter).unwrap_err();
    assert_eq!(err.code, Code::Unimplemented);
    assert_eq!(
        err.message,
        "this node was started without source access for alter planning"
    );
    assert!(svc.with_source().needs_source(SourceUse::Alter).is_ok());
}

#[test]
fn reindex_without_source_access_is_unimplemented() {
    let err = AdminService::new("docs".to_string())
        .needs_source(SourceUse::Reindex)
        .unwrap_err();
    assert_eq!(err.code, Code::Unimplemented);
    assert!(err.message.ends_with("for reindex"));
}

#[test]
fn reconcile_without_source_access_is_unimplemented() {
    let err = AdminService::new("docs".to_string())
        .needs_source(SourceUse::Reconcile)
        .unwrap_err();
    assert_eq!(err.code, Code::Unimplemented);
    assert!(err.message.starts_with("reconcile requires source access"));
}

fn sourced() -> AdminService {
    AdminService::new("docs".to_string()).with_source()
}

fn begin(fence: &mut ReindexFence) -> Result<NodeRebuild, Status> {
    sourced().begin_reindex("docs", &MetadataMap::new(), fence, &vec![], Ok(()), 0)
}

#[test]
fn second_concurrent_reindex_is_rejected() {
    let mut fence = ReindexFence::new();
    begin(&mut fence).unwrap();
    let err = begin(&mut fence).unwrap_err();
    assert_eq!(err.code, Code::FailedPrecondition);
    assert_eq!(err.message, "a reindex is already in progress for this index");
    assert!(fence.is_engaged(), "the first reindex keeps the fence");
}

#[test]
fn a_reindex_that_cannot_begin_leaves_the_fence_open() {
    let mut fence = ReindexFence::new();
    let md = MetadataMap::new();
    let bad = Err("too short".to_string());
    let err = sourced().begin_reindex("docs", &md, &mut fence, &vec![0], bad, 0).unwrap_err();
    assert_eq!(err.message, "bucket map: too short");
    assert!(!fence.is_engaged());
    let err = AdminService::new("docs".to_string())
        .begin_reindex("docs", &md, &mut fence, &vec![], Ok(()), 0)
        .unwrap_err();
    assert_eq!(err.code, Code::Unimplemented);
    let err = sourced().begin_reindex("x", &md, &mut fence, &vec![], Ok(()), 0).unwrap_err();
    assert_eq!(err.code, Code::NotFound);
    assert!(!fence.is_engaged());
}

/// A rebuild that is about to read its documents from a source that reports `records` rows.
fn reading(fence: &mut ReindexFence, records: Option<i64>) -> NodeRebuild {
    let mut d = begin(fence).unwrap();
    let head = RebuildEvent::Head { snapshot: 7, sequence: 3 };
    assert!(matches!(d.advance(fence, head), RebuildAction::CountRecords));
    assert!(matches!(
        d.advance(fence, RebuildEvent::Records(records)),
        RebuildAction::ProbeDisk
    ));
    let disk = RebuildEvent::Disk { size: 1, free: Some(3), at: "/".to_string() };
    assert!(matches!(d.advance(fence, disk), RebuildAction::ReadChunk));
    d
}

#[test]
fn a_rebuild_is_swapped_in_at_the_end() {
    let mut fence = ReindexFence::new();
    let mut d = reading(&mut fence, Some(5));
    match d.advance(&mut fence, RebuildEvent::Chunk(10_001)) {
        RebuildAction::Write(commits) => {
            assert_eq!(commits.len(), 2);
            assert_eq!(commits[1].batch_id, "reindex-7-2");
        }
        other => panic!("{other:?}"),
    }
    assert!(matches!(
        d.advance(&mut fence, RebuildEvent::Written),
        RebuildAction::ReadChunk
    ));
    assert!(matches!(
        d.advance(&mut fence, RebuildEvent::Exhausted),
        RebuildAction::Promote
    ));
    assert!(matches!(
        d.advance(&mut fence, RebuildEvent::Promoted(42)),
        RebuildAction::Install
    ));
    assert!(fence.is_engaged() && !d.installed);
    match d.advance(&mut fence, RebuildEvent::Installed) {
        RebuildAction::Stop(Ok(r)) => assert_eq!((r.doc_count, r.snapshot), (10_001, 42)),
        other => panic!("{other:?}"),
    }
    assert!(!fence.is_engaged() && d.installed);
}

#[test]
fn an_empty_rebuild_of_a_full_source_leaves_the_old_shard_live() {
    let mut fence = ReindexFence::new();
    let mut d = reading(&mut fence, Some(5));
    match d.advance(&mut fence, RebuildEvent::Exhausted) {
        RebuildAction::Stop(Err(e)) => {
            assert_eq!(e.code, Code::Internal);
            assert!(e.message.starts_with("reindex read 0 docs from a source that reports 5 rows"));
        }
        other => panic!("{other:?}"),
    }
    assert!(!fence.is_engaged() && !d.installed);

    let mut d = reading(&mut fence, Some(0));
    match d.advance(&mut fence, RebuildEvent::Exhausted) {
        RebuildAction::Write(stamp) => assert_eq!(stamp[0].batch_id, "reindex-7-0"),
        other => panic!("{other:?}"),
    }
    assert!(matches!(
        d.advance(&mut fence, RebuildEvent::Written),
        RebuildAction::Promote
    ));
    let failed = RebuildEvent::Failed(Status::internal("disk".to_string()));
    assert!(matches!(d.advance(&mut fence, failed), RebuildAction::Stop(Err(_))));
    assert!(!fence.is_engaged() && !d.installed);
}

#[test]
fn a_rebuild_without_disk_ends_before_it_reads() {
    let mut fence = ReindexFence::new();
    let mut d = begin(&mut fence).unwrap();
    d.advance(&mut fence, RebuildEvent::Head { snapshot: 0, sequence: 0 });
    d.advance(&mut fence, RebuildEvent::Records(None));
    let disk = RebuildEvent::Disk { size: 2, free: Some(3), at: "/data".to_string() };
    match d.advance(&mut fence, disk) {
        RebuildAction::Stop(Err(e)) => assert_eq!(e.code, Code::FailedPrecondition),
        other => panic!("{other:?}"),
    }
    assert!(!fence.is_engaged());
}

#[test]
fn only_own_partitions_that_differ_are_read() {
    let part = |records: u64| PartitionCount {
        fields: vec!["day".to_string()],
        records,
    };
    let parts = vec![part(3), part(4), part(5)];
    let fields = vec!["day".to_string()];
    let owns = vec![true, false, true];
    let mut g = GatedReconcile::start(Some(&parts), &fields, Some(&owns)).unwrap();
    assert_eq!(g.action(), GateAction::CountKeys(0));
    g.counted(3);
    assert_eq!(g.action(), GateAction::CountKeys(2));
    g.counted(9);
    assert_eq!(g.action(), GateAction::Reconcile(2));
    g.reconciled(&DriftReport {
        index_count: 9,
        source_count: 5,
        deleted: 4,
        reindexed: 0,
        deletes_skipped: false,
    });
    assert_eq!(g.action(), GateAction::Done);
    let r = g.result.into_response();
    assert_eq!((r.source_count, r.index_count, r.stale), (8, 12, 4));
    assert_eq!((r.partitions_scanned, r.partitions_skipped), (1, 1));
    assert!(GatedReconcile::start(None, &fields, None).is_none());
    assert!(GatedReconcile::start(Some(&vec![]), &fields, None).is_none());
    assert!(GatedReconcile::start(Some(&parts), &vec![], None).is_none());
    let all = GatedReconcile::start(Some(&parts), &fields, None).unwrap();
    assert_eq!(all.visits, vec![0, 1, 2]);
}

#[test]
fn engage_is_single_flight_and_guard_releases() {
    let mut fence = ReindexFence::new();
    assert!(!fence.is_engaged());

    assert!(fence.engage(), "first engage succeeds");
    assert!(fence.is_engaged());
    assert!(!fence.engage(), "second engage is refused while engaged");

    {
        let guard = ReindexGuard::new(&mut fence);
        assert!(guard.fence.as_ref().unwrap().is_engaged());
    }
    assert!(!fence.is_engaged(), "guard released the fence on drop");
    assert!(fence.engage(), "fence is reusable after release");
    ReindexGuard::new(&mut fence).release();
    assert!(!fence.is_engaged());
    assert!(fence.engage());
    fence.release();
    assert!(!fence.is_engaged());
}

#[test]
fn a_bucket_map_scopes_a_rebuild_to_its_shard() {
    assert_eq!(owner_filter(&vec![], Ok(()), 3).unwrap(), None);
    assert_eq!(owner_filter(&vec![0, 1], Ok(()), 1).unwrap(), Some(1));
    let err = owner_filter(&vec![0], Err("too short".to_string()), 1).unwrap_err();
    assert_eq!(err.code, Code::InvalidArgument);
    assert_eq!(err.message, "bucket map: too short");
}

#[test]
fn a_rebuild_needs_three_times_its_size_on_disk() {
    assert!(precheck_free_disk(100, Some(300), "/data").is_ok());
    assert!(precheck_free_disk(100, None, "/data").is_ok());
    assert_eq!(
        precheck_free_disk(100, Some(299), "/data").unwrap_err(),
        "insufficient free disk for reindex: need ~300 bytes (≈3× the 100-byte index), only 299 free at /data"
    );
    assert!(precheck_free_disk(u64::MAX, Some(u64::MAX), "/").is_ok());
    assert!(precheck_free_disk(u64::MAX, Some(5), "/").is_err());
}

#[test]
fn positions_are_rendered() {
    assert_eq!(render_checkpoint(None), "none");
    assert_eq!(
        render_checkpoint(Some(at(-3, Some(1)))),
        "iceberg_snapshot:-3"
    );
}

#[test]
fn a_reconciliation_counts_gates_or_reads_everything() {
    assert_eq!(reconcile_route(true, true), ReconcileRoute::CountOnly);
    assert_eq!(reconcile_route(false, true), ReconcileRoute::Full);
    assert_eq!(reconcile_route(false, false), ReconcileRoute::Gated);
    let counted = count_response(4, Some(-2));
    assert_eq!((counted.index_count, counted.source_count), (4, 0));
    assert_eq!(count_response(4, Some(6)).source_count, 6);
    assert_eq!(count_response(4, None).source_count, 0);
}

fn begin_reconcile(
    owners: Vec<u32>,
    map: Result<(), String>,
    count_only: bool,
    full: bool,
) -> Result<(NodeReconcile, ReconcileAction), Status> {
    sourced().begin_reconcile(
        "docs",
        &MetadataMap::new(),
        &owners,
        map,
        1,
        count_only,
        full,
        vec!["day".to_string()],
    )
}

fn drift(deleted: usize, deletes_skipped: bool) -> DriftReport {
    DriftReport {
        index_count: 9,
        source_count: 5,
        deleted,
        reindexed: 1,
        deletes_skipped,
    }
}

#[test]
fn a_reconciliation_is_refused_before_it_does_anything() {
    let err = begin_reconcile(vec![0], Err("too short".to_string()), false, false).unwrap_err();
    assert_eq!(err.code, Code::InvalidArgument);
    assert_eq!(err.message, "bucket map: too short");
    let begin = |s: AdminService, index: &str| {
        let md = MetadataMap::new();
        s.begin_reconcile(index, &md, &vec![], Ok(()), 0, false, false, vec![])
    };
    let err = begin(AdminService::new("docs".to_string()), "docs").unwrap_err();
    assert_eq!(err.code, Code::Unimplemented);
    assert_eq!(begin(sourced(), "x").unwrap_err().code, Code::NotFound);
}

#[test]
fn a_count_only_reconciliation_reads_no_rows() {
    let (mut d, action) = begin_reconcile(vec![], Ok(()), true, true).unwrap();
    assert!(matches!(action, ReconcileAction::CountSource));
    let action = d.advance(ReconcileEvent::Records(Some(6)));
    assert!(matches!(action, ReconcileAction::CountIndex));
    match d.advance(ReconcileEvent::Keys(4)) {
        ReconcileAction::Stop(Ok(r)) => {
            assert_eq!((r.index_count, r.source_count), (4, 6));
            assert_eq!((r.stale, r.missing, r.deletes_skipped), (0, 0, false));
        }
        other => panic!("{other:?}"),
    }
}

#[test]
fn the_checkpoint_is_noted_before_the_source_is_read() {
    let (mut d, action) = begin_reconcile(vec![], Ok(()), false, true).unwrap();
    assert!(matches!(action, ReconcileAction::Capture));
    let stood = Some(at(7, Some(3)));
    let action = d.advance(ReconcileEvent::Captured(stood));
    assert!(matches!(action, ReconcileAction::Read(None)));
    match d.advance(ReconcileEvent::Read) {
        ReconcileAction::Repair(None, captured) => assert_eq!(captured, stood),
        other => panic!("{other:?}"),
    }
    match d.advance(ReconcileEvent::Repaired(drift(0, true))) {
        ReconcileAction::Stop(Ok(r)) => {
            assert_eq!((r.index_count, r.source_count), (9, 5));
            assert_eq!((r.stale, r.missing, r.deletes_skipped), (0, 1, true));
        }
        other => panic!("{other:?}"),
    }
}

#[test]
fn a_shard_reconciles_its_own_partitions_by_count() {
    let (mut d, _) = begin_reconcile(vec![0, 1], Ok(()), false, false).unwrap();
    assert_eq!(d.only, Some(1));
    let stood = Some(at(7, None));
    let action = d.advance(ReconcileEvent::Captured(stood));
    assert!(matches!(action, ReconcileAction::ListPartitions));
    let part = |records: u64| PartitionCount {
        fields: vec!["day".to_string()],
        records,
    };
    let parts = Some(vec![part(3), part(4), part(5)]);
    let action = d.advance(ReconcileEvent::Partitions(parts, vec![true, false, true]));
    assert!(matches!(action, ReconcileAction::CountKeys(0)));
    let action = d.advance(ReconcileEvent::Keys(3));
    assert!(matches!(action, ReconcileAction::CountKeys(2)));
    let action = d.advance(ReconcileEvent::Keys(9));
    assert!(matches!(action, ReconcileAction::Read(Some(2))));
    match d.advance(ReconcileEvent::Read) {
        ReconcileAction::Repair(Some(2), captured) => assert_eq!(captured, stood),
        other => panic!("{other:?}"),
    }
    match d.advance(ReconcileEvent::Repaired(drift(4, false))) {
        ReconcileAction::Stop(Ok(r)) => {
            assert_eq!((r.source_count, r.index_count), (8, 12));
            assert_eq!((r.stale, r.missing), (4, 1));
            assert_eq!((r.partitions_scanned, r.partitions_skipped), (1, 1));
        }
        other => panic!("{other:?}"),
    }
    assert_eq!(d.step, ReconcileStep::Ended);
}

#[test]
fn a_source_without_partitions_is_read_whole() {
    for parts in [None, Some(vec![])] {
        let (mut d, _) = begin_reconcile(vec![], Ok(()), false, false).unwrap();
        d.advance(ReconcileEvent::Captured(None));
        let action = d.advance(ReconcileEvent::Partitions(parts, vec![]));
        assert!(matches!(action, ReconcileAction::Read(None)));
        match d.advance(ReconcileEvent::Failed(Status::internal("down".to_string()))) {
            ReconcileAction::Stop(Err(e)) => assert_eq!(e.message, "down"),
            other => panic!("{other:?}"),
        }
    }
}

#[test]
fn the_gate_applies_to_aligned_partitions_only() {
    let part = |f: &[&str]| PartitionCount {
        fields: f.iter().map(|s| s.to_string()).collect(),
        records: 1,
    };
    let fields = vec!["region".to_string(), "day".to_string()];
    assert!(gate_applies(Some(&vec![part(&["region", "day"])]), &fields));
    assert!(!gate_applies(Some(&vec![part(&["day", "region"])]), &fields));
    assert!(!gate_applies(Some(&vec![part(&["region"])]), &fields));
    assert!(!gate_applies(Some(&vec![]), &fields));
    assert!(!gate_applies(None, &fields));
}

#[test]
fn the_gate_reads_only_partitions_whose_counts_differ() {
    let mut g = GateResult::default();
    assert!(!g.visit(5, 5));
    assert!(g.visit(3, 4));
    g.fold(&DriftReport {
        index_count: 4,
        source_count: 3,
        deleted: 1,
        reindexed: 2,
        deletes_skipped: true,
    });
    let r = g.into_response();
    assert_eq!(r.source_count, 8);
    assert_eq!(r.index_count, 9);
    assert_eq!(r.stale, 1);
    assert_eq!(r.missing, 2);
    assert!(r.deletes_skipped);
    assert_eq!(r.partitions_scanned, 1);
    assert_eq!(r.partitions_skipped, 1);
}

#[test]
fn a_full_reconciliation_answers_with_its_report() {
    let r = full_response(&DriftReport {
        index_count: 4,
        source_count: 3,
        deleted: 1,
        reindexed: 2,
        deletes_skipped: false,
    });
    assert_eq!((r.index_count, r.source_count, r.stale, r.missing), (4, 3, 1, 2));
    assert_eq!(r.partitions_scanned, 0);
}
