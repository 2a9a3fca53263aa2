use std::collections::hash_map::DefaultHasher;
use std::hash::{Hash, Hasher};

use growlerdb_engine::admin::SourceCheckpoint;
use growlerdb_engine::drift::{has_moved, plan_drift, plan_repair, repair_batch_id, DriftReport};
use growlerdb_engine::engine::{
    append_batch_id, checked_build, default_definition, latest_window, may_sync,
    needs_fresh_build, shard_build_filter, snapshot_batch_id, ScanMode, SourceSchema,
    StreamedBuild,
};
use growlerdb_engine::error::EngineError;
use growlerdb_engine::fusion::{
    best_fused, fuse, hybrid_depths, keys_to_hydrate, plan_hybrid, plan_semantic, semantic_depth,
    tenant_filter, vector_source, FieldSpec, RankedHit, RRF_K,
};
use growlerdb_engine::hydrate::{describe, hint_fields, resolve_requests, CompositeKey};
use growlerdb_engine::keys::ByteKey;
use growlerdb_engine::version;

fn key(id: &str) -> ByteKey {
    ByteKey {
        bytes: id.as_bytes().to_vec(),
    }
}

fn keys(ids: &[&str]) -> Vec<ByteKey> {
    ids.iter().map(|id| key(id)).collect()
}

/// Reconciles an index, given by its keys, with a source, and gives what it then holds.
fn apply_drift(index: &mut Vec<String>, source: &[&str], moved_on: bool) -> DriftReport {
    let index_keys: Vec<ByteKey> = index.iter().map(|k| key(k)).collect();
    let plan = plan_drift(&index_keys, &keys(source), moved_on);
    let missing: Vec<String> = plan.missing.iter().map(|i| source[*i].to_string()).collect();
    let mut i = 0;
    index.retain(|_| {
        i += 1;
        !plan.stale.contains(&(i - 1))
    });
    index.extend(missing);
    plan.report
}

#[test]
fn apply_drift_deletes_stale_reindexes_missing_and_is_idempotent() {
    let mut index = vec!["doc-1".to_string(), "doc-2".to_string()];
    let source = ["doc-1", "doc-3"];
    let report = apply_drift(&mut index, &source, false);
    assert_eq!(
        report,
        DriftReport {
            index_count: 2,
            source_count: 2,
            deleted: 1,
            reindexed: 1,
            deletes_skipped: false,
        }
    );
    assert!(!index.contains(&"doc-2".to_string()));
    assert!(index.contains(&"doc-3".to_string()));

    let again = apply_drift(&mut index, &source, false);
    assert!(again.is_clean(), "second reconcile is a no-op: {again:?}");
}

#[test]
fn sharded_reconcile_repairs_only_this_shards_owned_keys() {
    let owns = |id: &str| id.bytes().map(u32::from).sum::<u32>() % 2 == 0;
    let pool: Vec<String> = (0..40).map(|i| format!("doc-{i}")).collect();
    let owned: Vec<&String> = pool.iter().filter(|id| owns(id)).collect();
    let foreign: Vec<&String> = pool.iter().filter(|id| !owns(id)).collect();
    assert!(owned.len() >= 3 && !foreign.is_empty());
    let (stay, stale, missing) = (owned[0].as_str(), owned[1].as_str(), owned[2].as_str());

    let mut index = vec![stay.to_string(), stale.to_string()];
    let mut full_source = vec![stay, missing];
    full_source.extend(foreign.iter().map(|f| f.as_str()));
    let owned_source: Vec<&str> = full_source.into_iter().filter(|id| owns(id)).collect();
    let report = apply_drift(&mut index, &owned_source, false);
    assert_eq!(report.deleted, 1, "the owned stale key was removed");
    assert_eq!(report.reindexed, 1, "the owned missing key was re-indexed");

    assert!(index.contains(&stay.to_string()));
    assert!(index.contains(&missing.to_string()));
    assert!(!index.contains(&stale.to_string()));
    for f in &foreign {
        assert!(!index.contains(f));
    }
}

#[test]
fn nothing_is_deleted_from_an_index_that_moved_on() {
    let mut index = vec!["a".to_string(), "b".to_string()];
    let report = apply_drift(&mut index, &["a", "c"], true);
    assert_eq!(report.deleted, 0);
    assert_eq!(report.reindexed, 1);
    assert!(report.deletes_skipped);
    assert_eq!(index, vec!["a", "b", "c"]);
}

#[test]
fn a_commit_since_the_checkpoint_was_noted_holds_deletions_back() {
    let at = |snapshot: i64| {
        Some(SourceCheckpoint {
            snapshot,
            sequence: None,
        })
    };
    assert!(!has_moved(at(7), at(7)));
    assert!(has_moved(at(7), at(8)));
    assert!(has_moved(at(7), None));
    assert!(!has_moved(None, at(7)), "nothing was noted to compare with");
    let (index, source) = (keys(&["a", "b"]), keys(&["a", "c"]));
    let still = plan_repair(&index, &source, at(7), at(7));
    assert_eq!((still.stale, still.missing), (vec![1], vec![1]));
    let moved = plan_repair(&index, &source, at(7), at(8));
    assert_eq!((moved.stale, moved.missing), (vec![], vec![1]));
    assert!(moved.report.deletes_skipped);
}

#[test]
fn the_same_repair_is_the_same_commit() {
    let source = keys(&["a", "b", "c"]);
    let one = repair_batch_id(&source, &vec![1, 2]).unwrap();
    assert!(one.starts_with("reconcile-"));
    assert_eq!(one, repair_batch_id(&source, &vec![1, 2]).unwrap());
    assert_ne!(one, repair_batch_id(&source, &vec![1]).unwrap());
    // A boundary between keys is part of what is hashed.
    assert_ne!(
        repair_batch_id(&keys(&["ab", "c"]), &vec![0, 1]),
        repair_batch_id(&keys(&["a", "bc"]), &vec![0, 1])
    );
    assert_eq!(repair_batch_id(&source, &vec![]), None);
}

#[test]
fn a_repair_id_hashes_keys_as_byte_vectors() {
    let mut hasher = DefaultHasher::new();
    b"alpha".to_vec().hash(&mut hasher);
    b"be".to_vec().hash(&mut hasher);
    assert_eq!(
        repair_batch_id(&keys(&["alpha", "x", "be"]), &vec![0, 2]).unwrap(),
        format!("reconcile-{:x}", hasher.finish())
    );
}

#[test]
fn shard_build_filter_partitions_or_full_builds() {
    assert!(shard_build_filter("docs", false, 1, 0).unwrap().is_none());

    let (shards, ordinal) = shard_build_filter("docs", false, 3, 2).unwrap().unwrap();
    assert_eq!(ordinal, 2);
    assert_eq!(shards, 3);

    // Any routing of keys to three shards then gives each key to exactly one of them.
    for id in ["a", "b", "c", "d", "e", "f", "g", "h"] {
        let shard = id.bytes().map(u32::from).sum::<u32>() % 3;
        let owners: Vec<u32> = (0..3)
            .filter(|o| shard_build_filter("docs", false, 3, *o).unwrap().unwrap().1 == shard)
            .collect();
        assert_eq!(
            owners.len(),
            1,
            "key {id} must be built by exactly one shard"
        );
    }
}

#[test]
fn a_windowed_index_is_not_split_by_ordinal() {
    let err = shard_build_filter("docs", true, 3, 2).unwrap_err();
    assert!(matches!(&err, EngineError::ShardingWindowedUnsupported(n) if n == "docs"));
    assert_eq!(
        err.message(),
        "index `docs` is windowed — it shards by time window, not by `--shards`/`--shard-ordinal`"
    );
    assert!(shard_build_filter("docs", true, 0, 0).unwrap().is_none());
}

fn schema(fields: &[&str], ids: &[&str]) -> SourceSchema {
    let owned = |s: &[&str]| s.iter().map(|x| x.to_string()).collect();
    SourceSchema {
        fields: owned(fields),
        partition_fields: vec!["region".to_string()],
        identifier_fields: owned(ids),
    }
}

#[test]
fn a_default_definition_picks_an_identifier_and_a_name() {
    let d = default_definition("wh", "g.sales.docs", None, &schema(&["a", "b"], &["b"])).unwrap();
    assert_eq!(d.name, "docs");
    assert_eq!(d.table, "g.sales.docs");
    assert_eq!(d.catalog, "wh");
    assert_eq!(d.identifier_fields, vec!["b"]);
    assert_eq!(d.partition_fields, vec!["region"]);
    assert_eq!(d.shard_count, 1);
    assert!(!d.windowed && d.tenant_field.is_none());

    let d = default_definition("wh", "docs", Some("x"), &schema(&["id", "b"], &[])).unwrap();
    assert_eq!(d.name, "x");
    assert_eq!(d.identifier_fields, vec!["id"]);

    let d = default_definition("wh", "docs", None, &schema(&["only"], &[])).unwrap();
    assert_eq!(d.name, "docs");
    assert_eq!(d.identifier_fields, vec!["only"]);

    let err = default_definition("wh", "docs.", None, &schema(&["a", "b"], &[])).unwrap_err();
    assert!(matches!(err, EngineError::NoIdentifier));
    assert_eq!(
        err.message(),
        "no identifier field: provide a definition with `key.identifier_fields`"
    );
}

#[test]
fn sync_requires_append_fast_path() {
    let err = may_sync("docs", ScanMode::Changelog).unwrap_err();
    assert!(matches!(err, EngineError::NotAppendFastPath(i) if i == "docs"));
    assert!(may_sync("docs", ScanMode::AppendFastPath).is_ok());
}

#[test]
fn reindex_on_schema_change_wipes_a_stale_index_but_leaves_an_unchanged_one() {
    assert!(!needs_fresh_build(true, true));
    assert!(needs_fresh_build(true, false));
    assert!(!needs_fresh_build(false, false));
}

#[test]
fn a_streamed_build_numbers_its_commits_and_anchors_an_empty_shard() {
    let mut b = StreamedBuild::new(12);
    assert_eq!(b.chunk(3), "snapshot-12-1");
    assert_eq!(b.chunk(0), "snapshot-12-2");
    assert_eq!(b.written, 3);
    assert_eq!(b.finish(true, false, "t", Some(3)).unwrap(), None);
    assert_eq!(
        b.finish(false, false, "t", Some(3)).unwrap().unwrap(),
        "snapshot-12-anchor"
    );
    let none = StreamedBuild::new(12);
    assert_eq!(
        none.finish(false, true, "t", Some(3)).unwrap().unwrap(),
        "snapshot-12-anchor"
    );
    assert_eq!(
        none.finish(false, false, "t", Some(0)).unwrap().unwrap(),
        "snapshot-12-anchor"
    );
    assert!(
        matches!(
            none.finish(false, false, "t", Some(3)),
            Err(EngineError::EmptyReadFromNonEmptySource { records: 3, .. })
        ),
        "no empty index is committed"
    );
    assert_eq!(
        StreamedBuild::new(0).finish(false, false, "t", None).unwrap(),
        None
    );
    assert_eq!(snapshot_batch_id(-4), "snapshot--4");
    assert_eq!(append_batch_id(9), "append-9");
}

#[test]
fn an_empty_build_of_a_full_table_is_refused() {
    assert_eq!(checked_build(2, false, "t", Some(9)).unwrap(), 2);
    assert_eq!(checked_build(0, false, "t", Some(0)).unwrap(), 0);
    assert_eq!(checked_build(0, false, "t", None).unwrap(), 0);
    assert_eq!(checked_build(0, true, "t", Some(9)).unwrap(), 0);
    let err = checked_build(0, false, "t", Some(9)).unwrap_err();
    assert_eq!(
        err.message(),
        "indexed 0 documents from `t`, but its current snapshot reports 9 records — the source read is broken (e.g. a delete in the table's history); refusing to commit an empty index"
    );
}

#[test]
fn write_build_routes_windowed_to_window_shards_else_single() {
    const DAY: i64 = 86_400_000_000;
    assert_eq!(latest_window(&vec![10 * DAY, 11 * DAY]), Some(11 * DAY));
    assert_eq!(latest_window(&vec![3, 9, -1]), Some(9));
    assert_eq!(latest_window(&vec![]), None);
}

#[test]
fn search_unknown_index_errors() {
    let err = EngineError::NotIndexed("nope".to_string());
    assert_eq!(
        err.message(),
        "index `nope` does not exist — run `growlerdb index` first"
    );
    assert_eq!(
        EngineError::MissingLocator("[|id=1]".to_string()).message(),
        "no locator for key: [|id=1]"
    );
    assert_eq!(
        EngineError::NotAppendFastPath("d".to_string()).message(),
        "index `d` is not APPEND_FAST_PATH — changelog sync is the connector's job"
    );
    assert_eq!(EngineError::Io("gone".to_string()).message(), "io: gone");
    assert_eq!(
        EngineError::Codec("eof".to_string()).message(),
        "definition codec: eof"
    );
    assert_eq!(EngineError::Store("s".to_string()).message(), "s");
}

fn listed(id: &str, displays: bool) -> RankedHit {
    RankedHit {
        key: key(id),
        displays,
    }
}

/// Fuses ranked lists as a hybrid search does, and gives the ids with their scores.
fn rrf_fuse(lists: &Vec<Vec<RankedHit>>, k_rrf: usize, limit: usize) -> Vec<(String, f32)> {
    let docs = fuse(lists);
    let scores: Vec<f32> = docs
        .iter()
        .map(|d| {
            d.ranks
                .iter()
                .map(|r| 1.0 / (k_rrf as f32 + *r as f32 + 1.0))
                .sum()
        })
        .collect();
    let mut sorted = scores.clone();
    sorted.sort_by(|a, b| a.partial_cmp(b).unwrap());
    let order: Vec<i64> = scores
        .iter()
        .map(|s| sorted.iter().position(|x| x == s).unwrap() as i64)
        .collect();
    let ids: Vec<ByteKey> = docs
        .iter()
        .map(|d| ByteKey {
            bytes: lists[d.shown_by.list][d.shown_by.rank].key.bytes.clone(),
        })
        .collect();
    best_fused(&order, &ids, limit)
        .into_iter()
        .map(|p| (String::from_utf8(ids[p].bytes.clone()).unwrap(), scores[p]))
        .collect()
}

#[test]
fn rrf_fuse_ranks_overlap_first_keeps_singletons_and_is_deterministic() {
    let lists = vec![
        vec![listed("a", false), listed("b", false), listed("d", false)],
        vec![listed("b", false), listed("c", false)],
    ];
    let fused = rrf_fuse(&lists, RRF_K, 10);
    let ids: Vec<String> = fused.iter().map(|(id, _)| id.clone()).collect();
    assert_eq!(ids[0], "b", "the doc in both lists sorts first: {ids:?}");
    for want in ["a", "b", "c", "d"] {
        assert!(ids.contains(&want.to_string()), "{want} missing from {ids:?}");
    }
    let expected = 1.0 / (RRF_K as f32 + 1.0 + 1.0) + 1.0 / (RRF_K as f32 + 0.0 + 1.0);
    assert!((fused[0].1 - expected).abs() < 1e-6, "b.score = {}", fused[0].1);
    let pos = |id: &str| ids.iter().position(|x| x == id).unwrap();
    assert!(pos("a") < pos("c"));

    let again: Vec<String> = rrf_fuse(&lists, RRF_K, 10)
        .into_iter()
        .map(|(id, _)| id)
        .collect();
    assert_eq!(ids, again);
    assert_eq!(rrf_fuse(&lists, RRF_K, 2).len(), 2);
    assert_eq!(rrf_fuse(&lists, RRF_K, 0).len(), 0);
}

#[test]
fn rrf_fuse_prefers_a_representative_with_display_fields() {
    let lists = vec![vec![listed("x", false)], vec![listed("x", true)]];
    let docs = fuse(&lists);
    assert_eq!(docs.len(), 1);
    assert_eq!((docs[0].shown_by.list, docs[0].shown_by.rank), (1, 0));
    assert_eq!(docs[0].ranks, vec![0, 0]);
    let bare = vec![vec![listed("x", false)], vec![listed("x", false)]];
    assert_eq!(fuse(&bare)[0].shown_by.list, 0);
}

#[test]
fn equal_scores_are_ordered_by_key() {
    assert_eq!(best_fused(&vec![1, 1, 2], &keys(&["b", "a", "c"]), 9), vec![2, 1, 0]);
}

#[test]
fn arms_search_deeper_than_asked() {
    assert_eq!(semantic_depth(5, false, 50), 5);
    assert_eq!(semantic_depth(5, true, 50), 50);
    assert_eq!(semantic_depth(5, true, 0), 5);
    assert_eq!(hybrid_depths(5, false, 50), (20, 20));
    assert_eq!(hybrid_depths(11, false, 50), (22, 22));
    assert_eq!(hybrid_depths(5, true, 50), (20, 50));
    assert_eq!(hybrid_depths(5, true, 3), (20, 20));
}

#[test]
fn semantic_search_is_refused_fail_closed_on_a_tenant_scoped_index() {
    assert!(matches!(
        tenant_filter("docs", Some("id"), None),
        Err(EngineError::SemanticTenantClaimRequired(i)) if i == "docs"
    ));
    assert_eq!(
        tenant_filter("docs", Some("tenant"), Some("acme")).unwrap(),
        Some(("tenant".to_string(), "acme".to_string()))
    );
    assert_eq!(tenant_filter("docs", None, Some("acme")).unwrap(), None);
}

#[test]
fn a_semantic_search_needs_a_vector_field() {
    let fields = vec![
        FieldSpec {
            path: "body".to_string(),
            vector_source: None,
        },
        FieldSpec {
            path: "body_vec".to_string(),
            vector_source: Some("body".to_string()),
        },
    ];
    assert_eq!(vector_source(&fields, "body_vec").unwrap(), "body");
    assert!(matches!(
        vector_source(&fields, "body"),
        Err(EngineError::NotVectorField(f)) if f == "body"
    ));
    assert!(vector_source(&fields, "nope").is_err());
}

fn composite(id: i64) -> CompositeKey {
    CompositeKey {
        partition: vec![],
        identifier: vec![("id".to_string(), id.to_string())],
    }
}

#[test]
fn resolve_requests_builds_a_request_per_present_key() {
    let requests = resolve_requests(&vec![composite(1)], &vec![Ok(true)]).unwrap();
    assert_eq!(requests.len(), 1);
    assert_eq!(requests[0], 0);
}

#[test]
fn resolve_requests_rejects_missing_keys() {
    let err = resolve_requests(
        &vec![composite(1), composite(2)],
        &vec![Ok(true), Ok(false)],
    )
    .unwrap_err();
    assert!(matches!(err, EngineError::KeyNotFound(k) if k == "[|id=2]"));
    let err = resolve_requests(&vec![composite(1)], &vec![Err("disk".to_string())]).unwrap_err();
    assert!(matches!(err, EngineError::Store(e) if e == "disk"));
}

#[test]
fn keys_are_described_for_readers() {
    let k = CompositeKey {
        partition: vec![
            ("region".to_string(), "eu".to_string()),
            ("day".to_string(), "1".to_string()),
        ],
        identifier: vec![("id".to_string(), "x".to_string())],
    };
    assert_eq!(describe(&k), "[region=eu,day=1|id=x]");
}

#[test]
fn the_source_is_pruned_by_fast_sort_fields_outside_the_key() {
    let owned = |s: &[&str]| -> Vec<String> { s.iter().map(|x| x.to_string()).collect() };
    let sort = owned(&["ts", "id", "slow"]);
    let fast = owned(&["id", "ts"]);
    assert_eq!(hint_fields(&vec![composite(1)], &sort, &fast), vec!["ts"]);
    assert!(hint_fields(&vec![], &sort, &fast).is_empty());
}

#[test]
fn the_crate_has_a_version() {
    assert_eq!(version(), "0.1.0");
}

#[test]
fn both_arms_of_a_hybrid_search_stay_in_the_tenant() {
    let fields = vec![FieldSpec {
        path: "body_vec".to_string(),
        vector_source: Some("body".to_string()),
    }];
    let plan = |path: &str, claim: Option<&str>| {
        plan_hybrid("docs", &fields, path, Some("org"), claim, 3, true, 50)
    };
    let p = plan("body_vec", Some("acme")).unwrap();
    let scope = Some(("org".to_string(), "acme".to_string()));
    assert_eq!(p.lexical.tenant, scope);
    assert_eq!(p.vector.tenant, scope);
    assert_eq!((p.lexical.depth, p.vector.depth), (20, 50));
    assert_eq!(p.source_field, "body");
    assert!(matches!(
        plan("body_vec", None),
        Err(EngineError::SemanticTenantClaimRequired(i)) if i == "docs"
    ));
    assert!(matches!(
        plan("title", Some("acme")),
        Err(EngineError::NotVectorField(f)) if f == "title"
    ));
    let open = plan_semantic("docs", &fields, "body_vec", None, Some("acme"), 3, false, 50).unwrap();
    assert_eq!(open.vector.tenant, None);
    assert_eq!(open.vector.depth, 3);
    assert!(keys_to_hydrate(keys(&["a"]), false).is_none());
    assert_eq!(keys_to_hydrate(keys(&["a"]), true).unwrap().len(), 1);
}
