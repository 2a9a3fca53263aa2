use growlerdb_engine::authn::{Anonymous, Authenticator, AuthnError, SharedAuthn, Verified};
use growlerdb_engine::auth::{AuthContext, AuthDenied, AuthHook, SharedAuth};
use growlerdb_engine::fanout::{
    admit_aggs, aggregated, aggregates_nothing, explain_owner, gathered, group_by_shard, hydrated,
    hydrated_from_windows, key_is_elsewhere, merge_suggest, plan_search, routed, shard_aggregate,
    shard_request, AggregateRequest, AggregateRoute, GatewayRpc, MergedPage, SearchRequest,
    SearchRoute, ShardWrite,
};
use growlerdb_engine::gateway::{Gateway, GatewayLimits, WindowSlot};
use growlerdb_engine::merge::{ShardHit, SortKey, Suggestion};
use growlerdb_engine::metadata::{AUTHORIZATION_KEY, PRINCIPAL_KEY, ROLES_KEY, TENANT_KEY};
use growlerdb_engine::query::Query;
use growlerdb_engine::stats::{merge_describe, IndexStats};
use growlerdb_engine::status::{Code, Status};
use tonic::metadata::MetadataMap;

fn hit(id: &str, score: i64, values: Vec<Option<i64>>) -> ShardHit {
    ShardHit {
        score,
        values,
        key: Some(id.as_bytes().to_vec()),
        group: None,
        group_count: 0,
    }
}

fn search_req() -> SearchRequest {
    SearchRequest {
        index: String::new(),
        sort: Vec::new(),
        offset: 0,
        limit: 10,
        search_after: Vec::new(),
        collapse: String::new(),
    }
}

fn rank_sort(descending: bool) -> Vec<SortKey> {
    vec![SortKey {
        field: "rank".to_string(),
        descending,
    }]
}

/// Searches shards of which those that are down are `None`, as the gateway does.
fn search(
    shards: &[Option<Vec<ShardHit>>],
    req: &SearchRequest,
) -> Result<(Vec<String>, MergedPage), Status> {
    let (offset, limit) = match plan_search(req, shards.len())? {
        SearchRoute::Merge { offset, limit, .. } => (offset, limit),
        other => panic!("not merged: {other:?}"),
    };
    let hits: Vec<ShardHit> = shards.iter().flatten().flatten().cloned().collect();
    let totals: Vec<u64> = shards.iter().flatten().map(|h| h.len() as u64).collect();
    let page = Gateway::sharded(shards.len()).merge_search(
        &hits,
        &totals,
        shards.len(),
        &req.sort,
        offset,
        limit,
    )?;
    let ids = page
        .picks
        .iter()
        .map(|p| String::from_utf8(hits[*p].key.clone().unwrap()).unwrap())
        .collect();
    Ok((ids, page))
}

#[test]
fn search_scatter_gathers_and_merges_by_score() {
    let a = vec![hit("a1", 9, vec![]), hit("a2", 3, vec![])];
    let b = vec![
        hit("b1", 7, vec![]),
        hit("b2", 5, vec![]),
        hit("b3", 1, vec![]),
    ];
    let gw = Gateway::sharded(2);
    assert_eq!(gw.shard_count(), 2);
    let req = SearchRequest {
        limit: 3,
        ..search_req()
    };
    let (ids, page) = search(&[Some(a), Some(b)], &req).unwrap();
    assert_eq!(ids, vec!["a1", "b1", "b2"]);
    assert_eq!(page.total, 5);
    assert!(!page.partial);
    assert_eq!(page.shards_scanned, 2);
    assert_eq!(page.cursor_after, None);
}

#[test]
fn serving_scopes_search_to_the_named_index() {
    let gw = Gateway::new().serving("events".to_string());
    let q = |index: &str| SearchRequest {
        index: index.to_string(),
        limit: 5,
        ..search_req()
    };
    let mut md = MetadataMap::new();
    assert!(gw.admit_search(&q(""), &mut md).is_ok());
    assert!(gw.admit_search(&q("events"), &mut md).is_ok());
    let err = gw.admit_search(&q("other"), &mut md).unwrap_err();
    assert_eq!(err.code, Code::NotFound);
    assert_eq!(
        err.message,
        "index `other` is not served by this endpoint (serving `events`)"
    );
    assert!(Gateway::new().admit_search(&q("anything"), &mut md).is_ok());
}

#[test]
fn a_down_shard_flags_partial_not_a_silent_gap() {
    let healthy = vec![hit("a1", 9, vec![]), hit("a2", 4, vec![])];
    let (ids, page) = search(&[Some(healthy), None], &search_req()).unwrap();
    assert_eq!(ids, vec!["a1", "a2"]);
    assert!(page.partial);
}

#[test]
fn field_sort_merges_across_shards_by_sort_value_not_score() {
    let a = vec![hit("a1", 0, vec![Some(1)]), hit("a3", 0, vec![Some(3)])];
    let b = vec![hit("b2", 0, vec![Some(2)]), hit("b4", 0, vec![Some(4)])];
    let asc = SearchRequest {
        limit: 3,
        sort: rank_sort(false),
        ..search_req()
    };
    let (ids, _) = search(&[Some(a.clone()), Some(b.clone())], &asc).unwrap();
    assert_eq!(ids, vec!["a1", "b2", "a3"]);
    let desc = SearchRequest {
        limit: 3,
        sort: rank_sort(true),
        ..search_req()
    };
    let (ids, _) = search(&[Some(a), Some(b)], &desc).unwrap();
    assert_eq!(ids, vec!["b4", "a3", "b2"]);
}

#[test]
fn field_sort_missing_sorts_last_and_ties_break_by_key() {
    let a = vec![hit("z", 0, vec![Some(5)]), hit("bx", 0, vec![])];
    let b = vec![hit("a", 0, vec![Some(5)])];
    for descending in [false, true] {
        let req = SearchRequest {
            sort: rank_sort(descending),
            ..search_req()
        };
        let (ids, _) = search(&[Some(a.clone()), Some(b.clone())], &req).unwrap();
        assert_eq!(ids, vec!["a", "z", "bx"]);
    }
}

#[test]
fn a_later_sort_key_breaks_ties_of_an_earlier_one() {
    let a = vec![hit("a", 0, vec![Some(1), Some(9)])];
    let b = vec![hit("b", 0, vec![Some(1), Some(10)])];
    let mut sort = rank_sort(false);
    sort.push(SortKey {
        field: "price".to_string(),
        descending: true,
    });
    let req = SearchRequest { sort, ..search_req() };
    let (ids, _) = search(&[Some(a), Some(b)], &req).unwrap();
    assert_eq!(ids, vec!["b", "a"]);
}

#[test]
fn overlapping_shards_dedupe_during_a_reshard_window() {
    let shared = vec![
        hit("x", 1, vec![]),
        hit("y", 1, vec![]),
        hit("z", 1, vec![]),
    ];
    let req = SearchRequest {
        limit: 100,
        ..search_req()
    };
    let (ids, page) = search(&[Some(shared.clone()), Some(shared)], &req).unwrap();
    assert_eq!(ids, vec!["x", "y", "z"]);
    assert_eq!(page.total, 6);
}

#[test]
fn the_best_of_two_copies_is_kept() {
    let (ids, page) = search(
        &[
            Some(vec![hit("x", 1, vec![])]),
            Some(vec![hit("x", 5, vec![]), hit("y", 3, vec![])]),
        ],
        &search_req(),
    )
    .unwrap();
    assert_eq!(ids, vec!["x", "y"]);
    assert_eq!(page.picks, vec![1, 2]);
}

#[test]
fn offset_merge_returns_global_page_and_rewrites_per_shard_window() {
    let a = vec![
        hit("a1", 9, vec![]),
        hit("a2", 6, vec![]),
        hit("a3", 3, vec![]),
    ];
    let b = vec![
        hit("b1", 8, vec![]),
        hit("b2", 5, vec![]),
        hit("b3", 2, vec![]),
    ];
    let req = SearchRequest {
        offset: 2,
        limit: 2,
        ..search_req()
    };
    assert_eq!(
        plan_search(&req, 2).unwrap(),
        SearchRoute::Merge {
            offset: 2,
            limit: 2,
            per_shard_limit: 4
        }
    );
    let (ids, _) = search(&[Some(a), Some(b)], &req).unwrap();
    assert_eq!(ids, vec!["a2", "b2"]);
    let route = plan_search(&req, 2).unwrap();
    let asked = shard_request(req, route);
    assert_eq!((asked.offset, asked.limit), (0, 4));
}

#[test]
fn a_shard_is_asked_for_what_the_route_needs() {
    let req = || SearchRequest {
        offset: 3,
        limit: 2,
        search_after: vec![1],
        sort: rank_sort(false),
        ..search_req()
    };
    let asked = shard_request(req(), plan_search(&req(), 2).unwrap());
    assert_eq!((asked.offset, asked.limit, asked.search_after), (0, 2, vec![1]));
    let asked = shard_request(req(), SearchRoute::Collapse { limit: 2 });
    assert_eq!((asked.offset, asked.limit, asked.search_after), (0, 2, vec![]));
    let asked = shard_request(req(), SearchRoute::Forward);
    assert_eq!((asked.offset, asked.limit, asked.search_after), (3, 2, vec![1]));
    assert_eq!(asked.sort.len(), 1);
}

#[test]
fn the_first_hits_of_each_shard_are_enough_for_a_page() {
    let a: Vec<ShardHit> = (0..9).map(|i| hit(&format!("a{i}"), 100 - 3 * i, vec![])).collect();
    let b: Vec<ShardHit> = (0..9).map(|i| hit(&format!("b{i}"), 99 - 2 * i, vec![])).collect();
    let req = SearchRequest {
        offset: 2,
        limit: 3,
        ..search_req()
    };
    let (all, _) = search(&[Some(a.clone()), Some(b.clone())], &req).unwrap();
    let (top, _) = search(&[Some(a[..5].to_vec()), Some(b[..5].to_vec())], &req).unwrap();
    assert_eq!(all, top);
}

#[test]
fn offset_merge_on_field_sorted_page() {
    let a = vec![hit("a1", 0, vec![Some(1)]), hit("a3", 0, vec![Some(3)])];
    let b = vec![hit("b2", 0, vec![Some(2)]), hit("b4", 0, vec![Some(4)])];
    let req = SearchRequest {
        sort: rank_sort(false),
        offset: 1,
        limit: 2,
        ..search_req()
    };
    let (ids, _) = search(&[Some(a), Some(b)], &req).unwrap();
    assert_eq!(ids, vec!["b2", "a3"]);
}

#[test]
fn keyset_scroll_visits_every_doc_once() {
    let a = [("a1", 1), ("a4", 4), ("a5", 5)];
    let b = [("b2", 2), ("b3", 3), ("b6", 6)];
    let mut after: Option<i64> = None;
    let mut got: Vec<String> = Vec::new();
    for _ in 0..10 {
        let req = SearchRequest {
            sort: rank_sort(false),
            limit: 2,
            search_after: after.map(|r| vec![r as u8]).unwrap_or_default(),
            ..search_req()
        };
        let page_of = |s: &[(&str, i64)]| -> Vec<ShardHit> {
            s.iter()
                .filter(|(_, r)| after.map_or(true, |a| *r > a))
                .take(2)
                .map(|(id, r)| hit(id, 0, vec![Some(*r)]))
                .collect()
        };
        let shards = [Some(page_of(&a)), Some(page_of(&b))];
        let hits: Vec<ShardHit> = shards.iter().flatten().flatten().cloned().collect();
        let (ids, page) = search(&shards, &req).unwrap();
        if ids.is_empty() {
            break;
        }
        got.extend(ids);
        match page.cursor_after {
            Some(p) => after = hits[p].values[0],
            None => break,
        }
    }
    assert_eq!(got, vec!["a1", "b2", "b3", "a4", "a5", "b6"]);
}

#[test]
fn a_cursor_needs_a_full_page_a_sort_and_a_key() {
    let shards = [
        Some(vec![hit("a", 0, vec![Some(1)])]),
        Some(vec![hit("b", 0, vec![Some(2)])]),
    ];
    let sorted = |limit: u32, field: &str| SearchRequest {
        limit,
        sort: vec![SortKey {
            field: field.to_string(),
            descending: false,
        }],
        ..search_req()
    };
    assert_eq!(search(&shards, &sorted(2, "rank")).unwrap().1.cursor_after, Some(1));
    assert_eq!(search(&shards, &sorted(3, "rank")).unwrap().1.cursor_after, None);
    assert_eq!(search(&shards, &sorted(2, "_score")).unwrap().1.cursor_after, None);
    assert_eq!(search(&shards, &sorted(0, "rank")).unwrap().1.cursor_after, None);
    let mut keyless = hit("", 0, vec![Some(1)]);
    keyless.key = None;
    let page = Gateway::sharded(3)
        .merge_search(&vec![keyless], &vec![1, 0], 2, &rank_sort(false), 0, 1)
        .unwrap();
    assert_eq!((page.shards_scanned, page.shards_total), (2, 3));
    assert_eq!(page.picks, vec![0]);
    assert_eq!(page.cursor_after, None);
}

fn group(name: &str, rank: i64, count: u64) -> ShardHit {
    ShardHit {
        score: 0,
        values: vec![Some(rank)],
        key: Some(name.as_bytes().to_vec()),
        group: Some(name.to_string()),
        group_count: count,
    }
}

#[test]
fn collapse_folds_groups_across_shards() {
    let hits = vec![
        group("x", 1, 2),
        group("y", 5, 1),
        group("z", 2, 1),
        group("x", 3, 4),
    ];
    let req = SearchRequest {
        collapse: "cat".to_string(),
        sort: rank_sort(false),
        limit: 10,
        ..search_req()
    };
    assert_eq!(plan_search(&req, 2).unwrap(), SearchRoute::Collapse { limit: 10 });
    let page = Gateway::sharded(4).merge_collapsed(&hits, 2, 2, &req.sort, 10).unwrap();
    let groups: Vec<&str> = page
        .groups
        .iter()
        .map(|g| hits[g.pick].group.as_deref().unwrap())
        .collect();
    assert_eq!(groups, vec!["x", "z", "y"]);
    assert_eq!(page.groups[0].count, 6);
    assert_eq!(page.groups[0].pick, 0);
    assert_eq!(page.total, 3);
    assert!(!page.partial);
    assert_eq!((page.shards_scanned, page.shards_total), (2, 4));
}

#[test]
fn a_collapsed_page_is_cut_and_skips_hits_without_a_group() {
    let hits = vec![hit("n", 0, vec![Some(0)]), group("x", 1, 2), group("y", 2, 3)];
    let page = Gateway::sharded(4).merge_collapsed(&hits, 1, 2, &rank_sort(false), 1).unwrap();
    assert_eq!(page.groups.len(), 1);
    assert_eq!(page.groups[0].pick, 1);
    assert!(page.partial);
    let err = Gateway::sharded(4).merge_collapsed(&hits, 0, 2, &rank_sort(false), 1).unwrap_err();
    assert_eq!(err.code, Code::Unavailable);
}

#[test]
fn collapse_without_sort_is_rejected() {
    let req = SearchRequest {
        collapse: "cat".to_string(),
        limit: 10,
        ..search_req()
    };
    let err = plan_search(&req, 2).unwrap_err();
    assert_eq!(err.code, Code::InvalidArgument);
}

#[test]
fn multi_shard_rejects_score_ranked_search_after() {
    let req = SearchRequest {
        search_after: vec![1, 2, 3],
        ..search_req()
    };
    assert_eq!(plan_search(&req, 2).unwrap_err().code, Code::InvalidArgument);
    let req = SearchRequest {
        search_after: vec![1, 2, 3],
        sort: vec![SortKey {
            field: "_score".to_string(),
            descending: true,
        }],
        ..search_req()
    };
    assert_eq!(plan_search(&req, 2).unwrap_err().code, Code::InvalidArgument);
}

#[test]
fn single_shard_forwards_offset_unchanged() {
    let req = SearchRequest {
        offset: 5,
        search_after: vec![1, 2, 3],
        ..search_req()
    };
    assert_eq!(plan_search(&req, 1).unwrap(), SearchRoute::Forward);
    assert_eq!(plan_search(&req, 0).unwrap(), SearchRoute::Nothing);
}

#[test]
fn a_cursor_takes_the_place_of_the_offset() {
    let req = SearchRequest {
        offset: 5,
        limit: 7,
        search_after: vec![1],
        sort: rank_sort(false),
        ..search_req()
    };
    assert_eq!(
        plan_search(&req, 3).unwrap(),
        SearchRoute::Merge {
            offset: 0,
            limit: 7,
            per_shard_limit: 7
        }
    );
    let all = SearchRequest {
        limit: 0,
        offset: 5,
        ..search_req()
    };
    assert_eq!(
        plan_search(&all, 3).unwrap(),
        SearchRoute::Merge {
            offset: 5,
            limit: 0,
            per_shard_limit: 0
        }
    );
    let far = SearchRequest {
        limit: u32::MAX,
        offset: 5,
        ..search_req()
    };
    assert_eq!(
        plan_search(&far, 3).unwrap(),
        SearchRoute::Merge {
            offset: 5,
            limit: u32::MAX as usize,
            per_shard_limit: u32::MAX
        }
    );
}

#[test]
fn all_shards_down_search_errors_not_empty() {
    let err = search(&[None, None], &search_req()).unwrap_err();
    assert_eq!(err.code, Code::Unavailable);
    assert_eq!(err.message, "all 2 shards failed to respond");
}

#[test]
fn score_ties_break_by_key_deterministically() {
    let (ids, _) = search(
        &[Some(vec![hit("z", 5, vec![])]), Some(vec![hit("a", 5, vec![])])],
        &search_req(),
    )
    .unwrap();
    assert_eq!(ids, vec!["a", "z"]);
}

#[test]
fn oversized_page_fetch_is_rejected() {
    let gw = Gateway::sharded(2).with_limits(GatewayLimits {
        deadline_ms: None,
        max_fetch: 100,
        ..GatewayLimits::default()
    });
    let mut md = MetadataMap::new();
    let req = |offset: u32, limit: u32| SearchRequest {
        offset,
        limit,
        ..search_req()
    };
    let err = gw.admit_search(&req(0, 1000), &mut md).unwrap_err();
    assert_eq!(err.code, Code::InvalidArgument);
    let err = gw.admit_search(&req(80, 30), &mut md).unwrap_err();
    assert_eq!(err.code, Code::InvalidArgument);
    assert_eq!(
        err.message,
        "offset+limit (110) exceeds the maximum page fetch (100); request a smaller page"
    );
    assert!(gw.admit_search(&req(0, 50), &mut md).is_ok());
    assert!(gw.admit_search(&req(50, 50), &mut md).is_ok());
    let unbounded = Gateway::sharded(2).with_limits(GatewayLimits {
        max_fetch: 0,
        ..GatewayLimits::default()
    });
    assert!(unbounded.admit_search(&req(u32::MAX, u32::MAX), &mut md).is_ok());
}

#[test]
fn limits_default_to_a_deadline_a_page_and_a_fanout() {
    let l = GatewayLimits::default();
    assert_eq!(l.deadline_ms, Some(30_000));
    assert_eq!(l.max_fetch, 10_000);
    assert_eq!(l.fanout_bound(), Some(256));
    let open = GatewayLimits {
        max_concurrent_fanout: 0,
        ..l
    };
    assert_eq!(open.fanout_bound(), None);
}

fn stats(name: &str, num_docs: u64) -> IndexStats {
    IndexStats {
        name: name.to_string(),
        snapshot: num_docs,
        num_docs,
        generation_count: 2,
        checkpoint: format!("cp-{num_docs}"),
        size_bytes: 10,
        time_fields: vec!["ts".to_string()],
        sort_fields: vec!["rank".to_string()],
        vector_fields: vec![],
        fields: vec![],
    }
}

#[test]
fn describe_flags_failed_shards() {
    let resp = merge_describe(vec![stats("docs", 7)], 1, 2).unwrap();
    assert_eq!(resp.stats.num_docs, 7);
    assert_eq!(resp.failed_shards, 1);
    let err = merge_describe(vec![], 0, 2).unwrap_err();
    assert_eq!(err.code, Code::Unavailable);
}

#[test]
fn describe_exposes_per_shard_stats_for_skew() {
    let resp = merge_describe(vec![stats("docs", 10), stats("docs", 2)], 2, 2).unwrap();
    assert_eq!(resp.stats.name, "docs");
    assert_eq!(resp.stats.num_docs, 12);
    assert_eq!(resp.stats.generation_count, 4);
    assert_eq!(resp.stats.size_bytes, 20);
    assert_eq!(resp.stats.snapshot, 10);
    assert_eq!(resp.stats.checkpoint, "cp-10");
    assert_eq!(resp.stats.time_fields, vec!["ts"]);
    assert_eq!(resp.failed_shards, 0);
    assert_eq!(resp.per_shard.len(), 2);
    let none = merge_describe(vec![], 1, 1).unwrap();
    assert_eq!(none.stats.name, "");
    assert!(resp.stats.sort_fields.is_empty());
    assert_eq!(resp.per_shard[0].sort_fields, vec!["rank"]);
    assert_eq!(none.stats.num_docs, 0);
}

fn suggestion(text: &str, count: u64) -> Suggestion {
    Suggestion {
        text: text.to_string(),
        count,
    }
}

#[test]
fn suggest_flags_failed_shards() {
    let out = merge_suggest(&vec![suggestion("foo", 3)], 1, 2, 10).unwrap();
    assert_eq!(out.failed_shards, 1);
    assert_eq!(out.suggestions, vec![suggestion("foo", 3)]);
    assert_eq!(
        merge_suggest(&vec![], 0, 2, 10).unwrap_err().code,
        Code::Unavailable
    );
}

#[test]
fn suggestions_are_summed_and_ordered() {
    let given = vec![
        suggestion("b", 2),
        suggestion("a", 1),
        suggestion("c", 5),
        suggestion("a", 1),
        suggestion("b", 1),
    ];
    let out = merge_suggest(&given, 3, 3, 0).unwrap();
    assert_eq!(
        out.suggestions,
        vec![suggestion("c", 5), suggestion("b", 3), suggestion("a", 2)]
    );
    let two = merge_suggest(&given, 3, 3, 2).unwrap();
    assert_eq!(two.suggestions.len(), 2);
    let tied = merge_suggest(&vec![suggestion("z", 1), suggestion("é", 1), suggestion("a", 1)], 1, 1, 0);
    let texts: Vec<String> = tied.unwrap().suggestions.into_iter().map(|s| s.text).collect();
    assert_eq!(texts, vec!["a", "z", "é"]);
}

#[test]
fn get_by_key_routes_each_key_to_its_owning_shard() {
    let per_shard = group_by_shard(&vec![Ok(1), Ok(0), Ok(1), Ok(2)], 4).unwrap();
    assert_eq!(per_shard, vec![vec![1], vec![0, 2], vec![3], vec![]]);
}

#[test]
fn get_by_key_rejects_malformed_coordinate() {
    let err = group_by_shard(
        &vec![Ok(0), Err("no identifier".to_string()), Err("later".to_string())],
        2,
    )
    .unwrap_err();
    assert_eq!(err.code, Code::InvalidArgument);
    assert_eq!(err.message, "malformed key coordinate: no identifier");
}

#[test]
fn get_by_key_flags_failed_shards() {
    assert_eq!(hydrated(2, 1).unwrap(), 1);
    assert_eq!(hydrated(0, 0).unwrap(), 0);
    let err = hydrated(2, 0).unwrap_err();
    assert_eq!(err.code, Code::Unavailable);
    assert_eq!(
        err.message,
        "all 2 shards holding requested keys failed to respond"
    );
    assert_eq!(hydrated_from_windows(1, 3, 2).unwrap(), 1);
    assert_eq!(hydrated_from_windows(0, 3, 0).unwrap(), 3);
    assert_eq!(
        hydrated_from_windows(1, 3, 0).unwrap_err().message,
        "all 3 windows failed to respond to the hydration"
    );
    assert!(key_is_elsewhere(Code::NotFound));
    assert!(!key_is_elsewhere(Code::Unavailable));
}

#[test]
fn an_explanation_goes_to_the_owner() {
    assert_eq!(explain_owner(1, Err("unread".to_string())).unwrap(), 0);
    assert_eq!(explain_owner(3, Ok(2)).unwrap(), 2);
    assert_eq!(
        explain_owner(3, Err("bad".to_string())).unwrap_err().message,
        "malformed key coordinate: bad"
    );
    let gw = Gateway::sharded(3).serving("docs".to_string());
    let mut md = MetadataMap::new();
    assert!(gw.admit_explain("docs", true, &mut md).is_ok());
    assert_eq!(
        gw.admit_explain(" docs ", false, &mut md).unwrap_err().message,
        "explain requires a document coordinate"
    );
    assert_eq!(
        gw.admit_explain("x", false, &mut md).unwrap_err().code,
        Code::NotFound
    );
    let e = gw.explained(true, 250);
    assert_eq!((e.shards.scanned, e.shards.total, e.hydration_us), (1, 3, 250));
    assert_eq!(gw.explained(false, 250).hydration_us, 0);
    assert_eq!(gw.one_scanned(), e.shards);
    assert!(!gw.forwards() && Gateway::new().forwards());
    let none = gw.nothing_found();
    assert_eq!((none.total, none.shards_scanned, none.shards_total), (0, 0, 3));
}

#[test]
fn aggregate_flags_failed_shards() {
    assert_eq!(gathered(2, 1).unwrap(), 1);
    assert_eq!(gathered(2, 2).unwrap(), 0);
    assert_eq!(gathered(2, 0).unwrap_err().code, Code::Unavailable);
    let gw = Gateway::sharded(2);
    assert_eq!(gw.aggregate_route(&vec![0, 1]), AggregateRoute::MergePartials);
    assert_eq!(gw.aggregate_route(&vec![]), AggregateRoute::MergeNothing);
    assert_eq!(Gateway::new().aggregate_route(&vec![0]), AggregateRoute::Forward);
    assert_eq!(aggregated(2, 1).unwrap(), 1);
    assert_eq!(aggregated(0, 0).unwrap(), 0);
    assert_eq!(
        aggregated(2, 0).unwrap_err().message,
        "all 2 shards failed to respond"
    );
}

#[test]
fn an_aggregation_is_asked_of_shards_in_part() {
    let asked = shard_aggregate(AggregateRequest {
        query: vec![1, 2],
        aggs: "{}".to_string(),
        partial: false,
        window: 7,
    });
    assert!(asked.partial);
    assert_eq!((asked.query, asked.aggs, asked.window), (vec![1, 2], "{}".to_string(), 0));
    assert!(aggregates_nothing(" \n"));
    assert!(!aggregates_nothing(" {}"));
    let bad = || Err("no JSON".to_string());
    assert!(admit_aggs(" ", bad(), Ok(())).is_ok());
    assert_eq!(admit_aggs("{", bad(), Ok(())).unwrap_err().message, "aggs: no JSON");
    let err = admit_aggs("{}", Ok(()), Err("no field".to_string())).unwrap_err();
    assert_eq!((err.code, err.message.as_str()), (Code::InvalidArgument, "no field"));
}

#[test]
fn reindex_routes_for_a_single_shard_but_refuses_multi_shard() {
    assert!(Gateway::new().only_shard(ShardWrite::Reindex).is_ok());
    let err = Gateway::sharded(2).only_shard(ShardWrite::Reindex).unwrap_err();
    assert_eq!(err.code, Code::Unimplemented);
    assert_eq!(err.message, "reindex over a 2-shard gateway is not supported; reindex each shard's Node directly (distributed reindex orchestration is future work)");
}

#[test]
fn alter_routes_for_a_single_shard_but_refuses_multi_shard() {
    assert!(Gateway::new().only_shard(ShardWrite::Alter).is_ok());
    let err = Gateway::sharded(2).only_shard(ShardWrite::Alter).unwrap_err();
    assert_eq!(err.code, Code::Unimplemented);
    assert!(err.message.starts_with("alter over a 2-shard gateway"));
    assert!(Gateway::sharded(2)
        .only_shard(ShardWrite::Compact)
        .unwrap_err()
        .message
        .ends_with("compact each shard's Node directly"));
    assert!(Gateway::sharded(2)
        .only_shard(ShardWrite::Backup)
        .unwrap_err()
        .message
        .ends_with("back up each shard's Node directly"));
}

#[test]
fn reads_are_routed_and_writes_are_not() {
    assert!(routed(GatewayRpc::Search).is_ok());
    assert!(routed(GatewayRpc::SemanticSearch).is_ok());
    assert!(routed(GatewayRpc::DescribeIndex).is_ok());
    let err = routed(GatewayRpc::OpenPit).unwrap_err();
    assert_eq!(err.code, Code::Unimplemented);
    assert_eq!(err.message, "OpenPit is not routed through the Gateway yet — call the Node directly (cross-shard routing lands later; admin mutations are Node/Control-Plane)");
    assert!(routed(GatewayRpc::BackupStatus)
        .unwrap_err()
        .message
        .starts_with("BackupStatus is not routed"));
}

fn term(field: &str, value: &str) -> Query {
    Query::Term {
        field: Some(field.to_string()),
        value: value.to_string(),
    }
}

fn all_of(must: Vec<Query>) -> Query {
    Query::Bool {
        must,
        should: vec![],
        must_not: vec![],
        filter: vec![],
    }
}

fn one_of(should: Vec<Query>) -> Query {
    Query::Bool {
        must: vec![],
        should,
        must_not: vec![],
        filter: vec![],
    }
}

#[test]
fn partition_pinned_search_prunes_to_one_shard() {
    let gw = Gateway::sharded_with(2, 2).with_partition_fields(vec!["region".to_string()]);
    for region in ["us", "eu", "apac", "sa"] {
        let pinned = Some(vec![("region".to_string(), region.to_string())]);
        assert_eq!(gw.partition_prune(Some(&term("region", region))), pinned);
        assert_eq!(
            gw.partition_prune(Some(&all_of(vec![term("region", region), term("body", "x")]))),
            pinned
        );
    }
    assert_eq!(gw.partition_prune(Some(&term("body", "x"))), None);
    assert_eq!(
        gw.partition_prune(Some(&one_of(vec![term("region", "us"), term("body", "x")]))),
        None
    );
    assert_eq!(gw.partition_prune(None), None);

    assert_eq!(gw.target_shards(Some(1), None).len(), 1);
    assert_eq!(gw.target_shards(None, None).len(), 2);
    assert_eq!(gw.target_shards(Some(7), None), vec![0, 1]);
}

#[test]
fn partition_prune_off_without_declared_fields() {
    let gw = Gateway::sharded_with(2, 2);
    assert_eq!(gw.partition_prune(Some(&term("region", "us"))), None);
}

#[test]
fn every_partition_field_must_be_pinned_and_the_last_pin_counts() {
    let gw = Gateway::sharded(2)
        .with_partition_fields(vec!["region".to_string(), "day".to_string()]);
    assert_eq!(gw.partition_prune(Some(&term("region", "us"))), None);
    let filtered = Query::Bool {
        must: vec![term("region", "us")],
        should: vec![],
        must_not: vec![term("day", "no")],
        filter: vec![all_of(vec![term("day", "1")]), term("region", "eu")],
    };
    assert_eq!(
        gw.partition_prune(Some(&filtered)),
        Some(vec![
            ("region".to_string(), "eu".to_string()),
            ("day".to_string(), "1".to_string())
        ])
    );
}

/// One day in microseconds.
const DAY: i64 = 86_400_000_000;

fn slot(window: i64, zone: Option<(i64, i64)>) -> WindowSlot {
    WindowSlot { window, zone }
}

#[test]
fn windowed_gateway_prunes_scatter_to_matching_windows() {
    let gw = Gateway::windowed(vec![
        slot(10 * DAY, Some((2 * DAY, 10 * DAY))),
        slot(11 * DAY, Some((11 * DAY, 11 * DAY))),
        slot(20 * DAY, Some((20 * DAY, 20 * DAY))),
    ]);
    assert_eq!(gw.shard_count(), 3);
    // Which windows a query's time range can match comes with the query.
    let ids = ["d10", "d11", "d20"];
    let asked = |keeps: Option<&Vec<bool>>| -> Vec<&str> {
        gw.windows_matching(keeps).iter().map(|i| ids[*i]).collect()
    };
    assert_eq!(asked(None), vec!["d10", "d11", "d20"]);
    assert_eq!(asked(Some(&vec![false, true, false])), vec!["d11"]);
    assert_eq!(asked(Some(&vec![true, false, false])), vec!["d10"]);
    assert!(asked(Some(&vec![false, false, false])).is_empty());
    assert_eq!(gw.target_shards(None, Some(&vec![false, true, true])), vec![1, 2]);
    assert_eq!(gw.target_shards(Some(0), Some(&vec![false, true, false])), vec![1]);
}

#[test]
fn swap_routing_hot_reloads_the_topology() {
    let mut gw = Gateway::sharded(2);
    assert!(gw.swap_routing(3, 3));
    assert_eq!(gw.shard_count(), 3);
    assert!(!gw.swap_routing(0, 0));
    assert!(!gw.swap_routing(4, 3));
    assert_eq!(gw.shard_count(), 3);
}

#[test]
fn swap_windowed_makes_a_new_window_queryable_and_prunable() {
    let day = |n: i64| slot(n * DAY, Some((n * DAY, n * DAY)));
    let mut gw = Gateway::windowed(vec![day(10), day(11)]);
    assert_eq!(gw.windows_matching(None), vec![0, 1]);
    assert!(gw.windows_matching(Some(&vec![false, false])).is_empty());

    assert!(gw.swap_windowed(3, vec![day(10), day(11), day(12)]));
    assert_eq!(gw.windows_matching(None), vec![0, 1, 2]);
    assert_eq!(gw.windows_matching(Some(&vec![false, false, true])), vec![2]);
    assert_eq!(gw.shard_count(), 3);

    assert!(!gw.swap_windowed(2, vec![day(10)]));
    assert!(!gw.swap_windowed(0, vec![]));
    assert_eq!(gw.shard_count(), 3);
}

#[test]
fn cold_status_reports_per_window_tier_and_cache() {
    let gw = Gateway::windowed(vec![
        slot(10 * DAY, Some((10 * DAY, 10 * DAY + 5))),
        slot(11 * DAY, Some((11 * DAY, 11 * DAY))),
        slot(12 * DAY, None),
    ])
    .with_cold_tier(vec![10 * DAY, 11 * DAY]);
    let status = gw.cold_status().expect("windowed gateway has cold status");
    assert_eq!((status.hot, status.cold), (1, 2));
    assert_eq!(status.windows.len(), 3);
    let w = |id: i64| status.windows.iter().find(|w| w.window == id).unwrap();
    assert!(
        w(10 * DAY).cold && w(11 * DAY).cold,
        "parked windows are cold"
    );
    assert!(!w(12 * DAY).cold, "the recent window is hot");
    assert_eq!(w(10 * DAY).event_min, Some(10 * DAY));
    assert_eq!(w(10 * DAY).event_max, Some(10 * DAY + 5));
    assert_eq!(w(12 * DAY).event_min, None);
    assert!(status.cached);

    let warm = Gateway::windowed(vec![slot(0, None)]).cold_status().unwrap();
    assert!(!warm.cached);
    assert_eq!(warm.cold, 0);
    assert!(Gateway::sharded(2).cold_status().is_none());

    let none_cold = Gateway::windowed(vec![slot(10, None)])
        .with_cold_tier(vec![])
        .cold_status()
        .unwrap();
    assert_eq!((none_cold.hot, none_cold.cold), (1, 0));
    assert_eq!(none_cold.windows.len(), 1);
    assert_eq!(none_cold.windows[0].window, 10);
    assert!(!none_cold.windows[0].cold);
    assert!(!none_cold.cached, "no window is cold");
}

/// Accepts one credential.
struct Fixed;

impl Authenticator for Fixed {
    fn authenticate(&self, authorization: Option<&str>) -> Result<Verified, AuthnError> {
        if authorization == Some("Bearer good") {
            let mut v = Anonymous.authenticate(None)?;
            v.principal = "alice".to_string();
            v.tenant = Some("acme".to_string());
            Ok(v)
        } else {
            Err(AuthnError::Missing)
        }
    }
}

/// Permits callers with a role.
struct NeedsRole(&'static str);

impl AuthHook for NeedsRole {
    fn authorize(&self, ctx: &AuthContext) -> Result<(), AuthDenied> {
        if ctx.roles.iter().any(|r| r == self.0) {
            Ok(())
        } else {
            Err(AuthDenied::new(format!("{} needs {}", ctx.method, self.0)))
        }
    }
}

/// Admits any credential as `alice` with one role.
struct WithRole(&'static str);

impl Authenticator for WithRole {
    fn authenticate(&self, authorization: Option<&str>) -> Result<Verified, AuthnError> {
        authorization.ok_or(AuthnError::Missing)?;
        let mut v = Anonymous.authenticate(None)?;
        v.principal = "alice".to_string();
        v.roles = vec![self.0.to_string()];
        Ok(v)
    }
}

/// A gateway whose callers all have `role`, and that asks for the role of a viewer.
fn rbac_gw(role: &'static str) -> Gateway {
    Gateway::new()
        .with_authn(SharedAuthn {
            authn: Box::new(WithRole(role)),
        })
        .with_authz(SharedAuth {
            hook: Box::new(NeedsRole("viewer")),
        })
}

fn fixed() -> SharedAuthn {
    SharedAuthn {
        authn: Box::new(Fixed),
    }
}

fn with_credential(credential: Option<&str>) -> MetadataMap {
    let mut md = MetadataMap::new();
    if let Some(c) = credential {
        md.insert(AUTHORIZATION_KEY, c.parse().unwrap());
    }
    md.insert(PRINCIPAL_KEY, "attacker".parse().unwrap());
    md.insert(TENANT_KEY, "victim".parse().unwrap());
    md.insert(ROLES_KEY, "admin".parse().unwrap());
    md
}

#[test]
fn auth_required_reflects_whether_an_authenticator_is_configured() {
    assert!(!Gateway::new().auth_required());
    assert!(Gateway::new().with_authn(fixed()).auth_required());
    assert!(!Gateway::new().password_login());
    assert!(Gateway::new().with_password_login(true).password_login());
}

#[test]
fn identity_is_anonymous_when_open_and_verified_with_authn() {
    let mut md = with_credential(None);
    assert_eq!(Gateway::new().identity(&mut md).unwrap().principal, "");
    let gw = Gateway::new().with_authn(fixed());
    assert_eq!(
        gw.identity(&mut with_credential(Some("Bearer good"))).unwrap().principal,
        "alice"
    );
    assert_eq!(
        gw.identity(&mut with_credential(None)).unwrap_err().code,
        Code::Unauthenticated
    );
}

#[test]
fn with_authn_a_valid_credential_overrides_a_forged_identity() {
    let gw = Gateway::new().with_authn(fixed());
    let mut md = with_credential(Some("Bearer good"));
    assert_eq!(md.get(PRINCIPAL_KEY).unwrap(), "attacker");
    gw.guard("DescribeIndex", &mut md).unwrap();
    assert_eq!(md.get(PRINCIPAL_KEY).unwrap().to_str().unwrap(), "alice");
    assert_eq!(md.get(TENANT_KEY).unwrap().to_str().unwrap(), "acme");
    assert!(md.get(ROLES_KEY).is_none());
}

#[test]
fn with_authn_a_missing_credential_is_rejected_before_the_shard() {
    let gw = Gateway::new().with_authn(fixed());
    let err = gw.guard("Search", &mut with_credential(None)).unwrap_err();
    assert_eq!(err.code, Code::Unauthenticated);
}

#[test]
fn open_gateway_strips_caller_asserted_identity() {
    let mut md = with_credential(None);
    Gateway::new().guard("DescribeIndex", &mut md).unwrap();
    assert!(md.get(PRINCIPAL_KEY).is_none(), "forged principal is stripped");
    assert!(md.get(TENANT_KEY).is_none());
    assert!(md.get(ROLES_KEY).is_none());
}

#[test]
fn rbac_admits_a_role_that_grants_the_methods_scope() {
    let gw = rbac_gw("viewer");
    assert!(gw
        .guard("DescribeIndex", &mut with_credential(Some("Bearer x")))
        .is_ok());
}

#[test]
fn rbac_rejects_an_unprivileged_caller_before_the_shard() {
    let gw = rbac_gw("bogus");
    let err = gw
        .guard("DescribeIndex", &mut with_credential(Some("Bearer x")))
        .unwrap_err();
    assert_eq!(err.code, Code::PermissionDenied);
    assert_eq!(err.message, "DescribeIndex needs viewer");
    // The roles that a caller asserts do not count, with or without an authenticator.
    let open = Gateway::new().with_authz(SharedAuth {
        hook: Box::new(NeedsRole("admin")),
    });
    assert!(open.guard("Search", &mut with_credential(None)).is_err());
}
