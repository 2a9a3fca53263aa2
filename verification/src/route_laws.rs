//! Where calls go and what their shards are asked, said of shards, windows and keys.
use vstd::prelude::*;

use crate::fanout::{
    admit_aggs, aggregated, explain_owner, first_malformed, gathered, group_by_shard, hydrated,
    hydrated_from_windows, kept_positions, key_is_elsewhere, lemma_each_key_asked_of_its_owner,
    lemma_pruning_keeps_what_matches, matching, plan_search, routed, shard_aggregate,
    shard_request, sorts_by_score, AggregateRequest, AggregateRoute, GatewayRpc, SearchRequest,
    SearchRoute, ShardWrite,
};
use crate::gateway::Gateway;
use crate::query::{is_match, lemma_pins_hold, partition_of, pinned_to, pins, pins_of, Query};
use crate::request_laws::{is_blank_text, lemma_blank};
use crate::status::{Code, Status};

verus! {

/// A search whose partition is routed to a shard goes to that shard and to no other.
pub proof fn lemma_pinned_search_goes_to_its_shard(
    g: Gateway,
    s: u32,
    keeps: Option<&Vec<bool>>,
    at: Vec<usize>,
    i: usize,
)
    requires
        call_ensures(Gateway::target_shards, (&g, Some(s), keeps), at),
        g.windows is None,
        s < g.shards,
    ensures
        at@.len() == 1,
        at@.contains(i) <==> i == s,
{
    assert(at@[0] == s as usize);
}

/// A search that is not routed, or to no shard that there is, goes to every shard without windows,
/// and with windows to those that can match: to all where it is not known which can.
pub proof fn lemma_search_goes_where_it_can_match(
    g: Gateway,
    routed: Option<u32>,
    keeps: Option<&Vec<bool>>,
    at: Vec<usize>,
    i: usize,
)
    requires
        call_ensures(Gateway::target_shards, (&g, routed, keeps), at),
        keeps is Some ==> keeps->0@.len() == g.shards,
        g.windows is Some || routed is None || routed->0 >= g.shards,
    ensures
        at@.contains(i) <==> i < g.shards && (g.windows is Some && keeps is Some
            ==> keeps->0@[i as int]),
        at@.no_duplicates(),
{
    lemma_matching(
        g,
        match keeps {
            Some(k) => Some(k@),
            None => None,
        },
        i,
    );
}

/// A call that is not routed by a key goes to the windows that can match.
pub proof fn lemma_windows_that_match(
    g: Gateway,
    keeps: Option<&Vec<bool>>,
    at: Vec<usize>,
    i: usize,
)
    requires
        call_ensures(Gateway::windows_matching, (&g, keeps), at),
        keeps is Some ==> keeps->0@.len() == g.shards,
    ensures
        at@.contains(i) <==> i < g.shards && (g.windows is Some && keeps is Some
            ==> keeps->0@[i as int]),
        at@.no_duplicates(),
{
    lemma_matching(
        g,
        match keeps {
            Some(k) => Some(k@),
            None => None,
        },
        i,
    );
}

proof fn lemma_matching(g: Gateway, keeps: Option<Seq<bool>>, i: usize)
    requires
        keeps is Some ==> keeps->0.len() == g.shards,
    ensures
        matching(g, keeps).contains(i) <==> i < g.shards && (g.windows is Some && keeps is Some
            ==> keeps->0[i as int]),
        matching(g, keeps).no_duplicates(),
{
    let at = matching(g, keeps);
    if g.windows is Some && keeps is Some {
        lemma_pruning_keeps_what_matches(keeps->0, g.shards as int, i);
        lemma_kept_once(keeps->0, g.shards as int);
    } else if i < g.shards {
        assert(at[i as int] == i);
    }
}

proof fn lemma_kept_once(keeps: Seq<bool>, n: int)
    requires
        0 <= n <= keeps.len() <= usize::MAX,
    ensures
        kept_positions(keeps, n).no_duplicates(),
        forall|k: int| 0 <= k < kept_positions(keeps, n).len() ==> #[trigger] kept_positions(keeps, n)[k] < n,
    decreases n,
{
    if n > 0 {
        lemma_kept_once(keeps, n - 1);
    }
}

/// A search over no shard finds nothing, one over one shard is forwarded, and one over several is
/// merged or collapsed, or refused where its order defines no cursor or no groups.
pub proof fn lemma_search_is_routed(req: SearchRequest, targets: usize, r: Result<SearchRoute, Status>)
    requires
        call_ensures(plan_search, (&req, targets), r),
    ensures
        (r is Ok && r->Ok_0 is Nothing) <==> targets == 0,
        (r is Ok && r->Ok_0 is Forward) <==> targets == 1,
        (r is Ok && r->Ok_0 is Merge) ==> req.collapse@.len() == 0,
        r matches Ok(SearchRoute::Collapse { limit }) ==> req.collapse@.len() > 0 && req.sort@.len()
            > 0 && limit == req.limit,
        r is Err <==> targets > 1 && ((req.collapse@.len() > 0 && req.sort@.len() == 0) || (
        req.search_after@.len() > 0 && (req.sort@.len() == 0 || exists|i: int|
            0 <= i < req.sort@.len() && (#[trigger] req.sort@[i]).field@ == "_score"@))),
        r matches Err(e) ==> e.code == Code::InvalidArgument,
{
    if exists|i: int| 0 <= i < req.sort@.len() && (#[trigger] req.sort@[i]).field@ == "_score"@ {
        assert(sorts_by_score(req.sort@));
    }
}

/// Each shard of a merged search is asked, from its first hit after the cursor on, for as many hits
/// as a page can take from one shard: the offset and the limit together, without the offset where a
/// cursor takes its place, and all where there is no limit.
pub proof fn lemma_shards_are_asked_for_enough(
    req: SearchRequest,
    targets: usize,
    offset: usize,
    limit: usize,
    per_shard_limit: u32,
    asked: SearchRequest,
)
    requires
        call_ensures(
            plan_search,
            (&req, targets),
            Ok::<SearchRoute, Status>(SearchRoute::Merge { offset, limit, per_shard_limit }),
        ),
        call_ensures(
            shard_request,
            (req, SearchRoute::Merge { offset, limit, per_shard_limit }),
            asked,
        ),
    ensures
        limit == req.limit,
        req.search_after@.len() > 0 ==> offset == 0,
        req.search_after@.len() == 0 ==> offset == req.offset,
        req.limit == 0 <==> asked.limit == 0,
        req.limit > 0 && offset + limit <= u32::MAX ==> asked.limit == offset + limit,
        req.limit > 0 && offset + limit > u32::MAX ==> asked.limit == u32::MAX,
        asked.offset == 0,
        asked.search_after@ == req.search_after@,
        asked.sort == req.sort,
        asked.index@ == req.index@,
        asked.collapse@ == req.collapse@,
{
}

/// A search that is forwarded is asked as the caller asked; the shards of a collapsed one are asked
/// for their first groups.
pub proof fn lemma_shards_are_asked_as_the_caller(
    req: SearchRequest,
    limit: usize,
    forwarded: SearchRequest,
    collapsed: SearchRequest,
)
    requires
        call_ensures(shard_request, (req, SearchRoute::Forward), forwarded),
        call_ensures(shard_request, (req, SearchRoute::Collapse { limit }), collapsed),
    ensures
        forwarded.index@ == req.index@ && forwarded.sort == req.sort && forwarded.offset
            == req.offset && forwarded.limit == req.limit && forwarded.search_after@
            == req.search_after@ && forwarded.collapse@ == req.collapse@,
        collapsed.index@ == req.index@ && collapsed.sort == req.sort && collapsed.offset == 0
            && collapsed.limit == req.limit && collapsed.search_after@.len() == 0
            && collapsed.collapse@ == req.collapse@,
{
}

/// Shards that were asked either answered or are missing, and an answer rests on at least one.
pub proof fn lemma_every_shard_is_accounted_for(
    asked: usize,
    answered: usize,
    keys: usize,
    all: Result<u32, Status>,
    found: Result<u32, Status>,
    windows: Result<u32, Status>,
    aggregate: Result<u32, Status>,
)
    requires
        answered <= asked,
        call_ensures(gathered, (asked, answered), all),
        call_ensures(hydrated, (asked, answered), found),
        call_ensures(hydrated_from_windows, (keys, asked, answered), windows),
        call_ensures(aggregated, (asked, answered), aggregate),
    ensures
        all is Err <==> answered == 0,
        found is Err <==> asked > 0 && answered == 0,
        windows is Err <==> keys > 0 && answered == 0,
        aggregate is Err <==> asked > 0 && answered == 0,
        all matches Ok(f) ==> f + answered == asked,
        found matches Ok(f) ==> f + answered == asked,
        windows matches Ok(f) ==> f + answered == asked,
        aggregate matches Ok(f) ==> f + answered == asked,
        all matches Err(e) ==> e.code == Code::Unavailable,
        found matches Err(e) ==> e.code == Code::Unavailable,
        windows matches Err(e) ==> e.code == Code::Unavailable,
        aggregate matches Err(e) ==> e.code == Code::Unavailable,
{
}

/// Every key is asked of the shard that owns it and of no other, each once; a key that could not be
/// read refuses them all.
pub proof fn lemma_keys_go_to_their_owners(
    routes: Vec<Result<u32, String>>,
    shards: usize,
    r: Result<Vec<Vec<usize>>, Status>,
    s: int,
    i: usize,
)
    requires
        call_ensures(group_by_shard, (&routes, shards), r),
        0 <= s < shards,
    ensures
        r is Err <==> exists|k: int| 0 <= k < routes@.len() && #[trigger] routes@[k] is Err,
        r matches Err(e) ==> e.code == Code::InvalidArgument,
        r matches Ok(per_shard) ==> per_shard@.len() == shards,
        r matches Ok(per_shard) ==> (per_shard@[s]@.contains(i) <==> i < routes@.len()
            && routes@[i as int] == Ok::<u32, String>(s as u32) && s <= u32::MAX),
        r matches Ok(per_shard) ==> per_shard@[s]@.no_duplicates(),
{
    assert(routes.len() == routes@.len());
    lemma_malformed(routes@);
    lemma_each_key_asked_of_its_owner(routes@, s, routes@.len() as int, i);
}

proof fn lemma_malformed(routes: Seq<Result<u32, String>>)
    ensures
        first_malformed(routes) is Some <==> exists|k: int|
            0 <= k < routes.len() && #[trigger] routes[k] is Err,
    decreases routes.len(),
{
    if routes.len() > 0 {
        let rest = routes.drop_first();
        lemma_malformed(rest);
        if first_malformed(rest) is Some {
            let k = choose|k: int| 0 <= k < rest.len() && #[trigger] rest[k] is Err;
            assert(routes[k + 1] is Err);
        }
        if exists|k: int| 0 <= k < routes.len() && #[trigger] routes[k] is Err {
            let k = choose|k: int| 0 <= k < routes.len() && #[trigger] routes[k] is Err;
            if k > 0 {
                assert(rest[k - 1] is Err);
            } else {
                assert(routes[0] is Err);
            }
        }
    }
}

/// A document is explained by the shard that its key is routed to, by the only one where there is
/// one; a key that could not be read is refused on several.
pub proof fn lemma_owner_explains(shards: usize, routed: Result<u32, String>, r: Result<usize, Status>)
    requires
        call_ensures(explain_owner, (shards, routed), r),
    ensures
        r is Err <==> shards != 1 && routed is Err,
        r matches Ok(o) ==> (shards == 1 ==> o == 0) && (shards != 1 ==> routed
            == Ok::<u32, String>(o as u32) && o <= u32::MAX),
        r matches Err(e) ==> e.code == Code::InvalidArgument,
{
}

/// Only the error that a key was not found says that it may be in another window.
pub proof fn lemma_only_not_found_is_elsewhere(code: Code, b: bool)
    requires
        call_ensures(key_is_elsewhere, (code,), b),
    ensures
        b <==> code is NotFound,
{
}

/// Each shard of a merged aggregation is asked for the same aggregation, in part.
pub proof fn lemma_aggregation_is_asked_in_part(req: AggregateRequest, asked: AggregateRequest)
    requires
        call_ensures(shard_aggregate, (req,), asked),
    ensures
        asked.partial,
        asked.query@ == req.query@,
        asked.aggs@ == req.aggs@,
        asked.window == 0,
{
}

/// An aggregation is forwarded where there is one shard, and merged where there are more: of nothing
/// where none can match.
pub proof fn lemma_aggregation_is_routed(g: Gateway, targets: Vec<usize>, route: AggregateRoute)
    requires
        call_ensures(Gateway::aggregate_route, (&g, &targets), route),
    ensures
        route is Forward <==> g.shards == 1,
        route is MergeNothing <==> g.shards != 1 && targets@.len() == 0,
{
}

/// An aggregation that is not valid is refused, and so is one that could not be read unless it is
/// blank.
pub proof fn lemma_bad_aggregation_is_refused(
    aggs: &str,
    read: Result<(), String>,
    valid: Result<(), String>,
    r: Result<(), Status>,
)
    requires
        call_ensures(admit_aggs, (aggs, read, valid), r),
    ensures
        valid is Err ==> r is Err,
        valid is Ok && read is Ok ==> r is Ok,
        valid is Ok && read is Err ==> (r is Ok <==> is_blank_text(aggs@)),
        r matches Err(e) ==> e.code == Code::InvalidArgument,
{
    lemma_blank(aggs@);
}

/// A write runs on the only shard, and is refused where there are several.
pub proof fn lemma_writes_need_one_shard(g: Gateway, write: ShardWrite, r: Result<(), Status>)
    requires
        call_ensures(Gateway::only_shard, (&g, write), r),
    ensures
        r is Ok <==> g.shards == 1,
        r matches Err(e) ==> e.code == Code::Unimplemented,
{
}

/// Reads over documents are routed to the shards; what changes or pins a shard is not.
pub proof fn lemma_reads_are_routed(rpc: GatewayRpc, r: Result<(), Status>)
    requires
        call_ensures(routed, (rpc,), r),
    ensures
        r is Ok <==> rpc is Search || rpc is SemanticSearch || rpc is Aggregate || rpc is Explain
            || rpc is Suggest || rpc is GetByKey || rpc is DescribeIndex,
        r matches Err(e) ==> e.code == Code::Unimplemented,
{
}

/// A partition that a query is pruned to has a value for each partition field, in their order, and
/// every document that meets the query holds those values. A windowed index is not pruned, and
/// neither is one without partition fields.
pub proof fn lemma_pruned_partition_holds_every_match(
    g: Gateway,
    query: Option<&Query>,
    p: Vec<(String, String)>,
    met: spec_fn(Query) -> bool,
    holds: spec_fn(Seq<char>, Seq<char>) -> bool,
    i: int,
)
    requires
        call_ensures(Gateway::partition_prune, (&g, query), Some(p)),
        query is Some ==> met(*query->0),
        is_match(met, holds),
        0 <= i < p@.len(),
    ensures
        query is Some,
        g.windows is None,
        p@.len() == g.partition_fields@.len(),
        p@[i].0@ == g.partition_fields@[i]@,
        holds(p@[i].0@, p@[i].1@),
{
    let fields = g.partition_fields.deep_view();
    let ps = pins(*query->0, fields);
    assert(Some(p).deep_view() == Some(p.deep_view()));
    assert(p.deep_view() == partition_of(fields, ps)->0);
    assert(p.deep_view()[i] == (fields[i], pinned_to(ps, fields[i])->0));
    let k = lemma_pin_found(ps, fields[i]);
    lemma_pins_hold(*query->0, fields, met, holds, k);
}

proof fn lemma_pin_found(ps: Seq<(Seq<char>, Seq<char>)>, field: Seq<char>) -> (k: int)
    requires
        pinned_to(ps, field) is Some,
    ensures
        0 <= k < ps.len(),
        ps[k] == (field, pinned_to(ps, field)->0),
    decreases ps.len(),
{
    if ps.last().0 == field {
        ps.len() - 1
    } else {
        lemma_pin_found(ps.drop_last(), field)
    }
}

proof fn lemma_pinned(ps: Seq<(Seq<char>, Seq<char>)>, field: Seq<char>, k: int)
    requires
        0 <= k < ps.len(),
        ps[k].0 == field,
    ensures
        pinned_to(ps, field) is Some,
    decreases ps.len(),
{
    if ps.last().0 != field {
        lemma_pinned(ps.drop_last(), field, k);
    }
}

/// Whether one of the clauses says that `field` holds a value.
pub open spec fn says(clauses: Seq<Query>, field: Seq<char>) -> bool {
    exists|j: int|
        0 <= j < clauses.len() && (#[trigger] clauses[j] matches Query::Term { field: Some(f), value }
            && f@ == field)
}

proof fn lemma_clause_pins(qs: Seq<Query>, n: nat, fields: Seq<Seq<char>>, j: int) -> (k: int)
    requires
        n <= qs.len(),
        0 <= j < n,
        qs[j] is Term,
        qs[j]->field is Some,
        fields.contains(qs[j]->field->0@),
    ensures
        0 <= k < pins_of(qs, n, fields).len(),
        pins_of(qs, n, fields)[k].0 == qs[j]->field->0@,
    decreases n,
{
    let before = pins_of(qs, (n - 1) as nat, fields);
    if j < n - 1 {
        lemma_clause_pins(qs, (n - 1) as nat, fields, j)
    } else {
        let own = pins(qs[n - 1], fields);
        assert(own[0].0 == qs[j]->field->0@);
        assert(pins_of(qs, n, fields)[before.len() as int] == own[0]);
        before.len() as int
    }
}

/// A query is pruned where the clauses that a match must meet name a value for each of the partition
/// fields.
pub proof fn lemma_pinned_query_is_pruned(
    g: Gateway,
    must: Vec<Query>,
    should: Vec<Query>,
    must_not: Vec<Query>,
    filter: Vec<Query>,
    p: Option<Vec<(String, String)>>,
)
    requires
        call_ensures(
            Gateway::partition_prune,
            (&g, Some(&Query::Bool { must, should, must_not, filter })),
            p,
        ),
        g.windows is None,
        g.partition_fields@.len() > 0,
        g.partition_fields.deep_view().no_duplicates(),
        forall|i: int|
            0 <= i < g.partition_fields@.len() ==> says(must@, (#[trigger] g.partition_fields@[i])@)
                || says(filter@, g.partition_fields@[i]@),
    ensures
        p is Some,
{
    let fields = g.partition_fields.deep_view();
    let q = Query::Bool { must, should, must_not, filter };
    let ps = pins(q, fields);
    let a = pins_of(must@, must@.len(), fields);
    let b = pins_of(filter@, filter@.len(), fields);
    assert(ps == a + b);
    assert forall|i: int| 0 <= i < fields.len() implies pinned_to(ps, #[trigger] fields[i]) is Some by {
        assert(fields[i] == g.partition_fields@[i]@);
        assert(fields.contains(fields[i]));
        if says(must@, fields[i]) {
            let j = choose|j: int|
                0 <= j < must@.len() && (#[trigger] must@[j] matches Query::Term {
                    field: Some(f),
                    value,
                } && f@ == fields[i]);
            let k = lemma_clause_pins(must@, must@.len(), fields, j);
            assert(ps[k] == a[k]);
            lemma_pinned(ps, fields[i], k);
        } else {
            let j = choose|j: int|
                0 <= j < filter@.len() && (#[trigger] filter@[j] matches Query::Term {
                    field: Some(f),
                    value,
                } && f@ == fields[i]);
            let k = lemma_clause_pins(filter@, filter@.len(), fields, j);
            assert(ps[a.len() + k] == b[k]);
            lemma_pinned(ps, fields[i], a.len() + k);
        }
    }
    assert(partition_of(fields, ps) is Some);
    assert(p.deep_view() is Some);
}

/// A query of a windowed index, or of one without partition fields, is not pruned; nor is a search
/// without a query.
pub proof fn lemma_unpartitioned_is_not_pruned(
    g: Gateway,
    query: Option<&Query>,
    p: Option<Vec<(String, String)>>,
)
    requires
        call_ensures(Gateway::partition_prune, (&g, query), p),
        g.windows is Some || g.partition_fields@.len() == 0 || query is None,
    ensures
        p is None,
{
    if let Some(v) = p {
        assert(p.deep_view() == Some(v.deep_view()));
    }
}

} // verus!
