//! Which shards a call goes to, what each is asked, and what the answers come to.
use tonic::metadata::MetadataMap;
use vstd::prelude::*;
use vstd::string::*;

use crate::gateway::{guarded, Gateway};
use crate::merge::{
    are_merged, collapse_page, is_collapsed_page, is_page, lemma_page_in_bounds, merge_page,
    merge_suggestions, Group, ShardHit, SortKey, Suggestion,
};
use crate::metadata::contents;
use crate::query::{collect_and_pins, partition_of, pinned_partition, pins, Query};
use crate::status::{plain, Code, Status, StatusView};
use crate::tally::totals_fit;
use crate::text::{append_decimal, decimal, same, trim, trimmed};

verus! {

/// The sort key that stands for the score.
pub const SCORE_SORT_KEY: &'static str = "_score";

/// A search, as far as it is routed and merged by.
#[derive(Debug, Clone)]
pub struct SearchRequest {
    pub index: String,
    pub sort: Vec<SortKey>,
    pub offset: u32,
    pub limit: u32,
    pub search_after: Vec<u8>,
    pub collapse: String,
}

/// How a search is carried out.
#[derive(Debug, Clone, Copy, PartialEq, Eq)]
pub enum SearchRoute {
    /// No shard can match.
    Nothing,
    /// The one shard that can match is asked as the caller asked.
    Forward,
    /// Each shard is asked for its top groups, without offset or cursor.
    Collapse { limit: usize },
    /// Each shard is asked for its first `per_shard_limit` hits, and the window is cut from the
    /// merged ones.
    Merge { offset: usize, limit: usize, per_shard_limit: u32 },
}

/// The message for an index that is not served.
pub open spec fn not_served_text(want: Seq<char>, served: Seq<char>) -> Seq<char> {
    "index `"@ + want + "` is not served by this endpoint (serving `"@ + served + "`)"@
}

/// The refusal of a request for `index`, if it is one that is not served.
pub open spec fn scope_refusal(served: Option<Seq<char>>, index: Seq<char>) -> Option<StatusView> {
    match served {
        Some(s) => if trim(index).len() > 0 && trim(index) != s {
            Some(plain(Code::NotFound, not_served_text(trim(index), s)))
        } else {
            None
        },
        None => None,
    }
}

/// The message for a page that is too large.
pub open spec fn too_large_text(fetch: nat, max: nat) -> Seq<char> {
    "offset+limit ("@ + decimal(fetch) + ") exceeds the maximum page fetch ("@ + decimal(max)
        + "); request a smaller page"@
}

/// `offset + limit`, as far as a machine word goes.
pub open spec fn fetch_of(offset: u32, limit: u32) -> nat {
    if offset + limit > usize::MAX {
        usize::MAX as nat
    } else {
        (offset + limit) as nat
    }
}

/// The refusal of a search before any shard is asked.
pub open spec fn search_refusal(g: Gateway, req: SearchRequest) -> Option<StatusView> {
    let scope = scope_refusal(g.served_index.deep_view(), req.index@);
    let fetch = fetch_of(req.offset, req.limit);
    if scope is Some {
        scope
    } else if 0 < g.limits.max_fetch < fetch {
        Some(plain(Code::InvalidArgument, too_large_text(fetch, g.limits.max_fetch as nat)))
    } else {
        None
    }
}

/// Whether `r` is the refusal, or passes where there is none.
pub open spec fn refuses(r: Result<(), Status>, refusal: Option<StatusView>) -> bool {
    match refusal {
        Some(s) => r matches Err(e) && e@ == s,
        None => r is Ok,
    }
}

/// What comes of a call that is guarded and may then be refused.
pub open spec fn guarded_then(
    g: Gateway,
    method: Seq<char>,
    before: Map<Seq<char>, Seq<u8>>,
    after: Map<Seq<char>, Seq<u8>>,
    r: Result<(), Status>,
    refusal: Option<StatusView>,
) -> bool {
    exists|passed: Result<(), Status>| #[trigger]
        guarded(g, method, before, after, passed) && match passed {
            Err(e) => r == Err::<(), Status>(e),
            Ok(_) => refuses(r, refusal),
        }
}

/// Whether one of the sort keys is the score.
pub open spec fn sorts_by_score(sort: Seq<SortKey>) -> bool {
    exists|i: int| 0 <= i < sort.len() && (#[trigger] sort[i]).field@ == SCORE_SORT_KEY@
}

/// The message for a cursor that no sort defines.
pub open spec fn cursor_text() -> Seq<char> {
    "search_after requires a non-`_score` sort on a multi-shard index: score-ranked keyset paging is unsupported because scores aren't a stable keyset (task-68)."@
}

/// How a search over `targets` shards is carried out.
pub open spec fn route_of(req: SearchRequest, targets: nat) -> Result<SearchRoute, StatusView> {
    let resumes = req.search_after@.len() > 0;
    let offset = if resumes {
        0
    } else {
        req.offset as int
    };
    if targets == 0 {
        Ok(SearchRoute::Nothing)
    } else if targets == 1 {
        Ok(SearchRoute::Forward)
    } else if resumes && (req.sort@.len() == 0 || sorts_by_score(req.sort@)) {
        Err(plain(Code::InvalidArgument, cursor_text()))
    } else if req.collapse@.len() > 0 {
        if req.sort@.len() == 0 {
            Err(
                plain(
                    Code::InvalidArgument,
                    "collapse requires a non-empty sort on a multi-shard index"@,
                ),
            )
        } else {
            Ok(SearchRoute::Collapse { limit: req.limit as usize })
        }
    } else {
        Ok(
            SearchRoute::Merge {
                offset: offset as usize,
                limit: req.limit as usize,
                per_shard_limit: if req.limit == 0 {
                    0
                } else if offset + req.limit > u32::MAX {
                    u32::MAX
                } else {
                    (offset + req.limit) as u32
                },
            },
        )
    }
}

/// The positions below `n` that `keeps` holds of.
pub open spec fn kept_positions(keeps: Seq<bool>, n: int) -> Seq<usize>
    decreases n,
{
    if n <= 0 {
        Seq::empty()
    } else if keeps[n - 1] {
        kept_positions(keeps, n - 1).push((n - 1) as usize)
    } else {
        kept_positions(keeps, n - 1)
    }
}

/// The shards that a query goes to, where `keeps` says of each window whether it can match: all
/// of them, or on a windowed gateway those that can.
pub open spec fn matching(g: Gateway, keeps: Option<Seq<bool>>) -> Seq<usize> {
    match (g.windows, keeps) {
        (Some(_), Some(k)) => kept_positions(k, g.shards as int),
        _ => Seq::new(g.shards as nat, |i: int| i as usize),
    }
}

/// The shards that a search goes to, where its partition is routed to `routed`.
pub open spec fn targets(g: Gateway, routed: Option<u32>, keeps: Option<Seq<bool>>) -> Seq<usize> {
    if g.windows is None && routed is Some && routed->0 < g.shards {
        seq![routed->0 as usize]
    } else {
        matching(g, keeps)
    }
}

fn count_text(before: &str, n: usize, after: &str) -> (m: String)
    ensures
        m@ == before@ + decimal(n as nat) + after@,
{
    let mut m = before.to_owned();
    append_decimal(&mut m, n as u64);
    m.append(after);
    m
}

/// The refusal of a request for the index `want` where `served` is the one that is served.
pub fn not_served(want: &str, served: &str) -> (s: Status)
    ensures
        s@ == plain(Code::NotFound, not_served_text(want@, served@)),
{
    let mut m = "index `".to_owned();
    m.append(want);
    m.append("` is not served by this endpoint (serving `");
    m.append(served);
    m.append("`)");
    Status::new(Code::NotFound, m)
}

impl Gateway {
    /// Refuses a request for an index that is not served.
    pub fn in_scope(&self, index: &str) -> (r: Result<(), Status>)
        ensures
            refuses(r, scope_refusal(self.served_index.deep_view(), index@)),
    {
        match &self.served_index {
            Some(served) => {
                let want = trimmed(index);
                if !want.is_empty() && !same(want, served.as_str()) {
                    return Err(not_served(want, served.as_str()));
                }
                Ok(())
            },
            None => Ok(()),
        }
    }

    fn in_bounds(&self, req: &SearchRequest) -> (r: Result<(), Status>)
        ensures
            refuses(r, search_refusal(*self, *req)),
    {
        match self.in_scope(req.index.as_str()) {
            Err(e) => return Err(e),
            Ok(_) => {},
        }
        let fetch: usize = (req.offset as usize).saturating_add(req.limit as usize);
        if self.limits.max_fetch > 0 && fetch > self.limits.max_fetch {
            let mut m = count_text("offset+limit (", fetch, ") exceeds the maximum page fetch (");
            append_decimal(&mut m, self.limits.max_fetch as u64);
            m.append("); request a smaller page");
            return Err(Status::new(Code::InvalidArgument, m));
        }
        Ok(())
    }

    /// Admits a search: it is guarded, it must be for the index that is served, and its page must
    /// not be too large.
    pub fn admit_search(&self, req: &SearchRequest, md: &mut MetadataMap) -> (r: Result<(), Status>)
        ensures
            guarded_then(
                *self,
                "Search"@,
                contents(*old(md)),
                contents(*final(md)),
                r,
                search_refusal(*self, *req),
            ),
    {
        let passed = self.guard("Search", md);
        assert(guarded(*self, "Search"@, contents(*old(md)), contents(*md), passed));
        match passed {
            Err(e) => Err(e),
            Ok(_) => self.in_bounds(req),
        }
    }

    /// The partition that a query stays in, where it pins every partition field; none where the
    /// query could not be read, where the index is not partitioned or where it is windowed.
    pub fn partition_prune(&self, query: Option<&Query>) -> (p: Option<Vec<(String, String)>>)
        ensures
            p.deep_view() == (if self.windows is None && self.partition_fields@.len() > 0
                && query is Some {
                partition_of(
                    self.partition_fields.deep_view(),
                    pins(*query->0, self.partition_fields.deep_view()),
                )
            } else {
                None
            }),
    {
        if let Some(_) = self.windows {
            return None;
        }
        if self.partition_fields.len() == 0 {
            return None;
        }
        match query {
            None => None,
            Some(q) => {
                let mut ps: Vec<(String, String)> = Vec::new();
                assert(ps.deep_view() =~= Seq::empty());
                collect_and_pins(q, &self.partition_fields, &mut ps);
                assert(ps.deep_view() =~= pins(*q, self.partition_fields.deep_view()));
                pinned_partition(&self.partition_fields, &ps)
            },
        }
    }

    /// The shards that a query goes to. `keeps` says of each window whether it can match; it is
    /// none where the query could not be read.
    pub fn windows_matching(&self, keeps: Option<&Vec<bool>>) -> (at: Vec<usize>)
        requires
            self.wf(),
            keeps is Some ==> keeps->0@.len() == self.shards,
        ensures
            at@ == matching(
                *self,
                match keeps {
                    Some(k) => Some(k@),
                    None => None,
                },
            ),
    {
        let mut at: Vec<usize> = Vec::new();
        let mut i: usize = 0;
        if let Some(_) = self.windows {
            if let Some(k) = keeps {
                while i < self.shards
                    invariant
                        i <= self.shards,
                        k@.len() == self.shards,
                        at@ == kept_positions(k@, i as int),
                    decreases self.shards - i,
                {
                    if k[i] {
                        at.push(i);
                    }
                    i = i + 1;
                }
                return at;
            }
        }
        while i < self.shards
            invariant
                i <= self.shards,
                at@ == Seq::new(i as nat, |i: int| i as usize),
            decreases self.shards - i,
        {
            at.push(i);
            assert(at@ =~= Seq::new((i + 1) as nat, |i: int| i as usize));
            i = i + 1;
        }
        at
    }

    /// The shards that a search goes to: the one that its partition is routed to, else those
    /// that can match.
    pub fn target_shards(&self, routed: Option<u32>, keeps: Option<&Vec<bool>>) -> (at: Vec<usize>)
        requires
            self.wf(),
            keeps is Some ==> keeps->0@.len() == self.shards,
        ensures
            at@ == targets(
                *self,
                routed,
                match keeps {
                    Some(k) => Some(k@),
                    None => None,
                },
            ),
    {
        if let (None, Some(ord)) = (&self.windows, routed) {
            if (ord as u64) < (self.shards as u64) {
                let mut one: Vec<usize> = Vec::new();
                one.push(ord as usize);
                assert(one@ =~= seq![ord as usize]);
                return one;
            }
        }
        self.windows_matching(keeps)
    }
}

fn scores(sort: &Vec<SortKey>) -> (b: bool)
    ensures
        b == sorts_by_score(sort@),
{
    let mut i: usize = 0;
    while i < sort.len()
        invariant
            i <= sort@.len(),
            forall|k: int| 0 <= k < i ==> (#[trigger] sort@[k]).field@ != SCORE_SORT_KEY@,
        decreases sort@.len() - i,
    {
        if same(sort[i].field.as_str(), SCORE_SORT_KEY) {
            return true;
        }
        i = i + 1;
    }
    false
}

/// How a search over `targets` shards is carried out.
pub fn plan_search(req: &SearchRequest, targets: usize) -> (r: Result<SearchRoute, Status>)
    ensures
        match route_of(*req, targets as nat) {
            Ok(route) => r == Ok::<SearchRoute, Status>(route),
            Err(s) => r matches Err(e) && e@ == s,
        },
{
    if targets == 0 {
        return Ok(SearchRoute::Nothing);
    }
    if targets == 1 {
        return Ok(SearchRoute::Forward);
    }
    let resumes = req.search_after.len() > 0;
    if resumes && (req.sort.len() == 0 || scores(&req.sort)) {
        return Err(
            Status::fixed(
                Code::InvalidArgument,
                "search_after requires a non-`_score` sort on a multi-shard index: score-ranked keyset paging is unsupported because scores aren't a stable keyset (task-68).",
            ),
        );
    }
    if !req.collapse.as_str().is_empty() {
        if req.sort.len() == 0 {
            return Err(
                Status::fixed(
                    Code::InvalidArgument,
                    "collapse requires a non-empty sort on a multi-shard index",
                ),
            );
        }
        return Ok(SearchRoute::Collapse { limit: req.limit as usize });
    }
    let offset: u32 = if resumes {
        0
    } else {
        req.offset
    };
    let per_shard_limit: u32 = if req.limit == 0 {
        0
    } else {
        offset.saturating_add(req.limit)
    };
    Ok(
        SearchRoute::Merge {
            offset: offset as usize,
            limit: req.limit as usize,
            per_shard_limit,
        },
    )
}

/// Whether `asked` asks a shard for its part of `req` by `route`: what is sorted, collapsed and
/// searched for stays; the window is the shard's own, and only a merge passes the cursor on.
pub open spec fn asks_shard(asked: SearchRequest, req: SearchRequest, route: SearchRoute) -> bool {
    &&& asked.index@ == req.index@
    &&& asked.sort == req.sort
    &&& asked.collapse@ == req.collapse@
    &&& match route {
        SearchRoute::Nothing | SearchRoute::Forward => asked.offset == req.offset && asked.limit
            == req.limit && asked.search_after@ == req.search_after@,
        SearchRoute::Collapse { .. } => asked.offset == 0 && asked.limit == req.limit
            && asked.search_after@.len() == 0,
        SearchRoute::Merge { per_shard_limit, .. } => asked.offset == 0 && asked.limit
            == per_shard_limit && asked.search_after@ == req.search_after@,
    }
}

/// What each shard is asked for, where the search is carried out by `route`.
pub fn shard_request(req: SearchRequest, route: SearchRoute) -> (asked: SearchRequest)
    ensures
        asks_shard(asked, req, route),
{
    let mut asked = req;
    match route {
        SearchRoute::Nothing | SearchRoute::Forward => {},
        SearchRoute::Collapse { .. } => {
            asked.offset = 0;
            asked.search_after = Vec::new();
        },
        SearchRoute::Merge { per_shard_limit, .. } => {
            asked.offset = 0;
            asked.limit = per_shard_limit;
        },
    }
    asked
}

/// The message for a call that no shard answered.
pub open spec fn silence_text(asked: nat) -> Seq<char> {
    "all "@ + decimal(asked) + " shards failed to respond"@
}

/// How many of the `asked` shards did not answer. Where none did, that is an error and not an
/// empty answer.
pub fn gathered(asked: usize, answered: usize) -> (r: Result<u32, Status>)
    requires
        answered <= asked <= u32::MAX,
    ensures
        match r {
            Ok(failed) => answered > 0 && failed == asked - answered,
            Err(e) => answered == 0 && e@ == plain(Code::Unavailable, silence_text(asked as nat)),
        },
{
    if answered == 0 {
        return Err(
            Status::new(
                Code::Unavailable,
                count_text("all ", asked, " shards failed to respond"),
            ),
        );
    }
    Ok((asked - answered) as u32)
}

/// The sum of counts.
pub open spec fn sum(counts: Seq<u64>) -> nat
    decreases counts.len(),
{
    if counts.len() == 0 {
        0
    } else {
        sum(counts.drop_last()) + counts.last() as nat
    }
}

proof fn lemma_sum_grows(counts: Seq<u64>, n: int)
    requires
        0 <= n <= counts.len(),
    ensures
        sum(counts.take(n)) <= sum(counts),
    decreases counts.len() - n,
{
    if n < counts.len() {
        lemma_sum_grows(counts, n + 1);
        assert(counts.take(n + 1).drop_last() =~= counts.take(n));
    } else {
        assert(counts.take(n) =~= counts);
    }
}

fn sum_of(counts: &Vec<u64>) -> (s: u64)
    requires
        sum(counts@) <= u64::MAX,
    ensures
        s == sum(counts@),
{
    let mut s: u64 = 0;
    let mut i: usize = 0;
    assert(counts@.take(0) =~= Seq::empty());
    while i < counts.len()
        invariant
            i <= counts@.len(),
            sum(counts@) <= u64::MAX,
            s == sum(counts@.take(i as int)),
        decreases counts@.len() - i,
    {
        proof {
            lemma_sum_grows(counts@, i + 1);
            assert(counts@.take(i + 1).drop_last() =~= counts@.take(i as int));
        }
        s = s + counts[i];
        i = i + 1;
    }
    assert(counts@.take(counts@.len() as int) =~= counts@);
    s
}

/// A page that was merged from the shards' answers, its hits given by position.
#[derive(Debug)]
pub struct MergedPage {
    pub picks: Vec<usize>,
    /// How many documents match on all shards that answered.
    pub total: u64,
    /// The hit that the next page resumes after.
    pub cursor_after: Option<usize>,
    /// Whether a shard did not answer.
    pub partial: bool,
    /// How many shards were asked.
    pub shards_scanned: u32,
    /// How many shards there are.
    pub shards_total: u32,
}

/// The hit that the next page resumes after: the last one of a full page of a search whose sort
/// defines a position, where that hit has a key.
pub open spec fn cursor_of(
    hits: Seq<ShardHit>,
    sort: Seq<SortKey>,
    limit: nat,
    picks: Seq<usize>,
) -> Option<usize> {
    if sort.len() > 0 && !sorts_by_score(sort) && limit > 0 && picks.len() == limit
        && hits[picks.last() as int].key is Some {
        Some(picks.last())
    } else {
        None
    }
}

/// A collapsed page that was merged from the shards' answers.
#[derive(Debug)]
pub struct CollapsedPage {
    pub groups: Vec<Group>,
    pub total: u64,
    pub partial: bool,
    pub shards_scanned: u32,
    pub shards_total: u32,
}

/// How many shards an answer rests on, and how many there are.
#[derive(Debug, Clone, Copy, PartialEq, Eq, Structural)]
pub struct ShardsScanned {
    pub scanned: u32,
    pub total: u32,
}

impl Gateway {
    /// The page of a search that no shard can match.
    pub fn nothing_found(&self) -> (page: MergedPage)
        requires
            self.wf(),
        ensures
            page.picks@.len() == 0,
            page.total == 0,
            page.cursor_after is None,
            !page.partial,
            page.shards_scanned == 0,
            page.shards_total == self.shards,
    {
        MergedPage {
            picks: Vec::new(),
            total: 0,
            cursor_after: None,
            partial: false,
            shards_scanned: 0,
            shards_total: self.shards as u32,
        }
    }

    /// Whether a call is forwarded to the only shard, which answers it as the caller asked.
    pub fn forwards(&self) -> (b: bool)
        ensures
            b == (self.shards == 1),
    {
        self.shards == 1
    }

    /// What an answer rests on that one shard gave.
    pub fn one_scanned(&self) -> (s: ShardsScanned)
        requires
            self.wf(),
        ensures
            s == (ShardsScanned { scanned: 1, total: self.shards as u32 }),
    {
        ShardsScanned { scanned: 1, total: self.shards as u32 }
    }

    /// Merges the answers to a search that `asked` shards were asked: the hits of all that
    /// answered, and the number of matches that each counted.
    pub fn merge_search(
        &self,
        hits: &Vec<ShardHit>,
        totals: &Vec<u64>,
        asked: usize,
        sort: &Vec<SortKey>,
        offset: usize,
        limit: usize,
    ) -> (r: Result<MergedPage, Status>)
        requires
            self.wf(),
            totals@.len() <= asked <= u32::MAX,
            sum(totals@) <= u64::MAX,
        ensures
            match r {
                Ok(page) => {
                    &&& totals@.len() > 0
                    &&& is_page(page.picks@, hits@, sort@, offset as nat, limit as nat)
                    &&& page.total == sum(totals@)
                    &&& page.cursor_after == cursor_of(hits@, sort@, limit as nat, page.picks@)
                    &&& page.partial == (totals@.len() < asked)
                    &&& page.shards_scanned == asked
                    &&& page.shards_total == self.shards
                },
                Err(e) => totals@.len() == 0 && e@ == plain(
                    Code::Unavailable,
                    silence_text(asked as nat),
                ),
            },
    {
        let failed: u32 = match gathered(asked, totals.len()) {
            Ok(f) => f,
            Err(e) => return Err(e),
        };
        let picks = merge_page(hits, sort, offset, limit);
        let mut cursor_after: Option<usize> = None;
        if sort.len() > 0 && !scores(sort) && limit > 0 && picks.len() == limit {
            let last: usize = picks[picks.len() - 1];
            proof {
                lemma_page_in_bounds(picks@, hits@, sort@, offset as nat, limit as nat);
            }
            if let Some(_) = hits[last].key {
                cursor_after = Some(last);
            }
        }
        Ok(
            MergedPage {
                picks,
                total: sum_of(totals),
                cursor_after,
                partial: failed > 0,
                shards_scanned: asked as u32,
                shards_total: self.shards as u32,
            },
        )
    }

    /// Merges the answers of `answered` of the `asked` shards to a collapsed search.
    pub fn merge_collapsed(
        &self,
        hits: &Vec<ShardHit>,
        answered: usize,
        asked: usize,
        sort: &Vec<SortKey>,
        limit: usize,
    ) -> (r: Result<CollapsedPage, Status>)
        requires
            self.wf(),
            answered <= asked <= u32::MAX,
            totals_fit(hits@),
        ensures
            match r {
                Ok(page) => {
                    &&& answered > 0
                    &&& is_collapsed_page(page.groups@, hits@, sort@, limit as nat)
                    &&& page.total == page.groups@.len()
                    &&& page.partial == (answered < asked)
                    &&& page.shards_scanned == asked
                    &&& page.shards_total == self.shards
                },
                Err(e) => answered == 0 && e@ == plain(
                    Code::Unavailable,
                    silence_text(asked as nat),
                ),
            },
    {
        let failed: u32 = match gathered(asked, answered) {
            Ok(f) => f,
            Err(e) => return Err(e),
        };
        let groups = collapse_page(hits, sort, limit);
        let total: u64 = groups.len() as u64;
        Ok(
            CollapsedPage {
                groups,
                total,
                partial: failed > 0,
                shards_scanned: asked as u32,
                shards_total: self.shards as u32,
            },
        )
    }
}

/// Merged suggestions, and how many shards did not answer.
#[derive(Debug)]
pub struct SuggestResponse {
    pub suggestions: Vec<Suggestion>,
    pub failed_shards: u32,
}

/// Merges the suggestions of `answered` of the `asked` shards.
pub fn merge_suggest(given: &Vec<Suggestion>, answered: usize, asked: usize, limit: u32) -> (r: Result<
    SuggestResponse,
    Status,
>)
    requires
        answered <= asked <= u32::MAX,
        totals_fit(given@),
    ensures
        match r {
            Ok(out) => {
                &&& answered > 0
                &&& are_merged(out.suggestions@, given@, limit as nat)
                &&& out.failed_shards == asked - answered
            },
            Err(e) => answered == 0 && e@ == plain(Code::Unavailable, silence_text(asked as nat)),
        },
{
    let failed_shards: u32 = match gathered(asked, answered) {
        Ok(f) => f,
        Err(e) => return Err(e),
    };
    Ok(SuggestResponse { suggestions: merge_suggestions(given, limit as usize), failed_shards })
}

/// The message for a key that could not be read.
pub open spec fn malformed_text(detail: Seq<char>) -> Seq<char> {
    "malformed key coordinate: "@ + detail
}

fn malformed(detail: &str) -> (s: Status)
    ensures
        s@ == plain(Code::InvalidArgument, malformed_text(detail@)),
{
    let mut m = "malformed key coordinate: ".to_owned();
    m.append(detail);
    Status::new(Code::InvalidArgument, m)
}

/// The first key that could not be read.
pub open spec fn first_malformed(routes: Seq<Result<u32, String>>) -> Option<Seq<char>>
    decreases routes.len(),
{
    if routes.len() == 0 {
        None
    } else {
        match routes[0] {
            Err(e) => Some(e@),
            Ok(_) => first_malformed(routes.drop_first()),
        }
    }
}

/// The keys among the first `n` that `shard` owns.
pub open spec fn owned_keys(routes: Seq<Result<u32, String>>, shard: int, n: int) -> Seq<usize>
    decreases n,
{
    if n <= 0 {
        Seq::empty()
    } else {
        let before = owned_keys(routes, shard, n - 1);
        if routes[n - 1] matches Ok(s) && s == shard {
            before.push((n - 1) as usize)
        } else {
            before
        }
    }
}

proof fn lemma_first_malformed(routes: Seq<Result<u32, String>>, n: int)
    requires
        0 <= n <= routes.len(),
        forall|k: int| 0 <= k < n ==> #[trigger] routes[k] is Ok,
    ensures
        n == routes.len() ==> first_malformed(routes) is None,
        n < routes.len() && routes[n] is Err ==> first_malformed(routes) == Some(
            routes[n]->Err_0@,
        ),
    decreases n,
{
    if n > 0 {
        let rest = routes.drop_first();
        assert(routes[0] is Ok);
        assert forall|k: int| 0 <= k < n - 1 implies #[trigger] rest[k] is Ok by {
            assert(routes[k + 1] is Ok);
        }
        lemma_first_malformed(rest, n - 1);
    }
}

/// The keys that each shard owns, where `routes` gives the owner of each key or says why it could
/// not be read. A key that could not be read is an error, whatever the others are.
pub fn group_by_shard(routes: &Vec<Result<u32, String>>, shards: usize) -> (r: Result<
    Vec<Vec<usize>>,
    Status,
>)
    requires
        forall|i: int|
            0 <= i < routes@.len() ==> (#[trigger] routes@[i] matches Ok(s) ==> s < shards),
    ensures
        match first_malformed(routes@) {
            Some(detail) => r matches Err(e) && e@ == plain(
                Code::InvalidArgument,
                malformed_text(detail),
            ),
            None => r matches Ok(per_shard) && per_shard@.len() == shards && forall|s: int|
                0 <= s < shards ==> (#[trigger] per_shard@[s])@ == owned_keys(
                    routes@,
                    s,
                    routes@.len() as int,
                ),
        },
{
    let mut per_shard: Vec<Vec<usize>> = Vec::new();
    let mut s: usize = 0;
    while s < shards
        invariant
            s <= shards,
            per_shard@.len() == s,
            forall|k: int| 0 <= k < s ==> (#[trigger] per_shard@[k])@ == owned_keys(routes@, k, 0),
        decreases shards - s,
    {
        per_shard.push(Vec::new());
        s = s + 1;
    }
    let n: usize = routes.len();
    let mut i: usize = 0;
    while i < n
        invariant
            n == routes@.len(),
            i <= n,
            per_shard@.len() == shards,
            forall|i: int|
                0 <= i < routes@.len() ==> (#[trigger] routes@[i] matches Ok(s) ==> s < shards),
            forall|k: int| 0 <= k < i ==> #[trigger] routes@[k] is Ok,
            forall|k: int|
                0 <= k < shards ==> (#[trigger] per_shard@[k])@ == owned_keys(
                    routes@,
                    k,
                    i as int,
                ),
        decreases n - i,
    {
        match &routes[i] {
            Err(e) => {
                proof {
                    lemma_first_malformed(routes@, i as int);
                }
                return Err(malformed(e.as_str()));
            },
            Ok(shard) => {
                let shard: usize = *shard as usize;
                assert(routes@[i as int] == Ok::<u32, String>(shard as u32));
                let ghost was = per_shard@;
                per_shard[shard].push(i);
                assert forall|k: int| 0 <= k < shards implies (#[trigger] per_shard@[k])@
                    == owned_keys(routes@, k, i + 1) by {
                    assert(was[k]@ == owned_keys(routes@, k, i as int));
                }
            },
        }
        i = i + 1;
    }
    proof {
        lemma_first_malformed(routes@, n as int);
    }
    Ok(per_shard)
}

/// The owner of the document that is to be explained: the only shard, or the one that its key is
/// routed to.
pub fn explain_owner(shards: usize, routed: Result<u32, String>) -> (r: Result<usize, Status>)
    requires
        routed matches Ok(s) ==> s < shards,
    ensures
        match r {
            Ok(owner) => if shards == 1 {
                owner == 0
            } else {
                routed matches Ok(s) && owner == s
            },
            Err(e) => shards != 1 && (routed matches Err(detail) && e@ == plain(
                Code::InvalidArgument,
                malformed_text(detail@),
            )),
        },
{
    if shards == 1 {
        return Ok(0);
    }
    match routed {
        Ok(s) => Ok(s as usize),
        Err(e) => Err(malformed(e.as_str())),
    }
}

/// How many of the shards that were asked for keys did not answer; an error where none of them
/// did.
pub fn hydrated(asked: usize, answered: usize) -> (r: Result<u32, Status>)
    requires
        answered <= asked <= u32::MAX,
    ensures
        match r {
            Ok(failed) => (asked == 0 || answered > 0) && failed == asked - answered,
            Err(e) => asked > 0 && answered == 0 && e@ == plain(
                Code::Unavailable,
                "all "@ + decimal(asked as nat)
                    + " shards holding requested keys failed to respond"@,
            ),
        },
{
    if asked > 0 && answered == 0 {
        return Err(
            Status::new(
                Code::Unavailable,
                count_text("all ", asked, " shards holding requested keys failed to respond"),
            ),
        );
    }
    Ok((asked - answered) as u32)
}

/// The same over the windows of a windowed index, all of which are asked for all `keys` keys.
pub fn hydrated_from_windows(keys: usize, asked: usize, answered: usize) -> (r: Result<u32, Status>)
    requires
        answered <= asked <= u32::MAX,
    ensures
        match r {
            Ok(failed) => (keys == 0 || answered > 0) && failed == asked - answered,
            Err(e) => keys > 0 && answered == 0 && e@ == plain(
                Code::Unavailable,
                "all "@ + decimal(asked as nat) + " windows failed to respond to the hydration"@,
            ),
        },
{
    if keys > 0 && answered == 0 {
        return Err(
            Status::new(
                Code::Unavailable,
                count_text("all ", asked, " windows failed to respond to the hydration"),
            ),
        );
    }
    Ok((asked - answered) as u32)
}

/// Whether the error of a window that was asked for a key only says that the key is in another
/// window.
pub fn key_is_elsewhere(code: Code) -> (b: bool)
    ensures
        b == (code == Code::NotFound),
{
    code == Code::NotFound
}

impl Gateway {
    /// Admits an explanation: it is guarded, it must be for the index that is served, and it
    /// must name a document.
    pub fn admit_explain(&self, index: &str, has_coordinates: bool, md: &mut MetadataMap) -> (r:
        Result<(), Status>)
        ensures
            guarded_then(
                *self,
                "Search"@,
                contents(*old(md)),
                contents(*final(md)),
                r,
                match scope_refusal(self.served_index.deep_view(), index@) {
                    Some(s) => Some(s),
                    None => if has_coordinates {
                        None
                    } else {
                        Some(
                            plain(
                                Code::InvalidArgument,
                                "explain requires a document coordinate"@,
                            ),
                        )
                    },
                },
            ),
    {
        let passed = self.guard("Search", md);
        assert(guarded(*self, "Search"@, contents(*old(md)), contents(*md), passed));
        match passed {
            Err(e) => return Err(e),
            Ok(_) => {},
        }
        match self.in_scope(index) {
            Err(e) => return Err(e),
            Ok(_) => {},
        }
        if !has_coordinates {
            return Err(
                Status::fixed(Code::InvalidArgument, "explain requires a document coordinate"),
            );
        }
        Ok(())
    }

    /// How an aggregation over the shards `targets` is carried out.
    pub fn aggregate_route(&self, targets: &Vec<usize>) -> (route: AggregateRoute)
        ensures
            route == (if self.shards == 1 {
                AggregateRoute::Forward
            } else if targets@.len() == 0 {
                AggregateRoute::MergeNothing
            } else {
                AggregateRoute::MergePartials
            }),
    {
        if self.shards == 1 {
            AggregateRoute::Forward
        } else if targets.len() == 0 {
            AggregateRoute::MergeNothing
        } else {
            AggregateRoute::MergePartials
        }
    }

    /// Refuses a write on a gateway over several shards: each shard's node is to be asked.
    pub fn only_shard(&self, write: ShardWrite) -> (r: Result<(), Status>)
        ensures
            refuses(
                r,
                if self.shards == 1 {
                    None
                } else {
                    Some(plain(Code::Unimplemented, several_shards_text(write, self.shards as nat)))
                },
            ),
    {
        if self.shards == 1 {
            return Ok(());
        }
        let n: usize = self.shards;
        let m = match write {
            ShardWrite::Reindex => count_text(
                "reindex over a ",
                n,
                "-shard gateway is not supported; reindex each shard's Node directly (distributed reindex orchestration is future work)",
            ),
            ShardWrite::Alter => count_text(
                "alter over a ",
                n,
                "-shard gateway is not supported; alter each shard's Node directly (distributed alter orchestration is future work)",
            ),
            ShardWrite::Compact => count_text(
                "compact over a ",
                n,
                "-shard gateway is not supported; compact each shard's Node directly",
            ),
            ShardWrite::Backup => count_text(
                "backup over a ",
                n,
                "-shard gateway is not supported; back up each shard's Node directly",
            ),
        };
        Err(Status::new(Code::Unimplemented, m))
    }
}

/// How an aggregation is carried out.
#[derive(Debug, Clone, Copy, PartialEq, Eq)]
pub enum AggregateRoute {
    /// The only shard is asked as the caller asked.
    Forward,
    /// No shard can match: the result is that over no document.
    MergeNothing,
    /// Each shard is asked for its partial result.
    MergePartials,
}

/// An aggregation, as a shard is asked for it.
#[derive(Debug)]
pub struct AggregateRequest {
    pub query: Vec<u8>,
    /// What is aggregated, as JSON text.
    pub aggs: String,
    /// Whether the partial result is asked for, that can be merged with others.
    pub partial: bool,
    pub window: i64,
}

/// What each shard is asked for where partial results are merged: the same aggregation, in part.
pub fn shard_aggregate(req: AggregateRequest) -> (asked: AggregateRequest)
    ensures
        asked == (AggregateRequest { partial: true, window: 0, ..req }),
{
    AggregateRequest { query: req.query, aggs: req.aggs, partial: true, window: 0 }
}

/// Whether nothing is to be aggregated: the text is blank, and is not read as JSON.
pub fn aggregates_nothing(aggs: &str) -> (b: bool)
    ensures
        b == (trim(aggs@).len() == 0),
{
    trimmed(aggs).is_empty()
}

/// The refusal of an aggregation, where `read` says whether its text could be read and `valid`
/// whether what it says is valid; a blank text need not be read.
pub open spec fn aggs_refusal(
    aggs: Seq<char>,
    read: Result<(), String>,
    valid: Result<(), String>,
) -> Option<StatusView> {
    if trim(aggs).len() > 0 && read is Err {
        Some(plain(Code::InvalidArgument, "aggs: "@ + read->Err_0@))
    } else if let Err(why) = valid {
        Some(plain(Code::InvalidArgument, why@))
    } else {
        None
    }
}

/// Refuses an aggregation that could not be read or is not valid.
pub fn admit_aggs(aggs: &str, read: Result<(), String>, valid: Result<(), String>) -> (r: Result<
    (),
    Status,
>)
    ensures
        refuses(r, aggs_refusal(aggs@, read, valid)),
{
    if !aggregates_nothing(aggs) {
        if let Err(why) = read {
            let mut m = "aggs: ".to_owned();
            m.append(why.as_str());
            return Err(Status::new(Code::InvalidArgument, m));
        }
    }
    match valid {
        Err(why) => Err(Status::new(Code::InvalidArgument, why)),
        Ok(_) => Ok(()),
    }
}

/// How many shards an aggregation does without, where `answered` of the `asked` ones answered. Where
/// no shard can match, none is missing; where none of those asked answered, that is an error and
/// not an empty result.
pub fn aggregated(asked: usize, answered: usize) -> (r: Result<u32, Status>)
    requires
        answered <= asked <= u32::MAX,
    ensures
        match r {
            Ok(failed) => (asked == 0 || answered > 0) && failed == asked - answered,
            Err(e) => asked > 0 && answered == 0 && e@ == plain(
                Code::Unavailable,
                silence_text(asked as nat),
            ),
        },
{
    if asked == 0 {
        return Ok(0);
    }
    gathered(asked, answered)
}

/// What the gateway adds to an explanation.
#[derive(Debug, Clone, Copy, PartialEq, Eq, Structural)]
pub struct Explained {
    pub shards: ShardsScanned,
    /// How long looking the document up took, in microseconds; 0 where that failed.
    pub hydration_us: u64,
}

impl Gateway {
    /// What the gateway adds to the explanation of the one shard that owns the document, where
    /// looking it up took `elapsed_us`.
    pub fn explained(&self, hydrated: bool, elapsed_us: u64) -> (e: Explained)
        requires
            self.wf(),
        ensures
            e.shards == (ShardsScanned { scanned: 1, total: self.shards as u32 }),
            e.hydration_us == (if hydrated {
                elapsed_us
            } else {
                0
            }),
    {
        Explained {
            shards: self.one_scanned(),
            hydration_us: if hydrated {
                elapsed_us
            } else {
                0
            },
        }
    }
}

/// A write that runs on one shard's node.
#[derive(Debug, Clone, Copy, PartialEq, Eq)]
pub enum ShardWrite {
    Reindex,
    Alter,
    Compact,
    Backup,
}

/// The message for a write that a gateway over several shards refuses.
pub open spec fn several_shards_text(write: ShardWrite, shards: nat) -> Seq<char> {
    match write {
        ShardWrite::Reindex => "reindex over a "@ + decimal(shards)
            + "-shard gateway is not supported; reindex each shard's Node directly (distributed reindex orchestration is future work)"@,
        ShardWrite::Alter => "alter over a "@ + decimal(shards)
            + "-shard gateway is not supported; alter each shard's Node directly (distributed alter orchestration is future work)"@,
        ShardWrite::Compact => "compact over a "@ + decimal(shards)
            + "-shard gateway is not supported; compact each shard's Node directly"@,
        ShardWrite::Backup => "backup over a "@ + decimal(shards)
            + "-shard gateway is not supported; back up each shard's Node directly"@,
    }
}

/// The RPCs that a gateway's gRPC face has.
#[derive(Debug, Clone, Copy, PartialEq, Eq)]
pub enum GatewayRpc {
    Search,
    SemanticSearch,
    OpenPit,
    ClosePit,
    Export,
    Aggregate,
    Explain,
    Suggest,
    GetByKey,
    DescribeIndex,
    AlterIndex,
    ReindexIndex,
    ReconcileIndex,
    CompactIndex,
    BackupIndex,
    BackupStatus,
}

/// The name under which an RPC is refused; none where it is routed to the shards.
pub open spec fn refused_as(rpc: GatewayRpc) -> Option<Seq<char>> {
    match rpc {
        GatewayRpc::OpenPit => Some("OpenPit"@),
        GatewayRpc::ClosePit => Some("ClosePit"@),
        GatewayRpc::Export => Some("Export"@),
        GatewayRpc::AlterIndex => Some("AlterIndex"@),
        GatewayRpc::ReindexIndex => Some("ReindexIndex"@),
        GatewayRpc::ReconcileIndex => Some("ReconcileIndex"@),
        GatewayRpc::CompactIndex => Some("CompactIndex"@),
        GatewayRpc::BackupIndex => Some("BackupIndex"@),
        GatewayRpc::BackupStatus => Some("BackupStatus"@),
        _ => None,
    }
}

/// The message for an RPC that is not routed.
pub open spec fn not_routed_text(what: Seq<char>) -> Seq<char> {
    what
        + " is not routed through the Gateway yet — call the Node directly (cross-shard routing lands later; admin mutations are Node/Control-Plane)"@
}

fn not_routed(what: &str) -> (s: Status)
    ensures
        s@ == plain(Code::Unimplemented, not_routed_text(what@)),
{
    let mut m = what.to_owned();
    m.append(
        " is not routed through the Gateway yet — call the Node directly (cross-shard routing lands later; admin mutations are Node/Control-Plane)",
    );
    Status::new(Code::Unimplemented, m)
}

/// Refuses an RPC that the gateway does not route to the shards.
pub fn routed(rpc: GatewayRpc) -> (r: Result<(), Status>)
    ensures
        refuses(
            r,
            match refused_as(rpc) {
                Some(what) => Some(plain(Code::Unimplemented, not_routed_text(what))),
                None => None,
            },
        ),
{
    match rpc {
        GatewayRpc::OpenPit => Err(not_routed("OpenPit")),
        GatewayRpc::ClosePit => Err(not_routed("ClosePit")),
        GatewayRpc::Export => Err(not_routed("Export")),
        GatewayRpc::AlterIndex => Err(not_routed("AlterIndex")),
        GatewayRpc::ReindexIndex => Err(not_routed("ReindexIndex")),
        GatewayRpc::ReconcileIndex => Err(not_routed("ReconcileIndex")),
        GatewayRpc::CompactIndex => Err(not_routed("CompactIndex")),
        GatewayRpc::BackupIndex => Err(not_routed("BackupIndex")),
        GatewayRpc::BackupStatus => Err(not_routed("BackupStatus")),
        GatewayRpc::Search
        | GatewayRpc::SemanticSearch
        | GatewayRpc::Aggregate
        | GatewayRpc::Explain
        | GatewayRpc::Suggest
        | GatewayRpc::GetByKey
        | GatewayRpc::DescribeIndex => Ok(()),
    }
}

/// A key is asked of its owner, and of no other shard.
pub proof fn lemma_each_key_asked_of_its_owner(
    routes: Seq<Result<u32, String>>,
    shard: int,
    n: int,
    i: usize,
)
    requires
        0 <= n <= routes.len() <= usize::MAX,
    ensures
        owned_keys(routes, shard, n).contains(i) <==> i < n && (routes[i as int] matches Ok(s) && s
            == shard),
        owned_keys(routes, shard, n).no_duplicates(),
    decreases n,
{
    if n > 0 {
        let before = owned_keys(routes, shard, n - 1);
        let keys = owned_keys(routes, shard, n);
        lemma_each_key_asked_of_its_owner(routes, shard, n - 1, i);
        lemma_each_key_asked_of_its_owner(routes, shard, n - 1, (n - 1) as usize);
        if keys != before {
            assert(keys == before.push((n - 1) as usize));
            if before.contains(i) {
                let k = choose|k: int| 0 <= k < before.len() && before[k] == i;
                assert(keys[k] == i);
            }
            if keys.contains(i) {
                let k = choose|k: int| 0 <= k < keys.len() && keys[k] == i;
                if k < before.len() {
                    assert(before[k] == i);
                }
            }
            assert(keys[before.len() as int] == n - 1);
        }
    }
}

/// Pruning drops the windows that cannot match, and no other.
pub proof fn lemma_pruning_keeps_what_matches(keeps: Seq<bool>, n: int, i: usize)
    requires
        0 <= n <= keeps.len() <= usize::MAX,
    ensures
        kept_positions(keeps, n).contains(i) <==> i < n && keeps[i as int],
    decreases n,
{
    if n > 0 {
        let before = kept_positions(keeps, n - 1);
        let kept = kept_positions(keeps, n);
        lemma_pruning_keeps_what_matches(keeps, n - 1, i);
        if keeps[n - 1] {
            if before.contains(i) {
                let k = choose|k: int| 0 <= k < before.len() && before[k] == i;
                assert(kept[k] == i);
            }
            if kept.contains(i) {
                let k = choose|k: int| 0 <= k < kept.len() && kept[k] == i;
                if k < before.len() {
                    assert(before[k] == i);
                }
            }
            assert(kept[before.len() as int] == n - 1);
        }
    }
}

} // verus!
