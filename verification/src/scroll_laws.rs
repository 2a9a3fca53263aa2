//! What holds of the pages that a gateway returns: each is cut from one order of all hits of all
//! shards, and a scroll from page to page returns every hit once.
use vstd::prelude::*;

use crate::fanout::{cursor_of, sorts_by_score};
use crate::keys::{
    byte_ranks, lemma_lex_total, lex_before, row_first, rows_in_order, strictly_ordered,
};
use crate::merge::{
    distinct_hits, hit_row, hit_rows, is_page, lemma_page_in_bounds, window, ShardHit, SortKey,
};
use crate::merge_laws::{
    holds_key, lemma_each_document_once, lemma_no_document_lost, lemma_offset_merge_is_exact,
    lemma_order_names_all, lemma_pages_tile, lemma_scroll_is_whole, merges, names_row, picked,
    resumes, scrolled, scrolls, tops,
};

verus! {

/// Whether hits of the same document are ordered alike: its sort values are the same wherever it is.
pub open spec fn one_row_each(hits: Seq<ShardHit>, sort: Seq<SortKey>) -> bool {
    forall|i: int, j: int|
        0 <= i < hits.len() && 0 <= j < hits.len() && #[trigger] hits[i].key_bytes()
            == #[trigger] hits[j].key_bytes() ==> hit_row(hits[i], sort) == hit_row(hits[j], sort)
}

/// Whether `hits` are what the shards answered with, where `parts` are the rows of each answer.
pub open spec fn gathers(hits: Seq<ShardHit>, sort: Seq<SortKey>, parts: Seq<Seq<Seq<int>>>) -> bool {
    forall|r: Seq<int>| #[trigger]
        hit_rows(hits, sort).contains(r) <==> exists|i: int|
            0 <= i < parts.len() && (#[trigger] parts[i]).contains(r)
}

/// The rows of the hits on a page.
pub open spec fn page_rows(hits: Seq<ShardHit>, picks: Seq<usize>, sort: Seq<SortKey>) -> Seq<
    Seq<int>,
> {
    hit_rows(picked(hits, picks), sort)
}

proof fn lemma_rows_tell_keys(a: ShardHit, b: ShardHit, sort: Seq<SortKey>)
    requires
        hit_row(a, sort) == hit_row(b, sort),
    ensures
        a.key_bytes() == b.key_bytes(),
{
    let n: int = if sort.len() == 0 {
        1
    } else {
        sort.len() as int
    };
    let x = byte_ranks(a.key_bytes());
    let y = byte_ranks(b.key_bytes());
    assert(hit_row(a, sort).skip(n) =~= x);
    assert(hit_row(b, sort).skip(n) =~= y);
    assert(x == y);
    assert forall|i: int| 0 <= i < a.key_bytes().len() implies a.key_bytes()[i]
        == b.key_bytes()[i] by {
        assert(x[i] == y[i]);
    }
    assert(a.key_bytes() =~= b.key_bytes());
}

/// A kept hit is one of those listed.
pub proof fn lemma_distinct_place(hits: Seq<ShardHit>, at: Seq<usize>, k: int) -> (j: int)
    requires
        0 <= k < distinct_hits(hits, at).len(),
    ensures
        0 <= j < at.len(),
        at[j] == distinct_hits(hits, at)[k],
    decreases at.len(),
{
    let prior = at.drop_last();
    if k < distinct_hits(hits, prior).len() {
        lemma_distinct_place(hits, prior, k)
    } else {
        at.len() - 1
    }
}

/// Kept hits stand in the order in which they are listed.
pub proof fn lemma_distinct_places(hits: Seq<ShardHit>, at: Seq<usize>, k: int, l: int) -> (p: (int, int))
    requires
        0 <= k < l < distinct_hits(hits, at).len(),
    ensures
        0 <= p.0 < p.1 < at.len(),
        at[p.0] == distinct_hits(hits, at)[k],
        at[p.1] == distinct_hits(hits, at)[l],
    decreases at.len(),
{
    let prior = at.drop_last();
    if l < distinct_hits(hits, prior).len() {
        lemma_distinct_places(hits, prior, k, l)
    } else {
        (lemma_distinct_place(hits, prior, k), at.len() - 1)
    }
}

proof fn lemma_distinct_rows(
    hits: Seq<ShardHit>,
    sort: Seq<SortKey>,
    at: Seq<usize>,
    parts: Seq<Seq<Seq<int>>>,
)
    requires
        rows_in_order(hit_rows(hits, sort), at),
        one_row_each(hits, sort),
        gathers(hits, sort, parts),
    ensures
        merges(page_rows(hits, distinct_hits(hits, at), sort), parts),
{
    let rows = hit_rows(hits, sort);
    let d = distinct_hits(hits, at);
    let merged = page_rows(hits, d, sort);
    assert forall|k: int, l: int| 0 <= k < l < merged.len() implies lex_before(
        #[trigger] merged[k],
        #[trigger] merged[l],
    ) by {
        let (i, j) = lemma_distinct_places(hits, at, k, l);
        lemma_each_document_once(hits, at, k, l);
        assert(row_first(rows, at[i] as int, at[j] as int));
        assert(at[i] < rows.len() && at[j] < rows.len());
        if merged[k] == merged[l] {
            lemma_rows_tell_keys(hits[d[k] as int], hits[d[l] as int], sort);
        }
        lemma_lex_total(merged[k], merged[l]);
    }
    assert(strictly_ordered(merged));
    lemma_order_names_all(rows, at);
    assert forall|r: Seq<int>| #[trigger] merged.contains(r) <==> rows.contains(r) by {
        if merged.contains(r) {
            let k = choose|k: int| 0 <= k < merged.len() && merged[k] == r;
            let j = lemma_distinct_place(hits, at, k);
            assert(at[j] < rows.len());
            assert(rows[d[k] as int] == r);
        }
        if rows.contains(r) {
            let i = choose|i: int| 0 <= i < rows.len() && rows[i] == r;
            assert(names_row(at, i));
            let j = choose|j: int| 0 <= j < at.len() && #[trigger] at[j] == i;
            let key = hits[i].key_bytes();
            assert(hits[at[j] as int].key_bytes() == key);
            assert(holds_key(hits, at, key));
            lemma_no_document_lost(hits, at, key);
            let k = choose|k: int|
                0 <= k < d.len() && hits[(#[trigger] d[k]) as int].key_bytes() == key;
            let p = lemma_distinct_place(hits, at, k);
            assert(at[p] < rows.len());
            assert(hits[d[k] as int].key_bytes() == hits[i].key_bytes());
            assert(merged[k] == r);
        }
    }
}

/// The rows of a page are the window of what the shards answered with, in one order and each row
/// once.
pub proof fn lemma_page_is_cut(
    picks: Seq<usize>,
    hits: Seq<ShardHit>,
    sort: Seq<SortKey>,
    offset: nat,
    limit: nat,
    parts: Seq<Seq<Seq<int>>>,
) -> (merged: Seq<Seq<int>>)
    requires
        is_page(picks, hits, sort, offset, limit),
        one_row_each(hits, sort),
        gathers(hits, sort, parts),
    ensures
        merges(merged, parts),
        page_rows(hits, picks, sort) == window(merged, offset, limit),
{
    let at = choose|at: Seq<usize>| #[trigger]
        rows_in_order(hit_rows(hits, sort), at) && picks == window(
            distinct_hits(hits, at),
            offset,
            limit,
        );
    lemma_distinct_rows(hits, sort, at, parts);
    let merged = page_rows(hits, distinct_hits(hits, at), sort);
    assert(page_rows(hits, picks, sort) =~= window(merged, offset, limit));
    merged
}

/// A page that the gateway merged from the first `offset + limit` hits of each shard is the page
/// that one list of all hits of all shards would give.
pub proof fn lemma_page_is_exact(
    picks: Seq<usize>,
    hits: Seq<ShardHit>,
    sort: Seq<SortKey>,
    offset: nat,
    limit: nat,
    shards: Seq<Seq<Seq<int>>>,
    all: Seq<Seq<int>>,
)
    requires
        limit > 0,
        is_page(picks, hits, sort, offset, limit),
        one_row_each(hits, sort),
        forall|i: int| 0 <= i < shards.len() ==> strictly_ordered(#[trigger] shards[i]),
        gathers(hits, sort, tops(shards, offset + limit)),
        merges(all, shards),
    ensures
        page_rows(hits, picks, sort) == window(all, offset, limit),
{
    let merged = lemma_page_is_cut(picks, hits, sort, offset, limit, tops(shards, offset + limit));
    lemma_offset_merge_is_exact(shards, all, merged, offset, limit);
}

/// Pages by offset tile: a page and the page behind it are one page of both their sizes, cut from
/// the same list of all hits.
pub proof fn lemma_offset_pages_tile(
    first: Seq<usize>,
    first_hits: Seq<ShardHit>,
    second: Seq<usize>,
    second_hits: Seq<ShardHit>,
    sort: Seq<SortKey>,
    offset: nat,
    limit: nat,
    next: nat,
    shards: Seq<Seq<Seq<int>>>,
    all: Seq<Seq<int>>,
)
    requires
        limit > 0,
        next > 0,
        is_page(first, first_hits, sort, offset, limit),
        is_page(second, second_hits, sort, offset + limit, next),
        one_row_each(first_hits, sort),
        one_row_each(second_hits, sort),
        forall|i: int| 0 <= i < shards.len() ==> strictly_ordered(#[trigger] shards[i]),
        gathers(first_hits, sort, tops(shards, offset + limit)),
        gathers(second_hits, sort, tops(shards, offset + limit + next)),
        merges(all, shards),
    ensures
        page_rows(first_hits, first, sort) + page_rows(second_hits, second, sort) == window(
            all,
            offset,
            limit + next,
        ),
{
    lemma_page_is_exact(first, first_hits, sort, offset, limit, shards, all);
    lemma_page_is_exact(second, second_hits, sort, offset + limit, next, shards, all);
    lemma_pages_tile(all, offset, limit, next);
}

/// The row that page `i` of a scroll resumes after: that of the hit that the cursor of the page
/// before it names.
pub open spec fn page_cursor(
    hits: Seq<Seq<ShardHit>>,
    picks: Seq<Seq<usize>>,
    sort: Seq<SortKey>,
    limit: nat,
    i: int,
) -> Option<Seq<int>> {
    if i <= 0 {
        None
    } else {
        match cursor_of(hits[i - 1], sort, limit, picks[i - 1]) {
            Some(p) => Some(hit_row(hits[i - 1][p as int], sort)),
            None => None,
        }
    }
}

/// Whether page `i` of a scroll is what the gateway merges of the shards' answers: each answers with
/// the first `limit` of its rows after the cursor of the page before, and there was one. All hits
/// have keys, and a document has the same row wherever it is.
pub open spec fn is_scroll_page(
    shards: Seq<Seq<Seq<int>>>,
    rest: Seq<Seq<Seq<Seq<int>>>>,
    hits: Seq<Seq<ShardHit>>,
    picks: Seq<Seq<usize>>,
    sort: Seq<SortKey>,
    limit: nat,
    i: int,
) -> bool {
    &&& is_page(picks[i], hits[i], sort, 0, limit)
    &&& one_row_each(hits[i], sort)
    &&& forall|k: int| 0 <= k < hits[i].len() ==> (#[trigger] hits[i][k]).key is Some
    &&& rest[i].len() == shards.len()
    &&& forall|k: int|
        0 <= k < shards.len() ==> resumes(
            #[trigger] rest[i][k],
            shards[k],
            page_cursor(hits, picks, sort, limit, i),
        )
    &&& gathers(hits[i], sort, tops(rest[i], limit))
    &&& i > 0 ==> cursor_of(hits[i - 1], sort, limit, picks[i - 1]) is Some
}

/// The rows of the first `n` pages.
pub open spec fn shown(
    hits: Seq<Seq<ShardHit>>,
    picks: Seq<Seq<usize>>,
    sort: Seq<SortKey>,
    n: int,
) -> Seq<Seq<int>>
    decreases n,
{
    if n <= 0 {
        Seq::empty()
    } else {
        shown(hits, picks, sort, n - 1) + page_rows(hits[n - 1], picks[n - 1], sort)
    }
}

/// A page of a scroll has a cursor exactly where it is full.
pub proof fn lemma_cursor_where_full(
    hits: Seq<ShardHit>,
    picks: Seq<usize>,
    sort: Seq<SortKey>,
    limit: nat,
)
    requires
        limit > 0,
        sort.len() > 0,
        !sorts_by_score(sort),
        is_page(picks, hits, sort, 0, limit),
        forall|k: int| 0 <= k < hits.len() ==> (#[trigger] hits[k]).key is Some,
    ensures
        picks.len() <= limit,
        cursor_of(hits, sort, limit, picks) is None <==> picks.len() < limit,
{
    lemma_page_in_bounds(picks, hits, sort, 0, limit);
    if picks.len() > 0 {
        assert(picks[picks.len() - 1] < hits.len());
    }
}

spec fn merged_as(
    rest: Seq<Seq<Seq<Seq<int>>>>,
    hits: Seq<Seq<ShardHit>>,
    picks: Seq<Seq<usize>>,
    sort: Seq<SortKey>,
    limit: nat,
    i: int,
    m: Seq<Seq<int>>,
) -> bool {
    merges(m, tops(rest[i], limit)) && page_rows(hits[i], picks[i], sort) == window(m, 0, limit)
}

proof fn lemma_shown_is_scrolled(
    hits: Seq<Seq<ShardHit>>,
    picks: Seq<Seq<usize>>,
    sort: Seq<SortKey>,
    merged: Seq<Seq<Seq<int>>>,
    limit: nat,
    n: int,
)
    requires
        0 <= n <= merged.len(),
        forall|i: int|
            0 <= i < n ==> page_rows(hits[i], picks[i], sort) == window(
                #[trigger] merged[i],
                0,
                limit,
            ),
    ensures
        shown(hits, picks, sort, n) == scrolled(merged, limit, n),
    decreases n,
{
    if n > 0 {
        lemma_shown_is_scrolled(hits, picks, sort, merged, limit, n - 1);
        assert(page_rows(hits[n - 1], picks[n - 1], sort) == window(merged[n - 1], 0, limit));
    }
}

/// A scroll visits every hit: passing each page's cursor on until there is none returns the rows of
/// all shards, in one order, each once and none left out.
pub proof fn lemma_scroll_visits_all(
    shards: Seq<Seq<Seq<int>>>,
    all: Seq<Seq<int>>,
    rest: Seq<Seq<Seq<Seq<int>>>>,
    hits: Seq<Seq<ShardHit>>,
    picks: Seq<Seq<usize>>,
    sort: Seq<SortKey>,
    limit: nat,
)
    requires
        limit > 0,
        sort.len() > 0,
        !sorts_by_score(sort),
        hits.len() == picks.len(),
        hits.len() > 0,
        merges(all, shards),
        forall|i: int|
            0 <= i < hits.len() ==> #[trigger] is_scroll_page(
                shards,
                rest,
                hits,
                picks,
                sort,
                limit,
                i,
            ),
        cursor_of(hits.last(), sort, limit, picks.last()) is None,
    ensures
        shown(hits, picks, sort, hits.len() as int) == all,
        forall|i: int|
            0 <= i < hits.len() ==> (cursor_of(hits[i], sort, limit, #[trigger] picks[i]) is None
                <==> picks[i].len() < limit),
{
    let n = hits.len() as int;
    let merged = Seq::new(
        n as nat,
        |i: int|
            choose|m: Seq<Seq<int>>|
                merged_as(rest, hits, picks, sort, limit, i, m),
    );
    assert forall|i: int| 0 <= i < n implies #[trigger] merged_as(
        rest,
        hits,
        picks,
        sort,
        limit,
        i,
        merged[i],
    ) by {
        assert(is_scroll_page(shards, rest, hits, picks, sort, limit, i));
        let m = lemma_page_is_cut(picks[i], hits[i], sort, 0, limit, tops(rest[i], limit));
        assert(merged_as(rest, hits, picks, sort, limit, i, m));
    }
    assert forall|i: int| 0 <= i < n implies (cursor_of(
        hits[i],
        sort,
        limit,
        #[trigger] picks[i],
    ) is None <==> picks[i].len() < limit) && picks[i].len() <= limit by {
        assert(is_scroll_page(shards, rest, hits, picks, sort, limit, i));
        lemma_cursor_where_full(hits[i], picks[i], sort, limit);
    }
    assert forall|i: int| 0 <= i < n implies #[trigger] scrolls(shards, rest, merged, limit, i) by {
        assert(is_scroll_page(shards, rest, hits, picks, sort, limit, i));
        assert(merged_as(rest, hits, picks, sort, limit, i, merged[i]));
        if i > 0 {
            assert(merged_as(rest, hits, picks, sort, limit, i - 1, merged[i - 1]));
            assert(picks[i - 1].len() == limit);
            let page = page_rows(hits[i - 1], picks[i - 1], sort);
            assert(page.len() == limit);
            assert(page.last() == hit_row(hits[i - 1][picks[i - 1].last() as int], sort));
        }
    }
    assert(merged_as(rest, hits, picks, sort, limit, n - 1, merged[n - 1]));
    assert(picks[n - 1].len() < limit);
    assert(page_rows(hits[n - 1], picks[n - 1], sort).len() == picks[n - 1].len());
    assert forall|i: int| 0 <= i < n implies page_rows(hits[i], picks[i], sort) == window(
        #[trigger] merged[i],
        0,
        limit,
    ) by {
        assert(merged_as(rest, hits, picks, sort, limit, i, merged[i]));
    }
    lemma_shown_is_scrolled(hits, picks, sort, merged, limit, n);
    lemma_scroll_is_whole(shards, all, rest, merged, limit);
}

/// Where row `k` of page `i` stands among all rows that are shown.
proof fn lemma_shown_at(
    hits: Seq<Seq<ShardHit>>,
    picks: Seq<Seq<usize>>,
    sort: Seq<SortKey>,
    n: int,
    i: int,
    k: int,
)
    requires
        0 <= i < n,
        0 <= k < picks[i].len(),
    ensures
        shown(hits, picks, sort, i + 1).len() == shown(hits, picks, sort, i).len() + picks[i].len(),
        shown(hits, picks, sort, i + 1).len() <= shown(hits, picks, sort, n).len(),
        shown(hits, picks, sort, n)[shown(hits, picks, sort, i).len() + k] == hit_row(
            hits[i][picks[i][k] as int],
            sort,
        ),
    decreases n,
{
    if i < n - 1 {
        lemma_shown_at(hits, picks, sort, n - 1, i, k);
    }
}

/// A scroll returns no document twice: of the hits that it shows, at page `i` and position `k` and at
/// page `j` and position `l` further on, no two have the same key.
pub proof fn lemma_scroll_shows_each_once(
    all: Seq<Seq<int>>,
    hits: Seq<Seq<ShardHit>>,
    picks: Seq<Seq<usize>>,
    sort: Seq<SortKey>,
    i: int,
    k: int,
    j: int,
    l: int,
)
    requires
        strictly_ordered(all),
        hits.len() == picks.len(),
        shown(hits, picks, sort, hits.len() as int) == all,
        0 <= i <= j < hits.len(),
        0 <= k < picks[i].len(),
        0 <= l < picks[j].len(),
        i < j || k < l,
        hits[i][picks[i][k] as int].key_bytes() == hits[j][picks[j][l] as int].key_bytes()
            ==> hit_row(hits[i][picks[i][k] as int], sort) == hit_row(
            hits[j][picks[j][l] as int],
            sort,
        ),
    ensures
        hits[i][picks[i][k] as int].key_bytes() != hits[j][picks[j][l] as int].key_bytes(),
{
    let n = hits.len() as int;
    lemma_shown_at(hits, picks, sort, n, i, k);
    lemma_shown_at(hits, picks, sort, n, j, l);
    let a = shown(hits, picks, sort, i).len() + k;
    let b = shown(hits, picks, sort, j).len() + l;
    if i < j {
        lemma_shown_at(hits, picks, sort, j, i, k);
    }
    assert(a < b < all.len());
    assert(lex_before(all[a], all[b]));
    lemma_lex_total(all[a], all[b]);
}

} // verus!
