//! What the pages of a search hold, said of the hits themselves: the values that they are sorted by,
//! their scores, their keys and their groups.
use vstd::prelude::*;

use crate::fanout::{sum, MergedPage};
use crate::gateway::Gateway;
use crate::keys::{
    byte_ranks, lemma_lex_at, lemma_lex_total, lex_before, row_first, rows_in_order,
};
use crate::merge::{
    column_rank, distinct_hits, hit_row, hit_rows, is_page, lemma_page_in_bounds, window, ShardHit,
    SortKey,
};
use crate::merge_laws::{
    holds_key, lemma_each_document_once, lemma_no_document_lost, lemma_order_names_all, names_row,
};
use crate::scroll_laws::{lemma_distinct_place, lemma_distinct_places};
use crate::status::Status;

verus! {

/// The value that a hit gives for sort key `i`; none where it gives none.
pub open spec fn value_at(values: Seq<Option<i64>>, i: int) -> Option<i64> {
    if i < values.len() {
        values[i]
    } else {
        None
    }
}

/// Whether two hits give the same values for the sort keys before `i`.
pub open spec fn agree_below(a: ShardHit, b: ShardHit, i: int) -> bool {
    forall|j: int| 0 <= j < i ==> #[trigger] value_at(a.values@, j) == value_at(b.values@, j)
}

/// The bytes of a key; none are those of a hit without one.
pub open spec fn own_key(key: Option<Vec<u8>>) -> Seq<u8> {
    match key {
        Some(k) => k@,
        None => Seq::empty(),
    }
}

/// Whether `a` and `b` are alike before `m` and `a` is over or smaller there.
pub open spec fn parts_at(a: Seq<u8>, b: Seq<u8>, m: int) -> bool {
    &&& 0 <= m <= a.len()
    &&& m < b.len()
    &&& forall|j: int| 0 <= j < m ==> a[j] == b[j]
    &&& m == a.len() || a[m] < b[m]
}

/// Whether `a` comes before `b` byte by byte.
pub open spec fn earlier_bytes(a: Seq<u8>, b: Seq<u8>) -> bool {
    exists|m: int| #[trigger] parts_at(a, b, m)
}

/// Whether nothing puts `b` before `a`: at the first sort key for which they differ a value comes
/// before a missing one, and the smaller value first exactly where the key does not descend. Without
/// a sort the higher score comes first. Among equals the smaller key does.
pub open spec fn in_sort_order(a: ShardHit, b: ShardHit, sort: Seq<SortKey>) -> bool {
    &&& forall|i: int|
        0 <= i < sort.len() && #[trigger] agree_below(a, b, i) ==> match (
            value_at(a.values@, i),
            value_at(b.values@, i),
        ) {
            (Some(x), Some(y)) => x == y || (x < y) == !sort[i].descending,
            (None, Some(_)) => false,
            (_, None) => true,
        }
    &&& sort.len() == 0 ==> a.score >= b.score
    &&& (if sort.len() == 0 {
        a.score == b.score
    } else {
        agree_below(a, b, sort.len() as int)
    }) ==> own_key(a.key) == own_key(b.key) || earlier_bytes(own_key(a.key), own_key(b.key))
}

/// Where two sequences of which one comes first part.
pub proof fn lemma_lex_parts(a: Seq<int>, b: Seq<int>) -> (m: int)
    requires
        lex_before(a, b),
    ensures
        0 <= m <= a.len(),
        m < b.len(),
        forall|j: int| 0 <= j < m ==> a[j] == b[j],
        m == a.len() || a[m] < b[m],
    decreases a.len(),
{
    if a.len() > 0 && a[0] == b[0] {
        let x = a.drop_first();
        let y = b.drop_first();
        let m = lemma_lex_parts(x, y);
        assert forall|j: int| 0 <= j < m + 1 implies a[j] == b[j] by {
            if j > 0 {
                assert(x[j - 1] == y[j - 1]);
            }
        }
        m + 1
    } else {
        0
    }
}

/// Of two rows with the same lead the bytes behind it decide.
pub proof fn lemma_rows_part_after(lead_a: Seq<int>, a: Seq<u8>, lead_b: Seq<int>, b: Seq<u8>)
    requires
        lead_a == lead_b,
        lex_before(lead_a + byte_ranks(a), lead_b + byte_ranks(b)),
    ensures
        earlier_bytes(a, b),
{
    let x = lead_a + byte_ranks(a);
    let y = lead_b + byte_ranks(b);
    let n = lead_a.len() as int;
    let m = lemma_lex_parts(x, y);
    if m < n {
        assert(x[m] == y[m]);
    }
    assert forall|j: int| 0 <= j < m - n implies a[j] == b[j] by {
        assert(x[n + j] == y[n + j]);
    }
    if m < x.len() {
        assert(x[m] == a[m - n] as int);
        assert(y[m] == b[m - n] as int);
    }
    assert(parts_at(a, b, m - n));
}

/// The rows of hits stand for the order that was asked for.
pub proof fn lemma_rows_tell_order(a: ShardHit, b: ShardHit, sort: Seq<SortKey>)
    requires
        hit_row(a, sort) == hit_row(b, sort) || lex_before(hit_row(a, sort), hit_row(b, sort)),
    ensures
        in_sort_order(a, b, sort),
{
    let x = hit_row(a, sort);
    let y = hit_row(b, sort);
    let n: int = if sort.len() == 0 {
        1
    } else {
        sort.len() as int
    };
    lemma_lex_total(x, x);
    assert forall|i: int| 0 <= i < sort.len() && #[trigger] agree_below(a, b, i) implies match (
        value_at(a.values@, i),
        value_at(b.values@, i),
    ) {
        (Some(v), Some(w)) => v == w || (v < w) == !sort[i].descending,
        (None, Some(_)) => false,
        (_, None) => true,
    } by {
        assert forall|j: int| 0 <= j < i implies x[j] == y[j] by {
            assert(value_at(a.values@, j) == value_at(b.values@, j));
        }
        lemma_lex_at(x, y, i);
        assert(x[i] == column_rank(value_at(a.values@, i), sort[i].descending));
        assert(y[i] == column_rank(value_at(b.values@, i), sort[i].descending));
        assert(x[i] <= y[i]);
    }
    if sort.len() == 0 {
        lemma_lex_at(x, y, 0);
        assert(x[0] == -a.score && y[0] == -b.score);
    }
    let same = if sort.len() == 0 {
        a.score == b.score
    } else {
        agree_below(a, b, sort.len() as int)
    };
    if same {
        let la = x.take(n);
        let lb = y.take(n);
        assert forall|j: int| 0 <= j < n implies la[j] == lb[j] by {
            if sort.len() > 0 {
                assert(value_at(a.values@, j) == value_at(b.values@, j));
            }
        }
        assert(la =~= lb);
        assert(x =~= la + byte_ranks(a.key_bytes()));
        assert(y =~= lb + byte_ranks(b.key_bytes()));
        if x == y {
            lemma_same_keys(x, n, a.key_bytes(), b.key_bytes());
        } else {
            lemma_rows_part_after(la, a.key_bytes(), lb, b.key_bytes());
        }
    }
}

proof fn lemma_same_keys(row: Seq<int>, n: int, a: Seq<u8>, b: Seq<u8>)
    requires
        0 <= n <= row.len(),
        row == row.take(n) + byte_ranks(a),
        row == row.take(n) + byte_ranks(b),
    ensures
        a == b,
{
    assert forall|j: int| 0 <= j < a.len() implies a[j] == b[j] by {
        assert(row[n + j] == a[j] as int);
        assert(row[n + j] == b[j] as int);
    }
    assert(a =~= b);
}

/// There is one order of rows.
pub proof fn lemma_one_order(rows: Seq<Seq<int>>, x: Seq<usize>, y: Seq<usize>)
    requires
        rows_in_order(rows, x),
        rows_in_order(rows, y),
    ensures
        x == y,
{
    lemma_order_names_all(rows, x);
    lemma_order_names_all(rows, y);
    assert forall|k: int| 0 <= k < x.len() implies x[k] == y[k] by {
        lemma_same_place(rows, x, y, k);
    }
    assert(x =~= y);
}

proof fn lemma_same_place(rows: Seq<Seq<int>>, x: Seq<usize>, y: Seq<usize>, k: int)
    requires
        rows_in_order(rows, x),
        rows_in_order(rows, y),
        forall|i: int| 0 <= i < rows.len() ==> #[trigger] names_row(x, i),
        forall|i: int| 0 <= i < rows.len() ==> #[trigger] names_row(y, i),
        0 <= k < x.len(),
    ensures
        forall|j: int| 0 <= j <= k ==> x[j] == y[j],
    decreases k,
{
    if k > 0 {
        lemma_same_place(rows, x, y, k - 1);
    }
    if x[k] != y[k] {
        let a = x[k] as int;
        let b = y[k] as int;
        assert(names_row(x, b));
        assert(names_row(y, a));
        let p = choose|p: int| 0 <= p < x.len() && #[trigger] x[p] == b;
        let q = choose|q: int| 0 <= q < y.len() && #[trigger] y[q] == a;
        lemma_lex_total(rows[a], rows[b]);
        lemma_lex_total(rows[b], rows[b]);
        if p < k {
            assert(x[p] == y[p]);
            assert(row_first(rows, y[p] as int, y[k] as int));
        } else {
            assert(row_first(rows, x[k] as int, x[p] as int));
        }
        if q < k {
            assert(x[q] == y[q]);
            assert(row_first(rows, x[q] as int, x[k] as int));
        } else {
            assert(row_first(rows, y[k] as int, y[q] as int));
        }
    }
}

/// Hits that are listed by their rows are in the order that was asked for.
pub proof fn lemma_listed_in_order(
    hits: Seq<ShardHit>,
    sort: Seq<SortKey>,
    at: Seq<usize>,
    p: int,
    q: int,
)
    requires
        rows_in_order(hit_rows(hits, sort), at),
        0 <= p < q < at.len(),
    ensures
        in_sort_order(hits[at[p] as int], hits[at[q] as int], sort),
{
    let rows = hit_rows(hits, sort);
    assert(row_first(rows, at[p] as int, at[q] as int));
    assert(at[p] < rows.len() && at[q] < rows.len());
    lemma_rows_tell_order(hits[at[p] as int], hits[at[q] as int], sort);
}

/// The hits of a merged page are in the order that was asked for, and no two are of one document.
pub proof fn lemma_page_in_order(
    g: Gateway,
    hits: Vec<ShardHit>,
    totals: Vec<u64>,
    asked: usize,
    sort: Vec<SortKey>,
    offset: usize,
    limit: usize,
    page: MergedPage,
    k: int,
    l: int,
)
    requires
        call_ensures(
            Gateway::merge_search,
            (&g, &hits, &totals, asked, &sort, offset, limit),
            Ok::<MergedPage, Status>(page),
        ),
        0 <= k < l < page.picks@.len(),
    ensures
        page.picks@[k] < hits@.len(),
        page.picks@[l] < hits@.len(),
        in_sort_order(hits@[page.picks@[k] as int], hits@[page.picks@[l] as int], sort@),
        own_key(hits@[page.picks@[k] as int].key) != own_key(hits@[page.picks@[l] as int].key),
{
    let picks = page.picks@;
    assert(is_page(picks, hits@, sort@, offset as nat, limit as nat));
    lemma_page_in_bounds(picks, hits@, sort@, offset as nat, limit as nat);
    let at = choose|at: Seq<usize>| #[trigger]
        rows_in_order(hit_rows(hits@, sort@), at) && picks == window(
            distinct_hits(hits@, at),
            offset as nat,
            limit as nat,
        );
    let d = distinct_hits(hits@, at);
    let from: int = if offset < d.len() {
        offset as int
    } else {
        d.len() as int
    };
    assert(picks[k] == d[from + k] && picks[l] == d[from + l]);
    let (p, q) = lemma_distinct_places(hits@, at, from + k, from + l);
    lemma_listed_in_order(hits@, sort@, at, p, q);
    lemma_each_document_once(hits@, at, from + k, from + l);
}

/// The page of a search without an offset and a limit holds every document that a shard answered
/// with, by that of its hits which comes first, and first arrived among those that rank alike.
pub proof fn lemma_page_holds_all(
    g: Gateway,
    hits: Vec<ShardHit>,
    totals: Vec<u64>,
    asked: usize,
    sort: Vec<SortKey>,
    page: MergedPage,
    i: int,
) -> (k: int)
    requires
        call_ensures(
            Gateway::merge_search,
            (&g, &hits, &totals, asked, &sort, 0usize, 0usize),
            Ok::<MergedPage, Status>(page),
        ),
        0 <= i < hits@.len(),
    ensures
        0 <= k < page.picks@.len(),
        page.picks@[k] < hits@.len(),
        own_key(hits@[page.picks@[k] as int].key) == own_key(hits@[i].key),
        in_sort_order(hits@[page.picks@[k] as int], hits@[i], sort@),
        hits@[page.picks@[k] as int] == hits@[i] ==> page.picks@[k] <= i,
{
    let picks = page.picks@;
    assert(is_page(picks, hits@, sort@, 0, 0));
    lemma_page_in_bounds(picks, hits@, sort@, 0, 0);
    let rows = hit_rows(hits@, sort@);
    let at = choose|at: Seq<usize>| #[trigger]
        rows_in_order(rows, at) && picks == window(distinct_hits(hits@, at), 0, 0);
    assert(picks =~= distinct_hits(hits@, at));
    lemma_order_names_all(rows, at);
    assert(names_row(at, i));
    let p = choose|p: int| 0 <= p < at.len() && #[trigger] at[p] == i;
    let k = lemma_first_kept(hits@, at, p);
    let q = lemma_distinct_place(hits@, at, k);
    let (kk, first) = lemma_kept_is_first(hits@, at, p);
    lemma_keys_tell_place(hits@, at, k, kk);
    if first < p {
        lemma_listed_in_order(hits@, sort@, at, first, p);
        assert(row_first(rows, at[first] as int, at[p] as int));
        lemma_lex_total(rows[i], rows[i]);
    } else {
        lemma_rows_tell_order(hits@[i], hits@[i], sort@);
    }
    k
}

proof fn lemma_first_kept(hits: Seq<ShardHit>, at: Seq<usize>, p: int) -> (k: int)
    requires
        0 <= p < at.len(),
    ensures
        0 <= k < distinct_hits(hits, at).len(),
        hits[distinct_hits(hits, at)[k] as int].key_bytes() == hits[at[p] as int].key_bytes(),
{
    let key = hits[at[p] as int].key_bytes();
    assert(holds_key(hits, at, key));
    lemma_no_document_lost(hits, at, key);
    let d = distinct_hits(hits, at);
    choose|k: int| 0 <= k < d.len() && hits[(#[trigger] d[k]) as int].key_bytes() == key
}

proof fn lemma_keys_tell_place(hits: Seq<ShardHit>, at: Seq<usize>, k: int, l: int)
    requires
        0 <= k < distinct_hits(hits, at).len(),
        0 <= l < distinct_hits(hits, at).len(),
        hits[distinct_hits(hits, at)[k] as int].key_bytes() == hits[distinct_hits(
            hits,
            at,
        )[l] as int].key_bytes(),
    ensures
        k == l,
{
    if k < l {
        lemma_each_document_once(hits, at, k, l);
    } else if l < k {
        lemma_each_document_once(hits, at, l, k);
    }
}

proof fn lemma_kept_is_first(hits: Seq<ShardHit>, at: Seq<usize>, p: int) -> (r: (int, int))
    requires
        0 <= p < at.len(),
    ensures
        0 <= r.0 < distinct_hits(hits, at).len(),
        0 <= r.1 <= p,
        at[r.1] == distinct_hits(hits, at)[r.0],
        hits[at[r.1] as int].key_bytes() == hits[at[p] as int].key_bytes(),
    decreases at.len(),
{
    let prior = at.drop_last();
    let before = distinct_hits(hits, prior);
    let now = distinct_hits(hits, at);
    if p < prior.len() {
        let r = lemma_kept_is_first(hits, prior, p);
        assert(now[r.0] == before[r.0]);
        assert(prior[r.1] == at[r.1]);
        r
    } else if exists|k: int|
        0 <= k < at.len() - 1 && hits[(#[trigger] at[k]) as int].key_bytes()
            == hits[at.last() as int].key_bytes() {
        let j = choose|k: int|
            0 <= k < at.len() - 1 && hits[(#[trigger] at[k]) as int].key_bytes()
                == hits[at.last() as int].key_bytes();
        assert(prior[j] == at[j]);
        let r = lemma_kept_is_first(hits, prior, j);
        assert(prior[r.1] == at[r.1]);
        r
    } else {
        (before.len() as int, p)
    }
}

/// A page is the window of the page without an offset and a limit: it leaves out `offset` hits and
/// holds as many of the next ones as there are, at most `limit` where that is not 0.
pub proof fn lemma_page_is_window(
    g: Gateway,
    hits: Vec<ShardHit>,
    totals: Vec<u64>,
    asked: usize,
    sort: Vec<SortKey>,
    offset: usize,
    limit: usize,
    page: MergedPage,
    whole: MergedPage,
)
    requires
        call_ensures(
            Gateway::merge_search,
            (&g, &hits, &totals, asked, &sort, offset, limit),
            Ok::<MergedPage, Status>(page),
        ),
        call_ensures(
            Gateway::merge_search,
            (&g, &hits, &totals, asked, &sort, 0usize, 0usize),
            Ok::<MergedPage, Status>(whole),
        ),
    ensures
        limit == 0 || whole.picks@.len() <= offset + limit ==> page.picks@.len() == (
        if offset < whole.picks@.len() {
            whole.picks@.len() - offset
        } else {
            0
        }),
        0 < limit && offset + limit < whole.picks@.len() ==> page.picks@.len() == limit,
        forall|k: int|
            0 <= k < page.picks@.len() ==> #[trigger] page.picks@[k] == whole.picks@[offset + k],
{
    let rows = hit_rows(hits@, sort@);
    assert(is_page(page.picks@, hits@, sort@, offset as nat, limit as nat));
    assert(is_page(whole.picks@, hits@, sort@, 0, 0));
    let x = choose|at: Seq<usize>| #[trigger]
        rows_in_order(rows, at) && page.picks@ == window(
            distinct_hits(hits@, at),
            offset as nat,
            limit as nat,
        );
    let y = choose|at: Seq<usize>| #[trigger]
        rows_in_order(rows, at) && whole.picks@ == window(distinct_hits(hits@, at), 0, 0);
    lemma_one_order(rows, x, y);
    assert(whole.picks@ =~= distinct_hits(hits@, x));
}

/// A page resumes after its last hit, where it is full, where a sort other than by the score
/// defines a position, and where that hit has a key; else it does not resume.
pub proof fn lemma_page_resumes_after_its_last_hit(
    g: Gateway,
    hits: Vec<ShardHit>,
    totals: Vec<u64>,
    asked: usize,
    sort: Vec<SortKey>,
    offset: usize,
    limit: usize,
    page: MergedPage,
)
    requires
        call_ensures(
            Gateway::merge_search,
            (&g, &hits, &totals, asked, &sort, offset, limit),
            Ok::<MergedPage, Status>(page),
        ),
    ensures
        page.cursor_after is Some <==> {
            &&& sort@.len() > 0
            &&& forall|i: int| 0 <= i < sort@.len() ==> (#[trigger] sort@[i]).field@ != "_score"@
            &&& limit > 0
            &&& page.picks@.len() == limit
            &&& hits@[page.picks@[limit - 1] as int].key is Some
        },
        page.cursor_after matches Some(at) ==> at == page.picks@[page.picks@.len() - 1],
{
}

/// The matches of a page are those of all shards that answered, added up; it is partial exactly
/// where one of them did not answer.
pub proof fn lemma_page_totals(
    g: Gateway,
    hits: Vec<ShardHit>,
    totals: Vec<u64>,
    asked: usize,
    sort: Vec<SortKey>,
    offset: usize,
    limit: usize,
    page: MergedPage,
)
    requires
        call_ensures(
            Gateway::merge_search,
            (&g, &hits, &totals, asked, &sort, offset, limit),
            Ok::<MergedPage, Status>(page),
        ),
    ensures
        totals@.len() > 0,
        page.total == totals@.fold_left(0int, |s: int, n: u64| s + n),
        page.partial <==> totals@.len() < asked,
        page.shards_scanned == asked,
        page.shards_total == g.shards,
{
    lemma_sum_folds(totals@);
}

/// The sum of counts, one added after the other.
pub proof fn lemma_sum_folds(counts: Seq<u64>)
    ensures
        sum(counts) == counts.fold_left(0int, |s: int, n: u64| s + n),
    decreases counts.len(),
{
    reveal(Seq::fold_left);
    if counts.len() > 0 {
        lemma_sum_folds(counts.drop_last());
    }
}

/// A search that no shard answered is an error, and one that a shard answered is not.
pub proof fn lemma_silence_is_an_error(
    g: Gateway,
    hits: Vec<ShardHit>,
    totals: Vec<u64>,
    asked: usize,
    sort: Vec<SortKey>,
    offset: usize,
    limit: usize,
    r: Result<MergedPage, Status>,
)
    requires
        call_ensures(
            Gateway::merge_search,
            (&g, &hits, &totals, asked, &sort, offset, limit),
            r,
        ),
    ensures
        r is Err <==> totals@.len() == 0,
{
}

} // verus!
