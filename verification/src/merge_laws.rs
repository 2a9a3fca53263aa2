//! What holds of merged pages, whatever the shards hold and in whatever order they answer.
use vstd::prelude::*;

use crate::keys::{
    lemma_lex_total, lemma_lex_transitive, lemma_strict_order_unique, lex_before, row_first,
    rows_in_order, strictly_ordered,
};
use crate::merge::{distinct_hits, hit_rows, window, ShardHit, SortKey};
use crate::order::lemma_names_all;

verus! {

/// Whether no two rows are the same.
pub open spec fn all_distinct(rows: Seq<Seq<int>>) -> bool {
    forall|i: int, j: int| 0 <= i < j < rows.len() ==> #[trigger] rows[i] != #[trigger] rows[j]
}

/// Whether `b` holds the hits of `a` in another order, that of the positions `p`.
pub open spec fn reordered(a: Seq<ShardHit>, b: Seq<ShardHit>, p: Seq<usize>) -> bool {
    &&& a.len() == b.len()
    &&& p.len() == a.len()
    &&& p.no_duplicates()
    &&& forall|k: int| 0 <= k < p.len() ==> #[trigger] p[k] < a.len() && b[k] == a[p[k] as int]
}

/// The items of `hits` at the positions `at`.
pub open spec fn picked(hits: Seq<ShardHit>, at: Seq<usize>) -> Seq<ShardHit> {
    Seq::new(at.len(), |k: int| hits[at[k] as int])
}

/// Whether an order of rows names the row at position `i`.
pub open spec fn names_row(at: Seq<usize>, i: int) -> bool {
    exists|k: int| 0 <= k < at.len() && #[trigger] at[k] == i
}

/// An order of rows names every row.
pub proof fn lemma_order_names_all(rows: Seq<Seq<int>>, at: Seq<usize>)
    requires
        rows_in_order(rows, at),
    ensures
        forall|i: int| 0 <= i < rows.len() ==> #[trigger] names_row(at, i),
{
    assert forall|i: int, j: int| 0 <= i < at.len() && 0 <= j < at.len() && i != j implies at[i]
        != at[j] by {
        lemma_lex_total(rows[at[i] as int], rows[at[i] as int]);
        if i < j {
            assert(row_first(rows, at[i] as int, at[j] as int));
        } else {
            assert(row_first(rows, at[j] as int, at[i] as int));
        }
    }
    assert forall|k: int| 0 <= k < at.len() implies #[trigger] at[k] < rows.len() by {}
    lemma_names_all(at, rows.len());
    assert forall|i: int| 0 <= i < rows.len() implies #[trigger] names_row(at, i) by {
        lemma_position_fits(at, i);
        assert(at.contains(i as usize));
        let k = choose|k: int| 0 <= k < at.len() && at[k] == i as usize;
        assert(at[k] == i);
    }
}

proof fn lemma_sorted_rows(hits: Seq<ShardHit>, sort: Seq<SortKey>, at: Seq<usize>)
    requires
        all_distinct(hit_rows(hits, sort)),
        rows_in_order(hit_rows(hits, sort), at),
    ensures
        strictly_ordered(hit_rows(picked(hits, at), sort)),
        forall|r: Seq<int>| #[trigger]
            hit_rows(picked(hits, at), sort).contains(r) <==> hit_rows(hits, sort).contains(r),
{
    let rows = hit_rows(hits, sort);
    let sorted = hit_rows(picked(hits, at), sort);
    assert forall|k: int, l: int| 0 <= k < l < sorted.len() implies lex_before(
        #[trigger] sorted[k],
        #[trigger] sorted[l],
    ) by {
        assert(row_first(rows, at[k] as int, at[l] as int));
        lemma_lex_total(rows[at[k] as int], rows[at[k] as int]);
        if rows[at[k] as int] == rows[at[l] as int] {
            assert(at[k] < at[l]);
            assert(rows[at[k] as int] != rows[at[l] as int]);
        }
    }
    lemma_order_names_all(rows, at);
    assert forall|r: Seq<int>| #[trigger] sorted.contains(r) <==> rows.contains(r) by {
        if sorted.contains(r) {
            let k = choose|k: int| 0 <= k < sorted.len() && sorted[k] == r;
            assert(rows[at[k] as int] == r);
        }
        if rows.contains(r) {
            let i = choose|i: int| 0 <= i < rows.len() && rows[i] == r;
            assert(names_row(at, i));
            let k = choose|k: int| 0 <= k < at.len() && #[trigger] at[k] == i;
            assert(sorted[k] == r);
        }
    }
}

proof fn lemma_position_fits(at: Seq<usize>, i: int)
    requires
        0 <= i < at.len(),
        at.no_duplicates(),
        forall|k: int| 0 <= k < at.len() ==> #[trigger] at[k] < at.len(),
    ensures
        i <= usize::MAX,
{
    if i > usize::MAX {
        let wide = at.map_values(|x: usize| x as int);
        assert(wide.no_duplicates());
        wide.unique_seq_to_set();
        vstd::set_lib::lemma_int_range(0, usize::MAX + 1);
        let full = vstd::set_lib::set_int_range(0, usize::MAX + 1);
        assert(wide.to_set().subset_of(full));
        vstd::set_lib::lemma_len_subset(wide.to_set(), full);
    }
}

/// The merged order does not depend on the order in which the shards answered.
pub proof fn lemma_arrival_order_is_irrelevant(
    a: Seq<ShardHit>,
    b: Seq<ShardHit>,
    p: Seq<usize>,
    sort: Seq<SortKey>,
    at_a: Seq<usize>,
    at_b: Seq<usize>,
)
    requires
        reordered(a, b, p),
        all_distinct(hit_rows(a, sort)),
        rows_in_order(hit_rows(a, sort), at_a),
        rows_in_order(hit_rows(b, sort), at_b),
    ensures
        picked(a, at_a) == picked(b, at_b),
{
    let ra = hit_rows(a, sort);
    let rb = hit_rows(b, sort);
    assert forall|i: int, j: int| 0 <= i < j < rb.len() implies #[trigger] rb[i]
        != #[trigger] rb[j] by {
        assert(p[i] != p[j]);
        if p[i] < p[j] {
            assert(ra[p[i] as int] != ra[p[j] as int]);
        } else {
            assert(ra[p[j] as int] != ra[p[i] as int]);
        }
    }
    lemma_names_all(p, a.len());
    assert forall|r: Seq<int>| ra.contains(r) <==> #[trigger] rb.contains(r) by {
        if ra.contains(r) {
            let i = choose|i: int| 0 <= i < ra.len() && ra[i] == r;
            lemma_position_fits(p, i);
            assert(p.contains(i as usize));
            let k = choose|k: int| 0 <= k < p.len() && p[k] == i as usize;
            assert(rb[k] == r);
        }
        if rb.contains(r) {
            let k = choose|k: int| 0 <= k < rb.len() && rb[k] == r;
            assert(ra[p[k] as int] == r);
        }
    }
    lemma_sorted_rows(a, sort, at_a);
    lemma_sorted_rows(b, sort, at_b);
    let sa = hit_rows(picked(a, at_a), sort);
    let sb = hit_rows(picked(b, at_b), sort);
    assert forall|r: Seq<int>| #[trigger] sa.contains(r) <==> sb.contains(r) by {
        assert(sa.contains(r) <==> ra.contains(r));
        assert(sb.contains(r) <==> rb.contains(r));
        assert(ra.contains(r) <==> rb.contains(r));
    }
    lemma_strict_order_unique(sa, sb);
    assert forall|k: int| 0 <= k < a.len() implies picked(a, at_a)[k] == picked(b, at_b)[k] by {
        let i = at_a[k] as int;
        let j = p[at_b[k] as int] as int;
        assert(sa[k] == sb[k]);
        assert(sa[k] == ra[i]);
        assert(sb[k] == rb[at_b[k] as int]);
        assert(rb[at_b[k] as int] == ra[j]);
        if i < j {
            assert(ra[i] != ra[j]);
        } else if j < i {
            assert(ra[j] != ra[i]);
        }
    }
    assert(picked(a, at_a) =~= picked(b, at_b));
}

/// Whether `all` holds the rows of the parts in order.
pub open spec fn merges(all: Seq<Seq<int>>, parts: Seq<Seq<Seq<int>>>) -> bool {
    &&& strictly_ordered(all)
    &&& forall|r: Seq<int>| #[trigger]
        all.contains(r) <==> exists|i: int| 0 <= i < parts.len() && (#[trigger] parts[i]).contains(r)
}

/// The first `n` rows of each part.
pub open spec fn tops(parts: Seq<Seq<Seq<int>>>, n: nat) -> Seq<Seq<Seq<int>>> {
    parts.map_values(|p: Seq<Seq<int>>| window(p, 0, n))
}

proof fn lemma_rank_bound(s: Seq<Seq<int>>, x: Seq<Seq<int>>, p: int, k: int)
    requires
        strictly_ordered(s),
        strictly_ordered(x),
        forall|r: Seq<int>| #[trigger] s.contains(r) ==> x.contains(r),
        0 <= p < s.len(),
        0 <= k < x.len(),
        s[p] == x[k],
    ensures
        p <= k,
    decreases p,
{
    if p > 0 {
        assert(s.contains(s[p - 1]));
        assert(x.contains(s[p - 1]));
        let j = choose|j: int| 0 <= j < x.len() && x[j] == s[p - 1];
        assert(lex_before(s[p - 1], s[p]));
        lemma_lex_total(x[j], x[k]);
        if j > k {
            assert(lex_before(x[k], x[j]));
        }
        lemma_rank_bound(s, x, p - 1, j);
    }
}

spec fn same_top(x: Seq<Seq<int>>, y: Seq<Seq<int>>, m: nat) -> bool {
    forall|k: int| 0 <= k < m && k < x.len() ==> agree_at(x, y, k)
}

spec fn agree_at(x: Seq<Seq<int>>, y: Seq<Seq<int>>, k: int) -> bool {
    k < y.len() && x[k] == y[k]
}

proof fn lemma_same_top(x: Seq<Seq<int>>, y: Seq<Seq<int>>, m: nat)
    requires
        strictly_ordered(x),
        strictly_ordered(y),
        forall|r: Seq<int>| #[trigger] y.contains(r) ==> x.contains(r),
        forall|k: int| 0 <= k < m && k < x.len() ==> y.contains(#[trigger] x[k]),
    ensures
        same_top(x, y, m),
    decreases m,
{
    if m > 0 {
        let n = (m - 1) as nat;
        lemma_same_top(x, y, n);
        if n < x.len() {
            let r = x[n as int];
            assert(y.contains(r));
            let j = choose|j: int| 0 <= j < y.len() && y[j] == r;
            lemma_lex_total(r, r);
            if j < n {
                assert(agree_at(x, y, j));
                assert(lex_before(x[j], x[n as int]));
            }
            if j > n {
                assert(y.contains(y[n as int]));
                assert(x.contains(y[n as int]));
                let i = choose|i: int| 0 <= i < x.len() && x[i] == y[n as int];
                assert(lex_before(y[n as int], y[j]));
                lemma_lex_total(x[i], r);
                if i > n {
                    assert(lex_before(x[n as int], x[i]));
                }
                assert(agree_at(x, y, i));
                assert(lex_before(y[i], y[n as int]));
                lemma_lex_total(y[i], y[i]);
            }
            assert(j == n);
        }
        assert forall|k: int| 0 <= k < m && k < x.len() implies agree_at(x, y, k) by {
            if k < n {
                assert(agree_at(x, y, k));
            }
        }
    }
}

/// A page cut from the first `offset + limit` rows of each shard is the page cut from all rows
/// of all shards.
pub proof fn lemma_offset_merge_is_exact(
    shards: Seq<Seq<Seq<int>>>,
    all: Seq<Seq<int>>,
    merged: Seq<Seq<int>>,
    offset: nat,
    limit: nat,
)
    requires
        limit > 0,
        forall|i: int| 0 <= i < shards.len() ==> strictly_ordered(#[trigger] shards[i]),
        merges(all, shards),
        merges(merged, tops(shards, offset + limit)),
    ensures
        window(merged, offset, limit) == window(all, offset, limit),
{
    let m = offset + limit;
    let cut = tops(shards, m);
    assert forall|r: Seq<int>| #[trigger] merged.contains(r) implies all.contains(r) by {
        let i = choose|i: int| 0 <= i < cut.len() && (#[trigger] cut[i]).contains(r);
        let k = choose|k: int| 0 <= k < cut[i].len() && cut[i][k] == r;
        assert(shards[i][k] == r);
        assert(shards[i].contains(r));
    }
    assert forall|k: int| 0 <= k < m && k < all.len() implies merged.contains(
        #[trigger] all[k],
    ) by {
        let r = all[k];
        assert(all.contains(r));
        let i = choose|i: int| 0 <= i < shards.len() && (#[trigger] shards[i]).contains(r);
        let s = shards[i];
        let p = choose|p: int| 0 <= p < s.len() && s[p] == r;
        assert forall|q: Seq<int>| #[trigger] s.contains(q) implies all.contains(q) by {
            assert(shards[i].contains(q));
        }
        lemma_rank_bound(s, all, p, k);
        assert(cut[i][p] == r);
        assert(cut[i].contains(r));
    }
    lemma_same_top(all, merged, m);
    if merged.len() > all.len() && all.len() < m {
        let n = all.len() as int;
        assert(merged.contains(merged[n]));
        assert(all.contains(merged[n]));
        let i = choose|i: int| 0 <= i < all.len() && all[i] == merged[n];
        assert(agree_at(all, merged, i));
        assert(lex_before(merged[i], merged[n]));
        lemma_lex_total(merged[n], merged[n]);
    }
    let x = window(all, offset, limit);
    let y = window(merged, offset, limit);
    if all.len() >= m {
        assert(agree_at(all, merged, m - 1));
    } else if all.len() > 0 {
        assert(agree_at(all, merged, all.len() - 1));
    }
    assert(x.len() == y.len());
    assert forall|k: int| 0 <= k < x.len() implies x[k] == y[k] by {
        assert(agree_at(all, merged, offset + k));
    }
    assert(x =~= y);
}

/// A page and the page behind it are one page of both their sizes: no row falls between two
/// pages, and none is on both.
pub proof fn lemma_pages_tile<A>(rows: Seq<A>, offset: nat, limit: nat, next: nat)
    requires
        limit > 0,
        next > 0,
    ensures
        window(rows, offset, limit) + window(rows, offset + limit, next) == window(
            rows,
            offset,
            limit + next,
        ),
{
    assert(window(rows, offset, limit) + window(rows, offset + limit, next) =~= window(
        rows,
        offset,
        limit + next,
    ));
}

/// The rows that come after the last row of a page are the rows behind the page: a scroll that
/// resumes after that row sees every further row, and none again.
pub proof fn lemma_keyset_resumes(rows: Seq<Seq<int>>, k: int, r: Seq<int>)
    requires
        strictly_ordered(rows),
        0 <= k < rows.len(),
    ensures
        rows.contains(r) && lex_before(rows[k], r) <==> rows.skip(k + 1).contains(r),
{
    let rest = rows.skip(k + 1);
    if rows.contains(r) && lex_before(rows[k], r) {
        let i = choose|i: int| 0 <= i < rows.len() && rows[i] == r;
        lemma_lex_total(rows[k], r);
        if i < k {
            assert(lex_before(rows[i], rows[k]));
            lemma_lex_transitive(rows[k], r, rows[k]);
        }
        assert(rest[i - k - 1] == r);
    }
    if rest.contains(r) {
        let i = choose|i: int| 0 <= i < rest.len() && rest[i] == r;
        assert(rows[k + 1 + i] == r);
        assert(lex_before(rows[k], rows[k + 1 + i]));
    }
}

/// Whether `rest` are the rows of `rows` after the row `cursor`, or all of them where there is none.
pub open spec fn resumes(rest: Seq<Seq<int>>, rows: Seq<Seq<int>>, cursor: Option<Seq<int>>) -> bool {
    &&& strictly_ordered(rest)
    &&& forall|r: Seq<int>| #[trigger]
        rest.contains(r) <==> rows.contains(r) && (cursor is None || lex_before(cursor->0, r))
}

/// The row that page `i` of a scroll resumes after: the last one of the page before it.
pub open spec fn scroll_cursor(merged: Seq<Seq<Seq<int>>>, limit: nat, i: int) -> Option<Seq<int>> {
    if i <= 0 {
        None
    } else {
        Some(window(merged[i - 1], 0, limit).last())
    }
}

/// Whether page `i` of a scroll is merged from the first `limit` rows of what each shard holds after
/// the page before it, which was full.
pub open spec fn scrolls(
    shards: Seq<Seq<Seq<int>>>,
    rest: Seq<Seq<Seq<Seq<int>>>>,
    merged: Seq<Seq<Seq<int>>>,
    limit: nat,
    i: int,
) -> bool {
    &&& rest[i].len() == shards.len()
    &&& forall|k: int|
        0 <= k < shards.len() ==> resumes(
            #[trigger] rest[i][k],
            shards[k],
            scroll_cursor(merged, limit, i),
        )
    &&& merges(merged[i], tops(rest[i], limit))
    &&& i > 0 ==> window(merged[i - 1], 0, limit).len() == limit
}

/// The rows of the first `n` pages of a scroll.
pub open spec fn scrolled(merged: Seq<Seq<Seq<int>>>, limit: nat, n: int) -> Seq<Seq<int>>
    decreases n,
{
    if n <= 0 {
        Seq::empty()
    } else {
        scrolled(merged, limit, n - 1) + window(merged[n - 1], 0, limit)
    }
}

proof fn lemma_scrolled(
    shards: Seq<Seq<Seq<int>>>,
    all: Seq<Seq<int>>,
    rest: Seq<Seq<Seq<Seq<int>>>>,
    merged: Seq<Seq<Seq<int>>>,
    limit: nat,
    n: int,
)
    requires
        limit > 0,
        0 <= n <= merged.len(),
        merges(all, shards),
        forall|i: int| 0 <= i < n ==> #[trigger] scrolls(shards, rest, merged, limit, i),
    ensures
        ({
            let seen = scrolled(merged, limit, n);
            &&& seen.len() <= all.len()
            &&& seen == all.take(seen.len() as int)
            &&& n > 0 && window(merged[n - 1], 0, limit).len() < limit ==> seen.len() == all.len()
            &&& n > 0 && window(merged[n - 1], 0, limit).len() == limit ==> seen.len() > 0
                && seen.last() == window(merged[n - 1], 0, limit).last()
        }),
    decreases n,
{
    if n > 0 {
        let i = n - 1;
        lemma_scrolled(shards, all, rest, merged, limit, i);
        assert(scrolls(shards, rest, merged, limit, i));
        let before = scrolled(merged, limit, i);
        let d = before.len() as int;
        let left = all.skip(d);
        let cursor = scroll_cursor(merged, limit, i);
        if i > 0 {
            assert(before.last() == all[d - 1]);
        }
        assert forall|a: int, b: int| 0 <= a < b < left.len() implies lex_before(
            #[trigger] left[a],
            #[trigger] left[b],
        ) by {
            assert(lex_before(all[d + a], all[d + b]));
        }
        assert forall|r: Seq<int>| #[trigger]
            left.contains(r) <==> exists|k: int|
                0 <= k < rest[i].len() && (#[trigger] rest[i][k]).contains(r) by {
            if i > 0 {
                lemma_keyset_resumes(all, d - 1, r);
            } else {
                assert(left =~= all);
            }
            if left.contains(r) {
                let k = choose|k: int| 0 <= k < shards.len() && (#[trigger] shards[k]).contains(r);
                assert(rest[i][k].contains(r));
            }
            if exists|k: int| 0 <= k < rest[i].len() && (#[trigger] rest[i][k]).contains(r) {
                let k = choose|k: int|
                    0 <= k < rest[i].len() && (#[trigger] rest[i][k]).contains(r);
                assert(shards[k].contains(r));
            }
        }
        assert(merges(left, rest[i]));
        lemma_offset_merge_is_exact(rest[i], left, merged[i], 0, limit);
        let page = window(merged[i], 0, limit);
        assert(page == window(left, 0, limit));
        let seen = scrolled(merged, limit, n);
        assert(seen =~= all.take(seen.len() as int));
    }
}

/// A scroll that ends with a page that is not full has returned every row of every shard once, in
/// order, however the rows lie on the shards.
pub proof fn lemma_scroll_is_whole(
    shards: Seq<Seq<Seq<int>>>,
    all: Seq<Seq<int>>,
    rest: Seq<Seq<Seq<Seq<int>>>>,
    merged: Seq<Seq<Seq<int>>>,
    limit: nat,
)
    requires
        limit > 0,
        merged.len() > 0,
        merges(all, shards),
        forall|i: int| 0 <= i < merged.len() ==> #[trigger] scrolls(shards, rest, merged, limit, i),
        window(merged.last(), 0, limit).len() < limit,
    ensures
        scrolled(merged, limit, merged.len() as int) == all,
{
    lemma_scrolled(shards, all, rest, merged, limit, merged.len() as int);
    assert(all.take(all.len() as int) =~= all);
}

/// Whether one of the hits at `at` has `key`.
pub open spec fn holds_key(hits: Seq<ShardHit>, at: Seq<usize>, key: Seq<u8>) -> bool {
    exists|k: int| 0 <= k < at.len() && hits[(#[trigger] at[k]) as int].key_bytes() == key
}

/// Every key that was answered is on the merged list, and no other.
pub proof fn lemma_no_document_lost(hits: Seq<ShardHit>, at: Seq<usize>, key: Seq<u8>)
    ensures
        holds_key(hits, distinct_hits(hits, at), key) <==> holds_key(hits, at, key),
    decreases at.len(),
{
    if at.len() > 0 {
        let prior = at.drop_last();
        let last = hits[at.last() as int].key_bytes();
        let before = distinct_hits(hits, prior);
        let kept = distinct_hits(hits, at);
        lemma_no_document_lost(hits, prior, key);
        lemma_no_document_lost(hits, prior, last);
        lemma_holds_pushed(hits, prior, at.last(), key);
        assert(prior.push(at.last()) =~= at);
        lemma_repeats(hits, at);
        if !holds_key(hits, prior, last) {
            lemma_holds_pushed(hits, before, at.last(), key);
        }
    }
}

proof fn lemma_holds_pushed(hits: Seq<ShardHit>, at: Seq<usize>, p: usize, key: Seq<u8>)
    ensures
        holds_key(hits, at.push(p), key) <==> holds_key(hits, at, key) || hits[p as int].key_bytes()
            == key,
{
    let more = at.push(p);
    if holds_key(hits, at, key) {
        let k = choose|k: int| 0 <= k < at.len() && hits[(#[trigger] at[k]) as int].key_bytes() == key;
        assert(more[k] == at[k]);
    }
    if hits[p as int].key_bytes() == key {
        assert(more[at.len() as int] == p);
    }
    if holds_key(hits, more, key) {
        let k = choose|k: int|
            0 <= k < more.len() && hits[(#[trigger] more[k]) as int].key_bytes() == key;
        if k < at.len() {
            assert(at[k] == more[k]);
        }
    }
}

proof fn lemma_repeats(hits: Seq<ShardHit>, at: Seq<usize>)
    requires
        at.len() > 0,
    ensures
        distinct_hits(hits, at) == (if holds_key(
            hits,
            at.drop_last(),
            hits[at.last() as int].key_bytes(),
        ) {
            distinct_hits(hits, at.drop_last())
        } else {
            distinct_hits(hits, at.drop_last()).push(at.last())
        }),
{
    let prior = at.drop_last();
    let last = hits[at.last() as int].key_bytes();
    if holds_key(hits, prior, last) {
        let k = choose|k: int|
            0 <= k < prior.len() && hits[(#[trigger] prior[k]) as int].key_bytes() == last;
        assert(hits[at[k] as int].key_bytes() == last);
    } else {
        assert forall|k: int| 0 <= k < at.len() - 1 implies hits[(
        #[trigger] at[k]) as int].key_bytes() != last by {
            assert(hits[prior[k] as int].key_bytes() != last);
        }
    }
}

/// No two hits of the merged list have the same key.
pub proof fn lemma_each_document_once(hits: Seq<ShardHit>, at: Seq<usize>, k: int, l: int)
    requires
        0 <= k < l < distinct_hits(hits, at).len(),
    ensures
        hits[distinct_hits(hits, at)[k] as int].key_bytes() != hits[distinct_hits(
            hits,
            at,
        )[l] as int].key_bytes(),
    decreases at.len(),
{
    if at.len() > 0 {
        let prior = at.drop_last();
        let before = distinct_hits(hits, prior);
        let last = hits[at.last() as int].key_bytes();
        lemma_repeats(hits, at);
        if l < before.len() {
            lemma_each_document_once(hits, prior, k, l);
        } else {
            lemma_no_document_lost(hits, prior, last);
            assert(hits[before[k] as int].key_bytes() != last);
        }
    }
}

} // verus!
