//! What collapsed pages and suggestions hold, said of the hits and texts that the shards gave.
use vstd::prelude::*;

use crate::fanout::{merge_suggest, CollapsedPage, SuggestResponse};
use crate::gateway::Gateway;
use crate::keys::{byte_ranks, lemma_lex_at, lemma_lex_total, row_first, rows_in_order};
use crate::merge::{
    all_positions, are_merged, hit_rows, is_collapsed_page, is_group_of, text_row, text_rows,
    window, ShardHit, SortKey, Suggestion,
};
use crate::merge_laws::{lemma_order_names_all, names_row};
use crate::page_laws::{
    earlier_bytes, in_sort_order, lemma_listed_in_order, lemma_one_order, lemma_rows_part_after,
    lemma_rows_tell_order,
};
use crate::status::Status;
use crate::tally::{
    leaders, lemma_leader_is_listed, lemma_leaders_differ, lemma_leaders_named, lemma_no_name_lost,
    total_of, Counted,
};

verus! {

proof fn lemma_leader_places<T: Counted>(items: Seq<T>, at: Seq<usize>, k: int, l: int) -> (p: (
    int,
    int,
))
    requires
        0 <= k < l < leaders(items, at).len(),
    ensures
        0 <= p.0 < p.1 < at.len(),
        at[p.0] == leaders(items, at)[k],
        at[p.1] == leaders(items, at)[l],
    decreases at.len(),
{
    let prior = at.drop_last();
    if l < leaders(items, prior).len() {
        lemma_leader_places(items, prior, k, l)
    } else {
        (lemma_leader_is_listed(items, prior, k), at.len() - 1)
    }
}

proof fn lemma_leader_is_first<T: Counted>(items: Seq<T>, at: Seq<usize>, p: int) -> (r: (int, int))
    requires
        0 <= p < at.len(),
        items[at[p] as int].name() is Some,
    ensures
        0 <= r.0 < leaders(items, at).len(),
        0 <= r.1 <= p,
        at[r.1] == leaders(items, at)[r.0],
        items[at[r.1] as int].name() == items[at[p] as int].name(),
    decreases at.len(),
{
    let prior = at.drop_last();
    let before = leaders(items, prior);
    let now = leaders(items, at);
    if p < prior.len() {
        let r = lemma_leader_is_first(items, prior, p);
        assert(now[r.0] == before[r.0]);
        assert(prior[r.1] == at[r.1]);
        r
    } else if exists|k: int|
        0 <= k < at.len() - 1 && items[(#[trigger] at[k]) as int].name()
            == items[at.last() as int].name() {
        let j = choose|k: int|
            0 <= k < at.len() - 1 && items[(#[trigger] at[k]) as int].name()
                == items[at.last() as int].name();
        assert(prior[j] == at[j]);
        let r = lemma_leader_is_first(items, prior, j);
        assert(prior[r.1] == at[r.1]);
        r
    } else {
        (before.len() as int, p)
    }
}

/// The counts of the hits of the group `name`, added up.
pub open spec fn added_up(hits: Seq<ShardHit>, name: Seq<char>) -> int {
    hits.fold_left(
        0int,
        |s: int, h: ShardHit|
            if h.group is Some && h.group->0@ == name {
                s + h.group_count
            } else {
                s
            },
    )
}

/// The counts that were given for `text`, added up.
pub open spec fn text_added_up(given: Seq<Suggestion>, text: Seq<char>) -> int {
    given.fold_left(
        0int,
        |s: int, g: Suggestion|
            if g.text@ == text {
                s + g.count
            } else {
                s
            },
    )
}

proof fn lemma_group_counts_fold(hits: Seq<ShardHit>, name: Seq<char>)
    ensures
        total_of(hits, name) == added_up(hits, name),
    decreases hits.len(),
{
    reveal(Seq::fold_left);
    if hits.len() > 0 {
        lemma_group_counts_fold(hits.drop_last(), name);
    }
}

proof fn lemma_text_counts_fold(given: Seq<Suggestion>, text: Seq<char>)
    ensures
        total_of(given, text) == text_added_up(given, text),
    decreases given.len(),
{
    reveal(Seq::fold_left);
    if given.len() > 0 {
        lemma_text_counts_fold(given.drop_last(), text);
    }
}

spec fn collapsed_from(
    groups: Seq<crate::merge::Group>,
    hits: Seq<ShardHit>,
    sort: Seq<SortKey>,
    limit: nat,
    at: Seq<usize>,
) -> bool {
    let page = window(leaders(hits, at), 0, limit);
    &&& rows_in_order(hit_rows(hits, sort), at)
    &&& groups.len() == page.len()
    &&& forall|k: int| 0 <= k < page.len() ==> is_group_of(#[trigger] groups[k], hits, page[k])
}

proof fn lemma_collapsed_from(
    groups: Seq<crate::merge::Group>,
    hits: Seq<ShardHit>,
    sort: Seq<SortKey>,
    limit: nat,
) -> (at: Seq<usize>)
    requires
        is_collapsed_page(groups, hits, sort, limit),
    ensures
        collapsed_from(groups, hits, sort, limit, at),
        limit == 0 ==> groups.len() == leaders(hits, at).len(),
        limit > 0 ==> groups.len() <= limit,
        limit > 0 && leaders(hits, at).len() >= limit ==> groups.len() == limit,
        groups.len() <= leaders(hits, at).len(),
        forall|k: int|
            0 <= k < groups.len() ==> #[trigger] groups[k].pick == leaders(hits, at)[k]
                && groups[k].pick < hits.len() && hits[groups[k].pick as int].group is Some
                && groups[k].count == total_of(hits, hits[groups[k].pick as int].group->0@),
{
    let at = choose|at: Seq<usize>| #[trigger]
        rows_in_order(hit_rows(hits, sort), at) && {
            let page = window(leaders(hits, at), 0, limit);
            &&& groups.len() == page.len()
            &&& forall|k: int| 0 <= k < page.len() ==> is_group_of(#[trigger] groups[k], hits, page[k])
        };
    assert forall|k: int| 0 <= k < at.len() implies (#[trigger] at[k]) < hits.len() by {}
    lemma_leaders_named(hits, at);
    let page = window(leaders(hits, at), 0, limit);
    assert forall|k: int| 0 <= k < groups.len() implies #[trigger] groups[k].pick == leaders(
        hits,
        at,
    )[k] && groups[k].pick < hits.len() && hits[groups[k].pick as int].group is Some
        && groups[k].count == total_of(hits, hits[groups[k].pick as int].group->0@) by {
        assert(is_group_of(groups[k], hits, page[k]));
        assert(page[k] == leaders(hits, at)[k]);
    }
    at
}

/// The groups of a collapsed page are different groups, in the order of their top hits, and each
/// counts the hits of its group on all shards.
pub proof fn lemma_groups_in_order(
    g: Gateway,
    hits: Vec<ShardHit>,
    answered: usize,
    asked: usize,
    sort: Vec<SortKey>,
    limit: usize,
    page: CollapsedPage,
    k: int,
    l: int,
)
    requires
        call_ensures(
            Gateway::merge_collapsed,
            (&g, &hits, answered, asked, &sort, limit),
            Ok::<CollapsedPage, Status>(page),
        ),
        0 <= k < l < page.groups@.len(),
    ensures
        hits@[page.groups@[k].pick as int].group->0@ != hits@[page.groups@[l].pick as int].group->0@,
        in_sort_order(
            hits@[page.groups@[k].pick as int],
            hits@[page.groups@[l].pick as int],
            sort@,
        ),
{
    let at = lemma_collapsed_from(page.groups@, hits@, sort@, limit as nat);
    assert(page.groups@[k].pick == leaders(hits@, at)[k]);
    assert(page.groups@[l].pick == leaders(hits@, at)[l]);
    lemma_leaders_differ(hits@, at, k, l);
    let (p, q) = lemma_leader_places(hits@, at, k, l);
    lemma_listed_in_order(hits@, sort@, at, p, q);
}

/// A group of a collapsed page is that of a hit, and its count is that of all hits of the group,
/// added up. The page's total is the number of its groups.
pub proof fn lemma_group_counts(
    g: Gateway,
    hits: Vec<ShardHit>,
    answered: usize,
    asked: usize,
    sort: Vec<SortKey>,
    limit: usize,
    page: CollapsedPage,
    k: int,
)
    requires
        call_ensures(
            Gateway::merge_collapsed,
            (&g, &hits, answered, asked, &sort, limit),
            Ok::<CollapsedPage, Status>(page),
        ),
        0 <= k < page.groups@.len(),
    ensures
        page.groups@[k].pick < hits@.len(),
        hits@[page.groups@[k].pick as int].group matches Some(name) && page.groups@[k].count
            == added_up(hits@, name@),
        page.total == page.groups@.len(),
        page.partial <==> answered < asked,
        page.shards_scanned == asked,
        page.shards_total == g.shards,
        answered > 0,
{
    let at = lemma_collapsed_from(page.groups@, hits@, sort@, limit as nat);
    assert(page.groups@[k].pick == leaders(hits@, at)[k]);
    lemma_group_counts_fold(hits@, hits@[page.groups@[k].pick as int].group->0@);
}

/// A collapsed page without a limit has every group that a shard answered with, by that of its hits
/// which comes first.
pub proof fn lemma_groups_hold_all(
    g: Gateway,
    hits: Vec<ShardHit>,
    answered: usize,
    asked: usize,
    sort: Vec<SortKey>,
    page: CollapsedPage,
    i: int,
) -> (k: int)
    requires
        call_ensures(
            Gateway::merge_collapsed,
            (&g, &hits, answered, asked, &sort, 0usize),
            Ok::<CollapsedPage, Status>(page),
        ),
        0 <= i < hits@.len(),
        hits@[i].group is Some,
    ensures
        0 <= k < page.groups@.len(),
        hits@[page.groups@[k].pick as int].group matches Some(name) && name@ == hits@[i].group->0@,
        in_sort_order(hits@[page.groups@[k].pick as int], hits@[i], sort@),
{
    let at = lemma_collapsed_from(page.groups@, hits@, sort@, 0);
    lemma_order_names_all(hit_rows(hits@, sort@), at);
    assert(names_row(at, i));
    let p = choose|p: int| 0 <= p < at.len() && #[trigger] at[p] == i;
    assert(hits@[at[p] as int].name() == Some(hits@[i].group->0@));
    let (k, first) = lemma_leader_is_first(hits@, at, p);
    assert(page.groups@[k].pick == leaders(hits@, at)[k]);
    if first < p {
        lemma_listed_in_order(hits@, sort@, at, first, p);
    } else {
        lemma_rows_tell_order(hits@[i], hits@[i], sort@);
    }
    k
}

/// A collapsed page with a limit has the first groups of the page without one, as many as there are
/// up to the limit.
pub proof fn lemma_groups_are_cut(
    g: Gateway,
    hits: Vec<ShardHit>,
    answered: usize,
    asked: usize,
    sort: Vec<SortKey>,
    limit: usize,
    page: CollapsedPage,
    whole: CollapsedPage,
)
    requires
        limit > 0,
        call_ensures(
            Gateway::merge_collapsed,
            (&g, &hits, answered, asked, &sort, limit),
            Ok::<CollapsedPage, Status>(page),
        ),
        call_ensures(
            Gateway::merge_collapsed,
            (&g, &hits, answered, asked, &sort, 0usize),
            Ok::<CollapsedPage, Status>(whole),
        ),
    ensures
        page.groups@.len() <= limit,
        page.groups@.len() == limit || page.groups@.len() == whole.groups@.len(),
        page.groups@.len() <= whole.groups@.len(),
        forall|k: int| 0 <= k < page.groups@.len() ==> #[trigger] page.groups@[k] == whole.groups@[k],
{
    let x = lemma_collapsed_from(page.groups@, hits@, sort@, limit as nat);
    let y = lemma_collapsed_from(whole.groups@, hits@, sort@, 0);
    lemma_one_order(hit_rows(hits@, sort@), x, y);
    assert forall|k: int| 0 <= k < page.groups@.len() implies #[trigger] page.groups@[k]
        == whole.groups@[k] by {
        assert(page.groups@[k].pick == leaders(hits@, x)[k]);
        assert(whole.groups@[k].pick == leaders(hits@, x)[k]);
    }
}

spec fn suggested_from(
    out: Seq<Suggestion>,
    given: Seq<Suggestion>,
    limit: nat,
    at: Seq<usize>,
) -> bool {
    let lead = leaders(given, all_positions(given.len()));
    let page = window(at, 0, limit);
    &&& rows_in_order(text_rows(given), at)
    &&& out.len() == page.len()
    &&& forall|k: int|
        0 <= k < out.len() ==> (#[trigger] out[k]).text@ == given[lead[at[k] as int] as int].text@
            && out[k].count == total_of(given, out[k].text@)
    &&& forall|k: int|
        0 <= k < lead.len() ==> (#[trigger] lead[k]) < given.len()
}

proof fn lemma_suggested_from(out: Seq<Suggestion>, given: Seq<Suggestion>, limit: nat) -> (at: Seq<
    usize,
>)
    requires
        given.len() <= usize::MAX,
        are_merged(out, given, limit),
    ensures
        suggested_from(out, given, limit, at),
{
    let lead = leaders(given, all_positions(given.len()));
    let at = choose|at: Seq<usize>| #[trigger]
        rows_in_order(text_rows(given), at) && {
            let page = window(at, 0, limit);
            &&& out.len() == page.len()
            &&& forall|k: int|
                0 <= k < page.len() ==> (#[trigger] out[k]).text@ == given[lead[page[k] as int] as int].text@
                    && out[k].count == total_of(given, out[k].text@)
        };
    let page = window(at, 0, limit);
    assert forall|k: int| 0 <= k < out.len() implies (#[trigger] out[k]).text@
        == given[lead[at[k] as int] as int].text@ && out[k].count == total_of(given, out[k].text@) by {
        assert(page[k] == at[k]);
    }
    lemma_leaders_named(given, all_positions(given.len()));
    at
}

/// Merged suggestions are different texts, the highest count first and equal counts by the bytes of
/// the text.
pub proof fn lemma_suggestions_in_order(
    given: Vec<Suggestion>,
    answered: usize,
    asked: usize,
    limit: u32,
    out: SuggestResponse,
    k: int,
    l: int,
)
    requires
        call_ensures(
            merge_suggest,
            (&given, answered, asked, limit),
            Ok::<SuggestResponse, Status>(out),
        ),
        0 <= k < l < out.suggestions@.len(),
    ensures
        out.suggestions@[k].text@ != out.suggestions@[l].text@,
        out.suggestions@[k].count > out.suggestions@[l].count || (out.suggestions@[k].count
            == out.suggestions@[l].count && earlier_bytes(
            vstd::utf8::encode_utf8(out.suggestions@[k].text@),
            vstd::utf8::encode_utf8(out.suggestions@[l].text@),
        )),
{
    let o = out.suggestions@;
    assert(given.len() == given@.len());
    let at = lemma_suggested_from(o, given@, limit as nat);
    let all = all_positions(given@.len());
    let lead = leaders(given@, all);
    let rows = text_rows(given@);
    let p = at[k] as int;
    let q = at[l] as int;
    assert(row_first(rows, at[k] as int, at[l] as int));
    assert(at[k] < rows.len() && at[l] < rows.len());
    lemma_lex_total(rows[p], rows[p]);
    assert(p != q);
    if p < q {
        lemma_leaders_differ(given@, all, p, q);
    } else {
        lemma_leaders_differ(given@, all, q, p);
    }
    let a = o[k].text@;
    let b = o[l].text@;
    assert(rows[p] == text_row(given@, a));
    assert(rows[q] == text_row(given@, b));
    let x = text_row(given@, a);
    let y = text_row(given@, b);
    assert(x[0] == -o[k].count && y[0] == -o[l].count);
    lemma_lex_at(x, y, 0);
    if o[k].count == o[l].count {
        if x == y {
            lemma_same_text(x, a, b);
        }
        lemma_rows_part_after(
            seq![-o[k].count],
            vstd::utf8::encode_utf8(a),
            seq![-o[l].count],
            vstd::utf8::encode_utf8(b),
        );
    }
}

proof fn lemma_same_text(row: Seq<int>, a: Seq<char>, b: Seq<char>)
    requires
        row.len() > 0,
        row == seq![row[0]] + byte_ranks(vstd::utf8::encode_utf8(a)),
        row == seq![row[0]] + byte_ranks(vstd::utf8::encode_utf8(b)),
    ensures
        a == b,
{
    let x = vstd::utf8::encode_utf8(a);
    let y = vstd::utf8::encode_utf8(b);
    assert forall|j: int| 0 <= j < x.len() implies x[j] == y[j] by {
        assert(row[1 + j] == x[j] as int);
        assert(row[1 + j] == y[j] as int);
    }
    assert(x =~= y);
    vstd::utf8::encode_utf8_decode_utf8(a);
    vstd::utf8::encode_utf8_decode_utf8(b);
}

/// A suggestion is a text that a shard gave, and its count is that of all shards, added up.
pub proof fn lemma_suggestion_counts(
    given: Vec<Suggestion>,
    answered: usize,
    asked: usize,
    limit: u32,
    out: SuggestResponse,
    k: int,
) -> (i: int)
    requires
        call_ensures(
            merge_suggest,
            (&given, answered, asked, limit),
            Ok::<SuggestResponse, Status>(out),
        ),
        0 <= k < out.suggestions@.len(),
    ensures
        0 <= i < given@.len(),
        given@[i].text@ == out.suggestions@[k].text@,
        out.suggestions@[k].count == text_added_up(given@, out.suggestions@[k].text@),
        out.failed_shards + answered == asked,
        answered > 0,
{
    assert(given.len() == given@.len());
    let at = lemma_suggested_from(out.suggestions@, given@, limit as nat);
    let lead = leaders(given@, all_positions(given@.len()));
    lemma_text_counts_fold(given@, out.suggestions@[k].text@);
    assert(at[k] < text_rows(given@).len());
    lead[at[k] as int] as int
}

/// Suggestions without a limit have every text that a shard gave.
pub proof fn lemma_suggestions_hold_all(
    given: Vec<Suggestion>,
    answered: usize,
    asked: usize,
    out: SuggestResponse,
    i: int,
) -> (k: int)
    requires
        call_ensures(
            merge_suggest,
            (&given, answered, asked, 0u32),
            Ok::<SuggestResponse, Status>(out),
        ),
        0 <= i < given@.len(),
    ensures
        0 <= k < out.suggestions@.len(),
        out.suggestions@[k].text@ == given@[i].text@,
{
    assert(given.len() == given@.len());
    let at = lemma_suggested_from(out.suggestions@, given@, 0);
    let all = all_positions(given@.len());
    let lead = leaders(given@, all);
    let n = lemma_no_name_lost(given@, all, i);
    lemma_order_names_all(text_rows(given@), at);
    assert(names_row(at, n));
    let k = choose|k: int| 0 <= k < at.len() && #[trigger] at[k] == n;
    assert(out.suggestions@[k].text@ == given@[lead[n] as int].text@);
    assert(given@[lead[n] as int].name() == given@[all[i] as int].name());
    k
}

/// Suggestions with a limit are the first of those without one, as many as there are up to the
/// limit.
pub proof fn lemma_suggestions_are_cut(
    given: Vec<Suggestion>,
    answered: usize,
    asked: usize,
    limit: u32,
    out: SuggestResponse,
    whole: SuggestResponse,
)
    requires
        limit > 0,
        call_ensures(
            merge_suggest,
            (&given, answered, asked, limit),
            Ok::<SuggestResponse, Status>(out),
        ),
        call_ensures(
            merge_suggest,
            (&given, answered, asked, 0u32),
            Ok::<SuggestResponse, Status>(whole),
        ),
    ensures
        out.suggestions@.len() <= limit,
        out.suggestions@.len() == limit || out.suggestions@.len() == whole.suggestions@.len(),
        out.suggestions@.len() <= whole.suggestions@.len(),
        forall|k: int|
            0 <= k < out.suggestions@.len() ==> (#[trigger] out.suggestions@[k]).text@
                == whole.suggestions@[k].text@ && out.suggestions@[k].count
                == whole.suggestions@[k].count,
{
    assert(given.len() == given@.len());
    let x = lemma_suggested_from(out.suggestions@, given@, limit as nat);
    let y = lemma_suggested_from(whole.suggestions@, given@, 0);
    lemma_one_order(text_rows(given@), x, y);
}

} // verus!
