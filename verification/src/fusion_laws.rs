//! What fused lists hold, said of the ranked lists that they are fused from.
use vstd::prelude::*;
use vstd::seq_lib::*;

use crate::error::EngineError;
use crate::fusion::{
    best_fused, field_at, first_display, fuse, fused_row, fused_rows, hit_at, hybrid_depths,
    is_fused, is_place, keys_to_hydrate, lemma_fused_keys_differ, lemma_no_hit_lost, openings,
    opens, places, plan_hybrid, plan_semantic, ranks_of, semantic_depth, tenant_filter,
    vector_source, FieldSpec, FusedDoc, HybridPlan, Place, RankedHit, SemanticPlan,
};
use crate::keys::{lemma_lex_at, lemma_lex_total, row_first, rows_in_order, ByteKey};
use crate::merge_laws::{lemma_order_names_all, names_row};
use crate::page_laws::{earlier_bytes, lemma_rows_part_after};

verus! {

/// Whether place `a` is met before place `b`: in an earlier list, or at a lower rank of the same.
pub open spec fn met_before(a: Place, b: Place) -> bool {
    a.list < b.list || (a.list == b.list && a.rank < b.rank)
}

/// The key at rank `r` of list `l`.
pub open spec fn key_at(lists: Seq<Vec<RankedHit>>, l: int, r: int) -> Seq<u8> {
    lists[l]@[r].key.bytes@
}

/// In how many lists the document `key` stands at rank `r`.
pub open spec fn times_at(lists: Seq<Vec<RankedHit>>, key: Seq<u8>, r: usize) -> int {
    lists.fold_left(
        0int,
        |s: int, list: Vec<RankedHit>|
            if r < list@.len() && list@[r as int].key.bytes@ == key {
                s + 1
            } else {
                s
            },
    )
}

spec fn sized(lists: Seq<Vec<RankedHit>>) -> bool {
    &&& lists.len() <= usize::MAX
    &&& forall|l: int| 0 <= l < lists.len() ==> (#[trigger] lists[l])@.len() <= usize::MAX
}

proof fn lemma_sized(lists: Vec<Vec<RankedHit>>)
    ensures
        sized(lists@),
{
    assert(lists.len() == lists@.len());
    assert forall|l: int| 0 <= l < lists@.len() implies (#[trigger] lists@[l])@.len()
        <= usize::MAX by {
        assert(lists@[l].len() == lists@[l]@.len());
    }
}

proof fn lemma_places(lists: Seq<Vec<RankedHit>>, n: int)
    requires
        sized(lists),
        0 <= n <= lists.len(),
    ensures
        forall|i: int|
            0 <= i < places(lists, n).len() ==> (#[trigger] places(lists, n)[i]).list < n
                && is_place(lists, places(lists, n)[i]),
        forall|i: int, j: int|
            0 <= i < j < places(lists, n).len() ==> met_before(
                #[trigger] places(lists, n)[i],
                #[trigger] places(lists, n)[j],
            ),
    decreases n,
{
    if n > 0 {
        lemma_places(lists, n - 1);
        let before = places(lists, n - 1);
        let now = places(lists, n);
        assert forall|i: int| 0 <= i < now.len() implies (#[trigger] now[i]).list < n && is_place(
            lists,
            now[i],
        ) by {
            if i < before.len() {
                assert(now[i] == before[i]);
            }
        }
        assert forall|i: int, j: int| 0 <= i < j < now.len() implies met_before(
            #[trigger] now[i],
            #[trigger] now[j],
        ) by {
            if j < before.len() {
                assert(met_before(before[i], before[j]));
            } else if i < before.len() {
                assert(before[i].list < n - 1);
            }
        }
    }
}

proof fn lemma_place_listed(lists: Seq<Vec<RankedHit>>, n: int, p: Place) -> (i: int)
    requires
        sized(lists),
        0 <= n <= lists.len(),
        is_place(lists, p),
        p.list < n,
    ensures
        0 <= i < places(lists, n).len(),
        places(lists, n)[i] == p,
    decreases n,
{
    let before = places(lists, n - 1);
    if p.list < n - 1 {
        lemma_place_listed(lists, n - 1, p)
    } else {
        before.len() + p.rank
    }
}

proof fn lemma_ranks(lists: Seq<Vec<RankedHit>>, at: Seq<Place>, key: Seq<u8>, n: int) -> (idx: Seq<
    int,
>)
    requires
        0 <= n <= at.len(),
    ensures
        idx.len() == ranks_of(lists, at, key, n).len(),
        forall|j: int|
            0 <= j < idx.len() ==> 0 <= #[trigger] idx[j] < n && at[idx[j]].rank == ranks_of(
                lists,
                at,
                key,
                n,
            )[j] && hit_at(lists, at[idx[j]]).key.bytes@ == key,
        forall|i: int, j: int| 0 <= i < j < idx.len() ==> #[trigger] idx[i] < #[trigger] idx[j],
        forall|i: int|
            0 <= i < n && hit_at(lists, #[trigger] at[i]).key.bytes@ == key ==> idx.contains(i),
    decreases n,
{
    if n <= 0 {
        Seq::empty()
    } else {
        let before = lemma_ranks(lists, at, key, n - 1);
        if hit_at(lists, at[n - 1]).key.bytes@ == key {
            let idx = before.push(n - 1);
            assert forall|i: int|
                0 <= i < n && hit_at(lists, #[trigger] at[i]).key.bytes@
                    == key implies idx.contains(i) by {
                if i < n - 1 {
                    assert(before.contains(i));
                    let j = choose|j: int| 0 <= j < before.len() && before[j] == i;
                    assert(idx[j] == i);
                } else {
                    assert(idx[before.len() as int] == i);
                }
            }
            assert forall|j: int| 0 <= j < idx.len() implies 0 <= #[trigger] idx[j] < n
                && at[idx[j]].rank == ranks_of(lists, at, key, n)[j] && hit_at(
                lists,
                at[idx[j]],
            ).key.bytes@ == key by {
                if j < before.len() {
                    assert(idx[j] == before[j]);
                }
            }
            idx
        } else {
            before
        }
    }
}

proof fn lemma_ranks_agree(
    lists: Seq<Vec<RankedHit>>,
    a: Seq<Place>,
    b: Seq<Place>,
    key: Seq<u8>,
    n: int,
)
    requires
        0 <= n <= a.len(),
        n <= b.len(),
        forall|i: int| 0 <= i < n ==> a[i] == b[i],
    ensures
        ranks_of(lists, a, key, n) == ranks_of(lists, b, key, n),
    decreases n,
{
    if n > 0 {
        lemma_ranks_agree(lists, a, b, key, n - 1);
    }
}

proof fn lemma_counts_of_list(
    lists: Seq<Vec<RankedHit>>,
    n: int,
    key: Seq<u8>,
    r: usize,
    m: int,
)
    requires
        sized(lists),
        0 < n <= lists.len(),
        0 <= m <= lists[n - 1]@.len(),
    ensures
        ({
            let at = places(lists, n);
            let base = places(lists, n - 1).len() as int;
            ranks_of(lists, at, key, base + m).to_multiset().count(r) == ranks_of(
                lists,
                at,
                key,
                base,
            ).to_multiset().count(r) + (if r < m && key_at(lists, n - 1, r as int) == key {
                1int
            } else {
                0
            })
        }),
    decreases m,
{
    broadcast use group_to_multiset_ensures;

    if m > 0 {
        lemma_counts_of_list(lists, n, key, r, m - 1);
        let at = places(lists, n);
        let base = places(lists, n - 1).len() as int;
        assert(at[base + m - 1] == (Place { list: (n - 1) as usize, rank: (m - 1) as usize }));
        let prior = ranks_of(lists, at, key, base + m - 1);
        if key_at(lists, n - 1, m - 1) == key {
            assert(ranks_of(lists, at, key, base + m) == prior.push((m - 1) as usize));
            assert(prior.push((m - 1) as usize).to_multiset() =~= prior.to_multiset().insert(
                (m - 1) as usize,
            ));
        }
    }
}

proof fn lemma_counts(lists: Seq<Vec<RankedHit>>, n: int, key: Seq<u8>, r: usize)
    requires
        sized(lists),
        0 <= n <= lists.len(),
    ensures
        ranks_of(lists, places(lists, n), key, places(lists, n).len() as int).to_multiset().count(r)
            == times_at(lists.take(n), key, r),
    decreases n,
{
    broadcast use group_to_multiset_ensures;

    reveal(Seq::fold_left);
    if n > 0 {
        lemma_counts(lists, n - 1, key, r);
        let at = places(lists, n);
        let before = places(lists, n - 1);
        let base = before.len() as int;
        let m = lists[n - 1]@.len() as int;
        lemma_counts_of_list(lists, n, key, r, m);
        lemma_ranks_agree(lists, at, before, key, base);
        assert(lists.take(n).drop_last() =~= lists.take(n - 1));
        assert(at.len() == base + m);
    } else {
        assert(lists.take(0) =~= Seq::empty());
    }
}

proof fn lemma_display(lists: Seq<Vec<RankedHit>>, at: Seq<Place>, key: Seq<u8>, n: int)
    requires
        0 <= n <= at.len(),
    ensures
        match first_display(lists, at, key, n) {
            Some(p) => exists|i: int|
                0 <= i < n && #[trigger] at[i] == p && hit_at(lists, p).displays && hit_at(
                    lists,
                    p,
                ).key.bytes@ == key && forall|j: int|
                    0 <= j < i && hit_at(lists, #[trigger] at[j]).key.bytes@ == key ==> !hit_at(
                        lists,
                        at[j],
                    ).displays,
            None => forall|j: int|
                0 <= j < n && hit_at(lists, #[trigger] at[j]).key.bytes@ == key ==> !hit_at(
                    lists,
                    at[j],
                ).displays,
        },
    decreases n,
{
    if n > 0 {
        lemma_display(lists, at, key, n - 1);
        if first_display(lists, at, key, n - 1) is None && first_display(lists, at, key, n) is Some {
            assert(at[n - 1] == first_display(lists, at, key, n)->0);
        }
    }
}

proof fn lemma_opening(lists: Seq<Vec<RankedHit>>, at: Seq<Place>, n: int, k: int)
    requires
        0 <= n <= at.len() <= usize::MAX,
        0 <= k < openings(lists, at, n).len(),
    ensures
        openings(lists, at, n)[k] < n,
        opens(lists, at, openings(lists, at, n)[k] as int),
    decreases n,
{
    if k < openings(lists, at, n - 1).len() {
        lemma_opening(lists, at, n - 1, k);
    }
}

spec fn all_places_of(lists: Seq<Vec<RankedHit>>) -> Seq<Place> {
    places(lists, lists.len() as int)
}

spec fn met(lists: Seq<Vec<RankedHit>>) -> Seq<usize> {
    openings(lists, all_places_of(lists), all_places_of(lists).len() as int)
}

/// A fused document has the ranks at which its key stands in the lists, list by list and each once:
/// those of `stands`, which holds every place of its key, and it is shown by one of them.
pub proof fn lemma_fused_ranks(lists: Vec<Vec<RankedHit>>, docs: Vec<FusedDoc>, d: int) -> (stands: Seq<
    Place,
>)
    requires
        call_ensures(fuse, (&lists,), docs),
        0 <= d < docs@.len(),
    ensures
        stands.len() == docs@[d].ranks@.len(),
        stands.len() > 0,
        forall|j: int|
            0 <= j < stands.len() ==> #[trigger] stands[j].rank == docs@[d].ranks@[j]
                && stands[j].list < lists@.len() && stands[j].rank
                < lists@[stands[j].list as int]@.len(),
        forall|i: int, j: int|
            0 <= i < j < stands.len() ==> met_before(#[trigger] stands[i], #[trigger] stands[j]),
        stands.contains(docs@[d].shown_by),
        forall|l: int, r: int|
            0 <= l < lists@.len() && 0 <= r < lists@[l]@.len() ==> (#[trigger] key_at(lists@, l, r)
                == key_at(
                lists@,
                docs@[d].shown_by.list as int,
                docs@[d].shown_by.rank as int,
            ) <==> stands.contains(Place { list: l as usize, rank: r as usize })),
{
    lemma_sized(lists);
    let at = all_places_of(lists@);
    let n = at.len() as int;
    let first = met(lists@);
    lemma_places(lists@, lists@.len() as int);
    let open = at[first[d] as int];
    lemma_opening(lists@, at, n, d);
    let key = hit_at(lists@, open).key.bytes@;
    assert(is_fused(docs@[d], lists@, at, open));
    let idx = lemma_ranks(lists@, at, key, n);
    lemma_display(lists@, at, key, n);
    let stands = Seq::new(idx.len(), |j: int| at[idx[j]]);
    assert forall|j: int| 0 <= j < stands.len() implies #[trigger] stands[j].rank
        == docs@[d].ranks@[j] && stands[j].list < lists@.len() && stands[j].rank
        < lists@[stands[j].list as int]@.len() by {
        assert(is_place(lists@, at[idx[j]]));
    }
    assert forall|i: int, j: int| 0 <= i < j < stands.len() implies met_before(
        #[trigger] stands[i],
        #[trigger] stands[j],
    ) by {
        assert(idx[i] < idx[j]);
        assert(met_before(at[idx[i]], at[idx[j]]));
    }
    assert forall|p: Place| #[trigger] stands.contains(p) <==> is_place(lists@, p) && hit_at(
        lists@,
        p,
    ).key.bytes@ == key by {
        if stands.contains(p) {
            let j = choose|j: int| 0 <= j < stands.len() && stands[j] == p;
            assert(hit_at(lists@, at[idx[j]]).key.bytes@ == key);
        }
        if is_place(lists@, p) && hit_at(lists@, p).key.bytes@ == key {
            let i = lemma_place_listed(lists@, lists@.len() as int, p);
            assert(hit_at(lists@, at[i]).key.bytes@ == key);
            assert(idx.contains(i));
            let j = choose|j: int| 0 <= j < idx.len() && idx[j] == i;
            assert(stands[j] == p);
        }
    }
    assert(is_place(lists@, open));
    let shown = docs@[d].shown_by;
    assert(is_place(lists@, shown) && hit_at(lists@, shown).key.bytes@ == key);
    assert(stands.contains(shown));
    assert forall|l: int, r: int| 0 <= l < lists@.len() && 0 <= r < lists@[l]@.len() implies (
    #[trigger] key_at(lists@, l, r) == key_at(
        lists@,
        docs@[d].shown_by.list as int,
        docs@[d].shown_by.rank as int,
    ) <==> stands.contains(Place { list: l as usize, rank: r as usize })) by {
        let p = Place { list: l as usize, rank: r as usize };
        assert(hit_at(lists@, p).key.bytes@ == key_at(lists@, l, r));
        assert(is_place(lists@, p));
    }
    stands
}

/// A rank stands among those of a fused document as often as the document stands at that rank of a
/// list.
pub proof fn lemma_fused_rank_counts(
    lists: Vec<Vec<RankedHit>>,
    docs: Vec<FusedDoc>,
    d: int,
    r: usize,
)
    requires
        call_ensures(fuse, (&lists,), docs),
        0 <= d < docs@.len(),
    ensures
        docs@[d].ranks@.to_multiset().count(r) == times_at(
            lists@,
            key_at(lists@, docs@[d].shown_by.list as int, docs@[d].shown_by.rank as int),
            r,
        ),
{
    lemma_sized(lists);
    let at = all_places_of(lists@);
    let n = at.len() as int;
    lemma_places(lists@, lists@.len() as int);
    let open = at[met(lists@)[d] as int];
    lemma_opening(lists@, at, n, d);
    let key = hit_at(lists@, open).key.bytes@;
    assert(is_fused(docs@[d], lists@, at, open));
    lemma_display(lists@, at, key, n);
    lemma_counts(lists@, lists@.len() as int, key, r);
    assert(lists@.take(lists@.len() as int) =~= lists@);
}

/// Every hit of every list belongs to a fused document, which has its rank.
pub proof fn lemma_every_hit_is_fused(
    lists: Vec<Vec<RankedHit>>,
    docs: Vec<FusedDoc>,
    l: int,
    r: int,
) -> (d: int)
    requires
        call_ensures(fuse, (&lists,), docs),
        0 <= l < lists@.len(),
        0 <= r < lists@[l]@.len(),
    ensures
        0 <= d < docs@.len(),
        key_at(lists@, docs@[d].shown_by.list as int, docs@[d].shown_by.rank as int) == key_at(
            lists@,
            l,
            r,
        ),
        docs@[d].ranks@.contains(r as usize),
{
    lemma_sized(lists);
    let at = all_places_of(lists@);
    let n = at.len() as int;
    let p = Place { list: l as usize, rank: r as usize };
    assert(is_place(lists@, p));
    let i = lemma_place_listed(lists@, lists@.len() as int, p);
    let d = lemma_no_hit_lost(lists@, at, n, i);
    let stands = lemma_fused_ranks(lists, docs, d);
    lemma_opening(lists@, at, n, d);
    lemma_places(lists@, lists@.len() as int);
    let open = at[met(lists@)[d] as int];
    assert(is_fused(docs@[d], lists@, at, open));
    lemma_display(lists@, at, hit_at(lists@, open).key.bytes@, n);
    assert(hit_at(lists@, p).key.bytes@ == key_at(lists@, l, r));
    assert(key_at(lists@, l, r) == key_at(
        lists@,
        docs@[d].shown_by.list as int,
        docs@[d].shown_by.rank as int,
    ));
    assert(stands.contains(p));
    let j = choose|j: int| 0 <= j < stands.len() && stands[j] == p;
    assert(docs@[d].ranks@[j] == r as usize);
    d
}

/// A fused document is shown by the first of its hits that can show it, or by its first hit where
/// none can.
pub proof fn lemma_fused_is_shown(
    lists: Vec<Vec<RankedHit>>,
    docs: Vec<FusedDoc>,
    d: int,
    l: int,
    r: int,
)
    requires
        call_ensures(fuse, (&lists,), docs),
        0 <= d < docs@.len(),
        0 <= l < lists@.len(),
        0 <= r < lists@[l]@.len(),
        key_at(lists@, l, r) == key_at(
            lists@,
            docs@[d].shown_by.list as int,
            docs@[d].shown_by.rank as int,
        ),
    ensures
        lists@[l]@[r].displays
            ==> lists@[docs@[d].shown_by.list as int]@[docs@[d].shown_by.rank as int].displays,
        met_before(Place { list: l as usize, rank: r as usize }, docs@[d].shown_by)
            ==> !lists@[l]@[r].displays
            && lists@[docs@[d].shown_by.list as int]@[docs@[d].shown_by.rank as int].displays,
{
    lemma_sized(lists);
    let at = all_places_of(lists@);
    let n = at.len() as int;
    lemma_places(lists@, lists@.len() as int);
    let f = met(lists@)[d] as int;
    lemma_opening(lists@, at, n, d);
    let open = at[f];
    let key = hit_at(lists@, open).key.bytes@;
    assert(is_fused(docs@[d], lists@, at, open));
    lemma_display(lists@, at, key, n);
    let p = Place { list: l as usize, rank: r as usize };
    assert(is_place(lists@, p));
    let i = lemma_place_listed(lists@, lists@.len() as int, p);
    assert(hit_at(lists@, at[i]) == lists@[l]@[r]);
    let shown = docs@[d].shown_by;
    assert(hit_at(lists@, shown) == lists@[shown.list as int]@[shown.rank as int]);
    assert(hit_at(lists@, at[i]).key.bytes@ == key);
    if first_display(lists@, at, key, n) is None {
        assert(!hit_at(lists@, at[i]).displays);
        if i < f {
            assert(hit_at(lists@, at[i]).key.bytes@ != hit_at(lists@, at[f]).key.bytes@);
        } else if f < i {
            assert(met_before(at[f], at[i]));
        }
    } else {
        let s = choose|s: int|
            0 <= s < n && #[trigger] at[s] == shown && hit_at(lists@, shown).displays && hit_at(
                lists@,
                shown,
            ).key.bytes@ == key && forall|j: int|
                0 <= j < s && hit_at(lists@, #[trigger] at[j]).key.bytes@ == key ==> !hit_at(
                    lists@,
                    at[j],
                ).displays;
        if s < i {
            assert(met_before(at[s], at[i]));
        }
    }
}

/// Fused documents are different documents.
pub proof fn lemma_fused_once(lists: Vec<Vec<RankedHit>>, docs: Vec<FusedDoc>, d: int, e: int)
    requires
        call_ensures(fuse, (&lists,), docs),
        0 <= d < e < docs@.len(),
    ensures
        key_at(lists@, docs@[d].shown_by.list as int, docs@[d].shown_by.rank as int) != key_at(
            lists@,
            docs@[e].shown_by.list as int,
            docs@[e].shown_by.rank as int,
        ),
{
    let at = all_places_of(lists@);
    let n = at.len() as int;
    lemma_fused_keys_differ(lists@, at, n, d, e);
    let a = at[met(lists@)[d] as int];
    let b = at[met(lists@)[e] as int];
    assert(is_fused(docs@[d], lists@, at, a));
    assert(is_fused(docs@[e], lists@, at, b));
    lemma_display(lists@, at, hit_at(lists@, a).key.bytes@, n);
    lemma_display(lists@, at, hit_at(lists@, b).key.bytes@, n);
}

/// The best fused documents come by falling score and then by key, each once, and none that is left
/// out is before one of them.
pub proof fn lemma_best_first(
    scores: Vec<i64>,
    keys: Vec<ByteKey>,
    limit: usize,
    picks: Vec<usize>,
    k: int,
    i: int,
)
    requires
        call_ensures(best_fused, (&scores, &keys, limit), picks),
        scores@.len() == keys@.len(),
        0 <= k < picks@.len(),
        0 <= i < scores@.len(),
        forall|j: int| 0 <= j <= k ==> #[trigger] picks@[j] != i,
    ensures
        picks@[k] < scores@.len(),
        picks@.len() == if limit < scores@.len() {
            limit as int
        } else {
            scores@.len() as int
        },
        scores@[picks@[k] as int] > scores@[i] || (scores@[picks@[k] as int] == scores@[i] && (
        keys@[picks@[k] as int].bytes@ == keys@[i].bytes@ || earlier_bytes(
            keys@[picks@[k] as int].bytes@,
            keys@[i].bytes@,
        ))),
{
    let rows = fused_rows(scores@, keys@);
    let at = choose|at: Seq<usize>| #[trigger]
        rows_in_order(rows, at) && picks@ == at.take(
            if limit < at.len() {
                limit as int
            } else {
                at.len() as int
            },
        );
    lemma_order_names_all(rows, at);
    assert(names_row(at, i));
    let p = choose|p: int| 0 <= p < at.len() && #[trigger] at[p] == i;
    if p <= k {
        assert(picks@[p] == i);
    }
    let a = at[k] as int;
    assert(picks@[k] == a);
    assert(row_first(rows, at[k] as int, at[p] as int));
    let x = rows[a];
    let y = rows[i];
    lemma_lex_total(x, x);
    lemma_lex_at(x, y, 0);
    assert(x == fused_row(scores@[a], keys@[a].bytes@));
    assert(y == fused_row(scores@[i], keys@[i].bytes@));
    assert(x[0] == -scores@[a] && y[0] == -scores@[i]);
    if scores@[a] == scores@[i] {
        if x == y {
            assert forall|j: int| 0 <= j < keys@[a].bytes@.len() implies keys@[a].bytes@[j]
                == keys@[i].bytes@[j] by {
                assert(x[1 + j] == keys@[a].bytes@[j] as int);
                assert(y[1 + j] == keys@[i].bytes@[j] as int);
            }
            assert(x.len() == 1 + keys@[a].bytes@.len());
            assert(y.len() == 1 + keys@[i].bytes@.len());
            assert(keys@[a].bytes@ =~= keys@[i].bytes@);
        } else {
            lemma_rows_part_after(
                seq![-scores@[a]],
                keys@[a].bytes@,
                seq![-scores@[i]],
                keys@[i].bytes@,
            );
        }
    }
}

/// A search of a tenant-scoped index stays in the caller's tenant, in each of its arms, or is
/// refused; it fetches at least what was asked for.
pub proof fn lemma_searches_stay_in_the_tenant(
    index: &str,
    fields: Vec<FieldSpec>,
    path: &str,
    field: &str,
    claim: Option<&str>,
    k: usize,
    rerank: bool,
    rerank_top_k: usize,
    s: Result<SemanticPlan, EngineError>,
    h: Result<HybridPlan, EngineError>,
)
    requires
        call_ensures(
            plan_semantic,
            (index, &fields, path, Some(field), claim, k, rerank, rerank_top_k),
            s,
        ),
        call_ensures(
            plan_hybrid,
            (index, &fields, path, Some(field), claim, k, rerank, rerank_top_k),
            h,
        ),
    ensures
        claim is None ==> s is Err && h is Err,
        s matches Ok(p) ==> p.vector.tenant matches Some(t) && t.0@ == field@ && t.1@
            == claim->0@,
        h matches Ok(p) ==> p.lexical.tenant matches Some(t) && t.0@ == field@ && t.1@ == claim->0@,
        h matches Ok(p) ==> p.vector.tenant matches Some(t) && t.0@ == field@ && t.1@ == claim->0@,
        s matches Ok(p) ==> p.vector.depth >= k && (rerank ==> p.vector.depth >= rerank_top_k),
        h matches Ok(p) ==> p.lexical.depth >= 2 * k && p.lexical.depth >= 20 && p.vector.depth
            >= p.lexical.depth && (rerank ==> p.vector.depth >= rerank_top_k),
{
}

/// A search by vectors names a field that holds some: one of the index's fields at that path, whose
/// vectors are made from the field that hits are reranked by.
pub proof fn lemma_vectors_have_a_source(
    index: &str,
    fields: Vec<FieldSpec>,
    path: &str,
    tenant_field: Option<&str>,
    claim: Option<&str>,
    k: usize,
    rerank: bool,
    rerank_top_k: usize,
    plan: SemanticPlan,
)
    requires
        call_ensures(
            plan_semantic,
            (index, &fields, path, tenant_field, claim, k, rerank, rerank_top_k),
            Ok::<SemanticPlan, EngineError>(plan),
        ),
    ensures
        exists|i: int|
            0 <= i < fields@.len() && (#[trigger] fields@[i]).path@ == path@
                && (fields@[i].vector_source matches Some(s) && s@ == plan.source_field@),
{
    lemma_field_found(fields@, path@);
}

proof fn lemma_field_found(fields: Seq<FieldSpec>, path: Seq<char>)
    ensures
        match crate::fusion::field_at(fields, path) {
            Some(f) => exists|i: int|
                0 <= i < fields.len() && #[trigger] fields[i] == f && f.path@ == path,
            None => forall|i: int| 0 <= i < fields.len() ==> (#[trigger] fields[i]).path@ != path,
        },
    decreases fields.len(),
{
    if fields.len() > 0 {
        let rest = fields.drop_first();
        if fields[0].path@ == path {
            assert(fields[0] == crate::fusion::field_at(fields, path)->0);
        } else {
            lemma_field_found(rest, path);
            match crate::fusion::field_at(fields, path) {
                Some(f) => {
                    let i = choose|i: int|
                        0 <= i < rest.len() && #[trigger] rest[i] == f && f.path@ == path;
                    assert(fields[i + 1] == f);
                },
                None => {
                    assert forall|i: int| 0 <= i < fields.len() implies (
                    #[trigger] fields[i]).path@ != path by {
                        if i > 0 {
                            assert(rest[i - 1].path@ != path);
                        }
                    }
                },
            }
        }
    }
}

/// The vectors of a field are made from what the first field of that name says; a field that is not
/// there, or holds no vectors, is refused.
pub proof fn lemma_vectors_are_made_from(
    fields: Vec<FieldSpec>,
    path: &str,
    r: Result<String, EngineError>,
    i: int,
)
    requires
        call_ensures(vector_source, (&fields, path), r),
    ensures
        r matches Err(e) ==> (e matches EngineError::NotVectorField(p) && p@ == path@),
        0 <= i < fields@.len() && fields@[i].path@ == path@ && (forall|j: int|
            0 <= j < i ==> (#[trigger] fields@[j]).path@ != path@) ==> match fields@[i].vector_source {
            Some(s) => r matches Ok(t) && t@ == s@,
            None => r is Err,
        },
        (forall|j: int| 0 <= j < fields@.len() ==> (#[trigger] fields@[j]).path@ != path@)
            ==> r is Err,
{
    if 0 <= i < fields@.len() && fields@[i].path@ == path@ && (forall|j: int|
        0 <= j < i ==> (#[trigger] fields@[j]).path@ != path@) {
        lemma_field_is_first(fields@, path@, i);
    }
    if forall|j: int| 0 <= j < fields@.len() ==> (#[trigger] fields@[j]).path@ != path@ {
        lemma_field_absent(fields@, path@);
    }
}

proof fn lemma_field_is_first(fields: Seq<FieldSpec>, path: Seq<char>, i: int)
    requires
        0 <= i < fields.len(),
        fields[i].path@ == path,
        forall|j: int| 0 <= j < i ==> (#[trigger] fields[j]).path@ != path,
    ensures
        field_at(fields, path) == Some(fields[i]),
    decreases i,
{
    if i > 0 {
        assert(fields[0].path@ != path);
        let rest = fields.drop_first();
        assert forall|j: int| 0 <= j < i - 1 implies (#[trigger] rest[j]).path@ != path by {
            assert(fields[j + 1].path@ != path);
        }
        lemma_field_is_first(rest, path, i - 1);
    }
}

proof fn lemma_field_absent(fields: Seq<FieldSpec>, path: Seq<char>)
    requires
        forall|j: int| 0 <= j < fields.len() ==> (#[trigger] fields[j]).path@ != path,
    ensures
        field_at(fields, path) is None,
    decreases fields.len(),
{
    if fields.len() > 0 {
        assert(fields[0].path@ != path);
        let rest = fields.drop_first();
        assert forall|j: int| 0 <= j < rest.len() implies (#[trigger] rest[j]).path@ != path by {
            assert(fields[j + 1].path@ != path);
        }
        lemma_field_absent(rest, path);
    }
}

/// A search of a tenant-scoped index is filtered by the caller's tenant, and refused where the caller
/// has none; a search of any other is not filtered.
pub proof fn lemma_tenant_is_filtered_by(
    index: &str,
    tenant_field: Option<&str>,
    claim: Option<&str>,
    r: Result<Option<(String, String)>, EngineError>,
)
    requires
        call_ensures(tenant_filter, (index, tenant_field, claim), r),
    ensures
        tenant_field is None ==> (r matches Ok(f) && f is None),
        tenant_field is Some && claim is None ==> r is Err,
        tenant_field is Some && claim is Some ==> (r matches Ok(Some(f)) && f.0@ == tenant_field->0@
            && f.1@ == claim->0@),
{
}

/// A search fetches at least the hits that it is for, and all that are reranked. A hybrid one fetches
/// at least twice as many for each list, and twenty at least.
pub proof fn lemma_enough_is_fetched(
    k: usize,
    rerank: bool,
    top: usize,
    n: usize,
    d: (usize, usize),
)
    requires
        call_ensures(semantic_depth, (k, rerank, top), n),
        call_ensures(hybrid_depths, (k, rerank, top), d),
        k * 2 <= usize::MAX,
    ensures
        n >= k,
        rerank ==> n >= top,
        n == k || (rerank && n == top),
        d.0 >= 2 * k && d.0 >= 20 && (d.0 == 2 * k || d.0 == 20),
        d.1 >= d.0,
        rerank ==> d.1 >= top,
        d.1 == d.0 || (rerank && d.1 == top),
{
}

/// Rows are looked up for every hit where they are asked for, and for none where they are not.
pub proof fn lemma_rows_are_looked_up(
    hits: Vec<ByteKey>,
    hydrate: bool,
    keys: Option<Vec<ByteKey>>,
)
    requires
        call_ensures(keys_to_hydrate, (hits, hydrate), keys),
    ensures
        keys is Some <==> hydrate,
        keys matches Some(k) ==> k@ == hits@,
{
}

/// A search by the vectors of a field is planned exactly where the field holds some and the caller has
/// a tenant on a tenant-scoped index. Where there is no tenant field no arm is held to a tenant. What
/// is fetched is what was asked for, or what is reranked where that is more.
pub proof fn lemma_search_is_planned(
    index: &str,
    fields: Vec<FieldSpec>,
    path: &str,
    tenant_field: Option<&str>,
    claim: Option<&str>,
    k: usize,
    rerank: bool,
    rerank_top_k: usize,
    s: Result<SemanticPlan, EngineError>,
    h: Result<HybridPlan, EngineError>,
    i: int,
)
    requires
        call_ensures(
            plan_semantic,
            (index, &fields, path, tenant_field, claim, k, rerank, rerank_top_k),
            s,
        ),
        call_ensures(
            plan_hybrid,
            (index, &fields, path, tenant_field, claim, k, rerank, rerank_top_k),
            h,
        ),
        0 <= i < fields@.len(),
        fields@[i].path@ == path@,
        forall|j: int| 0 <= j < i ==> (#[trigger] fields@[j]).path@ != path@,
    ensures
        s is Ok <==> fields@[i].vector_source is Some && (tenant_field is None || claim is Some),
        h is Ok <==> s is Ok,
        fields@[i].vector_source is None <==> (s matches Err(e) && e is NotVectorField),
        fields@[i].vector_source is None <==> (h matches Err(e) && e is NotVectorField),
        tenant_field is None ==> (s matches Ok(p) ==> p.vector.tenant is None),
        tenant_field is None ==> (h matches Ok(p) ==> p.vector.tenant is None
            && p.lexical.tenant is None),
        s matches Ok(p) ==> p.vector.depth == k || (rerank && p.vector.depth == rerank_top_k
            && rerank_top_k > k),
        h matches Ok(p) ==> (p.lexical.depth == 2 * k || p.lexical.depth == 20) && (p.vector.depth
            == p.lexical.depth || (rerank && p.vector.depth == rerank_top_k)),
        s matches Ok(p) ==> p.source_field@ == fields@[i].vector_source->0@,
        h matches Ok(p) ==> p.source_field@ == fields@[i].vector_source->0@,
{
    lemma_field_is_first(fields@, path@, i);
}

} // verus!
