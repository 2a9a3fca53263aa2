//! Merging what the shards of an index answered into one page.
use vstd::prelude::*;

use crate::keys::{
    byte_ranks, copied, first_occurrences, int_ranks, is_first, ordered_positions, rows_in_order,
    rows_of, ByteKey, OrderKey,
};
use crate::tally::{
    first_of_each, is_named, leaders, lemma_leaders_named, total_of, totals, totals_fit, Counted,
};

verus! {

/// The rank of a missing value: after every value, whichever way a key sorts.
pub const MISSING_RANK: i128 = 0x1_0000_0000_0000_0000;

/// One key of a sort.
#[derive(Debug, Clone)]
pub struct SortKey {
    pub field: String,
    pub descending: bool,
}

/// A hit of one shard. Scores and sort values stand as ranks: integers that order as they do.
#[derive(Debug, Clone)]
pub struct ShardHit {
    pub score: i64,
    /// One value per sort key; none where it is missing.
    pub values: Vec<Option<i64>>,
    /// The encoded key of the document, where the hit has decodable coordinates.
    pub key: Option<Vec<u8>>,
    /// The group that the hit stands for on a collapsed page.
    pub group: Option<String>,
    /// How many hits of its shard are in that group.
    pub group_count: u64,
}

impl ShardHit {
    /// The key that a hit is found again by; empty where it has none.
    pub open spec fn key_bytes(&self) -> Seq<u8> {
        match self.key {
            Some(k) => k@,
            None => Seq::empty(),
        }
    }

    /// The value for sort key `i`.
    pub open spec fn value(&self, i: int) -> Option<i64> {
        if 0 <= i < self.values@.len() {
            self.values@[i]
        } else {
            None
        }
    }
}

/// The rank of a value under a sort key.
pub open spec fn column_rank(value: Option<i64>, descending: bool) -> int {
    match value {
        Some(v) => if descending {
            -v
        } else {
            v as int
        },
        None => MISSING_RANK as int,
    }
}

/// What a hit is ordered by: its sort values, or its score where there is no sort, and then its
/// key.
pub open spec fn hit_row(hit: ShardHit, sort: Seq<SortKey>) -> Seq<int> {
    let lead = if sort.len() == 0 {
        seq![-hit.score]
    } else {
        Seq::new(sort.len(), |i: int| column_rank(hit.value(i), sort[i].descending))
    };
    lead + byte_ranks(hit.key_bytes())
}

/// What the hits are ordered by.
pub open spec fn hit_rows(hits: Seq<ShardHit>, sort: Seq<SortKey>) -> Seq<Seq<int>> {
    hits.map_values(|h: ShardHit| hit_row(h, sort))
}

/// The first hit with each key, in the order of `at`.
pub open spec fn distinct_hits(hits: Seq<ShardHit>, at: Seq<usize>) -> Seq<usize>
    decreases at.len(),
{
    if at.len() == 0 {
        Seq::empty()
    } else {
        let before = distinct_hits(hits, at.drop_last());
        if exists|k: int|
            0 <= k < at.len() - 1 && hits[(#[trigger] at[k]) as int].key_bytes()
                == hits[at.last() as int].key_bytes() {
            before
        } else {
            before.push(at.last())
        }
    }
}

/// What is left of `s` without its first `offset` items, cut to `limit` items; a limit of 0 cuts
/// nothing.
pub open spec fn window<A>(s: Seq<A>, offset: nat, limit: nat) -> Seq<A> {
    let rest = s.skip(if offset < s.len() {
        offset as int
    } else {
        s.len() as int
    });
    if 0 < limit < rest.len() {
        rest.take(limit as int)
    } else {
        rest
    }
}

fn key_of(hit: &ShardHit) -> (k: ByteKey)
    ensures
        k.bytes@ == hit.key_bytes(),
{
    match &hit.key {
        Some(k) => ByteKey { bytes: copied(k) },
        None => ByteKey { bytes: Vec::new() },
    }
}

fn order_key(hit: &ShardHit, sort: &Vec<SortKey>) -> (k: OrderKey)
    ensures
        int_ranks(k.ranks@) == hit_row(*hit, sort@),
{
    let mut ranks: Vec<i128> = Vec::new();
    let n: usize = sort.len();
    let ghost lead = if n == 0 {
        seq![-hit.score]
    } else {
        Seq::new(n as nat, |i: int| column_rank(hit.value(i), sort@[i].descending))
    };
    if n == 0 {
        ranks.push(-(hit.score as i128));
    }
    let mut i: usize = 0;
    while i < n
        invariant
            n == sort@.len(),
            n > 0 ==> lead == Seq::new(
                n as nat,
                |i: int| column_rank(hit.value(i), sort@[i].descending),
            ),
            n > 0 ==> ranks@.len() == i,
            n == 0 ==> int_ranks(ranks@) == lead,
            i <= n,
            forall|k: int| 0 <= k < i ==> (#[trigger] ranks@[k]) == lead[k],
        decreases n - i,
    {
        let value: Option<i64> = if i < hit.values.len() {
            hit.values[i]
        } else {
            None
        };
        let rank: i128 = match value {
            Some(v) => if sort[i].descending {
                -(v as i128)
            } else {
                v as i128
            },
            None => MISSING_RANK,
        };
        ranks.push(rank);
        i = i + 1;
    }
    assert(int_ranks(ranks@) =~= lead);
    match &hit.key {
        Some(k) => {
            let ghost start = ranks@;
            let mut j: usize = 0;
            while j < k.len()
                invariant
                    j <= k@.len(),
                    ranks@.len() == start.len() + j,
                    forall|l: int| 0 <= l < start.len() ==> ranks@[l] == start[l],
                    forall|l: int| 0 <= l < j ==> #[trigger] ranks@[start.len() + l] == k@[l],
                decreases k@.len() - j,
            {
                ranks.push(k[j] as i128);
                j = j + 1;
            }
            assert(int_ranks(ranks@) =~= lead + byte_ranks(k@)) by {
                assert forall|l: int| 0 <= l < ranks@.len() implies int_ranks(ranks@)[l] == (lead
                    + byte_ranks(k@))[l] by {
                    if l >= start.len() {
                        assert(ranks@[start.len() + (l - start.len())] == k@[l - start.len()]);
                    } else {
                        assert(int_ranks(start)[l] == lead[l]);
                    }
                }
            }
        },
        None => {
            assert(lead + byte_ranks(Seq::<u8>::empty()) =~= lead);
        },
    }
    OrderKey { ranks }
}

/// The positions of the hits in one order: by the sort, or by falling score where there is none,
/// and among equals by the key.
pub fn merge_order(hits: &Vec<ShardHit>, sort: &Vec<SortKey>) -> (at: Vec<usize>)
    ensures
        rows_in_order(hit_rows(hits@, sort@), at@),
{
    let mut keys: Vec<OrderKey> = Vec::new();
    let mut i: usize = 0;
    while i < hits.len()
        invariant
            i <= hits@.len(),
            keys@.len() == i,
            forall|k: int|
                0 <= k < i ==> int_ranks((#[trigger] keys@[k]).ranks@) == hit_row(hits@[k], sort@),
        decreases hits@.len() - i,
    {
        keys.push(order_key(&hits[i], sort));
        i = i + 1;
    }
    assert(rows_of(keys@) =~= hit_rows(hits@, sort@));
    ordered_positions(&keys)
}

fn keep_first(hits: &Vec<ShardHit>, at: &Vec<usize>) -> (kept: Vec<usize>)
    requires
        forall|k: int| 0 <= k < at@.len() ==> (#[trigger] at@[k]) < hits@.len(),
    ensures
        kept@ == distinct_hits(hits@, at@),
{
    let n: usize = at.len();
    let mut keys: Vec<ByteKey> = Vec::new();
    let mut i: usize = 0;
    while i < n
        invariant
            n == at@.len(),
            i <= n,
            keys@.len() == i,
            forall|k: int| 0 <= k < at@.len() ==> (#[trigger] at@[k]) < hits@.len(),
            forall|k: int|
                0 <= k < i ==> (#[trigger] keys@[k]).bytes@ == hits@[at@[k] as int].key_bytes(),
        decreases n - i,
    {
        keys.push(key_of(&hits[at[i]]));
        i = i + 1;
    }
    let first = first_occurrences(&keys);
    let mut kept: Vec<usize> = Vec::new();
    let mut j: usize = 0;
    assert(at@.take(0) =~= Seq::empty());
    while j < n
        invariant
            n == at@.len(),
            j <= n,
            keys@.len() == n,
            first@.len() == n,
            forall|i: int| 0 <= i < n ==> #[trigger] first@[i] == is_first(keys@, i),
            forall|k: int|
                0 <= k < n ==> (#[trigger] keys@[k]).bytes@ == hits@[at@[k] as int].key_bytes(),
            kept@ == distinct_hits(hits@, at@.take(j as int)),
        decreases n - j,
    {
        let ghost next = at@.take(j + 1);
        assert(next.drop_last() =~= at@.take(j as int));
        assert(next.last() == at@[j as int]);
        assert(first@[j as int] == is_first(keys@, j as int));
        if first[j] {
            assert forall|k: int| 0 <= k < next.len() - 1 implies hits@[(
            #[trigger] next[k]) as int].key_bytes() != hits@[next.last() as int].key_bytes() by {
                assert(keys@[k].bytes@ != keys@[j as int].bytes@);
            }
            kept.push(at[j]);
        } else {
            let ghost k = choose|k: int|
                0 <= k < j && (#[trigger] keys@[k]).bytes@ == keys@[j as int].bytes@;
            assert(hits@[next[k] as int].key_bytes() == hits@[next.last() as int].key_bytes());
        }
        j = j + 1;
    }
    assert(at@.take(n as int) =~= at@);
    kept
}

fn cut(s: &Vec<usize>, offset: usize, limit: usize) -> (page: Vec<usize>)
    ensures
        page@ == window(s@, offset as nat, limit as nat),
{
    let n: usize = s.len();
    let start: usize = if offset < n {
        offset
    } else {
        n
    };
    let end: usize = if limit > 0 && n - start > limit {
        start + limit
    } else {
        n
    };
    let mut page: Vec<usize> = Vec::new();
    let mut i: usize = start;
    while i < end
        invariant
            start <= i <= end <= s@.len(),
            page@ == s@.subrange(start as int, i as int),
        decreases end - i,
    {
        page.push(s[i]);
        i = i + 1;
    }
    assert(page@ =~= window(s@, offset as nat, limit as nat));
    page
}

/// The merged page: the hits in order, each document once, cut to the window.
pub open spec fn is_page(
    picks: Seq<usize>,
    hits: Seq<ShardHit>,
    sort: Seq<SortKey>,
    offset: nat,
    limit: nat,
) -> bool {
    exists|at: Seq<usize>| #[trigger]
        rows_in_order(hit_rows(hits, sort), at) && picks == window(
            distinct_hits(hits, at),
            offset,
            limit,
        )
}

proof fn lemma_distinct_in_bounds(hits: Seq<ShardHit>, at: Seq<usize>)
    requires
        forall|k: int| 0 <= k < at.len() ==> (#[trigger] at[k]) < hits.len(),
    ensures
        forall|k: int|
            0 <= k < distinct_hits(hits, at).len() ==> (#[trigger] distinct_hits(hits, at)[k])
                < hits.len(),
    decreases at.len(),
{
    if at.len() > 0 {
        let prior = at.drop_last();
        assert forall|k: int| 0 <= k < prior.len() implies (#[trigger] prior[k]) < hits.len() by {
            assert(at[k] < hits.len());
        }
        lemma_distinct_in_bounds(hits, prior);
        let before = distinct_hits(hits, prior);
        let kept = distinct_hits(hits, at);
        assert forall|k: int| 0 <= k < kept.len() implies (#[trigger] kept[k]) < hits.len() by {
            if k < before.len() {
                assert(kept[k] == before[k]);
            } else {
                assert(kept[k] == at[at.len() - 1]);
            }
        }
    }
}

/// A page names hits that there are.
pub proof fn lemma_page_in_bounds(
    picks: Seq<usize>,
    hits: Seq<ShardHit>,
    sort: Seq<SortKey>,
    offset: nat,
    limit: nat,
)
    requires
        is_page(picks, hits, sort, offset, limit),
    ensures
        forall|k: int| 0 <= k < picks.len() ==> (#[trigger] picks[k]) < hits.len(),
{
    let at = choose|at: Seq<usize>| #[trigger]
        rows_in_order(hit_rows(hits, sort), at) && picks == window(
            distinct_hits(hits, at),
            offset,
            limit,
        );
    assert forall|k: int| 0 <= k < at.len() implies (#[trigger] at[k]) < hits.len() by {}
    lemma_distinct_in_bounds(hits, at);
}

/// The merged page of the hits that the shards answered with, by position.
pub fn merge_page(hits: &Vec<ShardHit>, sort: &Vec<SortKey>, offset: usize, limit: usize) -> (picks:
    Vec<usize>)
    ensures
        is_page(picks@, hits@, sort@, offset as nat, limit as nat),
{
    let at = merge_order(hits, sort);
    let kept = keep_first(hits, &at);
    let picks = cut(&kept, offset, limit);
    assert(rows_in_order(hit_rows(hits@, sort@), at@) && picks@ == window(
        distinct_hits(hits@, at@),
        offset as nat,
        limit as nat,
    ));
    picks
}

impl Counted for ShardHit {
    open spec fn name(&self) -> Option<Seq<char>> {
        self.group.deep_view()
    }

    open spec fn count(&self) -> u64 {
        self.group_count
    }

    fn own_name(&self) -> (n: Option<&str>) {
        match &self.group {
            Some(g) => Some(g.as_str()),
            None => None,
        }
    }

    fn own_count(&self) -> (c: u64) {
        self.group_count
    }
}

/// A group on a collapsed page: the position of its top hit, and its count over all shards.
#[derive(Debug, Clone, Copy, PartialEq, Eq)]
pub struct Group {
    pub pick: usize,
    pub count: u64,
}

/// The group that `pick` stands for, with its count over all hits.
pub open spec fn is_group_of(g: Group, hits: Seq<ShardHit>, pick: usize) -> bool {
    &&& g.pick == pick
    &&& hits[pick as int].name() matches Some(name) && g.count == total_of(hits, name)
}

/// The collapsed page: the top hit of each group in order, cut to the limit; hits without a
/// group are on no page.
pub open spec fn is_collapsed_page(
    groups: Seq<Group>,
    hits: Seq<ShardHit>,
    sort: Seq<SortKey>,
    limit: nat,
) -> bool {
    exists|at: Seq<usize>| #[trigger]
        rows_in_order(hit_rows(hits, sort), at) && {
            let page = window(leaders(hits, at), 0, limit);
            &&& groups.len() == page.len()
            &&& forall|k: int| 0 <= k < page.len() ==> is_group_of(#[trigger] groups[k], hits, page[k])
        }
}

/// The collapsed page of the groups that the shards answered with.
pub fn collapse_page(hits: &Vec<ShardHit>, sort: &Vec<SortKey>, limit: usize) -> (groups: Vec<Group>)
    requires
        totals_fit(hits@),
    ensures
        is_collapsed_page(groups@, hits@, sort@, limit as nat),
{
    let counts = totals(hits);
    let at = merge_order(hits, sort);
    let lead = first_of_each(hits, &at);
    let page = cut(&lead, 0, limit);
    proof {
        assert forall|k: int| 0 <= k < at@.len() implies (#[trigger] at@[k]) < hits@.len() by {}
        lemma_leaders_named(hits@, at@);
        assert forall|k: int| 0 <= k < page@.len() implies #[trigger] page@[k] == lead@[k] by {}
    }
    let mut groups: Vec<Group> = Vec::new();
    let mut i: usize = 0;
    while i < page.len()
        invariant
            i <= page@.len(),
            groups@.len() == i,
            forall|k: int|
                0 <= k < page@.len() ==> (#[trigger] page@[k]) < hits@.len()
                    && hits@[page@[k] as int].name() is Some,
            forall|name: Seq<char>| #[trigger] counts@.contains_key(name) <==> is_named(hits@, name),
            forall|name: Seq<char>|
                counts@.contains_key(name) ==> #[trigger] counts@[name] == total_of(hits@, name),
            forall|k: int| 0 <= k < i ==> is_group_of(#[trigger] groups@[k], hits@, page@[k]),
        decreases page@.len() - i,
    {
        let pick: usize = page[i];
        let mut count: u64 = hits[pick].group_count;
        match &hits[pick].group {
            Some(g) => {
                assert(hits@[pick as int].name() == Some(g@));
                assert(is_named(hits@, g@));
                assert(counts@.contains_key(g@));
                if let Some(c) = counts.get(g.as_str()) {
                    count = *c;
                }
            },
            None => {
                assert(hits@[pick as int].name() is None);
            },
        }
        groups.push(Group { pick, count });
        i = i + 1;
    }
    assert(rows_in_order(hit_rows(hits@, sort@), at@));
    groups
}

/// A suggested text, with how many documents hold it.
#[derive(Debug, Clone, PartialEq, Eq)]
pub struct Suggestion {
    pub text: String,
    pub count: u64,
}

impl Counted for Suggestion {
    open spec fn name(&self) -> Option<Seq<char>> {
        Some(self.text@)
    }

    open spec fn count(&self) -> u64 {
        self.count
    }

    fn own_name(&self) -> (n: Option<&str>) {
        Some(self.text.as_str())
    }

    fn own_count(&self) -> (c: u64) {
        self.count
    }
}

/// Every position of a list of `n` items.
pub open spec fn all_positions(n: nat) -> Seq<usize> {
    Seq::new(n, |i: int| i as usize)
}

/// What a text is ordered by: its falling count over all shards, and then its bytes.
pub open spec fn text_row(given: Seq<Suggestion>, text: Seq<char>) -> Seq<int> {
    seq![-total_of(given, text)] + byte_ranks(vstd::utf8::encode_utf8(text))
}

/// What the different texts are ordered by.
pub open spec fn text_rows(given: Seq<Suggestion>) -> Seq<Seq<int>> {
    leaders(given, all_positions(given.len())).map_values(
        |p: usize| text_row(given, given[p as int].text@),
    )
}

/// The merged suggestions: each text once with its count over all shards, the highest count
/// first and equal counts by text, cut to the limit.
pub open spec fn are_merged(out: Seq<Suggestion>, given: Seq<Suggestion>, limit: nat) -> bool {
    let lead = leaders(given, all_positions(given.len()));
    exists|at: Seq<usize>| #[trigger]
        rows_in_order(text_rows(given), at) && {
            let page = window(at, 0, limit);
            &&& out.len() == page.len()
            &&& forall|k: int|
                0 <= k < page.len() ==> (#[trigger] out[k]).text@ == given[lead[page[k] as int] as int].text@
                    && out[k].count == total_of(given, out[k].text@)
        }
}

fn text_key(text: &str, count: u64) -> (k: OrderKey)
    ensures
        int_ranks(k.ranks@) == seq![-(count as int)] + byte_ranks(vstd::utf8::encode_utf8(text@)),
{
    let bytes = text.as_bytes();
    let mut ranks: Vec<i128> = Vec::new();
    ranks.push(-(count as i128));
    let mut j: usize = 0;
    while j < bytes.len()
        invariant
            j <= bytes@.len(),
            ranks@.len() == 1 + j,
            ranks@[0] == -(count as int),
            forall|l: int| 0 <= l < j ==> #[trigger] ranks@[1 + l] == bytes@[l],
        decreases bytes@.len() - j,
    {
        ranks.push(bytes[j] as i128);
        j = j + 1;
    }
    assert(int_ranks(ranks@) =~= seq![-(count as int)] + byte_ranks(bytes@)) by {
        assert forall|l: int| 0 <= l < ranks@.len() implies int_ranks(ranks@)[l] == (seq![
            -(count as int),
        ] + byte_ranks(bytes@))[l] by {
            if l > 0 {
                assert(ranks@[1 + (l - 1)] == bytes@[l - 1]);
            }
        }
    }
    OrderKey { ranks }
}

/// The suggestions of all shards in one list.
pub fn merge_suggestions(given: &Vec<Suggestion>, limit: usize) -> (out: Vec<Suggestion>)
    requires
        totals_fit(given@),
    ensures
        are_merged(out@, given@, limit as nat),
{
    let counts = totals(given);
    let n: usize = given.len();
    let mut all: Vec<usize> = Vec::new();
    let mut i: usize = 0;
    while i < n
        invariant
            i <= n,
            all@ == all_positions(i as nat),
        decreases n - i,
    {
        all.push(i);
        assert(all@ =~= all_positions((i + 1) as nat));
        i = i + 1;
    }
    assert(all@ =~= all_positions(n as nat));
    let lead = first_of_each(given, &all);
    proof {
        lemma_leaders_named(given@, all@);
    }
    let mut keys: Vec<OrderKey> = Vec::new();
    let mut sums: Vec<u64> = Vec::new();
    let mut j: usize = 0;
    while j < lead.len()
        invariant
            j <= lead@.len(),
            keys@.len() == j,
            sums@.len() == j,
            forall|k: int| 0 <= k < lead@.len() ==> (#[trigger] lead@[k]) < given@.len(),
            forall|name: Seq<char>| #[trigger]
                counts@.contains_key(name) <==> is_named(given@, name),
            forall|name: Seq<char>|
                counts@.contains_key(name) ==> #[trigger] counts@[name] == total_of(given@, name),
            forall|k: int|
                0 <= k < j ==> int_ranks((#[trigger] keys@[k]).ranks@) == text_row(
                    given@,
                    given@[lead@[k] as int].text@,
                ),
            forall|k: int|
                0 <= k < j ==> (#[trigger] sums@[k]) == total_of(
                    given@,
                    given@[lead@[k] as int].text@,
                ),
        decreases lead@.len() - j,
    {
        let item = &given[lead[j]];
        assert(given@[lead@[j as int] as int].name() == Some(item.text@));
        assert(is_named(given@, item.text@));
        assert(counts@.contains_key(item.text@));
        let sum: u64 = match counts.get(item.text.as_str()) {
            Some(c) => *c,
            None => 0,
        };
        keys.push(text_key(item.text.as_str(), sum));
        sums.push(sum);
        j = j + 1;
    }
    assert(rows_of(keys@) =~= text_rows(given@));
    let at = ordered_positions(&keys);
    let page = cut(&at, 0, limit);
    let mut out: Vec<Suggestion> = Vec::new();
    let mut k: usize = 0;
    assert forall|k: int| 0 <= k < page@.len() implies (#[trigger] page@[k]) < lead@.len() by {
        assert(page@[k] == at@[k]);
    }
    while k < page.len()
        invariant
            k <= page@.len(),
            out@.len() == k,
            sums@.len() == lead@.len(),
            forall|l: int| 0 <= l < page@.len() ==> (#[trigger] page@[l]) < lead@.len(),
            forall|l: int| 0 <= l < lead@.len() ==> (#[trigger] lead@[l]) < given@.len(),
            forall|l: int|
                0 <= l < lead@.len() ==> (#[trigger] sums@[l]) == total_of(
                    given@,
                    given@[lead@[l] as int].text@,
                ),
            forall|l: int|
                0 <= l < k ==> (#[trigger] out@[l]).text@
                    == given@[lead@[page@[l] as int] as int].text@ && out@[l].count == total_of(
                    given@,
                    out@[l].text@,
                ),
        decreases page@.len() - k,
    {
        let p: usize = page[k];
        assert(sums@[p as int] == total_of(given@, given@[lead@[p as int] as int].text@));
        out.push(Suggestion { text: given[lead[p]].text.clone(), count: sums[p] });
        k = k + 1;
    }
    assert(rows_in_order(text_rows(given@), at@));
    out
}

} // verus!
