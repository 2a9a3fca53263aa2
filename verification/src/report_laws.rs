//! What holds of reports on an index and of fetching documents by key.
use vstd::prelude::*;

use crate::error::EngineError;
use crate::hydrate::{
    describe, first_unfetchable, hint_fields, hints, key_names, pairs, resolve_requests,
    CompositeKey, Presence,
};
use crate::stats::{
    bytes, docs, generations, latest, merge_describe, DescribeIndexResponse, IndexStats,
};
use crate::status::{Code, Status};
use crate::text::joined;

verus! {

/// The documents of all shards.
pub open spec fn all_docs(stats: Seq<IndexStats>) -> int {
    stats.fold_left(0int, |n: int, s: IndexStats| n + s.num_docs)
}

/// The generations of all shards.
pub open spec fn all_generations(stats: Seq<IndexStats>) -> int {
    stats.fold_left(0int, |n: int, s: IndexStats| n + s.generation_count)
}

/// The bytes of all shards.
pub open spec fn all_bytes(stats: Seq<IndexStats>) -> int {
    stats.fold_left(0int, |n: int, s: IndexStats| n + s.size_bytes)
}

proof fn lemma_sums_fold(stats: Seq<IndexStats>)
    ensures
        docs(stats, stats.len() as int) == all_docs(stats),
        generations(stats, stats.len() as int) == all_generations(stats),
        bytes(stats, stats.len() as int) == all_bytes(stats),
    decreases stats.len(),
{
    reveal(Seq::fold_left);
    if stats.len() > 0 {
        let rest = stats.drop_last();
        lemma_sums_fold(rest);
        lemma_same_sums(stats, rest, rest.len() as int);
    }
}

proof fn lemma_same_sums(a: Seq<IndexStats>, b: Seq<IndexStats>, n: int)
    requires
        forall|k: int| 0 <= k < n ==> a[k] == b[k],
    ensures
        docs(a, n) == docs(b, n),
        generations(a, n) == generations(b, n),
        bytes(a, n) == bytes(b, n),
    decreases n,
{
    if n > 0 {
        lemma_same_sums(a, b, n - 1);
    }
}

proof fn lemma_latest(stats: Seq<IndexStats>, n: int)
    requires
        0 <= n <= stats.len(),
    ensures
        forall|k: int| 0 <= k < n ==> (#[trigger] stats[k]).snapshot <= latest(stats, n),
        latest(stats, n) == 0 || exists|k: int|
            0 <= k < n && (#[trigger] stats[k]).snapshot == latest(stats, n),
    decreases n,
{
    if n > 0 {
        lemma_latest(stats, n - 1);
        assert(stats[n - 1].snapshot <= latest(stats, n));
    }
}

/// The statistics of an index are the sums over the shards that reported, and their latest snapshot.
/// What differs by shard is told as each shard reported it. There are none exactly where no shard
/// answered, and every shard that was asked either answered or is counted as failed.
pub proof fn lemma_stats_add_up(
    per_shard: Vec<IndexStats>,
    answered: usize,
    asked: usize,
    r: Result<DescribeIndexResponse, Status>,
    k: int,
)
    requires
        call_ensures(merge_describe, (per_shard, answered, asked), r),
    ensures
        r is Err <==> answered == 0,
        r matches Err(e) ==> e.code == Code::Unavailable,
        r matches Ok(out) ==> {
            &&& out.stats.num_docs == all_docs(per_shard@)
            &&& out.stats.generation_count == all_generations(per_shard@)
            &&& out.stats.size_bytes == all_bytes(per_shard@)
            &&& out.failed_shards + answered == asked
            &&& out.per_shard@ == per_shard@
            &&& 0 <= k < per_shard@.len() ==> per_shard@[k].snapshot <= out.stats.snapshot
            &&& out.stats.snapshot == 0 || exists|j: int|
                0 <= j < per_shard@.len() && (#[trigger] per_shard@[j]).snapshot
                    == out.stats.snapshot
            &&& per_shard@.len() > 0 ==> out.stats.name@ == per_shard@[0].name@
                && out.stats.checkpoint@ == per_shard@[0].checkpoint@
                && out.stats.time_fields.deep_view() == per_shard@[0].time_fields.deep_view()
        },
{
    lemma_sums_fold(per_shard@);
    lemma_latest(per_shard@, per_shard@.len() as int);
}

proof fn lemma_unfetchable(found: Seq<Presence>)
    ensures
        match first_unfetchable(found) {
            Some(i) => 0 <= i < found.len() && found[i] != Ok::<bool, String>(true) && forall|j: int|
                0 <= j < i ==> #[trigger] found[j] == Ok::<bool, String>(true),
            None => forall|j: int|
                0 <= j < found.len() ==> #[trigger] found[j] == Ok::<bool, String>(true),
        },
    decreases found.len(),
{
    if found.len() > 0 {
        let rest = found.drop_last();
        lemma_unfetchable(rest);
        assert(forall|j: int| 0 <= j < rest.len() ==> rest[j] == found[j]);
    }
}

/// Keys are fetched where the index holds every one, each by its own place. Else the first that it
/// does not hold is the error, and what could not be asked is told as it was.
pub proof fn lemma_keys_are_fetched(
    keys: Vec<CompositeKey>,
    found: Vec<Presence>,
    r: Result<Vec<usize>, EngineError>,
    i: int,
)
    requires
        call_ensures(resolve_requests, (&keys, &found), r),
        keys@.len() == found@.len(),
    ensures
        r is Ok <==> forall|j: int|
            0 <= j < found@.len() ==> #[trigger] found@[j] == Ok::<bool, String>(true),
        r matches Ok(at) ==> at@.len() == keys@.len() && (0 <= i < at@.len() ==> at@[i] == i),
        r is Err && 0 <= i < found@.len() && found@[i] != Ok::<bool, String>(true) && (forall|j: int|
            0 <= j < i ==> #[trigger] found@[j] == Ok::<bool, String>(true)) ==> match found@[i] {
            Err(why) => r matches Err(EngineError::Store(s)) && s@ == why@,
            Ok(_) => r matches Err(EngineError::KeyNotFound(_)),
        },
{
    lemma_unfetchable(found@);
    assert(keys.len() == keys@.len());
    if let Some(k) = first_unfetchable(found@) {
        assert(found@[k] != Ok::<bool, String>(true));
        if 0 <= i < found@.len() && found@[i] != Ok::<bool, String>(true) && (forall|j: int|
            0 <= j < i ==> #[trigger] found@[j] == Ok::<bool, String>(true)) {
            if i < k {
                assert(found@[i] == Ok::<bool, String>(true));
            }
            if k < i {
                assert(found@[k] == Ok::<bool, String>(true));
            }
        }
    }
}

/// A described key shows its partition and then its identifier, each field as its name and its value
/// with an equals sign between them, in their order.
pub proof fn lemma_key_is_described(key: CompositeKey, out: String) -> (p: (Seq<Seq<char>>, Seq<
    Seq<char>,
>))
    requires
        call_ensures(describe, (&key,), out),
    ensures
        out@ == "["@ + joined(p.0, ","@) + "|"@ + joined(p.1, ","@) + "]"@,
        p.0.len() == key.partition@.len(),
        p.1.len() == key.identifier@.len(),
        forall|i: int|
            0 <= i < p.0.len() ==> #[trigger] p.0[i] == key.partition@[i].0@ + "="@
                + key.partition@[i].1@,
        forall|i: int|
            0 <= i < p.1.len() ==> #[trigger] p.1[i] == key.identifier@[i].0@ + "="@
                + key.identifier@[i].1@,
{
    let a = pairs(key.partition.deep_view());
    let b = pairs(key.identifier.deep_view());
    assert(key.partition.deep_view().len() == key.partition@.len());
    assert(key.identifier.deep_view().len() == key.identifier@.len());
    assert forall|i: int| 0 <= i < a.len() implies #[trigger] a[i] == key.partition@[i].0@ + "="@
        + key.partition@[i].1@ by {
        assert(key.partition.deep_view()[i] == (key.partition@[i].0@, key.partition@[i].1@));
    }
    assert forall|i: int| 0 <= i < b.len() implies #[trigger] b[i] == key.identifier@[i].0@ + "="@
        + key.identifier@[i].1@ by {
        assert(key.identifier.deep_view()[i] == (key.identifier@[i].0@, key.identifier@[i].1@));
    }
    (a, b)
}

/// Whether a field is part of a key.
pub open spec fn in_key(key: CompositeKey, name: Seq<char>) -> bool {
    ||| exists|i: int| 0 <= i < key.partition@.len() && (#[trigger] key.partition@[i]).0@ == name
    ||| exists|i: int| 0 <= i < key.identifier@.len() && (#[trigger] key.identifier@[i]).0@ == name
}

proof fn lemma_key_names(key: CompositeKey, name: Seq<char>)
    ensures
        key_names(key).contains(name) <==> in_key(key, name),
{
    let a = key.partition.deep_view();
    let b = key.identifier.deep_view();
    let names = key_names(key);
    assert(a.len() == key.partition@.len() && b.len() == key.identifier@.len());
    if names.contains(name) {
        let i = choose|i: int| 0 <= i < names.len() && names[i] == name;
        if i < a.len() {
            assert(a[i].0 == key.partition@[i].0@);
            assert(key.partition@[i].0@ == name);
        } else {
            assert(b[i - a.len()].0 == key.identifier@[i - a.len()].0@);
            assert(key.identifier@[i - a.len()].0@ == name);
        }
    }
    if exists|i: int| 0 <= i < key.partition@.len() && (#[trigger] key.partition@[i]).0@ == name {
        let i = choose|i: int|
            0 <= i < key.partition@.len() && (#[trigger] key.partition@[i]).0@ == name;
        assert(a[i].0 == key.partition@[i].0@);
        assert(names[i] == name);
    }
    if exists|i: int| 0 <= i < key.identifier@.len() && (#[trigger] key.identifier@[i]).0@ == name {
        let i = choose|i: int|
            0 <= i < key.identifier@.len() && (#[trigger] key.identifier@[i]).0@ == name;
        assert(b[i].0 == key.identifier@[i].0@);
        assert(names[a.len() + i] == name);
    }
}

proof fn lemma_hints(
    sort: Seq<Seq<char>>,
    fast: Seq<Seq<char>>,
    key: Seq<Seq<char>>,
    n: int,
    name: Seq<char>,
)
    requires
        0 <= n <= sort.len(),
    ensures
        hints(sort, fast, key, n).contains(name) <==> sort.take(n).contains(name)
            && fast.contains(name) && !key.contains(name),
        hints(sort, fast, key, n).len() <= n,
    decreases n,
{
    if n > 0 {
        lemma_hints(sort, fast, key, n - 1, name);
        let before = hints(sort, fast, key, n - 1);
        let last = sort[n - 1];
        assert(sort.take(n) =~= sort.take(n - 1).push(last));
        lemma_pushed(sort.take(n - 1), last, name);
        lemma_pushed(before, last, name);
    }
}

proof fn lemma_pushed(s: Seq<Seq<char>>, y: Seq<char>, x: Seq<char>)
    ensures
        s.push(y).contains(x) <==> s.contains(x) || x == y,
{
    let t = s.push(y);
    assert(t[s.len() as int] == y);
    if s.contains(x) {
        let i = choose|i: int| 0 <= i < s.len() && s[i] == x;
        assert(t[i] == x);
    }
    if t.contains(x) && x != y {
        let i = choose|i: int| 0 <= i < t.len() && t[i] == x;
        assert(s[i] == x);
    }
}

/// The source is pruned by a field exactly where the table is sorted by it, the index reads it fast
/// and the keys do not hold it; by none where no key is fetched.
pub proof fn lemma_source_is_pruned_by(
    keys: Vec<CompositeKey>,
    sort: Vec<String>,
    fast: Vec<String>,
    out: Vec<String>,
    name: Seq<char>,
)
    requires
        call_ensures(hint_fields, (&keys, &sort, &fast), out),
    ensures
        keys@.len() == 0 ==> out@.len() == 0,
        keys@.len() > 0 ==> (out.deep_view().contains(name) <==> sort.deep_view().contains(name)
            && fast.deep_view().contains(name) && !in_key(keys@[0], name)),
        out@.len() <= sort@.len(),
{
    assert(out.deep_view().len() == out@.len());
    assert(sort.deep_view().len() == sort@.len());
    if keys@.len() > 0 {
        lemma_key_names(keys@[0], name);
        lemma_hints(
            sort.deep_view(),
            fast.deep_view(),
            key_names(keys@[0]),
            sort@.len() as int,
            name,
        );
        assert(sort.deep_view().take(sort@.len() as int) =~= sort.deep_view());
    }
}

} // verus!
