//! What a repair deletes and indexes, said of the keys and of the checkpoints between which the
//! source was read.
use vstd::prelude::*;

use crate::admin::SourceCheckpoint;
use crate::drift::{
    absent, among, hashed, plan_drift, plan_repair, plans, repair_batch_id, DriftPlan,
};
use crate::keys::ByteKey;

verus! {

/// Whether some key of `keys` has these bytes.
pub open spec fn has_key(keys: Seq<ByteKey>, bytes: Seq<u8>) -> bool {
    exists|i: int| 0 <= i < keys.len() && #[trigger] keys[i].bytes@ == bytes
}

proof fn lemma_has_key(keys: Seq<ByteKey>, bytes: Seq<u8>)
    ensures
        has_key(keys, bytes) == among(keys, bytes),
{
    if has_key(keys, bytes) {
        let i = choose|i: int| 0 <= i < keys.len() && #[trigger] keys[i].bytes@ == bytes;
        assert(keys[i].bytes@ == bytes);
    }
    if among(keys, bytes) {
        let i = choose|i: int| 0 <= i < keys.len() && (#[trigger] keys[i]).bytes@ == bytes;
        assert(keys[i].bytes@ == bytes);
    }
}

proof fn lemma_absent(keys: Seq<ByteKey>, others: Seq<ByteKey>, n: int)
    requires
        0 <= n <= keys.len() <= usize::MAX,
    ensures
        forall|i: int|
            0 <= i < keys.len() ==> (#[trigger] absent(keys, others, n).contains(i as usize) <==> i < n
                && !has_key(others, keys[i].bytes@)),
        forall|j: int| 0 <= j < absent(keys, others, n).len() ==> #[trigger] absent(keys, others, n)[j] < n,
        forall|j: int, k: int|
            0 <= j < k < absent(keys, others, n).len() ==> #[trigger] absent(keys, others, n)[j]
                < #[trigger] absent(keys, others, n)[k],
    decreases n,
{
    if n > 0 {
        lemma_absent(keys, others, n - 1);
        lemma_has_key(others, keys[n - 1].bytes@);
        let before = absent(keys, others, n - 1);
        let now = absent(keys, others, n);
        assert forall|i: int| 0 <= i < keys.len() implies (#[trigger] now.contains(i as usize) <==> i
            < n && !has_key(others, keys[i].bytes@)) by {
            assert(before.contains(i as usize) <==> i < n - 1 && !has_key(others, keys[i].bytes@));
            if now != before {
                assert(now == before.push((n - 1) as usize));
                if before.contains(i as usize) {
                    let j = choose|j: int| 0 <= j < before.len() && before[j] == i as usize;
                    assert(now[j] == i as usize);
                }
                assert(now[before.len() as int] == n - 1);
                if now.contains(i as usize) {
                    let j = choose|j: int| 0 <= j < now.len() && now[j] == i as usize;
                    if j < before.len() {
                        assert(before[j] == i as usize);
                    }
                }
            }
        }
        if among(others, keys[n - 1].bytes@) {
            assert(now == before);
        } else {
            assert(now == before.push((n - 1) as usize));
            assert forall|j: int, k: int| 0 <= j < k < now.len() implies #[trigger] now[j]
                < #[trigger] now[k] by {
                assert(now[j] == before[j]);
                if k < before.len() {
                    assert(now[k] == before[k]);
                }
            }
        }
    }
}

/// Whether `p` deletes every key that the source lacks and no other.
pub open spec fn deletes_what_is_gone(
    index_keys: Seq<ByteKey>,
    source_keys: Seq<ByteKey>,
    p: DriftPlan,
) -> bool {
    &&& !p.report.deletes_skipped
    &&& p.report.deleted == p.stale@.len()
    &&& p.stale@.no_duplicates()
    &&& forall|j: int| 0 <= j < p.stale@.len() ==> #[trigger] p.stale@[j] < index_keys.len()
    &&& forall|i: int|
        0 <= i < index_keys.len() ==> (#[trigger] p.stale@.contains(i as usize) <==> !has_key(
            source_keys,
            index_keys[i].bytes@,
        ))
}

/// Whether `p` indexes every document that the index lacks and no other, and counts what there is.
pub open spec fn indexes_what_is_missing(
    index_keys: Seq<ByteKey>,
    source_keys: Seq<ByteKey>,
    p: DriftPlan,
) -> bool {
    &&& p.report.index_count == index_keys.len()
    &&& p.report.source_count == source_keys.len()
    &&& p.report.reindexed == p.missing@.len()
    &&& p.missing@.no_duplicates()
    &&& forall|j: int| 0 <= j < p.missing@.len() ==> #[trigger] p.missing@[j] < source_keys.len()
    &&& forall|i: int|
        0 <= i < source_keys.len() ==> (#[trigger] p.missing@.contains(i as usize) <==> !has_key(
            index_keys,
            source_keys[i].bytes@,
        ))
}

proof fn lemma_plan(index_keys: Vec<ByteKey>, source_keys: Vec<ByteKey>, moved_on: bool, p: DriftPlan)
    requires
        plans(index_keys@, source_keys@, moved_on, p),
    ensures
        indexes_what_is_missing(index_keys@, source_keys@, p),
        !moved_on ==> deletes_what_is_gone(index_keys@, source_keys@, p),
        moved_on ==> p.stale@.len() == 0 && p.report.deleted == 0 && p.report.deletes_skipped,
{
    assert(index_keys.len() == index_keys@.len());
    assert(source_keys.len() == source_keys@.len());
    lemma_absent(index_keys@, source_keys@, index_keys@.len() as int);
    lemma_absent(source_keys@, index_keys@, source_keys@.len() as int);
}

/// A repair of a shard that took a commit since its checkpoint was noted deletes nothing: where it
/// stands at another snapshot or place in the order, in whichever direction, or at none.
pub proof fn lemma_nothing_deleted_after_a_commit(
    index_keys: Vec<ByteKey>,
    source_keys: Vec<ByteKey>,
    noted: SourceCheckpoint,
    now: Option<SourceCheckpoint>,
    p: DriftPlan,
)
    requires
        call_ensures(plan_repair, (&index_keys, &source_keys, Some(noted), now), p),
        now matches Some(at) ==> at.snapshot != noted.snapshot || at.sequence != noted.sequence,
    ensures
        p.stale@.len() == 0,
        p.report.deleted == 0,
        p.report.deletes_skipped,
        indexes_what_is_missing(index_keys@, source_keys@, p),
{
    lemma_plan(index_keys, source_keys, true, p);
}

/// A repair of a shard that stands where it stood deletes all that the source lacks, and indexes all
/// that the shard lacks.
pub proof fn lemma_repaired_where_it_stood(
    index_keys: Vec<ByteKey>,
    source_keys: Vec<ByteKey>,
    noted: SourceCheckpoint,
    now: SourceCheckpoint,
    p: DriftPlan,
)
    requires
        call_ensures(plan_repair, (&index_keys, &source_keys, Some(noted), Some(now)), p),
        now.snapshot == noted.snapshot,
        now.sequence == noted.sequence,
    ensures
        deletes_what_is_gone(index_keys@, source_keys@, p),
        indexes_what_is_missing(index_keys@, source_keys@, p),
{
    assert(now == noted);
    lemma_plan(index_keys, source_keys, false, p);
}

/// Where no checkpoint was noted nothing holds deletions back.
pub proof fn lemma_repaired_where_none_was_noted(
    index_keys: Vec<ByteKey>,
    source_keys: Vec<ByteKey>,
    now: Option<SourceCheckpoint>,
    p: DriftPlan,
)
    requires
        call_ensures(plan_repair, (&index_keys, &source_keys, None, now), p),
    ensures
        deletes_what_is_gone(index_keys@, source_keys@, p),
        indexes_what_is_missing(index_keys@, source_keys@, p),
{
    lemma_plan(index_keys, source_keys, false, p);
}

/// The plan for an index deletes and indexes by the same rule.
pub proof fn lemma_drift_is_planned(
    index_keys: Vec<ByteKey>,
    source_keys: Vec<ByteKey>,
    moved_on: bool,
    p: DriftPlan,
)
    requires
        call_ensures(plan_drift, (&index_keys, &source_keys, moved_on), p),
    ensures
        indexes_what_is_missing(index_keys@, source_keys@, p),
        !moved_on ==> deletes_what_is_gone(index_keys@, source_keys@, p),
        moved_on ==> p.stale@.len() == 0 && p.report.deletes_skipped,
{
    lemma_plan(index_keys, source_keys, moved_on, p);
}

/// The commit of a repair is named by the keys that it indexes, in their order, and by nothing else;
/// a repair without any is no commit.
pub proof fn lemma_same_repair_same_commit(
    a: Vec<ByteKey>,
    at_a: Vec<usize>,
    b: Vec<ByteKey>,
    at_b: Vec<usize>,
    x: Option<String>,
    y: Option<String>,
)
    requires
        call_ensures(repair_batch_id, (&a, &at_a), x),
        call_ensures(repair_batch_id, (&b, &at_b), y),
        at_a@.len() == at_b@.len(),
        forall|k: int|
            0 <= k < at_a@.len() ==> a@[#[trigger] at_a@[k] as int].bytes@
                == b@[at_b@[k] as int].bytes@,
    ensures
        x is Some <==> at_a@.len() > 0,
        x is Some <==> y is Some,
        x is Some ==> x->0@ == y->0@,
{
    lemma_same_hashed(a@, at_a@, b@, at_b@, at_a@.len() as int);
}

proof fn lemma_same_hashed(
    a: Seq<ByteKey>,
    at_a: Seq<usize>,
    b: Seq<ByteKey>,
    at_b: Seq<usize>,
    n: int,
)
    requires
        0 <= n <= at_a.len(),
        at_a.len() == at_b.len(),
        forall|k: int|
            0 <= k < at_a.len() ==> a[#[trigger] at_a[k] as int].bytes@
                == b[at_b[k] as int].bytes@,
    ensures
        hashed(a, at_a, n) == hashed(b, at_b, n),
    decreases n,
{
    if n > 0 {
        lemma_same_hashed(a, at_a, b, at_b, n - 1);
        assert(a[at_a[n - 1] as int].bytes@ == b[at_b[n - 1] as int].bytes@);
    }
}

/// What is hashed of a repair tells each of its keys: of two repairs with as many keys, those that
/// hash the same have the same keys.
pub proof fn lemma_hash_tells_keys(
    a: Seq<ByteKey>,
    at_a: Seq<usize>,
    b: Seq<ByteKey>,
    at_b: Seq<usize>,
    n: int,
    k: int,
)
    requires
        hashed(a, at_a, n) == hashed(b, at_b, n),
        0 <= k < n,
    ensures
        a[at_a[k] as int].bytes@ == b[at_b[k] as int].bytes@,
    decreases n,
{
    lemma_hashed_len(a, at_a, n - 1);
    lemma_hashed_len(b, at_b, n - 1);
    let x = hashed(a, at_a, n);
    let y = hashed(b, at_b, n);
    assert(x[2 * n - 1] == a[at_a[n - 1] as int].bytes@);
    assert(y[2 * n - 1] == b[at_b[n - 1] as int].bytes@);
    if k < n - 1 {
        assert(hashed(a, at_a, n - 1) =~= x.take(2 * (n - 1)));
        assert(hashed(b, at_b, n - 1) =~= y.take(2 * (n - 1)));
        lemma_hash_tells_keys(a, at_a, b, at_b, n - 1, k);
    }
}

proof fn lemma_hashed_len(keys: Seq<ByteKey>, at: Seq<usize>, n: int)
    requires
        n >= 0,
    ensures
        hashed(keys, at, n).len() == 2 * n,
    decreases n,
{
    if n > 0 {
        lemma_hashed_len(keys, at, n - 1);
    }
}

} // verus!
