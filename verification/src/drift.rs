//! Drift between an index and its source: what to delete, what to index again, and what the
//! index holds afterwards.
use std::collections::hash_map::DefaultHasher;
use std::hash::Hasher;

use vstd::bytes::{spec_u64_to_le_bytes, u64_to_le_bytes};
use vstd::prelude::*;
use vstd::std_specs::hash::DefaultHasherAdditionalSpecFns;
use vstd::string::*;

use crate::admin::SourceCheckpoint;
use crate::keys::{ByteKey, KeyIndex};
use crate::text::{append_hex, hex};

verus! {

/// How many drifted keys of each kind are logged.
pub const DRIFT_LOG_KEYS: usize = 20;

/// What a reconciliation found and did.
#[derive(Debug, Clone, PartialEq, Eq)]
pub struct DriftReport {
    /// How many keys the index held.
    pub index_count: usize,
    /// How many documents the source holds.
    pub source_count: usize,
    /// How many keys were deleted for want of a document.
    pub deleted: usize,
    /// How many documents were indexed again for want of a key.
    pub reindexed: usize,
    /// Whether deletions were left out because the index moved on while the source was read.
    pub deletes_skipped: bool,
}

impl DriftReport {
    /// Whether the index agreed with the source.
    pub open spec fn clean(&self) -> bool {
        self.deleted == 0 && self.reindexed == 0
    }

    /// Whether the index agreed with the source.
    pub fn is_clean(&self) -> (b: bool)
        ensures
            b == self.clean(),
    {
        self.deleted == 0 && self.reindexed == 0
    }
}

/// Whether `key` is one of `keys`.
pub open spec fn among(keys: Seq<ByteKey>, key: Seq<u8>) -> bool {
    exists|i: int| 0 <= i < keys.len() && (#[trigger] keys[i]).bytes@ == key
}

/// The positions below `n` of the keys that are not among `others`.
pub open spec fn absent(keys: Seq<ByteKey>, others: Seq<ByteKey>, n: int) -> Seq<usize>
    decreases n,
{
    if n <= 0 {
        Seq::empty()
    } else if among(others, keys[n - 1].bytes@) {
        absent(keys, others, n - 1)
    } else {
        absent(keys, others, n - 1).push((n - 1) as usize)
    }
}

/// What a reconciliation does, with what it reports.
#[derive(Debug)]
pub struct DriftPlan {
    /// The keys of the index to delete, by position.
    pub stale: Vec<usize>,
    /// The documents of the source to index again, by position.
    pub missing: Vec<usize>,
    pub report: DriftReport,
}

fn absent_from(keys: &Vec<ByteKey>, others: &Vec<ByteKey>) -> (at: Vec<usize>)
    ensures
        at@ == absent(keys@, others@, keys@.len() as int),
        forall|k: int| 0 <= k < at@.len() ==> (#[trigger] at@[k]) < keys@.len(),
{
    let index = KeyIndex::new(others);
    let mut at: Vec<usize> = Vec::new();
    let mut i: usize = 0;
    while i < keys.len()
        invariant
            index.wf(),
            index.keys == others,
            i <= keys@.len(),
            at@ == absent(keys@, others@, i as int),
            forall|k: int| 0 <= k < at@.len() ==> (#[trigger] at@[k]) < keys@.len(),
        decreases keys@.len() - i,
    {
        if !index.contains(&keys[i]) {
            at.push(i);
        }
        i = i + 1;
    }
    at
}

/// Whether `p` is the plan for an index that holds `index_keys` and a source that holds
/// `source_keys`: what the source lacks is deleted, unless the index moved on; what the index lacks
/// is indexed again.
pub open spec fn plans(
    index_keys: Seq<ByteKey>,
    source_keys: Seq<ByteKey>,
    moved_on: bool,
    p: DriftPlan,
) -> bool {
    &&& p.stale@ == (if moved_on {
        Seq::empty()
    } else {
        absent(index_keys, source_keys, index_keys.len() as int)
    })
    &&& p.missing@ == absent(source_keys, index_keys, source_keys.len() as int)
    &&& forall|k: int| 0 <= k < p.missing@.len() ==> (#[trigger] p.missing@[k]) < source_keys.len()
    &&& forall|k: int| 0 <= k < p.stale@.len() ==> (#[trigger] p.stale@[k]) < index_keys.len()
    &&& p.report.index_count == index_keys.len()
    &&& p.report.source_count == source_keys.len()
    &&& p.report.deleted == p.stale@.len()
    &&& p.report.reindexed == p.missing@.len()
    &&& p.report.deletes_skipped == moved_on
}

/// Plans the reconciliation of an index that holds `index_keys` with a source that holds
/// `source_keys`. Keys without a document are deleted, unless the index moved on since before the
/// source was read: one of them may then be a document that the read did not see.
pub fn plan_drift(index_keys: &Vec<ByteKey>, source_keys: &Vec<ByteKey>, moved_on: bool) -> (p:
    DriftPlan)
    ensures
        plans(index_keys@, source_keys@, moved_on, p),
{
    let stale = if moved_on {
        Vec::new()
    } else {
        absent_from(index_keys, source_keys)
    };
    let missing = absent_from(source_keys, index_keys);
    let report = DriftReport {
        index_count: index_keys.len(),
        source_count: source_keys.len(),
        deleted: stale.len(),
        reindexed: missing.len(),
        deletes_skipped: moved_on,
    };
    DriftPlan { stale, missing, report }
}

/// Whether the shard took a commit since it stood at `captured`. Where it had taken none by then,
/// nothing tells.
pub open spec fn moved_since(
    captured: Option<SourceCheckpoint>,
    current: Option<SourceCheckpoint>,
) -> bool {
    captured is Some && current != captured
}

/// Whether the shard took a commit since it stood at `captured`.
pub fn has_moved(captured: Option<SourceCheckpoint>, current: Option<SourceCheckpoint>) -> (b: bool)
    ensures
        b == moved_since(captured, current),
{
    match captured {
        None => false,
        Some(was) => match current {
            None => true,
            Some(is) => !(is == was),
        },
    }
}

/// Plans the reconciliation of a shard that stood at `captured` before the source was read and
/// stands at `current` now: a key that the source lacks is deleted only where the shard took no
/// commit in between.
pub fn plan_repair(
    index_keys: &Vec<ByteKey>,
    source_keys: &Vec<ByteKey>,
    captured: Option<SourceCheckpoint>,
    current: Option<SourceCheckpoint>,
) -> (p: DriftPlan)
    ensures
        plans(index_keys@, source_keys@, moved_since(captured, current), p),
{
    plan_drift(index_keys, source_keys, has_moved(captured, current))
}

/// What is hashed of the keys at the first `n` of the positions `at`: the length of each key and
/// its bytes.
pub open spec fn hashed(keys: Seq<ByteKey>, at: Seq<usize>, n: int) -> Seq<Seq<u8>>
    decreases n,
{
    if n <= 0 {
        Seq::empty()
    } else {
        let bytes = keys[at[n - 1] as int].bytes@;
        hashed(keys, at, n - 1).push(spec_u64_to_le_bytes(bytes.len() as u64)).push(bytes)
    }
}

/// The id of the commit that indexes the keys at `missing` again.
pub open spec fn repair_id(keys: Seq<ByteKey>, missing: Seq<usize>) -> Seq<char> {
    "reconcile-"@ + hex(
        DefaultHasher::spec_finish(hashed(keys, missing, missing.len() as int)) as nat,
    )
}

/// The id of the commit that indexes the documents at `missing` again; none where there are none
/// and nothing is committed. It is made of the missing keys alone, so repairing the same drift
/// again is the same commit.
pub fn repair_batch_id(source_keys: &Vec<ByteKey>, missing: &Vec<usize>) -> (id: Option<String>)
    requires
        forall|k: int| 0 <= k < missing@.len() ==> (#[trigger] missing@[k]) < source_keys@.len(),
    ensures
        match id {
            Some(s) => missing@.len() > 0 && s@ == repair_id(source_keys@, missing@),
            None => missing@.len() == 0,
        },
{
    if missing.len() == 0 {
        return None;
    }
    let mut hasher = DefaultHasher::new();
    let mut i: usize = 0;
    while i < missing.len()
        invariant
            i <= missing@.len(),
            forall|k: int| 0 <= k < missing@.len() ==> (#[trigger] missing@[k]) < source_keys@.len(),
            hasher@ == hashed(source_keys@, missing@, i as int),
        decreases missing@.len() - i,
    {
        let key = &source_keys[missing[i]];
        let len: u64 = key.bytes.len() as u64;
        let prefix = u64_to_le_bytes(len);
        hasher.write(prefix.as_slice());
        hasher.write(key.bytes.as_slice());
        i = i + 1;
    }
    let mut id = "reconcile-".to_owned();
    append_hex(&mut id, hasher.finish());
    Some(id)
}

/// Whether one of the keys at `at` is `key`.
pub open spec fn names(keys: Seq<ByteKey>, at: Seq<usize>, key: Seq<u8>) -> bool {
    exists|k: int| 0 <= k < at.len() && keys[(#[trigger] at[k]) as int].bytes@ == key
}

/// Whether an index that held `index_keys` holds `key` once the keys at `stale` are deleted and
/// the documents at `missing` are indexed.
pub open spec fn held_after(
    index_keys: Seq<ByteKey>,
    source_keys: Seq<ByteKey>,
    stale: Seq<usize>,
    missing: Seq<usize>,
    key: Seq<u8>,
) -> bool {
    (among(index_keys, key) && !names(index_keys, stale, key)) || names(source_keys, missing, key)
}

proof fn lemma_names_absent(keys: Seq<ByteKey>, others: Seq<ByteKey>, n: int, key: Seq<u8>)
    requires
        0 <= n <= keys.len() <= usize::MAX,
    ensures
        names(keys, absent(keys, others, n), key) <==> among(keys.take(n), key) && !among(
            others,
            key,
        ),
    decreases n,
{
    if n > 0 {
        let prior = absent(keys, others, n - 1);
        let at = absent(keys, others, n);
        let before = keys.take(n - 1);
        let now = keys.take(n);
        lemma_names_absent(keys, others, n - 1, key);
        if among(before, key) {
            let i = choose|i: int| 0 <= i < before.len() && (#[trigger] before[i]).bytes@ == key;
            assert(now[i].bytes@ == key);
        }
        if among(now, key) {
            let i = choose|i: int| 0 <= i < now.len() && (#[trigger] now[i]).bytes@ == key;
            if i < n - 1 {
                assert(before[i].bytes@ == key);
            }
        }
        if !among(others, keys[n - 1].bytes@) {
            assert(at == prior.push((n - 1) as usize));
            if names(keys, prior, key) {
                let k = choose|k: int|
                    0 <= k < prior.len() && keys[(#[trigger] prior[k]) as int].bytes@ == key;
                assert(keys[at[k] as int].bytes@ == key);
            }
            if names(keys, at, key) {
                let k = choose|k: int|
                    0 <= k < at.len() && keys[(#[trigger] at[k]) as int].bytes@ == key;
                if k < prior.len() {
                    assert(keys[prior[k] as int].bytes@ == key);
                } else {
                    assert(now[n - 1].bytes@ == key);
                }
            }
            if keys[n - 1].bytes@ == key {
                assert(keys[at[prior.len() as int] as int].bytes@ == key);
            }
        } else {
            assert(at == prior);
        }
    }
}

/// After a reconciliation the index holds the keys of the source and no other; where deletions
/// were left out it holds those of the source and all that it held.
pub proof fn lemma_reconciled(
    index_keys: Seq<ByteKey>,
    source_keys: Seq<ByteKey>,
    moved_on: bool,
    key: Seq<u8>,
)
    requires
        index_keys.len() <= usize::MAX,
        source_keys.len() <= usize::MAX,
    ensures
        ({
            let stale = if moved_on {
                Seq::empty()
            } else {
                absent(index_keys, source_keys, index_keys.len() as int)
            };
            let missing = absent(source_keys, index_keys, source_keys.len() as int);
            held_after(index_keys, source_keys, stale, missing, key) <==> among(source_keys, key)
                || (moved_on && among(index_keys, key))
        }),
{
    lemma_names_absent(index_keys, source_keys, index_keys.len() as int, key);
    lemma_names_absent(source_keys, index_keys, source_keys.len() as int, key);
    assert(index_keys.take(index_keys.len() as int) =~= index_keys);
    assert(source_keys.take(source_keys.len() as int) =~= source_keys);
}

/// No document of the source is deleted, and none that the index holds is indexed again.
pub proof fn lemma_drift_is_minimal(index_keys: Seq<ByteKey>, source_keys: Seq<ByteKey>, key: Seq<u8>)
    requires
        index_keys.len() <= usize::MAX,
        source_keys.len() <= usize::MAX,
    ensures
        names(index_keys, absent(index_keys, source_keys, index_keys.len() as int), key)
            ==> !among(source_keys, key),
        names(source_keys, absent(source_keys, index_keys, source_keys.len() as int), key)
            ==> !among(index_keys, key),
{
    lemma_names_absent(index_keys, source_keys, index_keys.len() as int, key);
    lemma_names_absent(source_keys, index_keys, source_keys.len() as int, key);
}

/// A commit that a shard takes while the source is read is not undone: where the shard moved on
/// since it stood at `captured`, it holds afterwards every key that it held.
pub proof fn lemma_later_commits_stay(
    index_keys: Seq<ByteKey>,
    source_keys: Seq<ByteKey>,
    captured: Option<SourceCheckpoint>,
    current: Option<SourceCheckpoint>,
    p: DriftPlan,
    key: Seq<u8>,
)
    requires
        plans(index_keys, source_keys, moved_since(captured, current), p),
        moved_since(captured, current),
        among(index_keys, key),
    ensures
        held_after(index_keys, source_keys, p.stale@, p.missing@, key),
{
}

/// A reconciled index is clean: where the index holds the keys of the source and no other,
/// nothing is deleted or indexed again.
pub proof fn lemma_reconciled_is_clean(index_keys: Seq<ByteKey>, source_keys: Seq<ByteKey>)
    requires
        index_keys.len() <= usize::MAX,
        source_keys.len() <= usize::MAX,
        forall|key: Seq<u8>| #[trigger] among(index_keys, key) <==> among(source_keys, key),
    ensures
        absent(index_keys, source_keys, index_keys.len() as int).len() == 0,
        absent(source_keys, index_keys, source_keys.len() as int).len() == 0,
{
    lemma_nothing_absent(index_keys, source_keys, index_keys.len() as int);
    lemma_nothing_absent(source_keys, index_keys, source_keys.len() as int);
}

proof fn lemma_nothing_absent(keys: Seq<ByteKey>, others: Seq<ByteKey>, n: int)
    requires
        0 <= n <= keys.len(),
        forall|key: Seq<u8>| #[trigger] among(keys, key) ==> among(others, key),
    ensures
        absent(keys, others, n).len() == 0,
    decreases n,
{
    if n > 0 {
        lemma_nothing_absent(keys, others, n - 1);
        assert(among(keys, keys[n - 1].bytes@));
    }
}

} // verus!
