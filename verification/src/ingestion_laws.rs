//! What holds of the ingestion view, said of one shard and one row at a time.
use std::collections::HashMap;
use vstd::prelude::*;

use crate::ingestion::{
    answers_in, checkpoint_failure_state, index_ingestion, ingestion_gauges, ingestion_names,
    ingestion_state, probe_of, probe_targets, sampled_names, status_str, unassigned_probe, up_count,
    IndexIngestion, IndexStatus, IngestionEntry, IngestionGauges, ProbeOutcome, ProbeTarget,
    ShardIngestion, ShardProbe,
};
use crate::order::{comes_first, lemma_stable_order_permutes, stable_order};
use crate::status::Code;

verus! {

/// The state of a shard, and its lag in milliseconds. A shard that has committed nothing is not
/// initialized; nothing is known of one whose source cannot be read; one that has the head is in
/// sync, as is one whose commit is within the tolerance of the head; every other one is behind. Lag
/// is the time between the commits, where both are known and the head is later.
pub proof fn lemma_shard_state(
    committed: i64,
    head_id: i64,
    readable: bool,
    committed_ts: Option<i64>,
    head_ts: i64,
    tolerance_ms: i64,
    r: (&'static str, i64),
)
    requires
        call_ensures(
            ingestion_state,
            (committed, head_id, readable, committed_ts, head_ts, tolerance_ms),
            r,
        ),
    ensures
        committed == 0 ==> r.0@ == "uninitialized"@ && r.1 == 0,
        committed != 0 && !readable ==> r.0@ == "unknown"@ && r.1 == 0,
        committed != 0 && readable && committed == head_id ==> r.0@ == "in_sync"@ && r.1 == 0,
        committed != 0 && readable && committed != head_id && committed_ts is None ==> r.0@
            == "behind"@ && r.1 == 0,
        committed != 0 && readable && committed != head_id && committed_ts is Some ==> {
            &&& head_ts <= committed_ts->0 ==> r.1 == 0
            &&& head_ts > committed_ts->0 ==> committed_ts->0 + r.1 == head_ts
            &&& r.1 <= tolerance_ms ==> r.0@ == "in_sync"@
            &&& r.1 > tolerance_ms ==> r.0@ == "behind"@
        },
{
}

/// An index that serves is active; one that does not yet is building.
pub proof fn lemma_status_is_named(s: &'static str, status: IndexStatus)
    requires
        call_ensures(status_str, (status,), s),
    ensures
        status is Active ==> s@ == "active"@,
        status is Building ==> s@ == "building"@,
{
}

/// Every unit of an index is asked, in its order, by its own primary: the windows of a windowed
/// index, and else the shards.
pub proof fn lemma_every_unit_is_asked(entry: IngestionEntry, out: Vec<ProbeTarget>, k: int)
    requires
        call_ensures(probe_targets, (&entry,), out),
    ensures
        entry.windowed ==> out@.len() == entry.windows@.len(),
        !entry.windowed ==> out@.len() == entry.shards@.len(),
        0 <= k < out@.len() ==> if entry.windowed {
            out@[k].window == entry.windows@[k].0 && out@[k].node == entry.windows@[k].1
                && out@[k].ordinal == 0
        } else {
            out@[k].ordinal == entry.shards@[k].0 && out@[k].node == entry.shards@[k].1
                && out@[k].window == 0
        },
{
}

/// A unit without a primary shows that; one with a primary shows what the primary answered, and a
/// refusal by precondition is that of a recreated source.
pub proof fn lemma_unit_is_probed(
    target: ProbeTarget,
    answer: Result<(i64, u64), Code>,
    p: ShardProbe,
)
    requires
        call_ensures(probe_of, (target, answer), p),
    ensures
        p.ordinal == target.ordinal,
        p.window == target.window,
        target.node is None ==> p.node@.len() == 0 && (p.outcome matches ProbeOutcome::State(s) && s@
            == "no_primary"@),
        target.node matches Some(n) ==> p.node@ == n@,
        target.node is Some && answer is Ok ==> (p.outcome matches ProbeOutcome::Checkpoint {
            committed,
            snapshot,
        } && committed == answer->Ok_0.0 && snapshot == answer->Ok_0.1),
        target.node is Some && answer is Err && answer->Err_0 == Code::FailedPrecondition ==> (
        p.outcome matches ProbeOutcome::State(s) && s@ == "source_recreated"@),
        target.node is Some && answer is Err && answer->Err_0 != Code::FailedPrecondition ==> (
        p.outcome matches ProbeOutcome::State(s) && s@ == "unreachable"@),
{
}

/// A refused checkpoint shows a recreated source where the precondition failed, and else a node out
/// of reach.
pub proof fn lemma_refusal_shows(code: Code, s: &'static str)
    requires
        call_ensures(checkpoint_failure_state, (code,), s),
    ensures
        code == Code::FailedPrecondition ==> s@ == "source_recreated"@,
        code != Code::FailedPrecondition ==> s@ == "unreachable"@,
{
}

/// A unit without a primary is shown as itself.
pub proof fn lemma_unassigned_is_shown(ordinal: u32, window: i64, p: ShardProbe)
    requires
        call_ensures(unassigned_probe, (ordinal, window), p),
    ensures
        p.ordinal == ordinal,
        p.window == window,
        p.node@.len() == 0,
        p.outcome matches ProbeOutcome::State(s) && s@ == "no_primary"@,
{
}

/// The rows of the view are by window and within a window by ordinal, and each is that of one probe:
/// `at` tells which, and names every probe once.
pub proof fn lemma_rows_in_order(
    entry: IngestionEntry,
    head: Option<(i64, i64)>,
    snapshot_ts: HashMap<i64, i64>,
    probes: Vec<ShardProbe>,
    item: IndexIngestion,
) -> (at: Seq<usize>)
    requires
        call_ensures(index_ingestion, (&entry, head, &snapshot_ts, &probes), item),
    ensures
        item.shards@.len() == probes@.len(),
        at.len() == probes@.len(),
        at.no_duplicates(),
        forall|k: int| 0 <= k < at.len() ==> #[trigger] at[k] < probes@.len(),
        forall|k: int|
            #![trigger item.shards@[k]]
            0 <= k < at.len() ==> item.shards@[k].ordinal == probes@[at[k] as int].ordinal
                && item.shards@[k].window == probes@[at[k] as int].window && item.shards@[k].node@
                == probes@[at[k] as int].node@,
        forall|j: int, k: int|
            0 <= j < k < at.len() ==> (#[trigger] item.shards@[j]).window < (
            #[trigger] item.shards@[k]).window || (item.shards@[j].window == item.shards@[k].window
                && item.shards@[j].ordinal <= item.shards@[k].ordinal),
{
    let taken = crate::ingestion::head_taken(entry, head);
    let rows = item.shards@;
    let at = choose|at: Seq<usize>| #[trigger]
        stable_order(probes@, at) && rows.len() == probes@.len() && forall|k: int|
            0 <= k < rows.len() ==> crate::ingestion::shows_probe(
                #[trigger] rows[k],
                probes@[at[k] as int],
                taken,
                snapshot_ts@,
            );
    assert(stable_order(probes@, at));
    lemma_stable_order_permutes(probes@, at);
    assert forall|j: int, k: int| 0 <= j < k < at.len() implies (#[trigger] rows[j]).window < (
    #[trigger] rows[k]).window || (rows[j].window == rows[k].window && rows[j].ordinal
        <= rows[k].ordinal) by {
        assert(comes_first(probes@, at[j] as int, at[k] as int));
    }
    at
}

/// A row says what its probe found: the state that a failure shows, with nothing committed and no
/// lag; else what was committed, and the state that comes of it against the head of the source, with
/// a tolerance of fifteen seconds.
pub proof fn lemma_row_shows_probe(
    entry: IngestionEntry,
    head: Option<(i64, i64)>,
    snapshot_ts: HashMap<i64, i64>,
    probes: Vec<ShardProbe>,
    item: IndexIngestion,
    k: int,
) -> (i: int)
    requires
        call_ensures(index_ingestion, (&entry, head, &snapshot_ts, &probes), item),
        0 <= k < item.shards@.len(),
    ensures
        0 <= i < probes@.len(),
        ({
            let row = item.shards@[k];
            let p = probes@[i];
            &&& row.ordinal == p.ordinal && row.window == p.window && row.node@ == p.node@
            &&& p.outcome matches ProbeOutcome::State(s) ==> row.state@ == s@ && row.lag_ms == 0
                && row.committed_snapshot_id == 0 && row.index_snapshot == 0
            &&& p.outcome matches ProbeOutcome::Checkpoint { committed, snapshot } ==> {
                &&& row.committed_snapshot_id == committed
                &&& row.index_snapshot == snapshot
                &&& committed == 0 ==> row.state@ == "uninitialized"@ && row.lag_ms == 0
                &&& committed != 0 && !item.source_readable ==> row.state@ == "unknown"@
                    && row.lag_ms == 0
                &&& committed != 0 && item.source_readable && committed == item.source_snapshot_id
                    ==> row.state@ == "in_sync"@ && row.lag_ms == 0
                &&& committed != 0 && item.source_readable && committed != item.source_snapshot_id
                    && !snapshot_ts@.contains_key(committed) ==> row.state@ == "behind"@
                    && row.lag_ms == 0
                &&& committed != 0 && item.source_readable && committed != item.source_snapshot_id
                    && snapshot_ts@.contains_key(committed) ==> {
                    &&& item.source_timestamp_ms > snapshot_ts@[committed] ==> row.lag_ms
                        == item.source_timestamp_ms - snapshot_ts@[committed]
                    &&& item.source_timestamp_ms <= snapshot_ts@[committed] ==> row.lag_ms == 0
                    &&& row.lag_ms <= 15_000 ==> row.state@ == "in_sync"@
                    &&& row.lag_ms > 15_000 ==> row.state@ == "behind"@
                }
            }
        }),
{
    let taken = crate::ingestion::head_taken(entry, head);
    let rows = item.shards@;
    let at = choose|at: Seq<usize>| #[trigger]
        stable_order(probes@, at) && rows.len() == probes@.len() && forall|k: int|
            0 <= k < rows.len() ==> crate::ingestion::shows_probe(
                #[trigger] rows[k],
                probes@[at[k] as int],
                taken,
                snapshot_ts@,
            );
    assert(stable_order(probes@, at));
    assert(crate::ingestion::shows_probe(rows[k], probes@[at[k] as int], taken, snapshot_ts@));
    lemma_stable_order_permutes(probes@, at);
    assert(at[k] < probes@.len());
    at[k] as int
}

/// The view of an index tells its name, its table, its status and how many units it has, and the
/// head of its source where there is one to read. A source with variants is not read.
pub proof fn lemma_index_is_shown(
    entry: IngestionEntry,
    head: Option<(i64, i64)>,
    snapshot_ts: HashMap<i64, i64>,
    probes: Vec<ShardProbe>,
    item: IndexIngestion,
)
    requires
        call_ensures(index_ingestion, (&entry, head, &snapshot_ts, &probes), item),
    ensures
        item.name@ == entry.name@,
        item.source_table@ == entry.source_table@,
        item.routing == entry.routing,
        entry.status is Active ==> item.status@ == "active"@,
        entry.status is Building ==> item.status@ == "building"@,
        entry.windowed ==> item.shard_count == entry.windows@.len(),
        !entry.windowed ==> item.shard_count == entry.shards@.len(),
        item.source_probeable <==> !entry.has_variant_field,
        item.source_readable <==> !entry.has_variant_field && head is Some,
        item.source_readable ==> item.source_snapshot_id == (head->0).0 && item.source_timestamp_ms
            == (head->0).1,
        !item.source_readable ==> item.source_snapshot_id == 0 && item.source_timestamp_ms == 0,
{
}

/// How many rows are of shards that answer: those that have a primary within reach.
pub open spec fn all_up(rows: Seq<ShardIngestion>) -> int {
    rows.fold_left(
        0int,
        |n: int, row: ShardIngestion|
            if row.state@ == "no_primary"@ || row.state@ == "unreachable"@ {
                n
            } else {
                n + 1
            },
    )
}

proof fn lemma_up_folds(rows: Seq<ShardIngestion>)
    ensures
        up_count(rows) == all_up(rows),
    decreases rows.len(),
{
    reveal(Seq::fold_left);
    if rows.len() > 0 {
        lemma_up_folds(rows.drop_last());
        assert(answers_in(rows.last().state@) <==> !(rows.last().state@ == "no_primary"@
            || rows.last().state@ == "unreachable"@));
    }
}

/// The lag of an index is that of its shard that is furthest behind; its gauges count the shards that
/// answer and all of them.
pub proof fn lemma_gauges(shards: Vec<ShardIngestion>, g: IngestionGauges, k: int)
    requires
        call_ensures(ingestion_gauges, (&shards,), g),
    ensures
        0 <= k < shards@.len() ==> shards@[k].lag_ms <= g.lag_ms,
        shards@.len() > 0 ==> exists|j: int|
            0 <= j < shards@.len() && (#[trigger] shards@[j]).lag_ms == g.lag_ms,
        shards@.len() == 0 ==> g.lag_ms == 0,
        g.up == all_up(shards@),
        g.total == shards@.len(),
{
    lemma_up_folds(shards@);
}

/// A status request is about the index it names, and about all where it names none.
pub proof fn lemma_named_indexes(filter: String, all: Vec<String>, names: Vec<String>)
    requires
        call_ensures(ingestion_names, (filter, all), names),
    ensures
        filter@.len() == 0 ==> names@ == all@,
        filter@.len() > 0 ==> names@.len() == 1 && names@[0]@ == filter@,
{
}

/// A sample covers the names asked for that are registered, and no other.
pub proof fn lemma_sample_covers(
    asked: Vec<String>,
    registered: Vec<String>,
    names: Vec<String>,
    name: Seq<char>,
)
    requires
        call_ensures(sampled_names, (&asked, &registered), names),
    ensures
        names.deep_view().contains(name) <==> asked.deep_view().contains(name)
            && registered.deep_view().contains(name),
        names@.len() <= asked@.len(),
{
    let keeps = |name: Seq<char>| registered.deep_view().contains(name);
    let view = asked.deep_view();
    lemma_filter_contains(view, keeps, name);
    assert(names.deep_view().len() == names@.len());
    assert(view.len() == asked@.len());
    view.lemma_filter_len(keeps);
}

proof fn lemma_filter_contains(s: Seq<Seq<char>>, keeps: spec_fn(Seq<char>) -> bool, x: Seq<char>)
    ensures
        s.filter(keeps).contains(x) <==> s.contains(x) && keeps(x),
    decreases s.len(),
{
    reveal(Seq::filter);
    if s.len() > 0 {
        let rest = s.drop_last();
        let before = rest.filter(keeps);
        let after = s.filter(keeps);
        lemma_filter_contains(rest, keeps, x);
        assert(s =~= rest.push(s.last()));
        assert(s.contains(x) <==> rest.contains(x) || x == s.last()) by {
            lemma_pushed_contains(rest, s.last(), x);
        }
        if keeps(s.last()) {
            lemma_pushed_contains(before, s.last(), x);
        }
    }
}

proof fn lemma_pushed_contains(s: Seq<Seq<char>>, y: Seq<char>, x: Seq<char>)
    ensures
        s.push(y).contains(x) <==> s.contains(x) || x == y,
{
    let t = s.push(y);
    assert(t[s.len() as int] == y);
    if s.contains(x) {
        let i = choose|i: int| 0 <= i < s.len() && s[i] == x;
        assert(t[i] == x);
    }
    if t.contains(x) && x != y {
        let i = choose|i: int| 0 <= i < t.len() && t[i] == x;
        assert(s[i] == x);
    }
}

} // verus!
