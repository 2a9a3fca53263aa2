//! The ingestion view: how far each shard of an index is behind the head of its source.
use std::collections::HashMap;
use vstd::prelude::*;
use vstd::string::*;

use crate::order::{sorted_positions, stable_order, Ranked};
use crate::status::Code;
use crate::text::same;

verus! {

broadcast use vstd::std_specs::hash::group_hash_axioms;

/// How far behind the source head, in wall-clock milliseconds, a shard still counts as in sync.
/// A live source commits every few seconds, so a healthy shard is always a little behind.
pub const INGESTION_LAG_TOLERANCE_MS: i64 = 15_000;

/// How many shards are asked for their checkpoint at a time.
pub const SHARD_POLL_CONCURRENCY: usize = 32;

/// Whether an index serves yet.
#[derive(Clone, Copy, Debug, PartialEq, Eq, Structural)]
pub enum IndexStatus {
    Building,
    Active,
}

/// How documents are routed to shards.
#[derive(Clone, Copy, Debug, PartialEq, Eq, Structural)]
pub enum RoutingStrategy {
    Hash,
    Partition,
}

/// The name of an index's status on the wire.
pub open spec fn status_name(s: IndexStatus) -> Seq<char> {
    match s {
        IndexStatus::Building => "building"@,
        IndexStatus::Active => "active"@,
    }
}

/// The name of an index's status on the wire.
pub fn status_str(status: IndexStatus) -> (s: &'static str)
    ensures
        s@ == status_name(status),
{
    match status {
        IndexStatus::Building => "building",
        IndexStatus::Active => "active",
    }
}

/// Whether `head_ts - ts` can be told in an `i64`.
pub open spec fn measurable(head_ts: i64, ts: i64) -> bool {
    i64::MIN <= head_ts - ts <= i64::MAX
}

/// Whether the lag of a shard can be told in an `i64`, where it is measured at all.
pub open spec fn lag_fits(
    committed: i64,
    head_id: i64,
    source_readable: bool,
    committed_ts: Option<i64>,
    head_ts: i64,
) -> bool {
    committed != 0 && source_readable && committed != head_id ==> (committed_ts matches Some(ts)
        ==> measurable(head_ts, ts))
}

/// How far `ts` is behind `head_ts`; never negative.
pub open spec fn lag_of(head_ts: i64, ts: i64) -> int {
    if head_ts >= ts {
        head_ts - ts
    } else {
        0
    }
}

/// The state of a shard that has committed the source snapshot `committed`, and its lag.
pub open spec fn shard_state(
    committed: i64,
    head_id: i64,
    source_readable: bool,
    committed_ts: Option<i64>,
    head_ts: i64,
    tolerance_ms: i64,
) -> (Seq<char>, int) {
    if committed == 0 {
        ("uninitialized"@, 0)
    } else if !source_readable {
        ("unknown"@, 0)
    } else if committed == head_id {
        ("in_sync"@, 0)
    } else {
        match committed_ts {
            Some(ts) => if lag_of(head_ts, ts) <= tolerance_ms {
                ("in_sync"@, lag_of(head_ts, ts))
            } else {
                ("behind"@, lag_of(head_ts, ts))
            },
            None => ("behind"@, 0),
        }
    }
}

/// The state of a shard that has committed the source snapshot `committed`, and its lag.
/// Snapshot ids are random, so lag is measured between commit times; a snapshot that has left
/// the source's history cannot be measured and counts as behind.
pub fn ingestion_state(
    committed: i64,
    head_id: i64,
    source_readable: bool,
    committed_ts: Option<i64>,
    head_ts: i64,
    tolerance_ms: i64,
) -> (r: (&'static str, i64))
    requires
        lag_fits(committed, head_id, source_readable, committed_ts, head_ts),
    ensures
        (r.0@, r.1 as int) == shard_state(
            committed,
            head_id,
            source_readable,
            committed_ts,
            head_ts,
            tolerance_ms,
        ),
        r.1 >= 0,
{
    if committed == 0 {
        return ("uninitialized", 0);
    }
    if !source_readable {
        return ("unknown", 0);
    }
    if committed == head_id {
        return ("in_sync", 0);
    }
    match committed_ts {
        Some(ts) => {
            let lag: i64 = if head_ts >= ts {
                head_ts - ts
            } else {
                0
            };
            if lag <= tolerance_ms {
                ("in_sync", lag)
            } else {
                ("behind", lag)
            }
        },
        None => ("behind", 0),
    }
}

/// A shard or window whose checkpoint is asked for, and the node of its primary.
#[derive(Debug)]
pub struct ProbeTarget {
    pub ordinal: u32,
    pub window: i64,
    pub node: Option<String>,
}

/// An index, as far as its ingestion view needs it.
#[derive(Debug)]
pub struct IngestionEntry {
    pub name: String,
    pub status: IndexStatus,
    pub source_table: String,
    pub routing: RoutingStrategy,
    pub windowed: bool,
    pub has_variant_field: bool,
    /// The ordinal shards with their primaries.
    pub shards: Vec<(u32, Option<String>)>,
    /// The time windows with their primaries.
    pub windows: Vec<(i64, Option<String>)>,
}

/// What asking a shard came to: what it has committed of the source and its own snapshot, or
/// the state that the failure shows.
#[derive(Debug)]
pub enum ProbeOutcome {
    Checkpoint { committed: i64, snapshot: u64 },
    State(&'static str),
}

/// A shard that was asked.
#[derive(Debug)]
pub struct ShardProbe {
    pub ordinal: u32,
    pub window: i64,
    pub node: String,
    pub outcome: ProbeOutcome,
}

impl Ranked for ShardProbe {
    open spec fn before(&self, other: &Self) -> bool {
        self.window < other.window || (self.window == other.window && self.ordinal < other.ordinal)
    }

    proof fn lemma_strict_weak(a: &Self, b: &Self, c: &Self) {
    }

    fn precedes(&self, other: &Self) -> (r: bool) {
        self.window < other.window || (self.window == other.window && self.ordinal < other.ordinal)
    }
}

/// One shard of the ingestion view.
#[derive(Debug)]
pub struct ShardIngestion {
    pub ordinal: u32,
    pub node: String,
    pub committed_snapshot_id: i64,
    pub index_snapshot: u64,
    pub state: String,
    pub lag_ms: i64,
    pub window: i64,
}

/// One index of the ingestion view.
#[derive(Debug)]
pub struct IndexIngestion {
    pub name: String,
    pub status: String,
    pub source_table: String,
    pub routing: RoutingStrategy,
    pub shard_count: u32,
    pub source_snapshot_id: i64,
    pub source_timestamp_ms: i64,
    pub source_readable: bool,
    pub source_probeable: bool,
    pub shards: Vec<ShardIngestion>,
}

/// The gauges of one index: its worst lag, and how many of its shards answer.
#[derive(Debug)]
pub struct IngestionGauges {
    pub lag_ms: i64,
    pub up: u64,
    pub total: u64,
}

/// Whether `t` asks for the `k`th unit of `entry`.
pub open spec fn targets_unit(t: ProbeTarget, entry: IngestionEntry, k: int) -> bool {
    if entry.windowed {
        t.ordinal == 0 && t.window == entry.windows@[k].0 && t.node == entry.windows@[k].1
    } else {
        t.ordinal == entry.shards@[k].0 && t.window == 0 && t.node == entry.shards@[k].1
    }
}

/// The number of units of `entry`: its windows where it is windowed, else its shards.
pub open spec fn unit_count(entry: IngestionEntry) -> nat {
    if entry.windowed {
        entry.windows@.len()
    } else {
        entry.shards@.len()
    }
}

fn copy_node(node: &Option<String>) -> (r: Option<String>)
    ensures
        r == *node,
{
    match node {
        Some(n) => Some(n.clone()),
        None => None,
    }
}

/// The units of an index to ask for their checkpoints.
pub fn probe_targets(entry: &IngestionEntry) -> (out: Vec<ProbeTarget>)
    ensures
        out@.len() == unit_count(*entry),
        forall|k: int| 0 <= k < out@.len() ==> targets_unit(#[trigger] out@[k], *entry, k),
{
    let mut out: Vec<ProbeTarget> = Vec::new();
    let n: usize = if entry.windowed {
        entry.windows.len()
    } else {
        entry.shards.len()
    };
    let mut k: usize = 0;
    while k < n
        invariant
            n == unit_count(*entry),
            k <= n,
            out@.len() == k,
            forall|l: int| 0 <= l < k ==> targets_unit(#[trigger] out@[l], *entry, l),
        decreases n - k,
    {
        if entry.windowed {
            out.push(
                ProbeTarget {
                    ordinal: 0,
                    window: entry.windows[k].0,
                    node: copy_node(&entry.windows[k].1),
                },
            );
        } else {
            out.push(
                ProbeTarget {
                    ordinal: entry.shards[k].0,
                    window: 0,
                    node: copy_node(&entry.shards[k].1),
                },
            );
        }
        k = k + 1;
    }
    out
}

/// The probe of a unit that has no primary to ask.
pub fn unassigned_probe(ordinal: u32, window: i64) -> (p: ShardProbe)
    ensures
        p.ordinal == ordinal,
        p.window == window,
        p.node@.len() == 0,
        p.outcome matches ProbeOutcome::State(s) && s@ == "no_primary"@,
{
    ShardProbe { ordinal, window, node: String::new(), outcome: ProbeOutcome::State("no_primary") }
}

/// The state that a refused checkpoint shows: a node that serves an index over a recreated
/// source refuses by its precondition; anything else is a node out of reach.
pub fn checkpoint_failure_state(code: Code) -> (s: &'static str)
    ensures
        s@ == if code == Code::FailedPrecondition {
            "source_recreated"@
        } else {
            "unreachable"@
        },
{
    match code {
        Code::FailedPrecondition => "source_recreated",
        _ => "unreachable",
    }
}

/// What asking the unit `target` came to, where `answer` is what its primary answered: what it has
/// committed and its own snapshot, or the code that it refused with. Nobody is asked where there is
/// no primary.
pub fn probe_of(target: ProbeTarget, answer: Result<(i64, u64), Code>) -> (p: ShardProbe)
    ensures
        p.ordinal == target.ordinal,
        p.window == target.window,
        match target.node {
            None => p.node@.len() == 0 && (p.outcome matches ProbeOutcome::State(s) && s@
                == "no_primary"@),
            Some(node) => p.node == node && match answer {
                Ok(a) => p.outcome == (ProbeOutcome::Checkpoint { committed: a.0, snapshot: a.1 }),
                Err(code) => p.outcome matches ProbeOutcome::State(s) && s@ == (if code
                    == Code::FailedPrecondition {
                    "source_recreated"@
                } else {
                    "unreachable"@
                }),
            },
        },
{
    match target.node {
        None => unassigned_probe(target.ordinal, target.window),
        Some(node) => ShardProbe {
            ordinal: target.ordinal,
            window: target.window,
            node,
            outcome: match answer {
                Ok((committed, snapshot)) => ProbeOutcome::Checkpoint { committed, snapshot },
                Err(code) => ProbeOutcome::State(checkpoint_failure_state(code)),
            },
        },
    }
}

/// The source head as the view takes it: its id, its time and whether it was read. A variant
/// source has no native head, so nothing read of it counts.
pub open spec fn head_taken(entry: IngestionEntry, head: Option<(i64, i64)>) -> (i64, i64, bool) {
    if entry.has_variant_field {
        (0, 0, false)
    } else {
        match head {
            Some((id, ts)) => (id, ts, true),
            None => (0, 0, false),
        }
    }
}

/// The commit time of a snapshot, where the source's history still has it.
pub open spec fn ts_of(snapshot_ts: Map<i64, i64>, id: i64) -> Option<i64> {
    if snapshot_ts.contains_key(id) {
        Some(snapshot_ts[id])
    } else {
        None
    }
}

/// Whether `row` shows what `probe` found.
pub open spec fn shows_probe(
    row: ShardIngestion,
    probe: ShardProbe,
    head: (i64, i64, bool),
    snapshot_ts: Map<i64, i64>,
) -> bool {
    &&& row.ordinal == probe.ordinal
    &&& row.window == probe.window
    &&& row.node == probe.node
    &&& match probe.outcome {
        ProbeOutcome::State(s) => row.committed_snapshot_id == 0 && row.index_snapshot == 0
            && row.state@ == s@ && row.lag_ms == 0,
        ProbeOutcome::Checkpoint { committed, snapshot } => {
            &&& row.committed_snapshot_id == committed
            &&& row.index_snapshot == snapshot
            &&& (row.state@, row.lag_ms as int) == shard_state(
                committed,
                head.0,
                head.2,
                ts_of(snapshot_ts, committed),
                head.1,
                INGESTION_LAG_TOLERANCE_MS,
            )
        },
    }
}

/// Whether `rows` shows `probes` by window and then ordinal.
pub open spec fn shows_probes(
    rows: Seq<ShardIngestion>,
    probes: Seq<ShardProbe>,
    head: (i64, i64, bool),
    snapshot_ts: Map<i64, i64>,
) -> bool {
    exists|at: Seq<usize>| #[trigger]
        stable_order(probes, at) && rows.len() == probes.len() && forall|k: int|
            0 <= k < rows.len() ==> shows_probe(
                #[trigger] rows[k],
                probes[at[k] as int],
                head,
                snapshot_ts,
            )
}

/// Whether a shard in this state answers.
pub open spec fn answers_in(state: Seq<char>) -> bool {
    state != "no_primary"@ && state != "unreachable"@
}

/// The number of rows whose shard answers.
pub open spec fn up_count(rows: Seq<ShardIngestion>) -> nat
    decreases rows.len(),
{
    if rows.len() == 0 {
        0
    } else {
        up_count(rows.drop_last()) + if answers_in(rows.last().state@) {
            1nat
        } else {
            0nat
        }
    }
}

/// Whether `lag` is the worst lag of `rows`, 0 where there are none.
pub open spec fn is_worst_lag(rows: Seq<ShardIngestion>, lag: i64) -> bool {
    &&& forall|k: int| 0 <= k < rows.len() ==> (#[trigger] rows[k]).lag_ms <= lag
    &&& if rows.len() == 0 {
        lag == 0
    } else {
        exists|k: int| 0 <= k < rows.len() && (#[trigger] rows[k]).lag_ms == lag
    }
}

/// Whether the lag that a probe found can be told.
pub open spec fn probe_fits(
    probe: ShardProbe,
    head: (i64, i64, bool),
    snapshot_ts: Map<i64, i64>,
) -> bool {
    probe.outcome matches ProbeOutcome::Checkpoint { committed, .. } ==> lag_fits(
        committed,
        head.0,
        head.2,
        ts_of(snapshot_ts, committed),
        head.1,
    )
}

fn ingestion_row(
    probe: &ShardProbe,
    head: (i64, i64, bool),
    snapshot_ts: &HashMap<i64, i64>,
) -> (row: ShardIngestion)
    requires
        probe_fits(*probe, head, snapshot_ts@),
    ensures
        shows_probe(row, *probe, head, snapshot_ts@),
        row.lag_ms >= 0,
{
    match &probe.outcome {
        ProbeOutcome::State(s) => ShardIngestion {
            ordinal: probe.ordinal,
            node: probe.node.clone(),
            committed_snapshot_id: 0,
            index_snapshot: 0,
            state: (*s).to_owned(),
            lag_ms: 0,
            window: probe.window,
        },
        ProbeOutcome::Checkpoint { committed, snapshot } => {
            let ts: Option<i64> = match snapshot_ts.get(committed) {
                Some(t) => Some(*t),
                None => None,
            };
            let (state, lag_ms) = ingestion_state(
                *committed,
                head.0,
                head.2,
                ts,
                head.1,
                INGESTION_LAG_TOLERANCE_MS,
            );
            ShardIngestion {
                ordinal: probe.ordinal,
                node: probe.node.clone(),
                committed_snapshot_id: *committed,
                index_snapshot: *snapshot,
                state: state.to_owned(),
                lag_ms,
                window: probe.window,
            }
        },
    }
}

/// The ingestion view of one index, from what its source and its shards answered.
pub fn index_ingestion(
    entry: &IngestionEntry,
    head: Option<(i64, i64)>,
    snapshot_ts: &HashMap<i64, i64>,
    probes: &Vec<ShardProbe>,
) -> (item: IndexIngestion)
    requires
        unit_count(*entry) <= u32::MAX,
        forall|k: int|
            0 <= k < probes@.len() ==> probe_fits(
                #[trigger] probes@[k],
                head_taken(*entry, head),
                snapshot_ts@,
            ),
    ensures
        item.name == entry.name,
        item.status@ == status_name(entry.status),
        item.source_table == entry.source_table,
        item.routing == entry.routing,
        item.shard_count == unit_count(*entry),
        (item.source_snapshot_id, item.source_timestamp_ms, item.source_readable) == head_taken(
            *entry,
            head,
        ),
        item.source_probeable == !entry.has_variant_field,
        shows_probes(item.shards@, probes@, head_taken(*entry, head), snapshot_ts@),
        forall|k: int| 0 <= k < item.shards@.len() ==> (#[trigger] item.shards@[k]).lag_ms >= 0,
{
    let source_probeable = !entry.has_variant_field;
    let taken: (i64, i64, bool) = if source_probeable {
        match head {
            Some((id, ts)) => (id, ts, true),
            None => (0, 0, false),
        }
    } else {
        (0, 0, false)
    };
    let at = sorted_positions(probes);
    let mut shards: Vec<ShardIngestion> = Vec::new();
    let mut k: usize = 0;
    while k < at.len()
        invariant
            taken == head_taken(*entry, head),
            forall|l: int|
                0 <= l < probes@.len() ==> probe_fits(#[trigger] probes@[l], taken, snapshot_ts@),
            stable_order(probes@, at@),
            k <= at@.len(),
            shards@.len() == k,
            forall|l: int|
                0 <= l < k ==> shows_probe(
                    #[trigger] shards@[l],
                    probes@[at@[l] as int],
                    taken,
                    snapshot_ts@,
                ) && shards@[l].lag_ms >= 0,
        decreases at@.len() - k,
    {
        shards.push(ingestion_row(&probes[at[k]], taken, snapshot_ts));
        k = k + 1;
    }
    let count: usize = if entry.windowed {
        entry.windows.len()
    } else {
        entry.shards.len()
    };
    IndexIngestion {
        name: entry.name.clone(),
        status: status_str(entry.status).to_owned(),
        source_table: entry.source_table.clone(),
        routing: entry.routing,
        shard_count: count as u32,
        source_snapshot_id: taken.0,
        source_timestamp_ms: taken.1,
        source_readable: taken.2,
        source_probeable,
        shards,
    }
}

/// The gauges of one index, from its view.
pub fn ingestion_gauges(shards: &Vec<ShardIngestion>) -> (g: IngestionGauges)
    ensures
        is_worst_lag(shards@, g.lag_ms),
        g.up == up_count(shards@),
        g.total == shards@.len(),
{
    let mut lag: i64 = 0;
    let mut up: u64 = 0;
    let mut k: usize = 0;
    while k < shards.len()
        invariant
            k <= shards@.len(),
            up == up_count(shards@.take(k as int)),
            up <= k,
            is_worst_lag(shards@.take(k as int), lag),
        decreases shards@.len() - k,
    {
        let ghost before = shards@.take(k as int);
        let ghost upto = shards@.take(k + 1);
        assert(upto.drop_last() =~= before);
        assert(forall|l: int| 0 <= l < k ==> upto[l] == before[l]);
        if k == 0 || shards[k].lag_ms > lag {
            lag = shards[k].lag_ms;
            assert(upto[k as int].lag_ms == lag);
        } else {
            let ghost w = choose|l: int| 0 <= l < before.len() && (#[trigger] before[l]).lag_ms
                == lag;
            assert(upto[w].lag_ms == lag);
        }
        let state = shards[k].state.as_str();
        if !same(state, "no_primary") && !same(state, "unreachable") {
            up = up + 1;
        }
        k = k + 1;
    }
    assert(shards@.take(k as int) =~= shards@);
    IngestionGauges { lag_ms: lag, up, total: shards.len() as u64 }
}

/// The indexes that a status request is about: all of them, or the one it names.
pub fn ingestion_names(filter: String, all: Vec<String>) -> (names: Vec<String>)
    ensures
        filter@.len() == 0 ==> names == all,
        filter@.len() > 0 ==> names@ == seq![filter],
{
    if filter.as_str().is_empty() {
        all
    } else {
        let mut names: Vec<String> = Vec::new();
        names.push(filter);
        assert(names@ =~= seq![filter]);
        names
    }
}

fn is_registered(name: &str, registered: &Vec<String>) -> (b: bool)
    ensures
        b == registered.deep_view().contains(name@),
{
    let mut i: usize = 0;
    while i < registered.len()
        invariant
            i <= registered@.len(),
            forall|k: int| 0 <= k < i ==> #[trigger] registered.deep_view()[k] != name@,
        decreases registered@.len() - i,
    {
        if same(registered[i].as_str(), name) {
            assert(registered.deep_view()[i as int] == name@);
            return true;
        }
        assert(registered.deep_view()[i as int] != name@);
        i = i + 1;
    }
    false
}

/// The indexes that a sample of the names `asked` covers: those that are registered, in the order
/// asked.
pub fn sampled_names(asked: &Vec<String>, registered: &Vec<String>) -> (names: Vec<String>)
    ensures
        names.deep_view() == asked.deep_view().filter(
            |name: Seq<char>| registered.deep_view().contains(name),
        ),
{
    let ghost view = asked.deep_view();
    let ghost keeps = |name: Seq<char>| registered.deep_view().contains(name);
    let mut names: Vec<String> = Vec::new();
    let mut i: usize = 0;
    assert(names.deep_view() =~= view.take(0).filter(keeps)) by {
        reveal(Seq::filter);
    }
    while i < asked.len()
        invariant
            i <= asked@.len(),
            view == asked.deep_view(),
            keeps == (|name: Seq<char>| registered.deep_view().contains(name)),
            names.deep_view() == view.take(i as int).filter(keeps),
        decreases asked@.len() - i,
    {
        let ghost before = names.deep_view();
        proof {
            reveal(Seq::filter);
            assert(view.take(i + 1).drop_last() =~= view.take(i as int));
            assert(view.take(i + 1).last() == asked@[i as int]@);
        }
        if is_registered(asked[i].as_str(), registered) {
            names.push(asked[i].clone());
            assert(names.deep_view() =~= before.push(asked@[i as int]@));
        }
        i = i + 1;
    }
    assert(view.take(i as int) =~= view);
    names
}

} // verus!
