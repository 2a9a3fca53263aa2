//! Growing an index onto more shards, and moving a bucket between shards: what may be planned, and
//! in which order the shards are rebuilt so that every read finds its documents.
use vstd::prelude::*;
use vstd::string::*;

use crate::status::{plain, Code, Status, StatusView};
use crate::text::{append_decimal, decimal};

verus! {

/// A bucket that changes its shard.
#[derive(Debug, Clone, Copy, PartialEq, Eq, Structural)]
pub struct BucketMove {
    pub bucket: u32,
    pub from_shard: u32,
    pub to_shard: u32,
}

/// A new owner for every bucket, and the buckets whose owner changes.
#[derive(Debug)]
pub struct Reassignment {
    pub owners: Vec<u32>,
    pub moved: Vec<BucketMove>,
}

/// A registered shard, and the node that serves it if one does.
#[derive(Debug, Clone)]
pub struct ShardNode {
    pub ordinal: u32,
    pub primary: Option<String>,
}

/// A shard and the node that is to rebuild it.
#[derive(Debug)]
pub struct ShardTarget {
    pub ordinal: u32,
    pub endpoint: String,
}

/// A planned change of owners: the shards to build before it, and those to trim after it.
#[derive(Debug)]
pub struct GrowthReshard {
    /// The owners that the change was planned from; none where the index had no bucket map.
    pub planned_from: Option<Vec<u32>>,
    pub owners: Vec<u32>,
    pub build: Vec<ShardTarget>,
    pub trim: Vec<ShardTarget>,
}

/// The node that serves `ordinal`.
pub open spec fn endpoint_of(shards: Seq<ShardNode>, ordinal: u32) -> Option<Seq<char>>
    decreases shards.len(),
{
    if shards.len() == 0 {
        None
    } else if shards[0].ordinal == ordinal {
        shards[0].primary.deep_view()
    } else {
        endpoint_of(shards.drop_first(), ordinal)
    }
}

fn find_endpoint(shards: &Vec<ShardNode>, ordinal: u32) -> (r: Option<String>)
    ensures
        r.deep_view() == endpoint_of(shards@, ordinal),
{
    let mut i: usize = 0;
    assert(shards@.skip(0) =~= shards@);
    while i < shards.len()
        invariant
            i <= shards@.len(),
            endpoint_of(shards@, ordinal) == endpoint_of(shards@.skip(i as int), ordinal),
        decreases shards@.len() - i,
    {
        assert(shards@.skip(i as int)[0] == shards@[i as int]);
        assert(shards@.skip(i as int).drop_first() =~= shards@.skip(i + 1));
        if shards[i].ordinal == ordinal {
            return match &shards[i].primary {
                Some(e) => Some(e.clone()),
                None => None,
            };
        }
        i = i + 1;
    }
    None
}

/// The first move onto a shard below `count`.
pub open spec fn first_onto(moved: Seq<BucketMove>, count: u32) -> Option<BucketMove>
    decreases moved.len(),
{
    if moved.len() == 0 {
        None
    } else if moved[0].to_shard < count {
        Some(moved[0])
    } else {
        first_onto(moved.drop_first(), count)
    }
}

/// The first shard from `from` up to `to` that no node serves.
pub open spec fn first_unserved(shards: Seq<ShardNode>, from: u32, to: u32) -> Option<u32>
    decreases to - from,
{
    if from >= to {
        None
    } else if endpoint_of(shards, from) is None {
        Some(from)
    } else {
        first_unserved(shards, (from + 1) as u32, to)
    }
}

/// The message for a reshard that does not grow.
pub open spec fn no_growth_text(new: u32, current: u32) -> Seq<char> {
    "apply-reshard grows an index; new shard count "@ + decimal(new as nat)
        + " must exceed the current "@ + decimal(current as nat)
        + " (shrink/rebalance is not supported online)"@
}

/// The message for a move onto a shard that already holds data.
pub open spec fn rebalance_text(m: BucketMove) -> Seq<char> {
    "reassignment moves bucket "@ + decimal(m.bucket as nat) + " onto existing shard "@ + decimal(
        m.to_shard as nat,
    ) + " (a rebalance); apply-reshard supports growth only"@
}

/// The message for a shard without a node.
pub open spec fn unserved_text(ordinal: u32, current: u32, new: u32) -> Seq<char> {
    "shard "@ + decimal(ordinal as nat) + " has no assigned node — bring up + register shards "@
        + decimal(current as nat) + ".."@ + decimal(new as nat) + " (`serve --shards "@ + decimal(
        new as nat,
    ) + " --shard-ordinal K`) first"@
}

/// Why a reassignment is not a growth from `current` to `new` shards.
pub open spec fn growth_refusal(
    moved: Seq<BucketMove>,
    shards: Seq<ShardNode>,
    current: u32,
    new: u32,
) -> Option<Seq<char>> {
    if new <= current {
        Some(no_growth_text(new, current))
    } else {
        match first_onto(moved, current) {
            Some(m) => Some(rebalance_text(m)),
            None => match first_unserved(shards, 0, new) {
                Some(o) => Some(unserved_text(o, current, new)),
                None => None,
            },
        }
    }
}

/// Whether `targets` are the shards from `from` up to `to`, each with the node that serves it.
pub open spec fn are_targets(
    targets: Seq<ShardTarget>,
    shards: Seq<ShardNode>,
    from: u32,
    to: u32,
) -> bool {
    &&& targets.len() == to - from
    &&& forall|k: int|
        0 <= k < targets.len() ==> (#[trigger] targets[k]).ordinal == from + k && endpoint_of(
            shards,
            targets[k].ordinal,
        ) == Some(targets[k].endpoint@)
}

/// Whether `g` is the plan of a growth from `current` to `new` shards: the new shards are built and
/// the others trimmed.
pub open spec fn is_growth_plan(
    g: GrowthReshard,
    planned_from: Option<Vec<u32>>,
    owners: Vec<u32>,
    shards: Seq<ShardNode>,
    current: u32,
    new: u32,
) -> bool {
    &&& g.planned_from == planned_from
    &&& g.owners == owners
    &&& are_targets(g.build@, shards, current, new)
    &&& are_targets(g.trim@, shards, 0, current)
}

proof fn lemma_first_onto(moved: Seq<BucketMove>, count: u32, n: int)
    requires
        0 <= n <= moved.len(),
        forall|k: int| 0 <= k < n ==> (#[trigger] moved[k]).to_shard >= count,
    ensures
        n == moved.len() ==> first_onto(moved, count) is None,
        n < moved.len() && moved[n].to_shard < count ==> first_onto(moved, count) == Some(moved[n]),
    decreases n,
{
    if n > 0 {
        let rest = moved.drop_first();
        assert(moved[0].to_shard >= count);
        assert forall|k: int| 0 <= k < n - 1 implies (#[trigger] rest[k]).to_shard >= count by {
            assert(moved[k + 1].to_shard >= count);
        }
        lemma_first_onto(rest, count, n - 1);
    }
}

/// Plans a growth from `current` to `new` shards, or says why it is none: every bucket that moves
/// must move onto a new shard, and every shard must have a node. `planned_from` are the owners that
/// the reassignment was made from.
pub fn plan_growth_reshard(
    planned_from: Option<Vec<u32>>,
    reassignment: Reassignment,
    shards: &Vec<ShardNode>,
    current: u32,
    new: u32,
) -> (r: Result<GrowthReshard, String>)
    ensures
        match growth_refusal(reassignment.moved@, shards@, current, new) {
            Some(m) => r matches Err(e) && e@ == m,
            None => r matches Ok(g) && is_growth_plan(
                g,
                planned_from,
                reassignment.owners,
                shards@,
                current,
                new,
            ),
        },
{
    if new <= current {
        let mut m = "apply-reshard grows an index; new shard count ".to_owned();
        append_decimal(&mut m, new as u64);
        m.append(" must exceed the current ");
        append_decimal(&mut m, current as u64);
        m.append(" (shrink/rebalance is not supported online)");
        return Err(m);
    }
    let mut i: usize = 0;
    while i < reassignment.moved.len()
        invariant
            new > current,
            i <= reassignment.moved@.len(),
            forall|k: int| 0 <= k < i ==> (#[trigger] reassignment.moved@[k]).to_shard >= current,
        decreases reassignment.moved@.len() - i,
    {
        let mv: BucketMove = reassignment.moved[i];
        if mv.to_shard < current {
            proof {
                lemma_first_onto(reassignment.moved@, current, i as int);
            }
            let mut m = "reassignment moves bucket ".to_owned();
            append_decimal(&mut m, mv.bucket as u64);
            m.append(" onto existing shard ");
            append_decimal(&mut m, mv.to_shard as u64);
            m.append(" (a rebalance); apply-reshard supports growth only");
            return Err(m);
        }
        i = i + 1;
    }
    proof {
        lemma_first_onto(reassignment.moved@, current, reassignment.moved@.len() as int);
    }
    let mut build: Vec<ShardTarget> = Vec::new();
    let mut trim: Vec<ShardTarget> = Vec::new();
    let mut ordinal: u32 = 0;
    while ordinal < new
        invariant
            new > current,
            ordinal <= new,
            first_onto(reassignment.moved@, current) is None,
            first_unserved(shards@, 0, new) == first_unserved(shards@, ordinal, new),
            ordinal <= current ==> build@.len() == 0 && are_targets(trim@, shards@, 0, ordinal),
            ordinal > current ==> are_targets(build@, shards@, current, ordinal) && are_targets(
                trim@,
                shards@,
                0,
                current,
            ),
        decreases new - ordinal,
    {
        match find_endpoint(shards, ordinal) {
            None => {
                let mut m = "shard ".to_owned();
                append_decimal(&mut m, ordinal as u64);
                m.append(" has no assigned node — bring up + register shards ");
                append_decimal(&mut m, current as u64);
                m.append("..");
                append_decimal(&mut m, new as u64);
                m.append(" (`serve --shards ");
                append_decimal(&mut m, new as u64);
                m.append(" --shard-ordinal K`) first");
                return Err(m);
            },
            Some(endpoint) => {
                let target = ShardTarget { ordinal, endpoint };
                if ordinal >= current {
                    build.push(target);
                } else {
                    trim.push(target);
                }
            },
        }
        ordinal = ordinal + 1;
    }
    Ok(GrowthReshard { planned_from, owners: reassignment.owners, build, trim })
}

/// Over how many shards an index is routed at present: as many as its bucket map says, and only
/// without one as many as are registered. Registration already counts shards that hold nothing yet.
pub fn routed_over(map_shards: Option<u32>, registered: u32) -> (n: u32)
    ensures
        n == (match map_shards {
            Some(m) => m,
            None => registered,
        }),
{
    match map_shards {
        Some(m) => m,
        None => registered,
    }
}

/// The bucket map of an index: the owner of each bucket, and over how many shards they are.
#[derive(Debug)]
pub struct BucketMap {
    pub owners: Vec<u32>,
    pub shards: u32,
}

/// Over how many shards an index with this bucket map is routed.
pub open spec fn routed_shards(map: Option<BucketMap>, registered: nat) -> nat {
    match map {
        Some(m) => m.shards as nat,
        None => registered,
    }
}

/// Plans to apply a reassignment that was made from `map`, or refuses it: what is no growth does
/// not fit the state that the index is in.
pub fn plan_apply_reshard(
    map: Option<BucketMap>,
    reassignment: Reassignment,
    shards: &Vec<ShardNode>,
    new: u32,
) -> (r: Result<GrowthReshard, Status>)
    requires
        shards@.len() <= u32::MAX,
    ensures
        ({
            let current = routed_shards(map, shards@.len()) as u32;
            match growth_refusal(reassignment.moved@, shards@, current, new) {
                Some(m) => r matches Err(e) && e@ == plain(Code::FailedPrecondition, m),
                None => r matches Ok(g) && is_growth_plan(
                    g,
                    match map {
                        Some(m) => Some(m.owners),
                        None => None,
                    },
                    reassignment.owners,
                    shards@,
                    current,
                    new,
                ),
            }
        }),
{
    let registered: u32 = shards.len() as u32;
    let (planned_from, map_shards): (Option<Vec<u32>>, Option<u32>) = match map {
        Some(m) => (Some(m.owners), Some(m.shards)),
        None => (None, None),
    };
    let current: u32 = routed_over(map_shards, registered);
    match plan_growth_reshard(planned_from, reassignment, shards, current, new) {
        Ok(g) => Ok(g),
        Err(m) => Err(Status::new(Code::FailedPrecondition, m)),
    }
}

/// The message for moving a bucket of an index without buckets.
pub open spec fn not_bucketed_text(index: Seq<char>) -> Seq<char> {
    "index `"@ + index
        + "` is not bucketed (legacy routing); a reshard establishes buckets first"@
}

/// The message for moving a bucket to where it is.
pub open spec fn already_there_text(bucket: u32, shard: u32) -> Seq<char> {
    "bucket "@ + decimal(bucket as nat) + " already lives on shard "@ + decimal(shard as nat)
}

/// The message for a shard without a node, when a bucket is moved.
pub open spec fn no_node_text(shard: u32, index: Seq<char>) -> Seq<char> {
    "shard "@ + decimal(shard as nat) + " of `"@ + index + "` has no node"@
}

/// Why a bucket cannot be moved to `to`, where `map` are the owners of the buckets, if the index has
/// any, and `fault` says why the map with the bucket moved would not be valid.
pub open spec fn move_refusal(
    index: Seq<char>,
    map: Option<Seq<u32>>,
    bucket: u32,
    to: u32,
    fault: Option<Seq<char>>,
    shards: Seq<ShardNode>,
) -> Option<StatusView> {
    match map {
        None => Some(plain(Code::FailedPrecondition, not_bucketed_text(index))),
        Some(m) => {
            let from = m[bucket as int];
            if from == to {
                Some(plain(Code::FailedPrecondition, already_there_text(bucket, to)))
            } else if let Some(why) = fault {
                Some(plain(Code::InvalidArgument, why))
            } else if endpoint_of(shards, to) is None {
                Some(plain(Code::FailedPrecondition, no_node_text(to, index)))
            } else if endpoint_of(shards, from) is None {
                Some(plain(Code::FailedPrecondition, no_node_text(from, index)))
            } else {
                None
            }
        },
    }
}

fn not_bucketed(index: &str) -> (s: Status)
    ensures
        s@ == plain(Code::FailedPrecondition, not_bucketed_text(index@)),
{
    let mut m = "index `".to_owned();
    m.append(index);
    m.append("` is not bucketed (legacy routing); a reshard establishes buckets first");
    Status::new(Code::FailedPrecondition, m)
}

fn no_node(shard: u32, index: &str) -> (s: Status)
    ensures
        s@ == plain(Code::FailedPrecondition, no_node_text(shard, index@)),
{
    let mut m = "shard ".to_owned();
    append_decimal(&mut m, shard as u64);
    m.append(" of `");
    m.append(index);
    m.append("` has no node");
    Status::new(Code::FailedPrecondition, m)
}

/// A planned move of a bucket, and what the move answers with when it is done.
#[derive(Debug)]
pub struct PlannedMove {
    pub change: GrowthReshard,
    pub answer: BucketMove,
}

/// Whether `p` moves `bucket` to `to` and nothing else: the shard that it moves to is built with it
/// before its owner changes, and the shard that it leaves is trimmed after that.
pub open spec fn is_move_plan(
    p: PlannedMove,
    map: Vec<u32>,
    bucket: u32,
    to: u32,
    shards: Seq<ShardNode>,
) -> bool {
    let from = map@[bucket as int];
    &&& p.change.planned_from == Some(map)
    &&& p.change.owners@ == map@.update(bucket as int, to)
    &&& p.change.build@.len() == 1
    &&& p.change.build@[0].ordinal == to
    &&& Some(p.change.build@[0].endpoint@) == endpoint_of(shards, to)
    &&& p.change.trim@.len() == 1
    &&& p.change.trim@[0].ordinal == from
    &&& Some(p.change.trim@[0].endpoint@) == endpoint_of(shards, from)
    &&& p.answer == BucketMove { bucket, from_shard: from, to_shard: to }
}

fn copied_owners(owners: &Vec<u32>) -> (out: Vec<u32>)
    ensures
        out@ == owners@,
{
    let mut out: Vec<u32> = Vec::new();
    let mut i: usize = 0;
    while i < owners.len()
        invariant
            i <= owners@.len(),
            out@ == owners@.take(i as int),
        decreases owners@.len() - i,
    {
        out.push(owners[i]);
        assert(out@ =~= owners@.take(i + 1));
        i = i + 1;
    }
    assert(owners@.take(i as int) =~= owners@);
    out
}

/// Plans to move a bucket.
pub fn plan_bucket_move(
    index: &str,
    map: Option<Vec<u32>>,
    bucket: u32,
    to: u32,
    fault: Option<String>,
    shards: &Vec<ShardNode>,
) -> (r: Result<PlannedMove, Status>)
    requires
        map matches Some(m) ==> bucket < m@.len(),
    ensures
        match move_refusal(index@, map.deep_view(), bucket, to, fault.deep_view(), shards@) {
            Some(s) => r matches Err(e) && e@ == s,
            None => r matches Ok(p) && is_move_plan(p, map->0, bucket, to, shards@),
        },
{
    let map = match map {
        Some(m) => m,
        None => return Err(not_bucketed(index)),
    };
    assert(map.deep_view() =~= map@);
    let from: u32 = map[bucket as usize];
    if from == to {
        let mut m = "bucket ".to_owned();
        append_decimal(&mut m, bucket as u64);
        m.append(" already lives on shard ");
        append_decimal(&mut m, to as u64);
        return Err(Status::new(Code::FailedPrecondition, m));
    }
    if let Some(why) = fault {
        return Err(Status::new(Code::InvalidArgument, why));
    }
    let to_endpoint = match find_endpoint(shards, to) {
        Some(e) => e,
        None => return Err(no_node(to, index)),
    };
    let from_endpoint = match find_endpoint(shards, from) {
        Some(e) => e,
        None => return Err(no_node(from, index)),
    };
    let mut owners = copied_owners(&map);
    owners.set(bucket as usize, to);
    let mut build: Vec<ShardTarget> = Vec::new();
    build.push(ShardTarget { ordinal: to, endpoint: to_endpoint });
    let mut trim: Vec<ShardTarget> = Vec::new();
    trim.push(ShardTarget { ordinal: from, endpoint: from_endpoint });
    Ok(
        PlannedMove {
            change: GrowthReshard { planned_from: Some(map), owners, build, trim },
            answer: BucketMove { bucket, from_shard: from, to_shard: to },
        },
    )
}

/// Commits new owners, unless someone else changed them since they were planned: `stored` is then
/// left as it is. Says whether they were committed.
pub fn swap_owners(
    stored: &mut Option<Vec<u32>>,
    expected: &Option<Vec<u32>>,
    owners: &Vec<u32>,
) -> (done: bool)
    ensures
        done == (old(stored).deep_view() == expected.deep_view()),
        final(stored).deep_view() == (if done {
            Some(owners.deep_view())
        } else {
            old(stored).deep_view()
        }),
{
    let unchanged = match (&*stored, expected) {
        (Some(a), Some(b)) => same_owners(a, b),
        (None, None) => true,
        _ => false,
    };
    if unchanged {
        let new = copied_owners(owners);
        assert(new.deep_view() =~= owners.deep_view());
        *stored = Some(new);
    }
    unchanged
}

fn same_owners(a: &Vec<u32>, b: &Vec<u32>) -> (r: bool)
    ensures
        r == (a.deep_view() == b.deep_view()),
{
    if a.len() != b.len() {
        assert(a.deep_view().len() != b.deep_view().len());
        return false;
    }
    let mut i: usize = 0;
    while i < a.len()
        invariant
            a@.len() == b@.len(),
            i <= a@.len(),
            forall|k: int| 0 <= k < i ==> a@[k] == b@[k],
        decreases a@.len() - i,
    {
        if a[i] != b[i] {
            assert(a.deep_view()[i as int] != b.deep_view()[i as int]);
            return false;
        }
        i = i + 1;
    }
    assert(a.deep_view() =~= b.deep_view());
    true
}

/// Where a change of owners stands.
#[derive(Debug, Clone, Copy, PartialEq, Eq, Structural)]
pub enum ReshardStep {
    /// The build of this target is under way.
    Build(usize),
    /// The new owners are being committed.
    Cutover,
    /// The trim of this target is under way.
    Trim(usize),
    Done,
    /// A build or the commit failed; nothing has changed owners.
    Aborted,
}

/// What comes next where `builds` shards are to be built and `trims` to be trimmed: `built` of them
/// are built.
pub open spec fn after_builds(built: int, builds: int) -> ReshardStep {
    if built < builds {
        ReshardStep::Build(built as usize)
    } else {
        ReshardStep::Cutover
    }
}

/// What comes next when `trimmed` shards have been trimmed or have failed to be.
pub open spec fn after_trims(trimmed: int, trims: int) -> ReshardStep {
    if trimmed < trims {
        ReshardStep::Trim(trimmed as usize)
    } else {
        ReshardStep::Done
    }
}

/// The step that follows `step` when what it was waiting for succeeded or failed.
pub open spec fn next_step(step: ReshardStep, ok: bool, builds: int, trims: int) -> ReshardStep {
    match step {
        ReshardStep::Build(i) => if ok {
            after_builds(i + 1, builds)
        } else {
            ReshardStep::Aborted
        },
        ReshardStep::Cutover => if ok {
            after_trims(0, trims)
        } else {
            ReshardStep::Aborted
        },
        ReshardStep::Trim(i) => after_trims(i + 1, trims),
        ReshardStep::Done => ReshardStep::Done,
        ReshardStep::Aborted => ReshardStep::Aborted,
    }
}

/// A change of owners, under way.
#[derive(Debug)]
pub struct ReshardDriver {
    pub plan: GrowthReshard,
    pub step: ReshardStep,
    /// The shards that were trimmed.
    pub trimmed: Vec<u32>,
}

/// What is to be done next.
#[derive(Debug)]
pub enum ReshardAction<'a> {
    /// Rebuild this shard with the buckets that it has under the new owners.
    Rebuild(&'a ShardTarget),
    /// Commit the new owners in place of the expected ones. Where others are stored by now, someone
    /// else changed them since: the commit fails and theirs stay.
    Commit { expected: &'a Option<Vec<u32>>, owners: &'a Vec<u32> },
    Nothing,
}

impl ReshardDriver {
    /// Whether the step is one of the plan's.
    pub open spec fn wf(&self) -> bool {
        match self.step {
            ReshardStep::Build(i) => i < self.plan.build@.len(),
            ReshardStep::Trim(i) => i < self.plan.trim@.len(),
            _ => true,
        }
    }

    /// Starts a planned change.
    pub fn start(plan: GrowthReshard) -> (d: ReshardDriver)
        ensures
            d.wf(),
            d.plan == plan,
            d.step == after_builds(0, plan.build@.len() as int),
            d.trimmed@.len() == 0,
    {
        let step = if plan.build.len() > 0 {
            ReshardStep::Build(0)
        } else {
            ReshardStep::Cutover
        };
        ReshardDriver { plan, step, trimmed: Vec::new() }
    }

    /// What is to be done next.
    pub fn action(&self) -> (a: ReshardAction)
        requires
            self.wf(),
        ensures
            match self.step {
                ReshardStep::Build(i) => a == ReshardAction::Rebuild(&self.plan.build@[i as int]),
                ReshardStep::Cutover => a == (ReshardAction::Commit {
                    expected: &self.plan.planned_from,
                    owners: &self.plan.owners,
                }),
                ReshardStep::Trim(i) => a == ReshardAction::Rebuild(&self.plan.trim@[i as int]),
                _ => a == ReshardAction::Nothing,
            },
    {
        match self.step {
            ReshardStep::Build(i) => ReshardAction::Rebuild(&self.plan.build[i]),
            ReshardStep::Cutover => ReshardAction::Commit {
                expected: &self.plan.planned_from,
                owners: &self.plan.owners,
            },
            ReshardStep::Trim(i) => ReshardAction::Rebuild(&self.plan.trim[i]),
            ReshardStep::Done | ReshardStep::Aborted => ReshardAction::Nothing,
        }
    }

    /// Takes in how the action went. A failed build or commit is the error that ends the change; a
    /// failed trim is not, for the index is already right.
    pub fn advance(&mut self, outcome: Result<(), Status>) -> (r: Result<(), Status>)
        requires
            old(self).wf(),
        ensures
            final(self).wf(),
            final(self).plan == old(self).plan,
            final(self).step == next_step(
                old(self).step,
                outcome is Ok,
                old(self).plan.build@.len() as int,
                old(self).plan.trim@.len() as int,
            ),
            final(self).trimmed@ == (match old(self).step {
                ReshardStep::Trim(i) if outcome is Ok => old(self).trimmed@.push(
                    old(self).plan.trim@[i as int].ordinal,
                ),
                _ => old(self).trimmed@,
            }),
            match (old(self).step, outcome) {
                (ReshardStep::Build(_), Err(e)) => r == Err::<(), Status>(e),
                (ReshardStep::Cutover, Err(e)) => r == Err::<(), Status>(e),
                _ => r is Ok,
            },
    {
        match self.step {
            ReshardStep::Build(i) => {
                match outcome {
                    Err(e) => {
                        self.step = ReshardStep::Aborted;
                        return Err(e);
                    },
                    Ok(_) => {
                        let n: usize = self.plan.build.len();
                        self.step = if i + 1 < n {
                            ReshardStep::Build(i + 1)
                        } else {
                            ReshardStep::Cutover
                        };
                    },
                }
            },
            ReshardStep::Cutover => {
                match outcome {
                    Err(e) => {
                        self.step = ReshardStep::Aborted;
                        return Err(e);
                    },
                    Ok(_) => {
                        self.step = if self.plan.trim.len() > 0 {
                            ReshardStep::Trim(0)
                        } else {
                            ReshardStep::Done
                        };
                    },
                }
            },
            ReshardStep::Trim(i) => {
                if let Ok(_) = outcome {
                    let ordinal: u32 = self.plan.trim[i].ordinal;
                    self.trimmed.push(ordinal);
                }
                let n: usize = self.plan.trim.len();
                self.step = if i + 1 < n {
                    ReshardStep::Trim(i + 1)
                } else {
                    ReshardStep::Done
                };
            },
            ReshardStep::Done | ReshardStep::Aborted => {},
        }
        Ok(())
    }
}

/// The step after a sequence of outcomes.
pub open spec fn run(outcomes: Seq<bool>, builds: int, trims: int) -> ReshardStep
    decreases outcomes.len(),
{
    if outcomes.len() == 0 {
        after_builds(0, builds)
    } else {
        next_step(run(outcomes.drop_last(), builds, trims), outcomes.last(), builds, trims)
    }
}

/// Whether the first `n` outcomes are successes.
pub open spec fn all_ok(outcomes: Seq<bool>, n: int) -> bool {
    n <= outcomes.len() && forall|k: int| 0 <= k < n ==> #[trigger] outcomes[k]
}

/// The owners change only after every new shard is built, and a shard is trimmed only after the
/// owners changed: until then every shard holds all that is routed to it.
pub proof fn lemma_trims_follow_the_cutover(outcomes: Seq<bool>, builds: int, trims: int)
    requires
        0 <= builds <= usize::MAX,
        0 <= trims <= usize::MAX,
    ensures
        match run(outcomes, builds, trims) {
            ReshardStep::Build(i) => i < builds && outcomes.len() == i && all_ok(outcomes, i as int),
            ReshardStep::Cutover => outcomes.len() == builds && all_ok(outcomes, builds),
            ReshardStep::Trim(i) => i < trims && outcomes.len() == builds + 1 + i && all_ok(
                outcomes,
                builds + 1,
            ),
            ReshardStep::Done => all_ok(outcomes, builds + 1),
            ReshardStep::Aborted => !all_ok(outcomes, builds + 1),
        },
    decreases outcomes.len(),
{
    if outcomes.len() > 0 {
        let before = outcomes.drop_last();
        lemma_trims_follow_the_cutover(before, builds, trims);
        let n = outcomes.len() as int;
        assert(forall|k: int| 0 <= k < n - 1 ==> #[trigger] outcomes[k] == before[k]);
        match run(before, builds, trims) {
            ReshardStep::Build(i) => {
                if !outcomes.last() {
                    assert(!outcomes[n - 1]);
                }
            },
            ReshardStep::Cutover => {
                if !outcomes.last() {
                    assert(!outcomes[n - 1]);
                }
            },
            ReshardStep::Aborted => {
                if all_ok(outcomes, builds + 1) {
                    if before.len() >= builds + 1 {
                        assert(forall|k: int| 0 <= k < builds + 1 ==> #[trigger] before[k] == outcomes[k]);
                        assert(all_ok(before, builds + 1));
                    } else {
                        lemma_short_run(before, builds, trims);
                        assert(forall|k: int| 0 <= k < before.len() ==> #[trigger] before[k] == outcomes[k]);
                    }
                }
            },
            _ => {},
        }
    }
}

proof fn lemma_short_run(outcomes: Seq<bool>, builds: int, trims: int)
    requires
        0 <= builds <= usize::MAX,
        outcomes.len() <= builds,
        forall|k: int| 0 <= k < outcomes.len() ==> #[trigger] outcomes[k],
    ensures
        run(outcomes, builds, trims) == after_builds(outcomes.len() as int, builds),
    decreases outcomes.len(),
{
    if outcomes.len() > 0 {
        let before = outcomes.drop_last();
        assert forall|k: int| 0 <= k < before.len() implies #[trigger] before[k] by {
            assert(outcomes[k]);
        }
        lemma_short_run(before, builds, trims);
        assert(outcomes[outcomes.len() - 1]);
    }
}

/// What a growth came to.
#[derive(Debug)]
pub struct ApplyReshardResponse {
    pub bucket_count: u32,
    pub moved: Vec<BucketMove>,
    pub built_shards: Vec<u32>,
    pub trimmed_shards: Vec<u32>,
}

/// The ordinals of targets.
pub open spec fn ordinals(targets: Seq<ShardTarget>) -> Seq<u32> {
    targets.map_values(|t: ShardTarget| t.ordinal)
}

/// What a growth came to, where `moved` are the buckets that changed owners.
pub fn reshard_response(driver: ReshardDriver, moved: Vec<BucketMove>, bucket_count: u32) -> (r:
    ApplyReshardResponse)
    ensures
        r.bucket_count == bucket_count,
        r.moved == moved,
        r.built_shards@ == ordinals(driver.plan.build@),
        r.trimmed_shards == driver.trimmed,
{
    let mut built_shards: Vec<u32> = Vec::new();
    let mut i: usize = 0;
    while i < driver.plan.build.len()
        invariant
            i <= driver.plan.build@.len(),
            built_shards@ == ordinals(driver.plan.build@.take(i as int)),
        decreases driver.plan.build@.len() - i,
    {
        built_shards.push(driver.plan.build[i].ordinal);
        assert(built_shards@ =~= ordinals(driver.plan.build@.take(i + 1)));
        i = i + 1;
    }
    assert(driver.plan.build@.take(i as int) =~= driver.plan.build@);
    ApplyReshardResponse { bucket_count, moved, built_shards, trimmed_shards: driver.trimmed }
}

/// What is logged of a growth.
pub fn reshard_activity(new: u32) -> (m: String)
    ensures
        m@ == "resharded to "@ + decimal(new as nat) + " shards"@,
{
    let mut m = "resharded to ".to_owned();
    append_decimal(&mut m, new as u64);
    m.append(" shards");
    m
}

} // verus!
