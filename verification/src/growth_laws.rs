//! What changes of bucket owners plan and in which order they are carried out, said of shards, nodes
//! and buckets.
use vstd::prelude::*;

use crate::reshard::{
    all_ok, endpoint_of, first_onto, first_unserved, lemma_trims_follow_the_cutover,
    plan_apply_reshard, plan_bucket_move, plan_growth_reshard, reshard_response, routed_over, run,
    swap_owners, ApplyReshardResponse, BucketMap, BucketMove, GrowthReshard, PlannedMove,
    Reassignment, ReshardAction, ReshardDriver, ReshardStep, ShardNode,
};
use crate::status::{Code, Status};

verus! {

/// Whether the first entry for `ordinal` names `endpoint` as its node.
pub open spec fn serves(shards: Seq<ShardNode>, ordinal: u32, endpoint: Seq<char>) -> bool {
    exists|i: int|
        0 <= i < shards.len() && (#[trigger] shards[i]).ordinal == ordinal && (
        shards[i].primary matches Some(e) && e@ == endpoint) && forall|j: int|
            0 <= j < i ==> (#[trigger] shards[j]).ordinal != ordinal
}

/// Whether some node serves `ordinal`.
pub open spec fn is_served(shards: Seq<ShardNode>, ordinal: u32) -> bool {
    exists|e: Seq<char>| #[trigger] serves(shards, ordinal, e)
}

proof fn lemma_endpoint(shards: Seq<ShardNode>, ordinal: u32)
    ensures
        endpoint_of(shards, ordinal) matches Some(e) ==> serves(shards, ordinal, e),
        endpoint_of(shards, ordinal) is None ==> !is_served(shards, ordinal),
    decreases shards.len(),
{
    if shards.len() == 0 {
    } else if shards[0].ordinal == ordinal {
        match shards[0].primary {
            Some(e) => {
                assert(shards[0].primary.deep_view() == Some(e@));
                assert(serves(shards, ordinal, e@));
            },
            None => {
                assert forall|e: Seq<char>| !#[trigger] serves(shards, ordinal, e) by {
                    if serves(shards, ordinal, e) {
                        let i = choose|i: int|
                            0 <= i < shards.len() && (#[trigger] shards[i]).ordinal == ordinal && (
                            shards[i].primary matches Some(x) && x@ == e) && forall|j: int|
                                0 <= j < i ==> (#[trigger] shards[j]).ordinal != ordinal;
                        if i > 0 {
                            assert(shards[0].ordinal != ordinal);
                        }
                    }
                }
            },
        }
    } else {
        let rest = shards.drop_first();
        lemma_endpoint(rest, ordinal);
        match endpoint_of(rest, ordinal) {
            Some(e) => {
                let i = choose|i: int|
                    0 <= i < rest.len() && (#[trigger] rest[i]).ordinal == ordinal && (
                    rest[i].primary matches Some(x) && x@ == e) && forall|j: int|
                        0 <= j < i ==> (#[trigger] rest[j]).ordinal != ordinal;
                assert(shards[i + 1] == rest[i]);
                assert forall|j: int| 0 <= j < i + 1 implies (#[trigger] shards[j]).ordinal
                    != ordinal by {
                    if j > 0 {
                        assert(rest[j - 1].ordinal != ordinal);
                    }
                }
                assert(serves(shards, ordinal, e));
            },
            None => {
                assert forall|e: Seq<char>| !#[trigger] serves(shards, ordinal, e) by {
                    if serves(shards, ordinal, e) {
                        let i = choose|i: int|
                            0 <= i < shards.len() && (#[trigger] shards[i]).ordinal == ordinal && (
                            shards[i].primary matches Some(x) && x@ == e) && forall|j: int|
                                0 <= j < i ==> (#[trigger] shards[j]).ordinal != ordinal;
                        assert(rest[i - 1] == shards[i]);
                        assert forall|j: int| 0 <= j < i - 1 implies (#[trigger] rest[j]).ordinal
                            != ordinal by {
                            assert(shards[j + 1].ordinal != ordinal);
                        }
                        assert(serves(rest, ordinal, e));
                    }
                }
            },
        }
    }
}

proof fn lemma_onto(moved: Seq<BucketMove>, count: u32)
    ensures
        first_onto(moved, count) is Some <==> exists|i: int|
            0 <= i < moved.len() && (#[trigger] moved[i]).to_shard < count,
    decreases moved.len(),
{
    if moved.len() > 0 {
        let rest = moved.drop_first();
        lemma_onto(rest, count);
        if moved[0].to_shard < count {
            assert(moved[0].to_shard < count);
        } else {
            if first_onto(rest, count) is Some {
                let i = choose|i: int| 0 <= i < rest.len() && (#[trigger] rest[i]).to_shard < count;
                assert(moved[i + 1].to_shard < count);
            }
            if exists|i: int| 0 <= i < moved.len() && (#[trigger] moved[i]).to_shard < count {
                let i = choose|i: int|
                    0 <= i < moved.len() && (#[trigger] moved[i]).to_shard < count;
                assert(rest[i - 1].to_shard < count);
            }
        }
    }
}

proof fn lemma_unserved(shards: Seq<ShardNode>, from: u32, to: u32)
    ensures
        first_unserved(shards, from, to) is Some <==> exists|o: u32|
            from <= o < to && !#[trigger] is_served(shards, o),
    decreases to - from,
{
    if from < to {
        lemma_endpoint(shards, from);
        lemma_unserved(shards, (from + 1) as u32, to);
        if endpoint_of(shards, from) is None {
            assert(!is_served(shards, from));
        } else {
            assert(serves(shards, from, endpoint_of(shards, from)->0));
            assert(is_served(shards, from));
        }
    }
}

/// A growth is planned exactly where shards are added, every bucket that moves goes to a new shard,
/// and every shard has a node. The new shards are built and the old ones trimmed, each on its node.
pub proof fn lemma_growth_is_planned(
    planned_from: Option<Vec<u32>>,
    reassignment: Reassignment,
    shards: Vec<ShardNode>,
    current: u32,
    new: u32,
    r: Result<GrowthReshard, String>,
)
    requires
        call_ensures(
            plan_growth_reshard,
            (planned_from, reassignment, &shards, current, new),
            r,
        ),
    ensures
        r is Ok <==> {
            &&& new > current
            &&& forall|i: int|
                0 <= i < reassignment.moved@.len() ==> (
                #[trigger] reassignment.moved@[i]).to_shard >= current
            &&& forall|o: u32| o < new ==> #[trigger] is_served(shards@, o)
        },
        r matches Ok(g) ==> {
            &&& g.owners == reassignment.owners
            &&& g.planned_from == planned_from
            &&& g.build@.len() == new - current
            &&& g.trim@.len() == current
            &&& forall|k: int|
                0 <= k < g.build@.len() ==> (#[trigger] g.build@[k]).ordinal == current + k
                    && serves(shards@, g.build@[k].ordinal, g.build@[k].endpoint@)
            &&& forall|k: int|
                0 <= k < g.trim@.len() ==> (#[trigger] g.trim@[k]).ordinal == k && serves(
                    shards@,
                    g.trim@[k].ordinal,
                    g.trim@[k].endpoint@,
                )
        },
{
    lemma_onto(reassignment.moved@, current);
    lemma_unserved(shards@, 0, new);
    if r is Ok {
        let g = r->Ok_0;
        assert forall|k: int| 0 <= k < g.build@.len() implies (#[trigger] g.build@[k]).ordinal
            == current + k && serves(shards@, g.build@[k].ordinal, g.build@[k].endpoint@) by {
            lemma_endpoint(shards@, g.build@[k].ordinal);
        }
        assert forall|k: int| 0 <= k < g.trim@.len() implies (#[trigger] g.trim@[k]).ordinal == k
            && serves(shards@, g.trim@[k].ordinal, g.trim@[k].endpoint@) by {
            lemma_endpoint(shards@, g.trim@[k].ordinal);
        }
    }
}

/// A growth counts from the shards that the bucket map routes over, and from those that are
/// registered only where there is no map; its cutover expects the owners of that map.
pub proof fn lemma_growth_counts_from_the_map(
    map: Option<BucketMap>,
    reassignment: Reassignment,
    shards: Vec<ShardNode>,
    new: u32,
    r: Result<GrowthReshard, Status>,
)
    requires
        call_ensures(plan_apply_reshard, (map, reassignment, &shards, new), r),
        shards@.len() <= u32::MAX,
    ensures
        r matches Ok(g) ==> {
            let current = if map is Some {
                map->0.shards as int
            } else {
                shards@.len() as int
            };
            &&& new > current
            &&& g.build@.len() == new - current
            &&& g.trim@.len() == current
            &&& g.owners == reassignment.owners
            &&& g.planned_from is Some == map is Some
            &&& map is Some ==> g.planned_from->0 == map->0.owners
            &&& forall|k: int| 0 <= k < g.build@.len() ==> (#[trigger] g.build@[k]).ordinal
                == current + k
        },
        r matches Err(e) ==> e.code == Code::FailedPrecondition,
        map matches Some(m) ==> new <= m.shards ==> r is Err,
{
}

/// An index is routed over the shards of its map, where it has one.
pub proof fn lemma_routed_over_the_map(map_shards: Option<u32>, registered: u32, n: u32)
    requires
        call_ensures(routed_over, (map_shards, registered), n),
    ensures
        map_shards matches Some(m) ==> n == m,
        map_shards is None ==> n == registered,
{
}

/// A move gives one bucket a new owner and leaves the others with theirs; the shard that it moves to
/// is built and the one that it leaves is trimmed.
pub proof fn lemma_move_is_planned(
    index: &str,
    map: Option<Vec<u32>>,
    bucket: u32,
    to: u32,
    fault: Option<String>,
    shards: Vec<ShardNode>,
    r: Result<PlannedMove, Status>,
)
    requires
        call_ensures(plan_bucket_move, (index, map, bucket, to, fault, &shards), r),
        map matches Some(m) ==> bucket < m@.len(),
    ensures
        r is Ok <==> {
            &&& map is Some
            &&& map->0@[bucket as int] != to
            &&& fault is None
            &&& is_served(shards@, to)
            &&& is_served(shards@, map->0@[bucket as int])
        },
        r matches Ok(p) ==> {
            let m = map->0@;
            &&& p.change.owners@.len() == m.len()
            &&& p.change.owners@[bucket as int] == to
            &&& forall|b: int| 0 <= b < m.len() && b != bucket ==> p.change.owners@[b] == m[b]
            &&& p.change.planned_from == map
            &&& p.change.build@.len() == 1
            &&& p.change.build@[0].ordinal == to
            &&& serves(shards@, to, p.change.build@[0].endpoint@)
            &&& p.change.trim@.len() == 1
            &&& p.change.trim@[0].ordinal == m[bucket as int]
            &&& serves(shards@, m[bucket as int], p.change.trim@[0].endpoint@)
            &&& p.answer.bucket == bucket
            &&& p.answer.from_shard == m[bucket as int]
            &&& p.answer.to_shard == to
        },
        r matches Err(e) ==> e.code == (if map is Some && map->0@[bucket as int] != to
            && fault is Some {
            Code::InvalidArgument
        } else {
            Code::FailedPrecondition
        }),
{
    lemma_endpoint(shards@, to);
    if endpoint_of(shards@, to) is Some {
        assert(serves(shards@, to, endpoint_of(shards@, to)->0));
    }
    if map is Some {
        let m = map->0;
        assert(m.deep_view() =~= m@);
        assert(map.deep_view() == Some(m@));
        let from = m@[bucket as int];
        lemma_endpoint(shards@, from);
        if endpoint_of(shards@, from) is Some {
            assert(serves(shards@, from, endpoint_of(shards@, from)->0));
        }
    }
}

/// Owners are committed exactly where the stored ones are those that were expected, and are else
/// left as they are.
pub proof fn lemma_owners_swap_where_expected(
    stored: &mut Option<Vec<u32>>,
    expected: Option<Vec<u32>>,
    owners: Vec<u32>,
    done: bool,
)
    requires
        call_ensures(swap_owners, (stored, &expected, &owners), done),
    ensures
        done <==> (*old(stored) is None && expected is None) || (*old(stored) is Some && expected is Some
            && (*old(stored))->0@ == expected->0@),
        done ==> *final(stored) is Some && (*final(stored))->0@ == owners@,
        !done ==> *final(stored) is Some == *old(stored) is Some,
        !done && *old(stored) is Some ==> (*final(stored))->0@ == (*old(stored))->0@,
{
    assert(owners.deep_view() =~= owners@);
    if *old(stored) is Some {
        assert((*old(stored))->0.deep_view() =~= (*old(stored))->0@);
    }
    if *final(stored) is Some {
        assert((*final(stored))->0.deep_view() =~= (*final(stored))->0@);
    }
    if expected is Some {
        assert(expected->0.deep_view() =~= expected->0@);
    }
}

/// A change builds the shards of its plan, commits its owners against those that it was planned
/// from, and trims.
pub proof fn lemma_change_acts_by_its_plan<'a>(d: &'a ReshardDriver, a: ReshardAction<'a>)
    requires
        call_ensures(ReshardDriver::action, (d,), a),
        d.wf(),
    ensures
        d.step matches ReshardStep::Build(i) ==> (a matches ReshardAction::Rebuild(t) && *t
            == d.plan.build@[i as int]),
        d.step matches ReshardStep::Trim(i) ==> (a matches ReshardAction::Rebuild(t) && *t
            == d.plan.trim@[i as int]),
        d.step is Cutover ==> (a matches ReshardAction::Commit { expected, owners } && *expected
            == d.plan.planned_from && *owners == d.plan.owners),
        d.step is Done || d.step is Aborted ==> a is Nothing,
{
}

/// A change goes on from one of its shards to the next where that succeeded: builds in their order,
/// the commit once all are built, trims after it. A failed build or commit ends it; a failed trim
/// does not.
pub proof fn lemma_change_goes_on(
    d: &mut ReshardDriver,
    outcome: Result<(), Status>,
    r: Result<(), Status>,
)
    requires
        call_ensures(ReshardDriver::advance, (d, outcome), r),
        old(d).wf(),
    ensures
        final(d).plan == old(d).plan,
        r is Err <==> outcome is Err && (old(d).step is Build || old(d).step is Cutover),
        r is Err ==> final(d).step is Aborted && r == outcome,
        old(d).step matches ReshardStep::Build(i) ==> outcome is Ok ==> (if i + 1 < old(d).plan.build@.len() {
            final(d).step == ReshardStep::Build((i + 1) as usize)
        } else {
            final(d).step is Cutover
        }),
        old(d).step is Cutover && outcome is Ok ==> (if old(d).plan.trim@.len() > 0 {
            final(d).step == ReshardStep::Trim(0)
        } else {
            final(d).step is Done
        }),
        old(d).step matches ReshardStep::Trim(i) ==> (if i + 1 < old(d).plan.trim@.len() {
            final(d).step == ReshardStep::Trim((i + 1) as usize)
        } else {
            final(d).step is Done
        }),
        old(d).step matches ReshardStep::Trim(i) ==> outcome is Ok ==> final(d).trimmed@
            == old(d).trimmed@.push(old(d).plan.trim@[i as int].ordinal),
        !(old(d).step is Trim && outcome is Ok) ==> final(d).trimmed@ == old(d).trimmed@,
{
}

/// A change whose builds and commit succeed is done once its trims were tried, whatever came of
/// them.
pub proof fn lemma_change_is_done(outcomes: Seq<bool>, builds: int, trims: int)
    requires
        0 <= builds <= usize::MAX,
        0 <= trims <= usize::MAX,
        outcomes.len() == builds + 1 + trims,
        forall|k: int| 0 <= k < builds + 1 ==> #[trigger] outcomes[k],
    ensures
        run(outcomes, builds, trims) is Done,
{
    lemma_trims_follow_the_cutover(outcomes, builds, trims);
    assert(all_ok(outcomes, builds + 1));
}

/// What a growth answers with are the shards that it built and trimmed.
pub proof fn lemma_growth_is_answered(
    d: ReshardDriver,
    moved: Vec<BucketMove>,
    buckets: u32,
    r: ApplyReshardResponse,
    k: int,
)
    requires
        call_ensures(reshard_response, (d, moved, buckets), r),
        0 <= k < d.plan.build@.len(),
    ensures
        r.bucket_count == buckets,
        r.moved@ == moved@,
        r.built_shards@.len() == d.plan.build@.len(),
        r.built_shards@[k] == d.plan.build@[k].ordinal,
        r.trimmed_shards@ == d.trimmed@,
{
}

/// A change begins with the first shard to build, or with the commit where there is none; nothing is
/// trimmed yet.
pub proof fn lemma_change_begins(plan: GrowthReshard, d: ReshardDriver)
    requires
        call_ensures(ReshardDriver::start, (plan,), d),
    ensures
        d.plan == plan,
        plan.build@.len() > 0 ==> d.step == ReshardStep::Build(0),
        plan.build@.len() == 0 ==> d.step is Cutover,
        d.trimmed@.len() == 0,
{
}

} // verus!
