//! What a reindex drive does with what comes of its actions, and what it records of them.
use vstd::prelude::*;

use crate::job_laws::is_named;
use crate::jobs::{is_unit_at, unit_edited, JobShard, JobState, ReindexJob, ShardPhase};
use crate::reindex_driver::{
    answers, build_outcome, plan_drive, transition, Action, BuildOutcome, DrivePlan, Effect, Event,
    ReindexDriver, Shape, Step, Turn,
};
use crate::reindex_laws::{builds, legal, reached};

verus! {

/// A drive covers the units of its job, in their order, on their nodes.
pub proof fn lemma_drive_covers_the_job(
    job: ReindexJob,
    generation: u64,
    windowed: bool,
    plan: DrivePlan,
    k: int,
)
    requires
        call_ensures(plan_drive, (&job, generation, windowed), plan),
        0 <= k < job.shards@.len(),
    ensures
        plan.units@.len() == job.shards@.len(),
        plan.units@[k].ordinal == job.shards@[k].ordinal,
        plan.units@[k].window == job.shards@[k].window,
        plan.units@[k].node@ == job.shards@[k].node@,
        plan.index@ == job.index@,
        plan.job_id@ == job.id@,
        plan.generation == generation,
        plan.windowed == windowed,
{
}

/// A build that succeeded is built, whatever was wanted; one that failed is canceled where the node
/// or the job says so.
pub proof fn lemma_build_ends(succeeded: bool, node_canceled: bool, wanted: bool, o: BuildOutcome)
    requires
        call_ensures(build_outcome, (succeeded, node_canceled, wanted), o),
    ensures
        o is Built <==> succeeded,
        o is Failed <==> !succeeded && !node_canceled && wanted,
{
}

/// A drive begins by asking whether the job is still wanted, and by marking it as building.
pub proof fn lemma_drive_begins(plan: DrivePlan, r: (ReindexDriver, Turn))
    requires
        call_ensures(ReindexDriver::start, (plan,), r),
    ensures
        r.0.plan == plan,
        plan.units@.len() > 0 ==> r.0.step == Step::AskBuild(0),
        plan.units@.len() == 0 ==> r.0.step == Step::AskCutover,
        r.1.action == Action::AskWanted,
        r.1.effects@.contains(Effect::State(JobState::Building)),
{
    assert(r.1.effects@[0] == Effect::State(JobState::Building));
}

/// What a drive asks for is of the unit that it stands at: it builds, discards and promotes that
/// unit and records it as being built or promoted.
pub proof fn lemma_action_is_of_the_step(d: &mut ReindexDriver, event: Event, t: Turn)
    requires
        call_ensures(ReindexDriver::advance, (d, event), t),
        answers(old(d).step, event),
    ensures
        t.action matches Action::Build(i) ==> final(d).step == Step::Building(i)
            && t.effects@.contains(Effect::Phase(i, ShardPhase::Building)),
        t.action matches Action::Promote(i) ==> final(d).step == Step::Promoting(i)
            && t.effects@.contains(Effect::Phase(i, ShardPhase::Promoting)),
        t.action matches Action::SetGeneration { from, to } ==> final(d).step == Step::Bumping
            && from == old(d).plan.generation && to == (from + 1) as u64,
        t.action is Stop <==> final(d).step == Step::Ended,
        t.action is AskWanted ==> final(d).step is AskBuild || final(d).step is AskCutover,
        t.action matches Action::Discard(i) ==> match final(d).step {
            Step::DroppingInFlight(j) => i == j,
            Step::Unwinding { next, .. } => i == next,
            Step::DroppingRest { next } => i == next,
            _ => false,
        },
        final(d).plan == old(d).plan,
{
    let shape = old(d).shape();
    let m = transition(shape, old(d).step, event);
    if m.effects.len() > 0 {
        assert(m.effects.contains(m.effects[m.effects.len() - 1]));
        assert(m.effects.contains(m.effects[0]));
    }
}

/// A unit that was built is recorded as built and the next one is asked about; one that is wanted is
/// built.
pub proof fn lemma_builds_go_on(d: &mut ReindexDriver, event: Event, t: Turn, i: usize)
    requires
        call_ensures(ReindexDriver::advance, (d, event), t),
        i < old(d).plan.units@.len(),
    ensures
        old(d).step == Step::AskBuild(i) && event == Event::Wanted(true) ==> t.action
            == Action::Build(i),
        old(d).step == Step::AskBuild(i) && event == Event::Wanted(false) ==> t.action
            !is Build && t.action !is Promote && t.action !is SetGeneration,
        old(d).step == Step::Building(i) && event is Built ==> t.effects@.contains(
            Effect::UnitBuilt(i),
        ) && t.action is AskWanted && final(d).step == (if i + 1 < old(d).plan.units@.len() {
            Step::AskBuild((i + 1) as usize)
        } else {
            Step::AskCutover
        }),
        old(d).step == Step::Building(i) && event is BuildFailed ==> (if i == 0 {
            t.action is Stop && t.effects@.last() is Fail
        } else {
            t.action == Action::Discard(0)
        }),
        old(d).step == Step::Building(i) && event is BuildCanceled ==> t.action
            == Action::Discard(i),
{
    let m = transition(old(d).shape(), old(d).step, event);
    if m.effects.len() > 0 {
        assert(m.effects.contains(m.effects[0]));
    }
}

/// A unit that was promoted is recorded with the documents that its node counted, and the next one
/// is promoted; the last one closes the job, a windowed one at once and any other by its generation.
pub proof fn lemma_promotions_go_on(
    d: &mut ReindexDriver,
    docs: u64,
    t: Turn,
    i: usize,
)
    requires
        call_ensures(ReindexDriver::advance, (d, Event::Promoted(docs)), t),
        old(d).step == Step::Promoting(i),
        i < old(d).plan.units@.len(),
    ensures
        t.effects@.contains(Effect::UnitPromoted(i, docs)),
        i + 1 < old(d).plan.units@.len() ==> t.action == Action::Promote((i + 1) as usize),
        i + 1 == old(d).plan.units@.len() && !old(d).plan.windowed ==> t.action is SetGeneration,
        i + 1 == old(d).plan.units@.len() && old(d).plan.windowed ==> t.action is Stop
            && t.effects@.last() is Done,
{
    assert(t.effects@[0] == Effect::UnitPromoted(i, docs));
}

/// A unit that was discarded before the cutover is recorded as discarded, and the units behind it
/// that were built are discarded too.
pub proof fn lemma_discards_go_on(d: &mut ReindexDriver, t: Turn, built: usize, next: usize, failed: bool)
    requires
        call_ensures(ReindexDriver::advance, (d, Event::Discarded), t),
        old(d).step == (Step::Unwinding { built, next, failed }),
        next < built,
    ensures
        t.effects@.contains(Effect::Phase(next, ShardPhase::Discarded)),
        next + 1 < built ==> t.action == Action::Discard((next + 1) as usize),
        next + 1 == built ==> t.action is Stop && (if failed {
            t.effects@.last() is Fail
        } else {
            t.effects@.last() is Cancel
        }),
{
    assert(t.effects@[0] == Effect::Phase(next, ShardPhase::Discarded));
}

/// A build that was canceled is recorded as discarded once its remains are.
pub proof fn lemma_canceled_build_is_discarded(d: &mut ReindexDriver, t: Turn, i: usize)
    requires
        call_ensures(ReindexDriver::advance, (d, Event::Discarded), t),
        old(d).step == Step::DroppingInFlight(i),
    ensures
        t.effects@.contains(Effect::Phase(i, ShardPhase::Discarded)),
        i == 0 ==> t.action is Stop && t.effects@.last() is Cancel,
        i > 0 ==> t.action == Action::Discard(0),
{
    assert(t.effects@[0] == Effect::Phase(i, ShardPhase::Discarded));
}

/// Whether `event` holds a drive up: the job is no longer wanted, or an action did not succeed.
pub open spec fn is_setback(event: Event) -> bool {
    event == Event::Wanted(false) || event is BuildCanceled || event is BuildFailed
        || event is PromoteFailed || event is GenerationRefused
}

/// Whether an action failed, which a cancel does not.
pub open spec fn is_failure(event: Event) -> bool {
    event is BuildFailed || event is PromoteFailed || event is GenerationRefused
}

/// How a drive that is over ended: the last thing that it recorded.
pub open spec fn ended_by(shape: Shape, events: Seq<Event>) -> Effect {
    transition(shape, reached(shape, events.drop_last()), events.last()).effects.last()
}

spec fn no_setback(events: Seq<Event>) -> bool {
    forall|i: int| 0 <= i < events.len() ==> !is_setback(#[trigger] events[i])
}

spec fn no_failure(events: Seq<Event>) -> bool {
    forall|i: int| 0 <= i < events.len() ==> !is_failure(#[trigger] events[i])
}

spec fn on_course(step: Step) -> bool {
    step is AskBuild || step is Building || step is AskCutover || step is Promoting
        || step is Bumping || step is Ended
}

proof fn lemma_course(shape: Shape, events: Seq<Event>)
    requires
        shape.units <= usize::MAX,
        legal(shape, events),
    ensures
        no_setback(events) ==> on_course(reached(shape, events)),
        no_setback(events) && reached(shape, events) == Step::Ended ==> ended_by(shape, events) is Done
            || ended_by(shape, events) is DoneAt,
        !no_setback(events) ==> !on_course(reached(shape, events)) || reached(shape, events)
            == Step::Ended,
        !no_setback(events) && reached(shape, events) == Step::Ended ==> ended_by(
            shape,
            events,
        ) is Fail || ended_by(shape, events) is Cancel,
        reached(shape, events) is DroppingRest ==> !no_failure(events),
        reached(shape, events) is DroppingInFlight ==> no_failure(events),
        reached(shape, events) matches Step::Unwinding { failed, .. } ==> (failed <==> !no_failure(
            events,
        )),
        on_course(reached(shape, events)) && reached(shape, events) != Step::Ended ==> no_failure(
            events,
        ),
        reached(shape, events) == Step::Ended && events.len() > 0 ==> (ended_by(
            shape,
            events,
        ) is Fail <==> !no_failure(events)),
        reached(shape, events) == Step::Ended ==> events.len() > 0,
    decreases events.len(),
{
    if events.len() > 0 {
        let before = events.drop_last();
        let last = events.last();
        lemma_course(shape, before);
        assert(events[events.len() - 1] == last);
        assert(no_setback(events) <==> no_setback(before) && !is_setback(last)) by {
            if no_setback(before) && !is_setback(last) {
                assert forall|i: int| 0 <= i < events.len() implies !is_setback(
                    #[trigger] events[i],
                ) by {
                    if i < before.len() {
                        assert(events[i] == before[i]);
                    }
                }
            }
            if no_setback(events) {
                assert forall|i: int| 0 <= i < before.len() implies !is_setback(
                    #[trigger] before[i],
                ) by {
                    assert(events[i] == before[i]);
                }
            }
        }
        assert(no_failure(events) <==> no_failure(before) && !is_failure(last)) by {
            if no_failure(before) && !is_failure(last) {
                assert forall|i: int| 0 <= i < events.len() implies !is_failure(
                    #[trigger] events[i],
                ) by {
                    if i < before.len() {
                        assert(events[i] == before[i]);
                    }
                }
            }
            if no_failure(events) {
                assert forall|i: int| 0 <= i < before.len() implies !is_failure(
                    #[trigger] before[i],
                ) by {
                    assert(events[i] == before[i]);
                }
            }
        }
    }
}

/// A drive that nothing holds up ends with its job done; one that something held up does not.
pub proof fn lemma_done_where_nothing_held_it_up(shape: Shape, events: Seq<Event>)
    requires
        shape.units <= usize::MAX,
        legal(shape, events),
        reached(shape, events) == Step::Ended,
    ensures
        (ended_by(shape, events) is Done || ended_by(shape, events) is DoneAt) <==> forall|i: int|
            0 <= i < events.len() ==> !is_setback(#[trigger] events[i]),
        ended_by(shape, events) is Fail <==> exists|i: int|
            0 <= i < events.len() && is_failure(#[trigger] events[i]),
        ended_by(shape, events) matches Effect::DoneAt(g) ==> events.last()
            == Event::GenerationSet(g),
{
    lemma_course(shape, events);
}

proof fn lemma_unit_edit(
    before: Seq<JobShard>,
    ordinal: u32,
    window: i64,
    f: spec_fn(JobShard) -> JobShard,
    after: Seq<JobShard>,
    k: int,
)
    requires
        unit_edited(before, ordinal, window, f, after),
        is_named(before, ordinal, window, k),
    ensures
        after == before.update(k, f(before[k])),
{
    assert(is_unit_at(before, ordinal, window, k));
    let j = choose|j: int|
        #[trigger] is_unit_at(before, ordinal, window, j) && after == before.update(j, f(before[j]));
    if j < k {
        assert(before[j].ordinal != ordinal || before[j].window != window);
    } else if k < j {
        assert(!(before[k].ordinal == ordinal && before[k].window == window));
    }
}

/// What a drive records of a unit, it records of that unit of the job: where `k` is the first unit
/// that has the ordinal and the window of unit `i` of the plan.
pub proof fn lemma_recorded_of_the_unit(
    d: ReindexDriver,
    effect: Effect,
    job: &mut ReindexJob,
    i: usize,
    k: int,
)
    requires
        call_ensures(ReindexDriver::record, (&d, effect, job), ()),
        i < d.plan.units@.len(),
        is_named(
            old(job).shards@,
            d.plan.units@[i as int].ordinal,
            d.plan.units@[i as int].window,
            k,
        ),
    ensures
        effect matches Effect::Phase(j, phase) ==> j == i ==> final(job).shards@[k].phase == phase
            && final(job).shards@[k].docs_done == old(job).shards@[k].docs_done,
        effect == Effect::UnitBuilt(i) ==> final(job).shards@[k].phase == ShardPhase::Built,
        effect matches Effect::UnitPromoted(j, docs) ==> j == i ==> final(job).shards@[k].phase
            == ShardPhase::Promoted && final(job).shards@[k].docs_done == docs,
        (match effect {
            Effect::Phase(j, _) => j == i,
            Effect::UnitBuilt(j) => j == i,
            Effect::UnitPromoted(j, _) => j == i,
            _ => true,
        }) ==> final(job).shards@.len() == old(job).shards@.len() && forall|l: int|
            0 <= l < old(job).shards@.len() && l != k ==> final(job).shards@[l] == old(
                job,
            ).shards@[l],
        effect is Phase || effect is UnitBuilt || effect is UnitPromoted ==> final(job).state == old(
            job,
        ).state && final(job).generation == old(job).generation,
{
    let unit = d.plan.units@[i as int];
    match effect {
        Effect::Phase(j, phase) => {
            if j == i {
                lemma_unit_edit(
                    old(job).shards@,
                    unit.ordinal,
                    unit.window,
                    crate::jobs::with_phase(phase),
                    final(job).shards@,
                    k,
                );
            }
        },
        Effect::UnitBuilt(j) => {
            if j == i {
                lemma_unit_edit(
                    old(job).shards@,
                    unit.ordinal,
                    unit.window,
                    crate::jobs::when_built(),
                    final(job).shards@,
                    k,
                );
            }
        },
        Effect::UnitPromoted(j, docs) => {
            if j == i {
                lemma_unit_edit(
                    old(job).shards@,
                    unit.ordinal,
                    unit.window,
                    crate::jobs::when_promoted(docs),
                    final(job).shards@,
                    k,
                );
            }
        },
        _ => {},
    }
}

/// How a drive ended is recorded in the job: its state, its error and its generation.
pub proof fn lemma_end_in_the_job(d: ReindexDriver, effect: Effect, job: &mut ReindexJob)
    requires
        call_ensures(ReindexDriver::record, (&d, effect, job), ()),
    ensures
        effect is Fail ==> final(job).state == JobState::Failed && final(job).error@ == d.failure@,
        effect is Cancel ==> final(job).state == JobState::Canceled,
        effect is Done ==> final(job).state == JobState::Done && final(job).generation == old(
            job,
        ).generation,
        effect matches Effect::DoneAt(g) ==> final(job).state == JobState::Done && final(job).generation == g,
        effect matches Effect::State(s) ==> final(job).state == s,
        effect is Fail || effect is Cancel || effect is Done || effect is DoneAt || effect is State
            ==> final(job).shards == old(job).shards,
        final(job).cancel_requested == old(job).cancel_requested,
        final(job).id == old(job).id,
        final(job).index == old(job).index,
{
}

} // verus!
