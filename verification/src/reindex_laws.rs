//! What holds of every course that a reindex drive can take.
use vstd::prelude::*;

use crate::reindex_driver::{
    answers, on_to, step_fits, transition, Action, Event, Shape, Step,
};

verus! {

/// Where a drive stands after `events`.
pub open spec fn reached(shape: Shape, events: Seq<Event>) -> Step
    decreases events.len(),
{
    if events.len() == 0 {
        on_to(shape, 0).step
    } else {
        transition(shape, reached(shape, events.drop_last()), events.last()).step
    }
}

/// Whether each event answered what was asked for at its time.
pub open spec fn legal(shape: Shape, events: Seq<Event>) -> bool
    decreases events.len(),
{
    events.len() == 0 || (legal(shape, events.drop_last()) && answers(
        reached(shape, events.drop_last()),
        events.last(),
    ))
}

/// The action that a drive asks for after `events`.
pub open spec fn asked(shape: Shape, events: Seq<Event>) -> Action {
    if events.len() == 0 {
        Action::AskWanted
    } else {
        transition(shape, reached(shape, events.drop_last()), events.last()).action
    }
}

/// The number of units that were built.
pub open spec fn builds(events: Seq<Event>) -> nat
    decreases events.len(),
{
    if events.len() == 0 {
        0
    } else if events.last() is Built {
        builds(events.drop_last()) + 1
    } else {
        builds(events.drop_last())
    }
}

/// The number of units that were promoted.
pub open spec fn promotions(events: Seq<Event>) -> nat
    decreases events.len(),
{
    if events.len() == 0 {
        0
    } else if events.last() is Promoted {
        promotions(events.drop_last()) + 1
    } else {
        promotions(events.drop_last())
    }
}

/// The units that were discarded.
pub open spec fn discarded(shape: Shape, events: Seq<Event>) -> Set<int>
    decreases events.len(),
{
    if events.len() == 0 {
        Set::empty()
    } else {
        let before = discarded(shape, events.drop_last());
        match (events.last(), asked(shape, events.drop_last())) {
            (Event::Discarded, Action::Discard(i)) => before.insert(i as int),
            _ => before,
        }
    }
}

/// What a drive at `step` asks for.
spec fn asks(shape: Shape, step: Step) -> Action {
    match step {
        Step::AskBuild(_) => Action::AskWanted,
        Step::AskCutover => Action::AskWanted,
        Step::Building(i) => Action::Build(i),
        Step::DroppingInFlight(i) => Action::Discard(i),
        Step::Unwinding { next, .. } => Action::Discard(next),
        Step::Promoting(i) => Action::Promote(i),
        Step::DroppingRest { next } => Action::Discard(next),
        Step::Bumping => Action::SetGeneration {
            from: shape.generation,
            to: (shape.generation + 1) as u64,
        },
        Step::Ended => Action::Stop,
    }
}

/// How far the units have come at each step.
spec fn accounted(shape: Shape, events: Seq<Event>) -> bool {
    let built = builds(events);
    let promoted = promotions(events);
    let gone = discarded(shape, events);
    match reached(shape, events) {
        Step::AskBuild(i) => built == i && promoted == 0,
        Step::Building(i) => built == i && promoted == 0,
        Step::AskCutover => built == shape.units && promoted == 0,
        Step::DroppingInFlight(i) => built == i && promoted == 0,
        Step::Unwinding { built: b, next, .. } => built == b && promoted == 0 && forall|i: int|
            0 <= i < next ==> gone.contains(i),
        Step::Promoting(i) => built == shape.units && promoted == i,
        Step::DroppingRest { next } => built == shape.units && promoted <= next && forall|i: int|
            promoted <= i < next ==> gone.contains(i),
        Step::Bumping => built == shape.units && promoted == shape.units && !shape.windowed,
        Step::Ended => built <= shape.units && promoted <= built && (built < shape.units ==> promoted
            == 0) && forall|i: int| promoted <= i < built ==> gone.contains(i),
    }
}

proof fn lemma_accounted(shape: Shape, events: Seq<Event>)
    requires
        shape.units <= usize::MAX,
        legal(shape, events),
    ensures
        accounted(shape, events),
        step_fits(shape.units, reached(shape, events)),
        asked(shape, events) == asks(shape, reached(shape, events)),
    decreases events.len(),
{
    if events.len() > 0 {
        let before = events.drop_last();
        lemma_accounted(shape, before);
        let gone = discarded(shape, events);
        assert(forall|i: int| discarded(shape, before).contains(i) ==> gone.contains(i));
        match reached(shape, before) {
            Step::Unwinding { built, next, .. } => {
                assert(gone.contains(next as int));
            },
            Step::DroppingRest { next } => {
                assert(gone.contains(next as int));
            },
            _ => {},
        }
    }
}

/// No unit is promoted before every unit is built, and units are promoted in order.
pub proof fn lemma_builds_precede_promotions(shape: Shape, events: Seq<Event>)
    requires
        shape.units <= usize::MAX,
        legal(shape, events),
    ensures
        asked(shape, events) matches Action::Promote(i) ==> builds(events) == shape.units && i
            == promotions(events),
        builds(events) < shape.units ==> promotions(events) == 0,
{
    lemma_accounted(shape, events);
}

/// The routing generation moves by one, and only once every unit is promoted.
pub proof fn lemma_generation_moves_last(shape: Shape, events: Seq<Event>)
    requires
        shape.units <= usize::MAX,
        shape.generation < u64::MAX,
        legal(shape, events),
    ensures
        asked(shape, events) matches Action::SetGeneration { from, to } ==> {
            &&& promotions(events) == shape.units
            &&& !shape.windowed
            &&& from == shape.generation
            &&& to == from + 1
        },
{
    lemma_accounted(shape, events);
}

/// A drive that is over has left no unit built but neither promoted nor discarded; one that
/// stopped before every unit was built has promoted none.
pub proof fn lemma_no_unit_left_staged(shape: Shape, events: Seq<Event>)
    requires
        shape.units <= usize::MAX,
        legal(shape, events),
        reached(shape, events) == Step::Ended,
    ensures
        forall|i: int|
            promotions(events) <= i < builds(events) ==> discarded(shape, events).contains(i),
        builds(events) < shape.units ==> promotions(events) == 0,
{
    lemma_accounted(shape, events);
}

/// A job is recorded as done only once every unit is promoted.
pub proof fn lemma_done_means_promoted(shape: Shape, events: Seq<Event>, event: Event, k: int)
    requires
        shape.units <= usize::MAX,
        legal(shape, events.push(event)),
        ({
            let effects = transition(shape, reached(shape, events), event).effects;
            0 <= k < effects.len() && (effects[k] is Done || effects[k] is DoneAt)
        }),
    ensures
        promotions(events.push(event)) == shape.units,
{
    let all = events.push(event);
    assert(all.drop_last() =~= events);
    lemma_accounted(shape, events);
    lemma_accounted(shape, all);
}

/// A drive ends by recording how: failed, canceled or done, as the last thing it records.
pub proof fn lemma_end_is_recorded(shape: Shape, step: Step, event: Event)
    requires
        answers(step, event),
        transition(shape, step, event).step == Step::Ended,
    ensures
        ({
            let effects = transition(shape, step, event).effects;
            &&& effects.len() > 0
            &&& effects.last() is Fail || effects.last() is Cancel || effects.last() is Done
                || effects.last() is DoneAt
        }),
        transition(shape, step, event).action == Action::Stop,
{
}

/// The most events that a drive at `step` still takes.
spec fn events_left(shape: Shape, step: Step) -> int {
    let n = shape.units as int;
    match step {
        Step::AskBuild(i) => 2 * (n - i) + n + 2,
        Step::Building(i) => 2 * (n - i) + n + 1,
        Step::AskCutover => n + 2,
        Step::DroppingInFlight(i) => i + 1,
        Step::Unwinding { built, next, .. } => built - next,
        Step::Promoting(i) => n - i + 1,
        Step::DroppingRest { next } => n - next,
        Step::Bumping => 1,
        Step::Ended => 0,
    }
}

proof fn lemma_events_left(shape: Shape, events: Seq<Event>)
    requires
        shape.units <= usize::MAX,
        legal(shape, events),
    ensures
        events.len() + events_left(shape, reached(shape, events)) <= 3 * shape.units + 2,
        events_left(shape, reached(shape, events)) >= 0,
    decreases events.len(),
{
    lemma_accounted(shape, events);
    if events.len() > 0 {
        lemma_accounted(shape, events.drop_last());
        lemma_events_left(shape, events.drop_last());
    }
}

/// A drive ends: whatever comes of its actions, it takes at most three events per unit and two
/// more.
pub proof fn lemma_drive_ends(shape: Shape, events: Seq<Event>)
    requires
        shape.units <= usize::MAX,
        legal(shape, events),
    ensures
        events.len() <= 3 * shape.units + 2,
        events.len() == 3 * shape.units + 2 ==> reached(shape, events) == Step::Ended,
{
    lemma_events_left(shape, events);
    lemma_accounted(shape, events);
}

} // verus!
