//! Drives a reindex job to its end: build the next generation of every unit, then promote them
//! all, then move the routing generation. The caller performs one action at a time and hands
//! back what came of it.
use vstd::prelude::*;
use vstd::string::*;

use crate::jobs::{
    same_identity, set_shard_built, set_shard_phase, set_shard_promoted, unit_edited, when_built,
    when_promoted, with_phase, JobState, ReindexJob, ShardPhase,
};
use crate::text::{append_decimal, append_signed, decimal, signed_decimal};

verus! {

/// A unit to rebuild and the node that holds it.
#[derive(Debug)]
pub struct Unit {
    pub ordinal: u32,
    pub window: i64,
    pub node: String,
}

/// What a drive is planned from.
#[derive(Debug)]
pub struct DrivePlan {
    pub job_id: String,
    pub index: String,
    pub units: Vec<Unit>,
    /// Windowed indexes have no routing generation: each window swaps on its node.
    pub windowed: bool,
    /// The generation that the cutover moves on from.
    pub generation: u64,
}

/// Where a drive stands. Units go by position in the plan.
#[derive(Clone, Copy, Debug, PartialEq, Eq, Structural)]
pub enum Step {
    /// About to build this unit: is the job still wanted?
    AskBuild(usize),
    /// This unit is being built; all before it are built.
    Building(usize),
    /// All units are built: is the job still wanted?
    AskCutover,
    /// This unit's build was canceled and its remains are being discarded.
    DroppingInFlight(usize),
    /// The first `built` units are being discarded, `next` at the moment, before the job ends
    /// failed or canceled.
    Unwinding { built: usize, next: usize, failed: bool },
    /// This unit is being promoted; all before it are promoted.
    Promoting(usize),
    /// A promotion failed, and the units from there on are being discarded, `next` at the moment.
    DroppingRest { next: usize },
    /// The routing generation is being moved.
    Bumping,
    /// The job is over.
    Ended,
}

/// What the caller does next. Units go by position in the plan.
#[derive(Clone, Copy, Debug, PartialEq, Eq, Structural)]
pub enum Action {
    AskWanted,
    Build(usize),
    Discard(usize),
    Promote(usize),
    SetGeneration { from: u64, to: u64 },
    Stop,
}

/// What came of the action.
#[derive(Debug)]
pub enum Event {
    Wanted(bool),
    Built,
    BuildCanceled,
    BuildFailed(String),
    /// The discard was tried; the old generation is intact whatever came of it.
    Discarded,
    Promoted(u64),
    PromoteFailed(String),
    GenerationSet(u64),
    GenerationRefused(String),
}

/// What the caller records before it acts.
#[derive(Clone, Copy, Debug, PartialEq, Eq, Structural)]
pub enum Effect {
    State(JobState),
    Phase(usize, ShardPhase),
    UnitBuilt(usize),
    UnitPromoted(usize, u64),
    Activity,
    Fail,
    Cancel,
    Done,
    DoneAt(u64),
}

/// What to record, and what to do then.
#[derive(Debug)]
pub struct Turn {
    pub effects: Vec<Effect>,
    pub action: Action,
}

/// A drive under way.
#[derive(Debug)]
pub struct ReindexDriver {
    pub plan: DrivePlan,
    pub step: Step,
    pub failure: String,
}

/// What of a plan its course depends on.
pub struct Shape {
    pub units: nat,
    pub windowed: bool,
    pub generation: u64,
}

/// One transition.
pub struct Move {
    pub step: Step,
    pub effects: Seq<Effect>,
    pub action: Action,
}

/// Goes on to building unit `i`, or to the last question before the cutover.
pub open spec fn on_to(shape: Shape, i: nat) -> Move {
    Move {
        step: if i < shape.units {
            Step::AskBuild(i as usize)
        } else {
            Step::AskCutover
        },
        effects: Seq::empty(),
        action: Action::AskWanted,
    }
}

/// The end of a job that was unwound.
pub open spec fn ending(failed: bool) -> Effect {
    if failed {
        Effect::Fail
    } else {
        Effect::Cancel
    }
}

/// Discards the first `built` units and then ends the job, after recording `effects`.
pub open spec fn unwind(built: nat, failed: bool, effects: Seq<Effect>) -> Move {
    if built == 0 {
        Move { step: Step::Ended, effects: effects.push(ending(failed)), action: Action::Stop }
    } else {
        Move {
            step: Step::Unwinding { built: built as usize, next: 0, failed },
            effects,
            action: Action::Discard(0),
        }
    }
}

/// Promotes unit `i`, or closes the job where all are promoted, after recording `effects`.
pub open spec fn promote_or_close(shape: Shape, i: nat, effects: Seq<Effect>) -> Move {
    if i < shape.units {
        Move {
            step: Step::Promoting(i as usize),
            effects: effects.push(Effect::Phase(i as usize, ShardPhase::Promoting)),
            action: Action::Promote(i as usize),
        }
    } else if shape.windowed {
        Move {
            step: Step::Ended,
            effects: effects.push(Effect::Activity).push(Effect::Done),
            action: Action::Stop,
        }
    } else {
        Move {
            step: Step::Bumping,
            effects,
            action: Action::SetGeneration {
                from: shape.generation,
                to: (shape.generation + 1) as u64,
            },
        }
    }
}

/// Whether `event` answers what a drive at `step` asked for.
pub open spec fn answers(step: Step, event: Event) -> bool {
    match step {
        Step::AskBuild(_) => event is Wanted,
        Step::AskCutover => event is Wanted,
        Step::Building(_) => event is Built || event is BuildCanceled || event is BuildFailed,
        Step::DroppingInFlight(_) => event is Discarded,
        Step::Unwinding { .. } => event is Discarded,
        Step::Promoting(_) => event is Promoted || event is PromoteFailed,
        Step::DroppingRest { .. } => event is Discarded,
        Step::Bumping => event is GenerationSet || event is GenerationRefused,
        Step::Ended => false,
    }
}

/// The transition of a drive at `step` on `event`.
pub open spec fn transition(shape: Shape, step: Step, event: Event) -> Move {
    match step {
        Step::AskBuild(i) => if event == Event::Wanted(true) {
            Move {
                step: Step::Building(i),
                effects: seq![Effect::Phase(i, ShardPhase::Building)],
                action: Action::Build(i),
            }
        } else {
            unwind(i as nat, false, Seq::empty())
        },
        Step::Building(i) => match event {
            Event::Built => {
                let m = on_to(shape, i as nat + 1);
                Move { effects: seq![Effect::UnitBuilt(i)], ..m }
            },
            Event::BuildCanceled => Move {
                step: Step::DroppingInFlight(i),
                effects: Seq::empty(),
                action: Action::Discard(i),
            },
            _ => unwind(i as nat, true, Seq::empty()),
        },
        Step::DroppingInFlight(i) => unwind(
            i as nat,
            false,
            seq![Effect::Phase(i, ShardPhase::Discarded)],
        ),
        Step::Unwinding { built, next, failed } => {
            let dropped = seq![Effect::Phase(next, ShardPhase::Discarded)];
            if next + 1 < built {
                Move {
                    step: Step::Unwinding { built, next: (next + 1) as usize, failed },
                    effects: dropped,
                    action: Action::Discard((next + 1) as usize),
                }
            } else {
                Move {
                    step: Step::Ended,
                    effects: dropped.push(ending(failed)),
                    action: Action::Stop,
                }
            }
        },
        Step::AskCutover => if event == Event::Wanted(true) {
            promote_or_close(shape, 0, seq![Effect::State(JobState::CuttingOver)])
        } else {
            unwind(shape.units, false, Seq::empty())
        },
        Step::Promoting(i) => match event {
            Event::Promoted(docs) => promote_or_close(
                shape,
                i as nat + 1,
                seq![Effect::UnitPromoted(i, docs)],
            ),
            _ => Move {
                step: Step::DroppingRest { next: i },
                effects: Seq::empty(),
                action: Action::Discard(i),
            },
        },
        Step::DroppingRest { next } => if next + 1 < shape.units {
            Move {
                step: Step::DroppingRest { next: (next + 1) as usize },
                effects: Seq::empty(),
                action: Action::Discard((next + 1) as usize),
            }
        } else {
            Move { step: Step::Ended, effects: seq![Effect::Fail], action: Action::Stop }
        },
        Step::Bumping => match event {
            Event::GenerationSet(g) => Move {
                step: Step::Ended,
                effects: seq![Effect::Activity, Effect::DoneAt(g)],
                action: Action::Stop,
            },
            _ => Move { step: Step::Ended, effects: seq![Effect::Fail], action: Action::Stop },
        },
        Step::Ended => Move { step: Step::Ended, effects: Seq::empty(), action: Action::Stop },
    }
}

/// How a unit reads in a message.
pub open spec fn unit_label(windowed: bool, ordinal: u32, window: i64) -> Seq<char> {
    if windowed {
        "window "@ + signed_decimal(window as int)
    } else {
        "shard "@ + decimal(ordinal as nat)
    }
}

/// The failure that `event` records at `step`, or what was recorded before.
pub open spec fn failure_after(
    plan: DrivePlan,
    step: Step,
    event: Event,
    before: Seq<char>,
) -> Seq<char> {
    match (step, event) {
        (Step::Building(i), Event::BuildFailed(why)) => "build of "@ + unit_label(
            plan.windowed,
            plan.units@[i as int].ordinal,
            plan.units@[i as int].window,
        ) + " failed (no cutover; old generation intact): "@ + why@,
        (Step::Promoting(i), Event::PromoteFailed(why)) => "promote of "@ + unit_label(
            plan.windowed,
            plan.units@[i as int].ordinal,
            plan.units@[i as int].window,
        ) + " failed after "@ + decimal(i as nat) + "/"@ + decimal(plan.units@.len())
            + " units; discarded the rest (index is queryable, mixed-generation; retry to converge): "@
            + why@,
        (Step::Bumping, Event::GenerationRefused(why)) => "cutover failed at the generation CAS: "@
            + why@,
        _ => before,
    }
}

/// The activity that a finished job records.
pub open spec fn activity_text(plan: DrivePlan) -> Seq<char> {
    "reindexed "@ + decimal(plan.units@.len()) + (if plan.windowed {
        " windows (job "@
    } else {
        " shards (job "@
    }) + plan.job_id@ + ")"@
}

/// Whether a step fits a plan of `units` units.
pub open spec fn step_fits(units: nat, step: Step) -> bool {
    match step {
        Step::AskBuild(i) => i < units,
        Step::Building(i) => i < units,
        Step::AskCutover => true,
        Step::DroppingInFlight(i) => i < units,
        Step::Unwinding { built, next, .. } => next < built <= units,
        Step::Promoting(i) => i < units,
        Step::DroppingRest { next } => next < units,
        Step::Bumping => true,
        Step::Ended => true,
    }
}

fn labelled(head: &str, windowed: bool, unit: &Unit) -> (m: String)
    ensures
        m@ == head@ + unit_label(windowed, unit.ordinal, unit.window),
{
    let mut m = head.to_owned();
    if windowed {
        let mut l = "window ".to_owned();
        append_signed(&mut l, unit.window);
        m.append(l.as_str());
    } else {
        let mut l = "shard ".to_owned();
        append_decimal(&mut l, unit.ordinal as u64);
        m.append(l.as_str());
    }
    m
}

fn one(e: Effect) -> (v: Vec<Effect>)
    ensures
        v@ == seq![e],
{
    let mut v: Vec<Effect> = Vec::new();
    v.push(e);
    assert(v@ =~= seq![e]);
    v
}

impl ReindexDriver {
    /// What of the plan the course depends on.
    pub open spec fn shape(&self) -> Shape {
        Shape {
            units: self.plan.units@.len(),
            windowed: self.plan.windowed,
            generation: self.plan.generation,
        }
    }

    /// Whether the driver stands somewhere in its plan.
    pub open spec fn wf(&self) -> bool {
        &&& step_fits(self.plan.units@.len(), self.step)
        &&& self.plan.generation < u64::MAX
    }

    /// Starts a drive: the job is marked as building, and the first unit is asked about.
    pub fn start(plan: DrivePlan) -> (r: (ReindexDriver, Turn))
        requires
            plan.generation < u64::MAX,
        ensures
            r.0.wf(),
            r.0.plan == plan,
            r.0.failure@.len() == 0,
            r.0.step == on_to(r.0.shape(), 0).step,
            r.1.effects@ == seq![Effect::State(JobState::Building)],
            r.1.action == Action::AskWanted,
    {
        let step = if plan.units.len() > 0 {
            Step::AskBuild(0)
        } else {
            Step::AskCutover
        };
        (
            ReindexDriver { plan, step, failure: String::new() },
            Turn { effects: one(Effect::State(JobState::Building)), action: Action::AskWanted },
        )
    }

    fn unwound(&mut self, built: usize, failed: bool, effects: Vec<Effect>) -> (t: Turn)
        requires
            built <= old(self).plan.units@.len(),
            old(self).plan.generation < u64::MAX,
        ensures
            final(self).plan == old(self).plan,
            final(self).failure == old(self).failure,
            final(self).wf(),
            ({
                let m = unwind(built as nat, failed, effects@);
                final(self).step == m.step && t.effects@ == m.effects && t.action == m.action
            }),
    {
        if built == 0 {
            let mut effects = effects;
            effects.push(
                if failed {
                    Effect::Fail
                } else {
                    Effect::Cancel
                },
            );
            self.step = Step::Ended;
            Turn { effects, action: Action::Stop }
        } else {
            self.step = Step::Unwinding { built, next: 0, failed };
            Turn { effects, action: Action::Discard(0) }
        }
    }

    fn promoted_up_to(&mut self, i: usize, effects: Vec<Effect>) -> (t: Turn)
        requires
            i <= old(self).plan.units@.len(),
            old(self).plan.generation < u64::MAX,
        ensures
            final(self).plan == old(self).plan,
            final(self).failure == old(self).failure,
            final(self).wf(),
            ({
                let m = promote_or_close(old(self).shape(), i as nat, effects@);
                final(self).step == m.step && t.effects@ == m.effects && t.action == m.action
            }),
    {
        let mut effects = effects;
        if i < self.plan.units.len() {
            effects.push(Effect::Phase(i, ShardPhase::Promoting));
            self.step = Step::Promoting(i);
            Turn { effects, action: Action::Promote(i) }
        } else if self.plan.windowed {
            effects.push(Effect::Activity);
            effects.push(Effect::Done);
            self.step = Step::Ended;
            Turn { effects, action: Action::Stop }
        } else {
            self.step = Step::Bumping;
            let from: u64 = self.plan.generation;
            Turn { effects, action: Action::SetGeneration { from, to: from + 1 } }
        }
    }

    /// Takes what came of the last action and says what to record and to do next.
    pub fn advance(&mut self, event: Event) -> (t: Turn)
        requires
            old(self).wf(),
            answers(old(self).step, event),
        ensures
            final(self).wf(),
            final(self).plan == old(self).plan,
            ({
                let m = transition(old(self).shape(), old(self).step, event);
                final(self).step == m.step && t.effects@ == m.effects && t.action == m.action
            }),
            final(self).failure@ == failure_after(
                old(self).plan,
                old(self).step,
                event,
                old(self).failure@,
            ),
    {
        let n: usize = self.plan.units.len();
        match self.step {
            Step::AskBuild(i) => {
                let wanted = match event {
                    Event::Wanted(b) => b,
                    _ => false,
                };
                if wanted {
                    self.step = Step::Building(i);
                    Turn {
                        effects: one(Effect::Phase(i, ShardPhase::Building)),
                        action: Action::Build(i),
                    }
                } else {
                    self.unwound(i, false, Vec::new())
                }
            },
            Step::Building(i) => match event {
                Event::Built => {
                    self.step = if i + 1 < n {
                        Step::AskBuild(i + 1)
                    } else {
                        Step::AskCutover
                    };
                    Turn { effects: one(Effect::UnitBuilt(i)), action: Action::AskWanted }
                },
                Event::BuildCanceled => {
                    self.step = Step::DroppingInFlight(i);
                    Turn { effects: Vec::new(), action: Action::Discard(i) }
                },
                Event::BuildFailed(why) => {
                    let mut m = labelled("build of ", self.plan.windowed, &self.plan.units[i]);
                    m.append(" failed (no cutover; old generation intact): ");
                    m.append(why.as_str());
                    self.failure = m;
                    self.unwound(i, true, Vec::new())
                },
                _ => self.unwound(i, true, Vec::new()),
            },
            Step::DroppingInFlight(i) => self.unwound(
                i,
                false,
                one(Effect::Phase(i, ShardPhase::Discarded)),
            ),
            Step::Unwinding { built, next, failed } => {
                let mut effects = one(Effect::Phase(next, ShardPhase::Discarded));
                if next + 1 < built {
                    self.step = Step::Unwinding { built, next: next + 1, failed };
                    Turn { effects, action: Action::Discard(next + 1) }
                } else {
                    effects.push(
                        if failed {
                            Effect::Fail
                        } else {
                            Effect::Cancel
                        },
                    );
                    self.step = Step::Ended;
                    Turn { effects, action: Action::Stop }
                }
            },
            Step::AskCutover => {
                let wanted = match event {
                    Event::Wanted(b) => b,
                    _ => false,
                };
                if wanted {
                    self.promoted_up_to(0, one(Effect::State(JobState::CuttingOver)))
                } else {
                    self.unwound(n, false, Vec::new())
                }
            },
            Step::Promoting(i) => match event {
                Event::Promoted(docs) => self.promoted_up_to(
                    i + 1,
                    one(Effect::UnitPromoted(i, docs)),
                ),
                Event::PromoteFailed(why) => {
                    let mut m = labelled("promote of ", self.plan.windowed, &self.plan.units[i]);
                    m.append(" failed after ");
                    append_decimal(&mut m, i as u64);
                    m.append("/");
                    append_decimal(&mut m, n as u64);
                    m.append(
                        " units; discarded the rest (index is queryable, mixed-generation; retry to converge): ",
                    );
                    m.append(why.as_str());
                    self.failure = m;
                    self.step = Step::DroppingRest { next: i };
                    Turn { effects: Vec::new(), action: Action::Discard(i) }
                },
                _ => {
                    self.step = Step::DroppingRest { next: i };
                    Turn { effects: Vec::new(), action: Action::Discard(i) }
                },
            },
            Step::DroppingRest { next } => if next + 1 < n {
                self.step = Step::DroppingRest { next: next + 1 };
                Turn { effects: Vec::new(), action: Action::Discard(next + 1) }
            } else {
                self.step = Step::Ended;
                Turn { effects: one(Effect::Fail), action: Action::Stop }
            },
            Step::Bumping => {
                self.step = Step::Ended;
                match event {
                    Event::GenerationSet(g) => {
                        let mut effects = one(Effect::Activity);
                        effects.push(Effect::DoneAt(g));
                        assert(effects@ =~= seq![Effect::Activity, Effect::DoneAt(g)]);
                        Turn { effects, action: Action::Stop }
                    },
                    Event::GenerationRefused(why) => {
                        let mut m = "cutover failed at the generation CAS: ".to_owned();
                        m.append(why.as_str());
                        self.failure = m;
                        Turn { effects: one(Effect::Fail), action: Action::Stop }
                    },
                    _ => Turn { effects: one(Effect::Fail), action: Action::Stop },
                }
            },
            Step::Ended => Turn { effects: Vec::new(), action: Action::Stop },
        }
    }

    /// The activity that a finished job records.
    pub fn activity(&self) -> (m: String)
        ensures
            m@ == activity_text(self.plan),
    {
        let mut m = "reindexed ".to_owned();
        append_decimal(&mut m, self.plan.units.len() as u64);
        if self.plan.windowed {
            m.append(" windows (job ");
        } else {
            m.append(" shards (job ");
        }
        m.append(self.plan.job_id.as_str());
        m.append(")");
        m
    }

    /// Whether `effect` names a unit of the plan, if any.
    pub open spec fn effect_fits(&self, effect: Effect) -> bool {
        match effect {
            Effect::Phase(i, _) => i < self.plan.units@.len(),
            Effect::UnitBuilt(i) => i < self.plan.units@.len(),
            Effect::UnitPromoted(i, _) => i < self.plan.units@.len(),
            _ => true,
        }
    }

    /// What `effect` makes of the job's record.
    pub open spec fn recorded(&self, effect: Effect, before: ReindexJob, after: ReindexJob) -> bool {
        &&& same_identity(before, after)
        &&& match effect {
            Effect::Phase(i, phase) => unit_edited(
                before.shards@,
                self.plan.units@[i as int].ordinal,
                self.plan.units@[i as int].window,
                with_phase(phase),
                after.shards@,
            ),
            Effect::UnitBuilt(i) => unit_edited(
                before.shards@,
                self.plan.units@[i as int].ordinal,
                self.plan.units@[i as int].window,
                when_built(),
                after.shards@,
            ),
            Effect::UnitPromoted(i, docs) => unit_edited(
                before.shards@,
                self.plan.units@[i as int].ordinal,
                self.plan.units@[i as int].window,
                when_promoted(docs),
                after.shards@,
            ),
            _ => after.shards == before.shards,
        }
        &&& after.state == match effect {
            Effect::State(s) => s,
            Effect::Fail => JobState::Failed,
            Effect::Cancel => JobState::Canceled,
            Effect::Done => JobState::Done,
            Effect::DoneAt(_) => JobState::Done,
            _ => before.state,
        }
        &&& after.generation == match effect {
            Effect::DoneAt(g) => g,
            _ => before.generation,
        }
        &&& after.error@ == match effect {
            Effect::Fail => self.failure@,
            Effect::Cancel => "canceled by request"@,
            _ => before.error@,
        }
    }

    /// Records one effect in the job. Activity goes to the index's log instead.
    pub fn record(&self, effect: Effect, job: &mut ReindexJob)
        requires
            self.effect_fits(effect),
        ensures
            self.recorded(effect, *old(job), *final(job)),
    {
        match effect {
            Effect::State(s) => {
                job.state = s;
            },
            Effect::Phase(i, phase) => {
                set_shard_phase(job, self.plan.units[i].ordinal, self.plan.units[i].window, phase);
            },
            Effect::UnitBuilt(i) => {
                set_shard_built(job, self.plan.units[i].ordinal, self.plan.units[i].window);
            },
            Effect::UnitPromoted(i, docs) => {
                set_shard_promoted(
                    job,
                    self.plan.units[i].ordinal,
                    self.plan.units[i].window,
                    docs,
                );
            },
            Effect::Activity => {},
            Effect::Fail => {
                job.state = JobState::Failed;
                job.error = self.failure.clone();
            },
            Effect::Cancel => {
                job.state = JobState::Canceled;
                job.error = "canceled by request".to_owned();
            },
            Effect::Done => {
                job.state = JobState::Done;
            },
            Effect::DoneAt(g) => {
                job.state = JobState::Done;
                job.generation = g;
            },
        }
    }
}

/// The failure of a job whose index is gone.
pub open spec fn vanished_text(index: Seq<char>) -> Seq<char> {
    "index `"@ + index + "` vanished before the reindex started"@
}

/// Fails a job whose index is gone before the drive starts.
pub fn fail_vanished(job: &mut ReindexJob)
    ensures
        same_identity(*old(job), *final(job)),
        final(job).shards == old(job).shards,
        final(job).generation == old(job).generation,
        final(job).state == JobState::Failed,
        final(job).error@ == vanished_text(old(job).index@),
{
    let mut m = "index `".to_owned();
    m.append(job.index.as_str());
    m.append("` vanished before the reindex started");
    job.state = JobState::Failed;
    job.error = m;
}

/// The units of a job's record, in its order.
pub open spec fn are_units_of(units: Seq<Unit>, job: ReindexJob) -> bool {
    &&& units.len() == job.shards@.len()
    &&& forall|k: int|
        0 <= k < units.len() ==> (#[trigger] units[k]).ordinal == job.shards@[k].ordinal
            && units[k].window == job.shards@[k].window && units[k].node == job.shards@[k].node
}

/// Plans the drive of `job` over an index at `generation`.
pub fn plan_drive(job: &ReindexJob, generation: u64, windowed: bool) -> (plan: DrivePlan)
    ensures
        plan.job_id == job.id,
        plan.index == job.index,
        plan.windowed == windowed,
        plan.generation == generation,
        are_units_of(plan.units@, *job),
{
    let mut units: Vec<Unit> = Vec::new();
    let mut k: usize = 0;
    while k < job.shards.len()
        invariant
            k <= job.shards@.len(),
            units@.len() == k,
            forall|l: int|
                0 <= l < k ==> (#[trigger] units@[l]).ordinal == job.shards@[l].ordinal
                    && units@[l].window == job.shards@[l].window && units@[l].node
                    == job.shards@[l].node,
        decreases job.shards@.len() - k,
    {
        let s = &job.shards[k];
        units.push(Unit { ordinal: s.ordinal, window: s.window, node: s.node.clone() });
        k = k + 1;
    }
    DrivePlan { job_id: job.id.clone(), index: job.index.clone(), units, windowed, generation }
}

/// How one unit's build ended.
#[derive(Clone, Copy, Debug, PartialEq, Eq, Structural)]
pub enum BuildOutcome {
    Built,
    Canceled,
    Failed,
}

/// How a build ended: a failure is a cancel where the node says so, or where the job is no
/// longer wanted.
pub fn build_outcome(succeeded: bool, node_canceled: bool, wanted: bool) -> (o: BuildOutcome)
    ensures
        o == if succeeded {
            BuildOutcome::Built
        } else if node_canceled || !wanted {
            BuildOutcome::Canceled
        } else {
            BuildOutcome::Failed
        },
{
    if succeeded {
        BuildOutcome::Built
    } else if node_canceled {
        BuildOutcome::Canceled
    } else if !wanted {
        BuildOutcome::Canceled
    } else {
        BuildOutcome::Failed
    }
}

} // verus!
