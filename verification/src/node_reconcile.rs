//! The reconciliation of a node's shard with its source, from the checkpoint that is noted before
//! any row is read to the repair. The caller performs one action at a time and hands back what came
//! of it.
use tonic::metadata::MetadataMap;
use vstd::prelude::*;
use vstd::string::*;

use crate::admin::{no_source_text, owner_filter, AdminService, SourceCheckpoint, SourceUse};
use crate::drift::DriftReport;
use crate::metadata::contents;
use crate::reconcile::{
    count_answer, count_response, counts, full_answer, full_response, gate_answer, reconcile_route,
    repairs, starts, GateAction, GatedReconcile, PartitionCount, ReconcileIndexResponse,
    ReconcileRoute,
};
use crate::status::{plain, Code, Status};

verus! {

/// Where a reconciliation stands.
#[derive(Debug, Clone, Copy, PartialEq, Eq, Structural)]
pub enum ReconcileStep {
    /// The rows that the source reports are being asked for, to compare counts only.
    CountingSource,
    /// The keys of the shard are being counted, to compare counts only.
    CountingIndex,
    /// The shard's checkpoint is being noted.
    Capturing,
    /// The partitions of the source are being listed.
    Listing,
    /// The shard's keys of a partition are being counted.
    CountingKeys,
    /// Rows of the source are being read.
    Reading,
    /// The shard is being reconciled with the rows that were read.
    Repairing,
    /// The reconciliation is over.
    Ended,
}

/// A reconciliation under way.
#[derive(Debug)]
pub struct NodeReconcile {
    pub step: ReconcileStep,
    /// Whether everything is read, whatever the counts of the partitions say.
    pub full: bool,
    /// The shard whose keys are compared; none where all are.
    pub only: Option<u32>,
    /// The fields that the index partitions its keys by.
    pub fields: Vec<String>,
    /// How many rows the source reports, if it does.
    pub records: Option<i64>,
    /// Where the shard stood before any row was read.
    pub captured: Option<SourceCheckpoint>,
    /// The reconciliation by partition, where there is one.
    pub gate: Option<GatedReconcile>,
}

/// What came of an action.
#[derive(Debug)]
pub enum ReconcileEvent {
    Records(Option<i64>),
    Keys(u64),
    Captured(Option<SourceCheckpoint>),
    /// The partitions of the source, where it is cleanly partitioned, and of each whether the shard
    /// that is compared owns it.
    Partitions(Option<Vec<PartitionCount>>, Vec<bool>),
    /// The rows were read; those of the shard that is compared are kept.
    Read,
    Repaired(DriftReport),
    /// The action failed.
    Failed(Status),
}

/// What is to be done next. Partitions go by position; none stands for the whole shard.
#[derive(Debug)]
pub enum ReconcileAction {
    CountSource,
    CountIndex,
    /// Note the shard's checkpoint.
    Capture,
    ListPartitions,
    CountKeys(usize),
    Read(Option<usize>),
    /// Reconcile the shard with the rows that were read, given where it stood before.
    Repair(Option<usize>, Option<SourceCheckpoint>),
    /// The reconciliation is over, with what is answered.
    Stop(Result<ReconcileIndexResponse, Status>),
}

/// Whether `event` answers what a reconciliation at `step` asked for.
pub open spec fn answers_step(step: ReconcileStep, event: ReconcileEvent) -> bool {
    match step {
        ReconcileStep::CountingSource => event is Records || event is Failed,
        ReconcileStep::CountingIndex => event is Keys || event is Failed,
        ReconcileStep::Capturing => event is Captured || event is Failed,
        ReconcileStep::Listing => event is Partitions || event is Failed,
        ReconcileStep::CountingKeys => event is Keys || event is Failed,
        ReconcileStep::Reading => event is Read || event is Failed,
        ReconcileStep::Repairing => event is Repaired || event is Failed,
        ReconcileStep::Ended => false,
    }
}

/// Whether `event` tells of each partition whose it is, and adds no more to the counts than they
/// hold.
pub open spec fn can_take(d: NodeReconcile, event: ReconcileEvent) -> bool {
    match event {
        ReconcileEvent::Partitions(parts, owns) => d.only is Some && parts is Some
            ==> owns@.len() == parts->0@.len(),
        ReconcileEvent::Keys(keys) => d.step == ReconcileStep::CountingKeys ==> {
            &&& d.gate->0.result.source_count + d.gate->0.rows() <= u64::MAX
            &&& d.gate->0.result.index_count + keys <= u64::MAX
        },
        ReconcileEvent::Repaired(report) => d.gate is Some ==> {
            &&& d.gate->0.result.stale + report.deleted <= u64::MAX
            &&& d.gate->0.result.missing + report.reindexed <= u64::MAX
        },
        _ => true,
    }
}

/// Which part of the shard is reconciled next: the partition whose counts differ, or all.
pub open spec fn scope(d: NodeReconcile) -> Option<usize> {
    match d.gate {
        Some(g) => Some(g.visits@[g.done as int]),
        None => None,
    }
}

/// What follows in a reconciliation by partition.
pub open spec fn gate_step(g: GatedReconcile, step: ReconcileStep, action: ReconcileAction) -> bool {
    match g.next() {
        GateAction::CountKeys(p) => step == ReconcileStep::CountingKeys && action
            == ReconcileAction::CountKeys(p),
        GateAction::Reconcile(p) => step == ReconcileStep::Reading && action
            == ReconcileAction::Read(Some(p)),
        GateAction::Done => step == ReconcileStep::Ended && action == ReconcileAction::Stop(
            Ok(gate_answer(g.result)),
        ),
    }
}

/// Whether `after` and `action` are what follows `event`.
pub open spec fn goes_on(
    before: NodeReconcile,
    event: ReconcileEvent,
    after: NodeReconcile,
    action: ReconcileAction,
) -> bool {
    match event {
        ReconcileEvent::Failed(e) => {
            &&& after == (NodeReconcile { step: ReconcileStep::Ended, ..before })
            &&& action == ReconcileAction::Stop(Err(e))
        },
        ReconcileEvent::Records(records) => {
            &&& after == (NodeReconcile { step: ReconcileStep::CountingIndex, records, ..before })
            &&& action is CountIndex
        },
        ReconcileEvent::Keys(keys) => if before.step == ReconcileStep::CountingIndex {
            &&& after == (NodeReconcile { step: ReconcileStep::Ended, ..before })
            &&& action == ReconcileAction::Stop(Ok(count_answer(keys, before.records)))
        } else {
            &&& after == (NodeReconcile { step: after.step, gate: after.gate, ..before })
            &&& after.gate is Some
            &&& counts(before.gate->0, keys, after.gate->0)
            &&& gate_step(after.gate->0, after.step, action)
        },
        ReconcileEvent::Captured(captured) => if before.full {
            &&& after == (NodeReconcile { step: ReconcileStep::Reading, captured, ..before })
            &&& action == ReconcileAction::Read(None)
        } else {
            &&& after == (NodeReconcile { step: ReconcileStep::Listing, captured, ..before })
            &&& action is ListPartitions
        },
        ReconcileEvent::Partitions(parts, owns) => {
            &&& after == (NodeReconcile { step: after.step, gate: after.gate, ..before })
            &&& starts(
                match parts {
                    Some(p) => Some(p@),
                    None => None,
                },
                before.fields.deep_view(),
                if before.only is Some {
                    Some(owns@)
                } else {
                    None
                },
                after.gate,
            )
            &&& match after.gate {
                Some(g) => gate_step(g, after.step, action),
                None => after.step == ReconcileStep::Reading && action == ReconcileAction::Read(
                    None,
                ),
            }
        },
        ReconcileEvent::Read => {
            &&& after == (NodeReconcile { step: ReconcileStep::Repairing, ..before })
            &&& action == ReconcileAction::Repair(scope(before), before.captured)
        },
        ReconcileEvent::Repaired(report) => match before.gate {
            None => {
                &&& after == (NodeReconcile { step: ReconcileStep::Ended, ..before })
                &&& action == ReconcileAction::Stop(Ok(full_answer(report)))
            },
            Some(g) => {
                &&& after == (NodeReconcile { step: after.step, gate: after.gate, ..before })
                &&& after.gate is Some
                &&& repairs(g, report, after.gate->0)
                &&& gate_step(after.gate->0, after.step, action)
            },
        },
    }
}

impl NodeReconcile {
    /// Whether a reconciliation by partition stands where its result says.
    pub open spec fn wf(&self) -> bool {
        &&& self.gate matches Some(g) ==> g.wf()
        &&& self.step == ReconcileStep::CountingSource || self.step == ReconcileStep::CountingIndex
            || self.step == ReconcileStep::Capturing || self.step == ReconcileStep::Listing
            ==> self.gate is None
        &&& self.step == ReconcileStep::CountingKeys ==> self.gate is Some
            && self.gate->0.next() is CountKeys
        &&& self.step == ReconcileStep::Reading || self.step == ReconcileStep::Repairing ==> (
        self.gate matches Some(g) ==> g.next() is Reconcile)
    }

    fn stop(&mut self, outcome: Result<ReconcileIndexResponse, Status>) -> (action: ReconcileAction)
        ensures
            *final(self) == (NodeReconcile { step: ReconcileStep::Ended, ..*old(self) }),
            action == ReconcileAction::Stop(outcome),
    {
        self.step = ReconcileStep::Ended;
        ReconcileAction::Stop(outcome)
    }

    fn by_partition(&mut self, gate: GatedReconcile) -> (action: ReconcileAction)
        requires
            gate.wf(),
        ensures
            final(self).wf(),
            *final(self) == (NodeReconcile {
                step: final(self).step,
                gate: Some(gate),
                ..*old(self)
            }),
            gate_step(gate, final(self).step, action),
            action is Stop == (final(self).step == ReconcileStep::Ended),
    {
        let next = gate.action();
        let result = gate.result;
        self.gate = Some(gate);
        match next {
            GateAction::CountKeys(p) => {
                self.step = ReconcileStep::CountingKeys;
                ReconcileAction::CountKeys(p)
            },
            GateAction::Reconcile(p) => {
                self.step = ReconcileStep::Reading;
                ReconcileAction::Read(Some(p))
            },
            GateAction::Done => {
                self.step = ReconcileStep::Ended;
                ReconcileAction::Stop(Ok(result.into_response()))
            },
        }
    }

    /// Takes in what came of the last action and says what to do next.
    pub fn advance(&mut self, event: ReconcileEvent) -> (action: ReconcileAction)
        requires
            old(self).wf(),
            answers_step(old(self).step, event),
            can_take(*old(self), event),
        ensures
            final(self).wf(),
            goes_on(*old(self), event, *final(self), action),
            action is Stop == (final(self).step == ReconcileStep::Ended),
    {
        match event {
            ReconcileEvent::Failed(e) => self.stop(Err(e)),
            ReconcileEvent::Records(records) => {
                self.records = records;
                self.step = ReconcileStep::CountingIndex;
                ReconcileAction::CountIndex
            },
            ReconcileEvent::Keys(keys) => match self.gate.take() {
                Some(gate) => {
                    let mut gate = gate;
                    gate.counted(keys);
                    self.by_partition(gate)
                },
                None => {
                    let answer = count_response(keys, self.records);
                    self.stop(Ok(answer))
                },
            },
            ReconcileEvent::Captured(captured) => {
                self.captured = captured;
                if self.full {
                    self.step = ReconcileStep::Reading;
                    ReconcileAction::Read(None)
                } else {
                    self.step = ReconcileStep::Listing;
                    ReconcileAction::ListPartitions
                }
            },
            ReconcileEvent::Partitions(parts, owns) => {
                let owned = if self.only.is_some() {
                    Some(&owns)
                } else {
                    None
                };
                match GatedReconcile::start(parts.as_ref(), &self.fields, owned) {
                    Some(gate) => self.by_partition(gate),
                    None => {
                        self.gate = None;
                        self.step = ReconcileStep::Reading;
                        ReconcileAction::Read(None)
                    },
                }
            },
            ReconcileEvent::Read => {
                self.step = ReconcileStep::Repairing;
                let part = match &self.gate {
                    Some(gate) => match gate.action() {
                        GateAction::Reconcile(p) => Some(p),
                        _ => None,
                    },
                    None => None,
                };
                ReconcileAction::Repair(part, self.captured)
            },
            ReconcileEvent::Repaired(report) => match self.gate.take() {
                Some(gate) => {
                    let mut gate = gate;
                    gate.reconciled(&report);
                    self.by_partition(gate)
                },
                None => self.stop(Ok(full_response(&report))),
            },
        }
    }
}

/// Whether `d` is a reconciliation that has just begun, and `action` the first thing to do.
pub open spec fn reconcile_begun(
    d: NodeReconcile,
    count_only: bool,
    full: bool,
    only: Option<u32>,
    fields: Seq<Seq<char>>,
    action: ReconcileAction,
) -> bool {
    &&& d.wf()
    &&& d.full == full
    &&& d.only == only
    &&& d.fields.deep_view() == fields
    &&& d.gate is None
    &&& d.captured is None
    &&& if count_only {
        d.step == ReconcileStep::CountingSource && action is CountSource
    } else {
        d.step == ReconcileStep::Capturing && action is Capture
    }
}

/// What comes of a call to reconcile a shard that is accepted: a node without a source cannot, and a
/// bucket map that cannot be read is refused before anything is done.
pub open spec fn reconcile_begins(
    has_source: bool,
    owners: Seq<u32>,
    map: Result<(), String>,
    ordinal: u32,
    count_only: bool,
    full: bool,
    fields: Seq<Seq<char>>,
    r: Result<(NodeReconcile, ReconcileAction), Status>,
) -> bool {
    if !has_source {
        r matches Err(e) && e@ == plain(Code::Unimplemented, no_source_text(SourceUse::Reconcile))
    } else if owners.len() == 0 {
        r matches Ok(b) && reconcile_begun(b.0, count_only, full, None, fields, b.1)
    } else {
        match map {
            Ok(_) => r matches Ok(b) && reconcile_begun(
                b.0,
                count_only,
                full,
                Some(ordinal),
                fields,
                b.1,
            ),
            Err(why) => r matches Err(e) && e@ == plain(
                Code::InvalidArgument,
                "bucket map: "@ + why@,
            ),
        }
    }
}

impl AdminService {
    /// Begins a reconciliation of the shard: of the keys of `ordinal` under a bucket map, or of all
    /// where there is no map. `map` says whether the map could be read; `fields` are those that the
    /// index partitions its keys by.
    pub fn begin_reconcile(
        &self,
        index: &str,
        md: &MetadataMap,
        owners: &Vec<u32>,
        map: Result<(), String>,
        ordinal: u32,
        count_only: bool,
        full: bool,
        fields: Vec<String>,
    ) -> (r: Result<(NodeReconcile, ReconcileAction), Status>)
        ensures
            exists|passed: Result<(), Status>| #[trigger]
                self.accepted("ReconcileIndex"@, index@, contents(*md), passed) && match passed {
                    Err(e) => r == Err::<(NodeReconcile, ReconcileAction), Status>(e),
                    Ok(_) => reconcile_begins(
                        self.source,
                        owners@,
                        map,
                        ordinal,
                        count_only,
                        full,
                        fields.deep_view(),
                        r,
                    ),
                },
    {
        let passed = self.accepts("ReconcileIndex", index, md);
        assert(self.accepted("ReconcileIndex"@, index@, contents(*md), passed));
        match passed {
            Err(e) => return Err(e),
            Ok(_) => {},
        }
        match self.needs_source(SourceUse::Reconcile) {
            Err(e) => return Err(e),
            Ok(_) => {},
        }
        let only = match owner_filter(owners, map, ordinal) {
            Err(e) => return Err(e),
            Ok(only) => only,
        };
        let route = reconcile_route(count_only, full);
        let (step, action) = match route {
            ReconcileRoute::CountOnly => (
                ReconcileStep::CountingSource,
                ReconcileAction::CountSource,
            ),
            _ => (ReconcileStep::Capturing, ReconcileAction::Capture),
        };
        Ok(
            (
                NodeReconcile { step, full, only, fields, records: None, captured: None, gate: None },
                action,
            ),
        )
    }
}

/// Whether `run` is the course of a reconciliation over `events`, with the `actions` that they lead
/// to: the first is that which it begins with, and each other follows an event.
pub open spec fn is_run(
    run: Seq<NodeReconcile>,
    events: Seq<ReconcileEvent>,
    actions: Seq<ReconcileAction>,
) -> bool {
    &&& run.len() == events.len() + 1
    &&& actions.len() == run.len()
    &&& forall|i: int|
        0 <= i < events.len() ==> {
            &&& answers_step((#[trigger] run[i]).step, events[i])
            &&& goes_on(run[i], events[i], run[i + 1], actions[i + 1])
        }
}

/// Whether the shard's checkpoint was noted as `captured` within the first `n` events.
pub open spec fn noted(
    events: Seq<ReconcileEvent>,
    n: int,
    captured: Option<SourceCheckpoint>,
) -> bool {
    exists|j: int|
        0 <= j < n && j < events.len() && #[trigger] events[j] == ReconcileEvent::Captured(captured)
}

/// The shard's checkpoint is noted before the source is read: what a reconciliation lists, counts by
/// partition, reads or repairs follows that, and a repair is given the checkpoint that was noted.
pub proof fn lemma_captured_before_read(
    run: Seq<NodeReconcile>,
    events: Seq<ReconcileEvent>,
    actions: Seq<ReconcileAction>,
    count_only: bool,
    full: bool,
    only: Option<u32>,
    fields: Seq<Seq<char>>,
    i: int,
)
    requires
        is_run(run, events, actions),
        reconcile_begun(run[0], count_only, full, only, fields, actions[0]),
        0 <= i < run.len(),
    ensures
        run[i].step == ReconcileStep::Listing || run[i].step == ReconcileStep::CountingKeys
            || run[i].step == ReconcileStep::Reading || run[i].step == ReconcileStep::Repairing
            ==> noted(events, i, run[i].captured),
        actions[i] is ListPartitions || actions[i] is CountKeys || actions[i] is Read
            ==> noted(events, i, run[i].captured),
        actions[i] matches ReconcileAction::Repair(_, captured) ==> noted(events, i, captured),
    decreases i,
{
    if i > 0 {
        lemma_captured_before_read(run, events, actions, count_only, full, only, fields, i - 1);
        assert(answers_step(run[i - 1].step, events[i - 1]));
        assert(goes_on(run[i - 1], events[i - 1], run[i - 1 + 1], actions[i - 1 + 1]));
        let before = run[i - 1].captured;
        if noted(events, i - 1, before) {
            let j = choose|j: int|
                0 <= j < i - 1 && j < events.len() && #[trigger] events[j]
                    == ReconcileEvent::Captured(before);
            assert(events[j] == ReconcileEvent::Captured(before));
            assert(noted(events, i, before));
        }
        if events[i - 1] is Captured {
            assert(events[i - 1] == ReconcileEvent::Captured(run[i].captured));
            assert(noted(events, i, run[i].captured));
        }
    }
}

/// A comparison of counts reads no rows and repairs nothing.
pub proof fn lemma_count_only_changes_nothing(
    run: Seq<NodeReconcile>,
    events: Seq<ReconcileEvent>,
    actions: Seq<ReconcileAction>,
    full: bool,
    only: Option<u32>,
    fields: Seq<Seq<char>>,
    i: int,
)
    requires
        is_run(run, events, actions),
        reconcile_begun(run[0], true, full, only, fields, actions[0]),
        0 <= i < run.len(),
    ensures
        actions[i] is CountSource || actions[i] is CountIndex || actions[i] is Stop,
        run[i].step == ReconcileStep::CountingSource || run[i].step == ReconcileStep::CountingIndex
            || run[i].step == ReconcileStep::Ended,
    decreases i,
{
    if i > 0 {
        lemma_count_only_changes_nothing(run, events, actions, full, only, fields, i - 1);
        assert(answers_step(run[i - 1].step, events[i - 1]));
        assert(goes_on(run[i - 1], events[i - 1], run[i - 1 + 1], actions[i - 1 + 1]));
    }
}

} // verus!
