//! The rebuild of a node's shard, from the fence that holds writes back to the swap of the live
//! shard. The caller performs one action at a time and hands back what came of it.
use tonic::metadata::MetadataMap;
use vstd::prelude::*;
use vstd::string::*;

use crate::admin::{
    commits_for, disk_need, disk_text, empty_rebuild_text, is_slice, no_source_text, owner_filter,
    precheck_free_disk, rebuild_id, rebuild_position, reindex_under_way, AdminService, Rebuild,
    RebuildCommit, SourceUse,
};
use crate::fence::ReindexFence;
use crate::metadata::contents;
use crate::status::{plain, tagged, Code, Status, StatusView};

verus! {

/// Where a rebuild stands.
#[derive(Debug, Clone, Copy, PartialEq, Eq, Structural)]
pub enum RebuildStep {
    /// The head of the source is being read.
    Head,
    /// The rows that the source reports are being asked for.
    Records,
    /// The disk is being looked at.
    Disk,
    /// The next documents are being read.
    Reading,
    /// Documents are being written to the new shard.
    Writing,
    /// The position of a rebuild without documents is being written.
    Stamping,
    /// The new shard takes the place of the old one on disk.
    Promoting,
    /// The new shard becomes the live one.
    Installing,
    /// The rebuild is over.
    Ended,
}

/// A rebuild under way.
#[derive(Debug)]
pub struct NodeRebuild {
    pub step: RebuildStep,
    pub rebuild: Rebuild,
    /// The shard whose keys are kept; none where all are.
    pub only: Option<u32>,
    /// How many rows the source reports, if it does.
    pub records: Option<i64>,
    /// The snapshot of the new shard, once it has one.
    pub snapshot: u64,
    /// Whether the new shard is the live one.
    pub installed: bool,
}

/// What came of an action.
#[derive(Debug)]
pub enum RebuildEvent {
    /// The head of the source: its snapshot and place in the order, zeros where it has none.
    Head { snapshot: i64, sequence: i64 },
    Records(Option<i64>),
    Disk { size: u64, free: Option<u64>, at: String },
    /// Documents were read; this many of them are kept.
    Chunk(usize),
    /// There are no more documents.
    Exhausted,
    Written,
    /// The new shard has taken the old one's place on disk; with its snapshot.
    Promoted(u64),
    Installed,
    /// The action failed.
    Failed(Status),
}

/// What a rebuild came to.
#[derive(Debug, Clone, Copy, PartialEq, Eq, Structural)]
pub struct ReindexIndexResponse {
    pub doc_count: u64,
    pub snapshot: u64,
}

/// What is to be done next.
#[derive(Debug)]
pub enum RebuildAction {
    ReadHead,
    CountRecords,
    ProbeDisk,
    ReadChunk,
    /// Write these commits to the new shard.
    Write(Vec<RebuildCommit>),
    Promote,
    /// Make the new shard the live one.
    Install,
    /// The rebuild is over, with what is answered.
    Stop(Result<ReindexIndexResponse, Status>),
}

/// Whether a rebuild with `docs` documents may take the place of the live shard: it is not empty
/// where the source reports rows, unless the shard keeps only its own keys.
pub open spec fn may_replace(only: Option<u32>, docs: u64, records: Option<i64>) -> bool {
    only is Some || docs > 0 || records is None || records->0 <= 0
}

/// Whether `event` answers what a rebuild at `step` asked for.
pub open spec fn answers(step: RebuildStep, event: RebuildEvent) -> bool {
    match step {
        RebuildStep::Head => event is Head || event is Failed,
        RebuildStep::Records => event is Records || event is Failed,
        RebuildStep::Disk => event is Disk,
        RebuildStep::Reading => event is Chunk || event is Exhausted || event is Failed,
        RebuildStep::Writing => event is Written || event is Failed,
        RebuildStep::Stamping => event is Written || event is Failed,
        RebuildStep::Promoting => event is Promoted || event is Failed,
        RebuildStep::Installing => event is Installed,
        RebuildStep::Ended => false,
    }
}

/// The refusal that `event` makes of a rebuild, if any: a failed action, too little disk, or an
/// empty rebuild of a source that reports rows.
pub open spec fn refusal(d: NodeRebuild, event: RebuildEvent) -> Option<StatusView> {
    match event {
        RebuildEvent::Failed(e) => Some(e@),
        RebuildEvent::Disk { size, free, at } => if free is Some && free->0 < disk_need(size) {
            Some(plain(Code::FailedPrecondition, disk_text(size, free->0, at@)))
        } else {
            None
        },
        RebuildEvent::Exhausted => if may_replace(d.only, d.rebuild.doc_count, d.records) {
            None
        } else {
            Some(tagged(Code::Internal, "INTERNAL"@, empty_rebuild_text(d.records->0)))
        },
        _ => None,
    }
}

/// Where a rebuild goes from `d` on an event that does not end it by a refusal.
pub open spec fn next_step(d: NodeRebuild, event: RebuildEvent) -> RebuildStep {
    match event {
        RebuildEvent::Head { .. } => RebuildStep::Records,
        RebuildEvent::Records(_) => RebuildStep::Disk,
        RebuildEvent::Disk { .. } => RebuildStep::Reading,
        RebuildEvent::Chunk(_) => RebuildStep::Writing,
        RebuildEvent::Exhausted => if d.rebuild.doc_count == 0 {
            RebuildStep::Stamping
        } else {
            RebuildStep::Promoting
        },
        RebuildEvent::Written => if d.step == RebuildStep::Stamping {
            RebuildStep::Promoting
        } else {
            RebuildStep::Reading
        },
        RebuildEvent::Promoted(_) => RebuildStep::Installing,
        RebuildEvent::Installed => RebuildStep::Ended,
        RebuildEvent::Failed(_) => RebuildStep::Ended,
    }
}

/// What is known after `event`.
pub open spec fn learned(d: NodeRebuild, event: RebuildEvent) -> NodeRebuild {
    match event {
        RebuildEvent::Head { snapshot, sequence } => NodeRebuild {
            rebuild: Rebuild { checkpoint: snapshot, sequence, seq: 0, doc_count: 0 },
            ..d
        },
        RebuildEvent::Records(records) => NodeRebuild { records, ..d },
        RebuildEvent::Chunk(docs) => NodeRebuild {
            rebuild: Rebuild {
                seq: (d.rebuild.seq + commits_for(docs as nat)) as u64,
                doc_count: (d.rebuild.doc_count + docs) as u64,
                ..d.rebuild
            },
            ..d
        },
        RebuildEvent::Promoted(snapshot) => NodeRebuild { snapshot, ..d },
        RebuildEvent::Installed => NodeRebuild { installed: true, ..d },
        _ => d,
    }
}

/// Whether `action` is what follows `event`: a refusal ends the rebuild, and so does the new shard
/// having become the live one.
pub open spec fn follows(
    before: NodeRebuild,
    event: RebuildEvent,
    after: NodeRebuild,
    action: RebuildAction,
) -> bool {
    match refusal(before, event) {
        Some(s) => {
            &&& after == (NodeRebuild { step: RebuildStep::Ended, ..before })
            &&& action matches RebuildAction::Stop(Err(e)) && e@ == s
        },
        None => {
            &&& after == (NodeRebuild { step: next_step(before, event), ..learned(before, event) })
            &&& match after.step {
                RebuildStep::Head => action is ReadHead,
                RebuildStep::Records => action is CountRecords,
                RebuildStep::Disk => action is ProbeDisk,
                RebuildStep::Reading => action is ReadChunk,
                RebuildStep::Writing => action matches RebuildAction::Write(commits)
                    && event matches RebuildEvent::Chunk(docs) && {
                    &&& commits@.len() == commits_for(docs as nat)
                    &&& forall|k: int|
                        0 <= k < commits@.len() ==> is_slice(
                            #[trigger] commits@[k],
                            before.rebuild,
                            docs as nat,
                            k,
                        )
                },
                RebuildStep::Stamping => action matches RebuildAction::Write(commits) && {
                    &&& commits@.len() == 1
                    &&& commits@[0].start == 0 && commits@[0].end == 0
                    &&& commits@[0].checkpoint == rebuild_position(
                        before.rebuild.checkpoint,
                        before.rebuild.sequence,
                    )
                    &&& commits@[0].batch_id@ == rebuild_id(before.rebuild.checkpoint, 0)
                },
                RebuildStep::Promoting => action is Promote,
                RebuildStep::Installing => action is Install,
                RebuildStep::Ended => action == RebuildAction::Stop(
                    Ok(
                        ReindexIndexResponse {
                            doc_count: before.rebuild.doc_count,
                            snapshot: before.snapshot,
                        },
                    ),
                ),
            }
        },
    }
}

impl NodeRebuild {
    /// Whether the new shard has taken the place of the live one only where it may, and then only
    /// at the very end.
    pub open spec fn wf(&self) -> bool {
        &&& self.installed ==> self.step == RebuildStep::Ended
        &&& self.step == RebuildStep::Promoting || self.step == RebuildStep::Installing
            || self.installed ==> may_replace(self.only, self.rebuild.doc_count, self.records)
        &&& self.step == RebuildStep::Stamping ==> self.rebuild.doc_count == 0 && may_replace(
            self.only,
            0,
            self.records,
        )
    }

    fn stop(&mut self, fence: &mut ReindexFence, why: Status) -> (a: RebuildAction)
        ensures
            *final(self) == (NodeRebuild { step: RebuildStep::Ended, ..*old(self) }),
            !final(fence)@,
            a matches RebuildAction::Stop(Err(e)) && e@ == why@,
    {
        fence.release();
        self.step = RebuildStep::Ended;
        RebuildAction::Stop(Err(why))
    }

    /// Takes in what came of the last action and says what to do next. The fence opens when the
    /// rebuild ends, whatever it came to.
    pub fn advance(&mut self, fence: &mut ReindexFence, event: RebuildEvent) -> (action:
        RebuildAction)
        requires
            old(self).wf(),
            old(fence)@,
            answers(old(self).step, event),
            event matches RebuildEvent::Chunk(docs) ==> old(self).rebuild.seq + docs <= u64::MAX
                && old(self).rebuild.doc_count + docs <= u64::MAX,
        ensures
            final(self).wf(),
            follows(*old(self), event, *final(self), action),
            final(fence)@ == (final(self).step != RebuildStep::Ended),
            action is Stop == (final(self).step == RebuildStep::Ended),
            action is Install ==> may_replace(
                final(self).only,
                final(self).rebuild.doc_count,
                final(self).records,
            ),
            action matches RebuildAction::Stop(r) ==> final(self).installed == r is Ok,
    {
        match event {
            RebuildEvent::Failed(why) => self.stop(fence, why),
            RebuildEvent::Head { snapshot, sequence } => {
                self.rebuild = Rebuild::new(snapshot, sequence);
                self.step = RebuildStep::Records;
                RebuildAction::CountRecords
            },
            RebuildEvent::Records(records) => {
                self.records = records;
                self.step = RebuildStep::Disk;
                RebuildAction::ProbeDisk
            },
            RebuildEvent::Disk { size, free, at } => match precheck_free_disk(
                size,
                free,
                at.as_str(),
            ) {
                Err(m) => self.stop(fence, Status::new(Code::FailedPrecondition, m)),
                Ok(_) => {
                    self.step = RebuildStep::Reading;
                    RebuildAction::ReadChunk
                },
            },
            RebuildEvent::Chunk(docs) => {
                let commits = self.rebuild.commit_chunk(docs);
                self.step = RebuildStep::Writing;
                RebuildAction::Write(commits)
            },
            RebuildEvent::Exhausted => {
                let filtering = self.only.is_some();
                match self.rebuild.finish(filtering, self.records) {
                    Err(m) => self.stop(fence, Status::internal(m)),
                    Ok(None) => {
                        self.step = RebuildStep::Promoting;
                        RebuildAction::Promote
                    },
                    Ok(Some(stamp)) => {
                        let mut commits: Vec<RebuildCommit> = Vec::new();
                        commits.push(stamp);
                        self.step = RebuildStep::Stamping;
                        RebuildAction::Write(commits)
                    },
                }
            },
            RebuildEvent::Written => if self.step == RebuildStep::Stamping {
                self.step = RebuildStep::Promoting;
                RebuildAction::Promote
            } else {
                self.step = RebuildStep::Reading;
                RebuildAction::ReadChunk
            },
            RebuildEvent::Promoted(snapshot) => {
                self.snapshot = snapshot;
                self.step = RebuildStep::Installing;
                RebuildAction::Install
            },
            RebuildEvent::Installed => {
                fence.release();
                self.installed = true;
                self.step = RebuildStep::Ended;
                RebuildAction::Stop(
                    Ok(
                        ReindexIndexResponse {
                            doc_count: self.rebuild.doc_count,
                            snapshot: self.snapshot,
                        },
                    ),
                )
            },
        }
    }
}

/// Whether `d` is a rebuild that has just begun, for the keys of `only` or for all.
pub open spec fn begun(d: NodeRebuild, only: Option<u32>) -> bool {
    &&& d.wf()
    &&& d.step == RebuildStep::Head
    &&& d.only == only
    &&& !d.installed
}

/// What comes of a call to rebuild a shard that is accepted: the second of two rebuilds is refused
/// and leaves the fence to the first; one that cannot begin opens the fence again.
pub open spec fn begins(
    has_source: bool,
    owners: Seq<u32>,
    map: Result<(), String>,
    ordinal: u32,
    fenced: bool,
    r: Result<NodeRebuild, Status>,
    fenced_after: bool,
) -> bool {
    if !has_source {
        fenced_after == fenced && (r matches Err(e) && e@ == plain(
            Code::Unimplemented,
            no_source_text(SourceUse::Reindex),
        ))
    } else if fenced {
        fenced_after && (r matches Err(e) && e@ == plain(
            Code::FailedPrecondition,
            "a reindex is already in progress for this index"@,
        ))
    } else if owners.len() == 0 {
        fenced_after && (r matches Ok(d) && begun(d, None))
    } else {
        match map {
            Ok(_) => fenced_after && (r matches Ok(d) && begun(d, Some(ordinal))),
            Err(why) => !fenced_after && (r matches Err(e) && e@ == plain(
                Code::InvalidArgument,
                "bucket map: "@ + why@,
            )),
        }
    }
}

impl AdminService {
    /// Begins a rebuild of the shard: with the keys of `ordinal` under a bucket map, or with all
    /// where there is no map. `map` says whether the map could be read.
    pub fn begin_reindex(
        &self,
        index: &str,
        md: &MetadataMap,
        fence: &mut ReindexFence,
        owners: &Vec<u32>,
        map: Result<(), String>,
        ordinal: u32,
    ) -> (r: Result<NodeRebuild, Status>)
        ensures
            exists|passed: Result<(), Status>| #[trigger]
                self.accepted("ReindexIndex"@, index@, contents(*md), passed) && match passed {
                    Err(e) => r == Err::<NodeRebuild, Status>(e) && final(fence)@ == old(fence)@,
                    Ok(_) => begins(
                        self.source,
                        owners@,
                        map,
                        ordinal,
                        old(fence)@,
                        r,
                        final(fence)@,
                    ),
                },
    {
        let passed = self.accepts("ReindexIndex", index, md);
        assert(self.accepted("ReindexIndex"@, index@, contents(*md), passed));
        match passed {
            Err(e) => return Err(e),
            Ok(_) => {},
        }
        match self.needs_source(SourceUse::Reindex) {
            Err(e) => return Err(e),
            Ok(_) => {},
        }
        if !fence.engage() {
            return Err(reindex_under_way());
        }
        match owner_filter(owners, map, ordinal) {
            Err(e) => {
                fence.release();
                Err(e)
            },
            Ok(only) => Ok(
                NodeRebuild {
                    step: RebuildStep::Head,
                    rebuild: Rebuild::new(0, 0),
                    only,
                    records: None,
                    snapshot: 0,
                    installed: false,
                },
            ),
        }
    }
}

/// The rebuild after a sequence of events; `None` where one of them does not answer what was asked.
pub open spec fn after_events(start: NodeRebuild, events: Seq<RebuildEvent>) -> Option<NodeRebuild>
    decreases events.len(),
{
    if events.len() == 0 {
        Some(start)
    } else {
        match after_events(start, events.drop_last()) {
            Some(d) => if answers(d.step, events.last()) {
                Some(
                    if refusal(d, events.last()) is Some {
                        NodeRebuild { step: RebuildStep::Ended, ..d }
                    } else {
                        NodeRebuild {
                            step: next_step(d, events.last()),
                            ..learned(d, events.last())
                        }
                    },
                )
            } else {
                None
            },
            None => None,
        }
    }
}

/// The live shard is replaced only by a rebuild that may replace it, and only at the end; a rebuild
/// that ends any other way leaves the old shard live.
pub proof fn lemma_old_shard_stays_until_the_end(
    start: NodeRebuild,
    only: Option<u32>,
    events: Seq<RebuildEvent>,
)
    requires
        begun(start, only),
        after_events(start, events) is Some,
    ensures
        ({
            let d = after_events(start, events)->0;
            &&& d.wf()
            &&& d.only == only
            &&& d.installed ==> d.step == RebuildStep::Ended && may_replace(
                only,
                d.rebuild.doc_count,
                d.records,
            ) && events.last() is Installed
        }),
    decreases events.len(),
{
    if events.len() > 0 {
        lemma_old_shard_stays_until_the_end(start, only, events.drop_last());
    }
}

} // verus!
