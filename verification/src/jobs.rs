//! Reindex jobs: the durable record of a coordinated rebuild and the edits it takes.
use vstd::prelude::*;
use vstd::string::*;

use crate::status::{plain, Code, Status};
use crate::text::same;

verus! {

/// What a job was started for.
#[derive(Clone, Copy, Debug, PartialEq, Eq, Structural)]
pub enum JobKind {
    Reindex,
    Alter,
}

/// How far a job has come.
#[derive(Clone, Copy, Debug, PartialEq, Eq, Structural)]
pub enum JobState {
    Pending,
    Building,
    CatchingUp,
    CuttingOver,
    Done,
    Failed,
    Canceled,
}

/// How far one unit of a job has come.
#[derive(Clone, Copy, Debug, PartialEq, Eq, Structural)]
pub enum ShardPhase {
    Pending,
    Building,
    Built,
    Promoting,
    Promoted,
    Discarded,
}

/// One unit of a job: an ordinal shard (window 0) or a time window (ordinal 0), on a node.
#[derive(Debug)]
pub struct JobShard {
    pub ordinal: u32,
    pub window: i64,
    pub node: String,
    pub phase: ShardPhase,
    pub docs_done: u64,
    pub docs_total: u64,
}

/// A coordinated reindex.
#[derive(Debug)]
pub struct ReindexJob {
    pub id: String,
    pub index: String,
    pub kind: JobKind,
    pub state: JobState,
    pub shards: Vec<JobShard>,
    pub generation: u64,
    pub cancel_requested: bool,
    pub error: String,
    pub created_ms: i64,
    pub updated_ms: i64,
}

/// The documents that the units of a job have rebuilt.
pub open spec fn done_sum(shards: Seq<JobShard>) -> nat
    decreases shards.len(),
{
    if shards.len() == 0 {
        0
    } else {
        done_sum(shards.drop_last()) + shards.last().docs_done as nat
    }
}

/// The documents that the units of a job have to rebuild.
pub open spec fn total_sum(shards: Seq<JobShard>) -> nat
    decreases shards.len(),
{
    if shards.len() == 0 {
        0
    } else {
        total_sum(shards.drop_last()) + shards.last().docs_total as nat
    }
}

/// Whether no unit before `k` is the one named by `ordinal` and `window`, and `k` is.
pub open spec fn is_unit_at(shards: Seq<JobShard>, ordinal: u32, window: i64, k: int) -> bool {
    &&& 0 <= k < shards.len()
    &&& shards[k].ordinal == ordinal && shards[k].window == window
    &&& forall|l: int|
        0 <= l < k ==> !(#[trigger] shards[l].ordinal == ordinal && shards[l].window == window)
}

/// `shards` with the unit named by `ordinal` and `window` replaced by what `f` makes of it;
/// unchanged where there is no such unit.
pub open spec fn unit_edited(
    shards: Seq<JobShard>,
    ordinal: u32,
    window: i64,
    f: spec_fn(JobShard) -> JobShard,
    after: Seq<JobShard>,
) -> bool {
    ||| exists|k: int|
        #[trigger] is_unit_at(shards, ordinal, window, k) && after == shards.update(k, f(shards[k]))
    ||| (forall|k: int| !#[trigger] is_unit_at(shards, ordinal, window, k)) && after == shards
}

/// The rest of a job beside its units and its state, generation and error.
pub open spec fn same_identity(a: ReindexJob, b: ReindexJob) -> bool {
    &&& a.id == b.id
    &&& a.index == b.index
    &&& a.kind == b.kind
    &&& a.cancel_requested == b.cancel_requested
    &&& a.created_ms == b.created_ms
    &&& a.updated_ms == b.updated_ms
}

impl JobState {
    /// Whether a job in this state is over.
    pub open spec fn terminal(self) -> bool {
        self == JobState::Done || self == JobState::Failed || self == JobState::Canceled
    }

    /// Whether a job in this state is over.
    pub fn is_terminal(self) -> (b: bool)
        ensures
            b == self.terminal(),
    {
        match self {
            JobState::Done => true,
            JobState::Failed => true,
            JobState::Canceled => true,
            _ => false,
        }
    }
}

fn find_unit(shards: &Vec<JobShard>, ordinal: u32, window: i64) -> (at: Option<usize>)
    ensures
        match at {
            Some(k) => is_unit_at(shards@, ordinal, window, k as int),
            None => forall|k: int| !#[trigger] is_unit_at(shards@, ordinal, window, k),
        },
{
    let mut k: usize = 0;
    while k < shards.len()
        invariant
            k <= shards@.len(),
            forall|l: int|
                0 <= l < k ==> !(#[trigger] shards@[l].ordinal == ordinal && shards@[l].window
                    == window),
        decreases shards@.len() - k,
    {
        if shards[k].ordinal == ordinal && shards[k].window == window {
            return Some(k);
        }
        k = k + 1;
    }
    None
}

/// A unit whose phase is `phase`.
pub open spec fn with_phase(phase: ShardPhase) -> spec_fn(JobShard) -> JobShard {
    |s: JobShard| JobShard { phase, ..s }
}

/// A unit whose live progress was polled.
pub open spec fn with_progress(done: u64, total: u64) -> spec_fn(JobShard) -> JobShard {
    |s: JobShard| JobShard { docs_done: done, docs_total: total, ..s }
}

/// A unit that is built: its documents are all done, where their number is known.
pub open spec fn when_built() -> spec_fn(JobShard) -> JobShard {
    |s: JobShard|
        JobShard {
            phase: ShardPhase::Built,
            docs_done: if s.docs_total > 0 {
                s.docs_total
            } else {
                s.docs_done
            },
            ..s
        }
}

/// A unit that was promoted with `docs` documents.
pub open spec fn when_promoted(docs: u64) -> spec_fn(JobShard) -> JobShard {
    |s: JobShard|
        JobShard {
            phase: ShardPhase::Promoted,
            docs_done: docs,
            docs_total: if s.docs_total < docs {
                docs
            } else {
                s.docs_total
            },
            ..s
        }
}

/// Sets the phase of one unit; no unit of that name, no change.
pub fn set_shard_phase(job: &mut ReindexJob, ordinal: u32, window: i64, phase: ShardPhase)
    ensures
        unit_edited(old(job).shards@, ordinal, window, with_phase(phase), final(job).shards@),
        same_identity(*old(job), *final(job)),
        final(job).state == old(job).state,
        final(job).generation == old(job).generation,
        final(job).error == old(job).error,
{
    if let Some(k) = find_unit(&job.shards, ordinal, window) {
        job.shards[k].phase = phase;
        assert(job.shards@ =~= old(job).shards@.update(
            k as int,
            with_phase(phase)(old(job).shards@[k as int]),
        ));
    }
}

/// Folds the progress that a node reports of one unit into the job.
pub fn set_shard_progress(job: &mut ReindexJob, ordinal: u32, window: i64, done: u64, total: u64)
    ensures
        unit_edited(
            old(job).shards@,
            ordinal,
            window,
            with_progress(done, total),
            final(job).shards@,
        ),
        same_identity(*old(job), *final(job)),
        final(job).state == old(job).state,
        final(job).generation == old(job).generation,
        final(job).error == old(job).error,
{
    if let Some(k) = find_unit(&job.shards, ordinal, window) {
        job.shards[k].docs_done = done;
        job.shards[k].docs_total = total;
        assert(job.shards@ =~= old(job).shards@.update(
            k as int,
            with_progress(done, total)(old(job).shards@[k as int]),
        ));
    }
}

/// Marks one unit as built.
pub fn set_shard_built(job: &mut ReindexJob, ordinal: u32, window: i64)
    ensures
        unit_edited(old(job).shards@, ordinal, window, when_built(), final(job).shards@),
        same_identity(*old(job), *final(job)),
        final(job).state == old(job).state,
        final(job).generation == old(job).generation,
        final(job).error == old(job).error,
{
    if let Some(k) = find_unit(&job.shards, ordinal, window) {
        job.shards[k].phase = ShardPhase::Built;
        if job.shards[k].docs_total > 0 {
            let total: u64 = job.shards[k].docs_total;
            job.shards[k].docs_done = total;
        }
        assert(job.shards@ =~= old(job).shards@.update(
            k as int,
            when_built()(old(job).shards@[k as int]),
        ));
    }
}

/// Marks one unit as promoted, with the documents that its node counted.
pub fn set_shard_promoted(job: &mut ReindexJob, ordinal: u32, window: i64, docs: u64)
    ensures
        unit_edited(old(job).shards@, ordinal, window, when_promoted(docs), final(job).shards@),
        same_identity(*old(job), *final(job)),
        final(job).state == old(job).state,
        final(job).generation == old(job).generation,
        final(job).error == old(job).error,
{
    if let Some(k) = find_unit(&job.shards, ordinal, window) {
        job.shards[k].phase = ShardPhase::Promoted;
        job.shards[k].docs_done = docs;
        if job.shards[k].docs_total < docs {
            job.shards[k].docs_total = docs;
        }
        assert(job.shards@ =~= old(job).shards@.update(
            k as int,
            when_promoted(docs)(old(job).shards@[k as int]),
        ));
    }
}

impl ReindexJob {
    /// The documents rebuilt so far, over all units.
    pub fn docs_done(&self) -> (n: u64)
        requires
            done_sum(self.shards@) <= u64::MAX,
        ensures
            n == done_sum(self.shards@),
    {
        let mut n: u64 = 0;
        let mut k: usize = 0;
        while k < self.shards.len()
            invariant
                k <= self.shards@.len(),
                n == done_sum(self.shards@.take(k as int)),
                done_sum(self.shards@) <= u64::MAX,
            decreases self.shards@.len() - k,
        {
            proof {
                assert(self.shards@.take(k + 1).drop_last() =~= self.shards@.take(k as int));
                lemma_sums_grow(self.shards@, k + 1);
            }
            n = n + self.shards[k].docs_done;
            k = k + 1;
        }
        assert(self.shards@.take(k as int) =~= self.shards@);
        n
    }

    /// The documents to rebuild, over all units.
    pub fn docs_total(&self) -> (n: u64)
        requires
            total_sum(self.shards@) <= u64::MAX,
        ensures
            n == total_sum(self.shards@),
    {
        let mut n: u64 = 0;
        let mut k: usize = 0;
        while k < self.shards.len()
            invariant
                k <= self.shards@.len(),
                n == total_sum(self.shards@.take(k as int)),
                total_sum(self.shards@) <= u64::MAX,
            decreases self.shards@.len() - k,
        {
            proof {
                assert(self.shards@.take(k + 1).drop_last() =~= self.shards@.take(k as int));
                lemma_sums_grow(self.shards@, k + 1);
            }
            n = n + self.shards[k].docs_total;
            k = k + 1;
        }
        assert(self.shards@.take(k as int) =~= self.shards@);
        n
    }
}

proof fn lemma_sums_grow(shards: Seq<JobShard>, k: int)
    requires
        0 <= k <= shards.len(),
    ensures
        done_sum(shards.take(k)) <= done_sum(shards),
        total_sum(shards.take(k)) <= total_sum(shards),
    decreases shards.len(),
{
    if k == shards.len() {
        assert(shards.take(k) =~= shards);
    } else {
        lemma_sums_grow(shards.drop_last(), k);
        assert(shards.drop_last().take(k) =~= shards.take(k));
    }
}

/// Whether the job still wants to proceed: not once a cancel is requested, nor once the job is
/// gone.
pub open spec fn wants_to_continue(job: Option<&ReindexJob>) -> bool {
    match job {
        Some(j) => !j.cancel_requested,
        None => false,
    }
}

/// Whether the job still wants to proceed.
pub fn job_wants_to_continue(job: Option<&ReindexJob>) -> (b: bool)
    ensures
        b == wants_to_continue(job),
{
    match job {
        Some(j) => !j.cancel_requested,
        None => false,
    }
}

/// Whether some job of `index` is not over yet.
pub open spec fn has_running(jobs: Seq<ReindexJob>, index: Seq<char>) -> bool {
    exists|k: int|
        0 <= k < jobs.len() && #[trigger] jobs[k].index@ == index && !jobs[k].state.terminal()
}

/// The refusal of a second job for one index.
pub open spec fn already_running(index: Seq<char>) -> Seq<char> {
    "a reindex job is already running for `"@ + index + "`"@
}

/// Admits a new job for `index`: at most one runs at a time.
pub fn admit_job(jobs: &Vec<ReindexJob>, index: &str) -> (r: Result<(), Status>)
    ensures
        r is Err <==> has_running(jobs@, index@),
        r matches Err(e) ==> e@ == plain(Code::FailedPrecondition, already_running(index@)),
{
    let mut k: usize = 0;
    while k < jobs.len()
        invariant
            k <= jobs@.len(),
            forall|l: int|
                0 <= l < k ==> !(#[trigger] jobs@[l].index@ == index@
                    && !jobs@[l].state.terminal()),
        decreases jobs@.len() - k,
    {
        if same(jobs[k].index.as_str(), index) && !jobs[k].state.is_terminal() {
            let mut m = "a reindex job is already running for `".to_owned();
            m.append(index);
            m.append("`");
            return Err(Status::new(Code::FailedPrecondition, m));
        }
        k = k + 1;
    }
    Ok(())
}

/// The positions of the units of `shards` before `n` that are being built.
pub open spec fn building_units(shards: Seq<JobShard>, n: int) -> Seq<usize>
    decreases n,
{
    if n <= 0 {
        Seq::empty()
    } else {
        let before = building_units(shards, n - 1);
        if shards[n - 1].phase == ShardPhase::Building {
            before.push((n - 1) as usize)
        } else {
            before
        }
    }
}

/// The units whose nodes a cancel interrupts: those being built, by position.
pub fn units_to_interrupt(job: &ReindexJob) -> (at: Vec<usize>)
    ensures
        at@ == building_units(job.shards@, job.shards@.len() as int),
{
    let mut at: Vec<usize> = Vec::new();
    let mut k: usize = 0;
    while k < job.shards.len()
        invariant
            k <= job.shards@.len(),
            at@ == building_units(job.shards@, k as int),
        decreases job.shards@.len() - k,
    {
        if job.shards[k].phase == ShardPhase::Building {
            at.push(k);
        }
        k = k + 1;
    }
    at
}

/// The name of a job's kind on the wire.
pub open spec fn kind_name(k: JobKind) -> Seq<char> {
    match k {
        JobKind::Reindex => "reindex"@,
        JobKind::Alter => "alter"@,
    }
}

/// The name of a job's state on the wire.
pub open spec fn state_name(s: JobState) -> Seq<char> {
    match s {
        JobState::Pending => "pending"@,
        JobState::Building => "building"@,
        JobState::CatchingUp => "catching_up"@,
        JobState::CuttingOver => "cutting_over"@,
        JobState::Done => "done"@,
        JobState::Failed => "failed"@,
        JobState::Canceled => "canceled"@,
    }
}

/// The name of a unit's phase on the wire.
pub open spec fn phase_name(p: ShardPhase) -> Seq<char> {
    match p {
        ShardPhase::Pending => "pending"@,
        ShardPhase::Building => "building"@,
        ShardPhase::Built => "built"@,
        ShardPhase::Promoting => "promoting"@,
        ShardPhase::Promoted => "promoted"@,
        ShardPhase::Discarded => "discarded"@,
    }
}

/// The name of a job's kind on the wire.
pub fn job_kind_str(k: JobKind) -> (s: &'static str)
    ensures
        s@ == kind_name(k),
{
    match k {
        JobKind::Reindex => "reindex",
        JobKind::Alter => "alter",
    }
}

/// The name of a job's state on the wire.
pub fn job_state_str(s: JobState) -> (r: &'static str)
    ensures
        r@ == state_name(s),
{
    match s {
        JobState::Pending => "pending",
        JobState::Building => "building",
        JobState::CatchingUp => "catching_up",
        JobState::CuttingOver => "cutting_over",
        JobState::Done => "done",
        JobState::Failed => "failed",
        JobState::Canceled => "canceled",
    }
}

/// The name of a unit's phase on the wire.
pub fn shard_phase_str(p: ShardPhase) -> (s: &'static str)
    ensures
        s@ == phase_name(p),
{
    match p {
        ShardPhase::Pending => "pending",
        ShardPhase::Building => "building",
        ShardPhase::Built => "built",
        ShardPhase::Promoting => "promoting",
        ShardPhase::Promoted => "promoted",
        ShardPhase::Discarded => "discarded",
    }
}

/// One unit of a job, as clients see it.
#[derive(Debug)]
pub struct ReindexJobShard {
    pub ordinal: u32,
    pub node: String,
    pub phase: String,
    pub docs_done: u64,
    pub docs_total: u64,
    pub window: i64,
}

/// A job, as clients see it.
#[derive(Debug)]
pub struct ReindexJobStatus {
    pub id: String,
    pub index: String,
    pub kind: String,
    pub state: String,
    pub shards: Vec<ReindexJobShard>,
    pub docs_done: u64,
    pub docs_total: u64,
    pub generation: u64,
    pub cancel_requested: bool,
    pub error: String,
    pub created_ms: i64,
    pub updated_ms: i64,
}

/// Whether `w` shows the unit `s`.
pub open spec fn shows_unit(w: ReindexJobShard, s: JobShard) -> bool {
    &&& w.ordinal == s.ordinal
    &&& w.node == s.node
    &&& w.phase@ == phase_name(s.phase)
    &&& w.docs_done == s.docs_done
    &&& w.docs_total == s.docs_total
    &&& w.window == s.window
}

/// Whether `w` shows the job `j`.
pub open spec fn shows_job(w: ReindexJobStatus, j: ReindexJob) -> bool {
    &&& w.id == j.id
    &&& w.index == j.index
    &&& w.kind@ == kind_name(j.kind)
    &&& w.state@ == state_name(j.state)
    &&& w.shards@.len() == j.shards@.len()
    &&& forall|k: int| 0 <= k < j.shards@.len() ==> shows_unit(#[trigger] w.shards@[k], j.shards@[k])
    &&& w.docs_done == done_sum(j.shards@)
    &&& w.docs_total == total_sum(j.shards@)
    &&& w.generation == j.generation
    &&& w.cancel_requested == j.cancel_requested
    &&& w.error == j.error
    &&& w.created_ms == j.created_ms
    &&& w.updated_ms == j.updated_ms
}

/// A job, as clients see it.
pub fn job_to_wire(job: &ReindexJob) -> (w: ReindexJobStatus)
    requires
        done_sum(job.shards@) <= u64::MAX,
        total_sum(job.shards@) <= u64::MAX,
    ensures
        shows_job(w, *job),
{
    let mut shards: Vec<ReindexJobShard> = Vec::new();
    let mut k: usize = 0;
    while k < job.shards.len()
        invariant
            k <= job.shards@.len(),
            shards@.len() == k,
            forall|l: int| 0 <= l < k ==> shows_unit(#[trigger] shards@[l], job.shards@[l]),
        decreases job.shards@.len() - k,
    {
        let s = &job.shards[k];
        shards.push(
            ReindexJobShard {
                ordinal: s.ordinal,
                node: s.node.clone(),
                phase: shard_phase_str(s.phase).to_owned(),
                docs_done: s.docs_done,
                docs_total: s.docs_total,
                window: s.window,
            },
        );
        k = k + 1;
    }
    ReindexJobStatus {
        id: job.id.clone(),
        index: job.index.clone(),
        kind: job_kind_str(job.kind).to_owned(),
        state: job_state_str(job.state).to_owned(),
        shards,
        docs_done: job.docs_done(),
        docs_total: job.docs_total(),
        generation: job.generation,
        cancel_requested: job.cancel_requested,
        error: job.error.clone(),
        created_ms: job.created_ms,
        updated_ms: job.updated_ms,
    }
}

/// What a finished reindex answers.
#[derive(Debug)]
pub struct ReindexOutcome {
    pub generation: u64,
    pub shards: u32,
    pub doc_count: u64,
}

/// The message of a failed reindex that left none.
pub open spec fn failed_message(index: Seq<char>) -> Seq<char> {
    "reindex of `"@ + index + "` failed"@
}

/// What a synchronous reindex of `index` answers, from the job as it ended.
pub fn reindex_outcome(done: Option<ReindexJob>, index: &str) -> (r: Result<ReindexOutcome, Status>)
    requires
        done matches Some(j) ==> done_sum(j.shards@) <= u64::MAX && j.shards@.len() <= u32::MAX,
    ensures
        match done {
            None => r matches Err(e) && e@ == plain(
                Code::Internal,
                "reindex job vanished mid-run"@,
            ),
            Some(j) => match j.state {
                JobState::Done => r matches Ok(o) && o.generation == j.generation && o.shards
                    == j.shards@.len() && o.doc_count == done_sum(j.shards@),
                JobState::Canceled => r matches Err(e) && e@ == plain(Code::Cancelled, j.error@),
                _ => r matches Err(e) && e@ == plain(
                    Code::Internal,
                    if j.error@.len() == 0 {
                        failed_message(index@)
                    } else {
                        j.error@
                    },
                ),
            },
        },
{
    let job = match done {
        None => {
            return Err(Status::fixed(Code::Internal, "reindex job vanished mid-run"));
        },
        Some(j) => j,
    };
    match job.state {
        JobState::Done => Ok(
            ReindexOutcome {
                generation: job.generation,
                shards: job.shards.len() as u32,
                doc_count: job.docs_done(),
            },
        ),
        JobState::Canceled => Err(Status::new(Code::Cancelled, job.error)),
        _ => {
            if job.error.as_str().is_empty() {
                let mut m = "reindex of `".to_owned();
                m.append(index);
                m.append("` failed");
                Err(Status::new(Code::Internal, m))
            } else {
                Err(Status::new(Code::Internal, job.error))
            }
        },
    }
}

/// The kind of the job that a definition change starts: a plain reindex where there is none.
pub fn kind_for(def_json: &str) -> (k: JobKind)
    ensures
        k == if def_json@.len() == 0 {
            JobKind::Reindex
        } else {
            JobKind::Alter
        },
{
    if def_json.is_empty() {
        JobKind::Reindex
    } else {
        JobKind::Alter
    }
}

} // verus!
