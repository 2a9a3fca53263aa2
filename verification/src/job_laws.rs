//! What jobs report and how they are edited, said of their units.
use vstd::prelude::*;

use crate::jobs::{
    admit_job, building_units, done_sum, is_unit_at, job_to_wire, job_wants_to_continue,
    reindex_outcome, set_shard_built, set_shard_phase, set_shard_progress, set_shard_promoted,
    total_sum, unit_edited, units_to_interrupt, when_built, when_promoted, with_phase,
    with_progress, JobShard, JobState, ReindexJob, ReindexJobStatus, ReindexOutcome, ShardPhase,
};
use crate::status::{Code, Status};

verus! {

/// The documents that units have rebuilt, one after the other.
pub open spec fn all_done(shards: Seq<JobShard>) -> int {
    shards.fold_left(0int, |s: int, u: JobShard| s + u.docs_done)
}

/// The documents that units have to rebuild, one after the other.
pub open spec fn all_to_do(shards: Seq<JobShard>) -> int {
    shards.fold_left(0int, |s: int, u: JobShard| s + u.docs_total)
}

proof fn lemma_sums_fold(shards: Seq<JobShard>)
    ensures
        done_sum(shards) == all_done(shards),
        total_sum(shards) == all_to_do(shards),
    decreases shards.len(),
{
    reveal(Seq::fold_left);
    if shards.len() > 0 {
        lemma_sums_fold(shards.drop_last());
    }
}

proof fn lemma_sums_split(a: Seq<JobShard>, b: Seq<JobShard>)
    ensures
        done_sum(a + b) == done_sum(a) + done_sum(b),
        total_sum(a + b) == total_sum(a) + total_sum(b),
    decreases b.len(),
{
    if b.len() == 0 {
        assert(a + b =~= a);
    } else {
        lemma_sums_split(a, b.drop_last());
        assert((a + b).drop_last() =~= a + b.drop_last());
    }
}

/// The documents of a job are those of all its units, added up.
pub proof fn lemma_job_adds_up(job: ReindexJob, done: u64, total: u64)
    requires
        call_ensures(ReindexJob::docs_done, (&job,), done),
        call_ensures(ReindexJob::docs_total, (&job,), total),
    ensures
        done == all_done(job.shards@),
        total == all_to_do(job.shards@),
        job.shards@.len() == 0 ==> done == 0 && total == 0,
        job.shards@.len() == 1 ==> done == job.shards@[0].docs_done && total
            == job.shards@[0].docs_total,
{
    lemma_sums_fold(job.shards@);
    if job.shards@.len() == 1 {
        let none = job.shards@.drop_last();
        assert(done_sum(none) == 0 && total_sum(none) == 0);
        assert(job.shards@.last() == job.shards@[0]);
    }
}

/// The documents of a job are those of any two parts that its units are split into.
pub proof fn lemma_job_splits(
    job: ReindexJob,
    one: ReindexJob,
    other: ReindexJob,
    done: u64,
    one_done: u64,
    other_done: u64,
    total: u64,
    one_total: u64,
    other_total: u64,
)
    requires
        job.shards@ == one.shards@ + other.shards@,
        call_ensures(ReindexJob::docs_done, (&job,), done),
        call_ensures(ReindexJob::docs_done, (&one,), one_done),
        call_ensures(ReindexJob::docs_done, (&other,), other_done),
        call_ensures(ReindexJob::docs_total, (&job,), total),
        call_ensures(ReindexJob::docs_total, (&one,), one_total),
        call_ensures(ReindexJob::docs_total, (&other,), other_total),
    ensures
        done == one_done + other_done,
        total == one_total + other_total,
{
    lemma_sums_split(one.shards@, other.shards@);
}

/// A unit that has rebuilt more documents adds just those to its job.
pub proof fn lemma_unit_counts(
    job: ReindexJob,
    more: ReindexJob,
    k: int,
    done: u64,
    more_done: u64,
)
    requires
        0 <= k < job.shards@.len(),
        more.shards@ == job.shards@.update(
            k,
            JobShard { docs_done: more.shards@[k].docs_done, ..job.shards@[k] },
        ),
        call_ensures(ReindexJob::docs_done, (&job,), done),
        call_ensures(ReindexJob::docs_done, (&more,), more_done),
    ensures
        more_done - done == more.shards@[k].docs_done - job.shards@[k].docs_done,
{
    lemma_update_counts(job.shards@, more.shards@, k);
}

proof fn lemma_update_counts(a: Seq<JobShard>, b: Seq<JobShard>, k: int)
    requires
        0 <= k < a.len(),
        a.len() == b.len(),
        forall|i: int| 0 <= i < a.len() && i != k ==> a[i] == b[i],
    ensures
        done_sum(b) - done_sum(a) == b[k].docs_done - a[k].docs_done,
    decreases a.len(),
{
    let x = a.drop_last();
    let y = b.drop_last();
    if k < x.len() {
        lemma_update_counts(x, y, k);
        assert(a.last() == b.last());
    } else {
        assert(x =~= y);
    }
}

/// What a client sees of a job is what its units add up to, and each of its units.
pub proof fn lemma_job_is_shown(job: ReindexJob, w: ReindexJobStatus)
    requires
        call_ensures(job_to_wire, (&job,), w),
    ensures
        w.docs_done == all_done(job.shards@),
        w.docs_total == all_to_do(job.shards@),
        w.shards@.len() == job.shards@.len(),
        forall|k: int|
            0 <= k < job.shards@.len() ==> (#[trigger] w.shards@[k]).ordinal
                == job.shards@[k].ordinal && w.shards@[k].window == job.shards@[k].window
                && w.shards@[k].node@ == job.shards@[k].node@ && w.shards@[k].docs_done
                == job.shards@[k].docs_done && w.shards@[k].docs_total == job.shards@[k].docs_total,
        w.id@ == job.id@,
        w.index@ == job.index@,
        w.generation == job.generation,
        w.cancel_requested == job.cancel_requested,
        w.error@ == job.error@,
        w.created_ms == job.created_ms,
        w.updated_ms == job.updated_ms,
{
    lemma_sums_fold(job.shards@);
}

/// Jobs in different states, of different kinds or with units in different phases look different.
pub proof fn lemma_states_look_different(
    a: ReindexJob,
    b: ReindexJob,
    x: ReindexJobStatus,
    y: ReindexJobStatus,
    k: int,
)
    requires
        call_ensures(job_to_wire, (&a,), x),
        call_ensures(job_to_wire, (&b,), y),
        0 <= k < a.shards@.len(),
        k < b.shards@.len(),
    ensures
        x.state@ == y.state@ <==> a.state == b.state,
        x.kind@ == y.kind@ <==> a.kind == b.kind,
        x.shards@[k].phase@ == y.shards@[k].phase@ <==> a.shards@[k].phase == b.shards@[k].phase,
{
    reveal_strlit("reindex");
    reveal_strlit("alter");
    reveal_strlit("pending");
    reveal_strlit("building");
    reveal_strlit("catching_up");
    reveal_strlit("cutting_over");
    reveal_strlit("done");
    reveal_strlit("failed");
    reveal_strlit("canceled");
    reveal_strlit("built");
    reveal_strlit("promoting");
    reveal_strlit("promoted");
    reveal_strlit("discarded");
    assert("reindex"@[0] == 'r' && "alter"@[0] == 'a');
    assert("catching_up"@[2] == 't' && "cutting_over"@[2] == 't' && "catching_up"@[1] == 'a'
        && "cutting_over"@[1] == 'u' && "canceled"@[2] == 'n');
    assert("pending"@.len() == 7 && "building"@.len() == 8 && "catching_up"@.len() == 11
        && "cutting_over"@.len() == 12 && "done"@.len() == 4 && "failed"@.len() == 6
        && "canceled"@.len() == 8 && "built"@.len() == 5 && "promoting"@.len() == 9
        && "promoted"@.len() == 8 && "discarded"@.len() == 9);
    assert("building"@[0] == 'b' && "canceled"@[0] == 'c' && "promoted"@[0] == 'p'
        && "promoting"@[0] == 'p' && "discarded"@[0] == 'd');
    assert(x.shards@[k].phase@ == crate::jobs::phase_name(a.shards@[k].phase));
    assert(y.shards@[k].phase@ == crate::jobs::phase_name(b.shards@[k].phase));
}

/// A finished reindex is answered with what all its units rebuilt; one that is not done is an error,
/// that of a cancel where it was canceled.
pub proof fn lemma_outcome_adds_up(
    job: Option<ReindexJob>,
    index: &str,
    r: Result<ReindexOutcome, Status>,
)
    requires
        call_ensures(reindex_outcome, (job, index), r),
    ensures
        r is Ok <==> job is Some && job->0.state == JobState::Done,
        r matches Ok(o) ==> o.doc_count == all_done(job->0.shards@) && o.generation
            == job->0.generation && o.shards == job->0.shards@.len(),
        r matches Err(e) ==> (e.code == Code::Cancelled <==> job is Some && job->0.state
            == JobState::Canceled),
        r matches Err(e) ==> (job is Some && job->0.error@.len() > 0 ==> e.message@
            == job->0.error@),
{
    if job is Some {
        lemma_sums_fold(job->0.shards@);
    }
}

/// A job is admitted exactly where no job of its index runs: one that is not done, failed or
/// canceled.
pub proof fn lemma_one_job_at_a_time(jobs: Vec<ReindexJob>, index: &str, r: Result<(), Status>)
    requires
        call_ensures(admit_job, (&jobs, index), r),
    ensures
        r is Ok <==> forall|k: int|
            0 <= k < jobs@.len() && (#[trigger] jobs@[k]).index@ == index@ ==> jobs@[k].state
                == JobState::Done || jobs@[k].state == JobState::Failed || jobs@[k].state
                == JobState::Canceled,
        r matches Err(e) ==> e.code == Code::FailedPrecondition,
{
    if r is Ok {
        assert forall|k: int|
            0 <= k < jobs@.len() && (#[trigger] jobs@[k]).index@ == index@ implies jobs@[k].state
            == JobState::Done || jobs@[k].state == JobState::Failed || jobs@[k].state
            == JobState::Canceled by {
            assert(jobs@[k].state.terminal());
        }
    }
}

/// A cancel interrupts the units that are being built, and no others.
pub proof fn lemma_cancel_interrupts_builds(job: ReindexJob, at: Vec<usize>, k: int)
    requires
        call_ensures(units_to_interrupt, (&job,), at),
        0 <= k < job.shards@.len(),
    ensures
        at@.contains(k as usize) <==> job.shards@[k].phase == ShardPhase::Building,
        at@.no_duplicates(),
        forall|i: int| 0 <= i < at@.len() ==> #[trigger] at@[i] < job.shards@.len(),
{
    assert(job.shards.len() == job.shards@.len());
    lemma_building(job.shards@, job.shards@.len() as int, k);
}

proof fn lemma_building(shards: Seq<JobShard>, n: int, k: int)
    requires
        0 <= n <= shards.len() <= usize::MAX,
        0 <= k < shards.len(),
    ensures
        building_units(shards, n).contains(k as usize) <==> k < n && shards[k].phase
            == ShardPhase::Building,
        building_units(shards, n).no_duplicates(),
        forall|i: int|
            0 <= i < building_units(shards, n).len() ==> #[trigger] building_units(shards, n)[i]
                < n,
    decreases n,
{
    if n > 0 {
        lemma_building(shards, n - 1, k);
        let before = building_units(shards, n - 1);
        let now = building_units(shards, n);
        if shards[n - 1].phase == ShardPhase::Building {
            assert(now[before.len() as int] == n - 1);
            if before.contains(k as usize) {
                let i = choose|i: int| 0 <= i < before.len() && before[i] == k as usize;
                assert(now[i] == k as usize);
            }
            if now.contains(k as usize) {
                let i = choose|i: int| 0 <= i < now.len() && now[i] == k as usize;
                if i < before.len() {
                    assert(before[i] == k as usize);
                }
            }
            assert(forall|i: int| 0 <= i < before.len() ==> now[i] == before[i]);
        }
    }
}

/// A job wants to go on exactly where it is there and no cancel was requested.
pub proof fn lemma_job_goes_on(job: Option<&ReindexJob>, b: bool)
    requires
        call_ensures(job_wants_to_continue, (job,), b),
    ensures
        b ==> job is Some,
        job matches Some(j) ==> b != j.cancel_requested,
{
}

/// Whether `k` is the first unit that is named by `ordinal` and `window`.
pub open spec fn is_named(shards: Seq<JobShard>, ordinal: u32, window: i64, k: int) -> bool {
    &&& 0 <= k < shards.len()
    &&& shards[k].ordinal == ordinal
    &&& shards[k].window == window
    &&& forall|l: int|
        0 <= l < k ==> (#[trigger] shards[l]).ordinal != ordinal || shards[l].window != window
}

proof fn lemma_edited(
    before: Seq<JobShard>,
    ordinal: u32,
    window: i64,
    f: spec_fn(JobShard) -> JobShard,
    after: Seq<JobShard>,
    k: int,
)
    requires
        unit_edited(before, ordinal, window, f, after),
        is_named(before, ordinal, window, k),
    ensures
        after == before.update(k, f(before[k])),
{
    assert(is_unit_at(before, ordinal, window, k));
    let j = choose|j: int|
        #[trigger] is_unit_at(before, ordinal, window, j) && after == before.update(j, f(before[j]));
    if j < k {
        assert(before[j].ordinal != ordinal || before[j].window != window);
    } else if k < j {
        assert(!(before[k].ordinal == ordinal && before[k].window == window));
    }
}

/// Whether all of a job but its units stays as it was.
pub open spec fn rest_stays(before: ReindexJob, after: ReindexJob) -> bool {
    &&& after.id == before.id
    &&& after.index == before.index
    &&& after.kind == before.kind
    &&& after.state == before.state
    &&& after.generation == before.generation
    &&& after.cancel_requested == before.cancel_requested
    &&& after.error == before.error
    &&& after.created_ms == before.created_ms
    &&& after.updated_ms == before.updated_ms
}

/// A unit that is marked is the one that is named; the others and the rest of the job stay.
pub proof fn lemma_phase_is_marked(
    job: &mut ReindexJob,
    ordinal: u32,
    window: i64,
    phase: ShardPhase,
    k: int,
)
    requires
        call_ensures(set_shard_phase, (job, ordinal, window, phase), ()),
        is_named(old(job).shards@, ordinal, window, k),
    ensures
        final(job).shards@[k].phase == phase,
        final(job).shards@[k].docs_done == old(job).shards@[k].docs_done,
        final(job).shards@[k].docs_total == old(job).shards@[k].docs_total,
        final(job).shards@.len() == old(job).shards@.len(),
        forall|i: int|
            0 <= i < old(job).shards@.len() && i != k ==> final(job).shards@[i] == old(
                job,
            ).shards@[i],
        rest_stays(*old(job), *final(job)),
{
    lemma_edited(old(job).shards@, ordinal, window, with_phase(phase), final(job).shards@, k);
}

/// The progress of a unit is what its node reports; the others stay.
pub proof fn lemma_progress_is_taken(
    job: &mut ReindexJob,
    ordinal: u32,
    window: i64,
    done: u64,
    total: u64,
    k: int,
)
    requires
        call_ensures(set_shard_progress, (job, ordinal, window, done, total), ()),
        is_named(old(job).shards@, ordinal, window, k),
    ensures
        final(job).shards@[k].docs_done == done,
        final(job).shards@[k].docs_total == total,
        final(job).shards@[k].phase == old(job).shards@[k].phase,
        final(job).shards@.len() == old(job).shards@.len(),
        forall|i: int|
            0 <= i < old(job).shards@.len() && i != k ==> final(job).shards@[i] == old(
                job,
            ).shards@[i],
        rest_stays(*old(job), *final(job)),
{
    lemma_edited(
        old(job).shards@,
        ordinal,
        window,
        with_progress(done, total),
        final(job).shards@,
        k,
    );
}

/// A unit that is built has rebuilt what it had to, where that is known.
pub proof fn lemma_built_is_marked(job: &mut ReindexJob, ordinal: u32, window: i64, k: int)
    requires
        call_ensures(set_shard_built, (job, ordinal, window), ()),
        is_named(old(job).shards@, ordinal, window, k),
    ensures
        final(job).shards@[k].phase == ShardPhase::Built,
        final(job).shards@[k].docs_total == old(job).shards@[k].docs_total,
        old(job).shards@[k].docs_total > 0 ==> final(job).shards@[k].docs_done == old(
            job,
        ).shards@[k].docs_total,
        old(job).shards@[k].docs_total == 0 ==> final(job).shards@[k].docs_done == old(
            job,
        ).shards@[k].docs_done,
        final(job).shards@.len() == old(job).shards@.len(),
        forall|i: int|
            0 <= i < old(job).shards@.len() && i != k ==> final(job).shards@[i] == old(
                job,
            ).shards@[i],
        rest_stays(*old(job), *final(job)),
{
    lemma_edited(old(job).shards@, ordinal, window, when_built(), final(job).shards@, k);
}

/// A unit that is promoted has rebuilt the documents that its node counted, and had at least as many
/// to rebuild.
pub proof fn lemma_promotion_is_marked(
    job: &mut ReindexJob,
    ordinal: u32,
    window: i64,
    docs: u64,
    k: int,
)
    requires
        call_ensures(set_shard_promoted, (job, ordinal, window, docs), ()),
        is_named(old(job).shards@, ordinal, window, k),
    ensures
        final(job).shards@[k].phase == ShardPhase::Promoted,
        final(job).shards@[k].docs_done == docs,
        final(job).shards@[k].docs_total >= docs,
        final(job).shards@[k].docs_total >= old(job).shards@[k].docs_total,
        final(job).shards@[k].docs_total == docs || final(job).shards@[k].docs_total == old(
            job,
        ).shards@[k].docs_total,
        final(job).shards@.len() == old(job).shards@.len(),
        forall|i: int|
            0 <= i < old(job).shards@.len() && i != k ==> final(job).shards@[i] == old(
                job,
            ).shards@[i],
        rest_stays(*old(job), *final(job)),
{
    lemma_edited(old(job).shards@, ordinal, window, when_promoted(docs), final(job).shards@, k);
}

} // verus!
