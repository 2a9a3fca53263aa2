//! What holds of a node's rebuild and reconciliation, said of one event and what follows it.
use tonic::metadata::MetadataMap;
use vstd::prelude::*;

use crate::admin::{lemma_commits_cover, AdminService};
use crate::drift::DriftReport;
use crate::fence::ReindexFence;
use crate::node_rebuild::{answers, NodeRebuild, RebuildAction, RebuildEvent};
use crate::node_reconcile::{NodeReconcile, ReconcileAction, ReconcileEvent};
use crate::reconcile::{
    count_response, full_response, gate_applies, lemma_own_partitions_only, own_partitions,
    reconcile_route, GateAction, GateResult, GatedReconcile, PartitionCount,
    ReconcileIndexResponse, ReconcileRoute,
};
use crate::status::{Code, Status};

verus! {

/// A failed action ends a rebuild with what failed, and the live shard stays. The fence is open
/// exactly once the rebuild is over.
pub proof fn lemma_failed_rebuild_ends(
    d: &mut NodeRebuild,
    fence: &mut ReindexFence,
    event: RebuildEvent,
    action: RebuildAction,
)
    requires
        call_ensures(NodeRebuild::advance, (d, fence, event), action),
    ensures
        final(fence)@ <==> !(action is Stop),
        action is Stop <==> final(d).step is Ended,
        event matches RebuildEvent::Failed(why) ==> (action matches RebuildAction::Stop(Err(e)) && e@
            == why@) && final(d).installed == old(d).installed,
        final(d).installed && !old(d).installed ==> event is Installed,
        final(d).only == old(d).only,
{
}

/// A rebuild first learns the head of the source, then how many rows it reports, then whether there
/// is disk, and then reads: each event leads to the next question, with what it told kept. Too little
/// disk ends it.
pub proof fn lemma_rebuild_prepares(
    d: &mut NodeRebuild,
    fence: &mut ReindexFence,
    event: RebuildEvent,
    action: RebuildAction,
)
    requires
        call_ensures(NodeRebuild::advance, (d, fence, event), action),
        answers(old(d).step, event),
    ensures
        event matches RebuildEvent::Head { snapshot, sequence } ==> action is CountRecords
            && final(d).rebuild.checkpoint == snapshot && final(d).rebuild.sequence == sequence
            && final(d).rebuild.doc_count == 0 && final(d).rebuild.seq == 0 && final(d).step is Records,
        event matches RebuildEvent::Records(n) ==> action is ProbeDisk && final(d).records == n
            && final(d).rebuild == old(d).rebuild && final(d).step is Disk,
        event matches RebuildEvent::Disk { size, free, at } ==> {
            &&& free is Some && free->0 < 3 * size && free->0 < u64::MAX ==> (
            action matches RebuildAction::Stop(Err(e)) && e.code == Code::FailedPrecondition)
            &&& free is None || free->0 >= 3 * size || free->0 == u64::MAX ==> action is ReadChunk
                && final(d).step is Reading
            &&& final(d).rebuild == old(d).rebuild && final(d).records == old(d).records
        },
{
}

/// The documents that are read are written in commits that hold each once and in order, at the
/// position of the rebuild, and are counted. More are read once they are written.
pub proof fn lemma_rebuild_writes(
    d: &mut NodeRebuild,
    fence: &mut ReindexFence,
    docs: usize,
    action: RebuildAction,
    k: int,
)
    requires
        call_ensures(NodeRebuild::advance, (d, fence, RebuildEvent::Chunk(docs)), action),
        old(d).rebuild.seq + docs <= u64::MAX,
        old(d).rebuild.doc_count + docs <= u64::MAX,
    ensures
        final(d).step is Writing,
        final(d).rebuild.doc_count == old(d).rebuild.doc_count + docs,
        final(d).rebuild.checkpoint == old(d).rebuild.checkpoint,
        final(d).records == old(d).records,
        action matches RebuildAction::Write(commits) && {
            &&& docs == 0 <==> commits@.len() == 0
            &&& commits@.len() > 0 ==> commits@[0].start == 0 && commits@.last().end == docs
            &&& 0 <= k < commits@.len() - 1 ==> commits@[k].end == commits@[k + 1].start
            &&& 0 <= k < commits@.len() ==> commits@[k].start < commits@[k].end
                <= commits@[k].start + 10_000 && commits@[k].checkpoint.snapshot
                == old(d).rebuild.checkpoint
        },
{
    let commits = action->Write_0;
    lemma_commits_cover(commits@, old(d).rebuild, docs as nat);
    if 0 <= k < commits@.len() {
        assert(crate::admin::is_slice(commits@[k], old(d).rebuild, docs as nat, k));
    }
}

/// At the end of the rows a rebuild with documents is promoted. One without is refused where the
/// source reports rows and every key was to be kept, and else records its position first. A promoted
/// shard becomes the live one, and then the rebuild has come to its documents and its snapshot.
pub proof fn lemma_rebuild_is_completed(
    d: &mut NodeRebuild,
    fence: &mut ReindexFence,
    event: RebuildEvent,
    action: RebuildAction,
)
    requires
        call_ensures(NodeRebuild::advance, (d, fence, event), action),
        answers(old(d).step, event),
    ensures
        event is Exhausted && old(d).rebuild.doc_count > 0 ==> action is Promote && final(d).step is Promoting,
        event is Exhausted && old(d).rebuild.doc_count == 0 && old(d).only is None
            && old(d).records is Some && old(d).records->0 > 0 ==> (
        action matches RebuildAction::Stop(Err(e)) && e.code == Code::Internal),
        event is Exhausted && old(d).rebuild.doc_count == 0 && (old(d).only is Some
            || old(d).records is None || old(d).records->0 <= 0) ==> final(d).step is Stamping && (
        action matches RebuildAction::Write(commits) && commits@.len() == 1 && commits@[0].start == 0
            && commits@[0].end == 0 && commits@[0].checkpoint.snapshot
            == old(d).rebuild.checkpoint),
        event is Written && old(d).step is Writing ==> action is ReadChunk && final(d).step is Reading,
        event is Written && old(d).step is Stamping ==> action is Promote && final(d).step is Promoting,
        event matches RebuildEvent::Promoted(s) ==> action is Install && final(d).snapshot == s
            && final(d).step is Installing,
        event is Installed ==> final(d).installed && (action matches RebuildAction::Stop(Ok(r))
            && r.doc_count == old(d).rebuild.doc_count && r.snapshot == old(d).snapshot),
{
}

/// A rebuild begins only on a node with a source whose fence was open, and then the fence is engaged;
/// one that does not begin leaves the fence as it was. It keeps the keys of its own shard where there
/// is a bucket map, which must be readable, and every key where there is none.
pub proof fn lemma_rebuild_is_begun(
    s: AdminService,
    index: &str,
    md: MetadataMap,
    fence: &mut ReindexFence,
    owners: Vec<u32>,
    map: Result<(), String>,
    ordinal: u32,
    r: Result<NodeRebuild, Status>,
)
    requires
        call_ensures(
            AdminService::begin_reindex,
            (&s, index, &md, fence, &owners, map, ordinal),
            r,
        ),
    ensures
        r is Err ==> final(fence)@ == old(fence)@,
        r matches Ok(d) ==> {
            &&& s.source
            &&& !old(fence)@ && final(fence)@
            &&& owners@.len() > 0 ==> map is Ok && d.only == Some(ordinal)
            &&& owners@.len() == 0 ==> d.only is None
            &&& d.step is Head
            &&& !d.installed
            &&& index@.len() == 0 || index@ == s.index@
        },
        r matches Err(e) ==> {
            ||| e.code == Code::PermissionDenied
            ||| e.code == Code::NotFound && index@.len() > 0 && index@ != s.index@
            ||| e.code == Code::Unimplemented && !s.source
            ||| e.code == Code::FailedPrecondition && old(fence)@
            ||| e.code == Code::InvalidArgument && owners@.len() > 0 && map is Err
        },
{
    let passed = choose|passed: Result<(), Status>| #[trigger]
        s.accepted(
            "ReindexIndex"@,
            index@,
            crate::metadata::contents(md),
            passed,
        ) && match passed {
            Err(e) => r == Err::<NodeRebuild, Status>(e) && final(fence)@ == old(fence)@,
            Ok(_) => crate::node_rebuild::begins(
                s.source,
                owners@,
                map,
                ordinal,
                old(fence)@,
                r,
                final(fence)@,
            ),
        };
    assert(s.accepted("ReindexIndex"@, index@, crate::metadata::contents(md), passed));
}

/// A comparison of counts goes before a full reading, and partitions are gone through where neither
/// was asked for.
pub proof fn lemma_reconcile_route(count_only: bool, full: bool, r: ReconcileRoute)
    requires
        call_ensures(reconcile_route, (count_only, full), r),
    ensures
        r is CountOnly <==> count_only,
        r is Full <==> !count_only && full,
        r is Gated <==> !count_only && !full,
{
}

/// Partitions are gone through exactly where there are some and they are by just the fields that the
/// index is by, in their order.
pub proof fn lemma_partitions_match(
    parts: Vec<PartitionCount>,
    fields: Vec<String>,
    b: bool,
    none: bool,
)
    requires
        call_ensures(gate_applies, (Some(&parts), &fields), b),
        call_ensures(gate_applies, (None, &fields), none),
    ensures
        !none,
        b <==> parts@.len() > 0 && parts@[0].fields@.len() == fields@.len() && forall|i: int|
            0 <= i < fields@.len() ==> (#[trigger] parts@[0].fields@[i])@ == fields@[i]@,
{
    if parts@.len() > 0 {
        let a = parts@[0].fields.deep_view();
        let f = fields.deep_view();
        assert(a.len() == parts@[0].fields@.len());
        assert(f.len() == fields@.len());
        if b {
            assert forall|i: int| 0 <= i < fields@.len() implies (#[trigger] parts@[0].fields@[i])@
                == fields@[i]@ by {
                assert(a[i] == f[i]);
            }
        }
        if a.len() == f.len() && forall|i: int|
            0 <= i < fields@.len() ==> (#[trigger] parts@[0].fields@[i])@ == fields@[i]@ {
            assert forall|i: int| 0 <= i < a.len() implies a[i] == f[i] by {
                assert(parts@[0].fields@[i]@ == fields@[i]@);
            }
            assert(a =~= f);
        }
    }
}

/// The rows of a partition are read exactly where the counts differ. Both counts are added, and the
/// partition is counted as read or as skipped.
pub proof fn lemma_partition_is_visited(
    g: &mut GateResult,
    source_records: u64,
    index_records: u64,
    scan: bool,
)
    requires
        call_ensures(GateResult::visit, (g, source_records, index_records), scan),
        old(g).source_count + source_records <= u64::MAX,
        old(g).index_count + index_records <= u64::MAX,
        old(g).partitions_scanned + old(g).partitions_skipped < u64::MAX,
    ensures
        scan <==> source_records != index_records,
        final(g).source_count == old(g).source_count + source_records,
        final(g).index_count == old(g).index_count + index_records,
        scan ==> final(g).partitions_scanned == old(g).partitions_scanned + 1
            && final(g).partitions_skipped == old(g).partitions_skipped,
        !scan ==> final(g).partitions_skipped == old(g).partitions_skipped + 1
            && final(g).partitions_scanned == old(g).partitions_scanned,
        final(g).stale == old(g).stale,
        final(g).missing == old(g).missing,
        final(g).deletes_skipped == old(g).deletes_skipped,
{
}

/// What was deleted adds to what was stale and what was indexed to what was missing; that deletes
/// were skipped is not forgotten.
pub proof fn lemma_report_is_added(g: &mut GateResult, report: DriftReport)
    requires
        call_ensures(GateResult::fold, (g, &report), ()),
        old(g).stale + report.deleted <= u64::MAX,
        old(g).missing + report.reindexed <= u64::MAX,
    ensures
        final(g).stale == old(g).stale + report.deleted,
        final(g).missing == old(g).missing + report.reindexed,
        final(g).deletes_skipped <==> old(g).deletes_skipped || report.deletes_skipped,
        final(g).source_count == old(g).source_count,
        final(g).index_count == old(g).index_count,
        final(g).partitions_scanned == old(g).partitions_scanned,
        final(g).partitions_skipped == old(g).partitions_skipped,
{
}

/// Whether an answer tells these counts.
pub open spec fn tells_counts(r: ReconcileIndexResponse, g: GateResult) -> bool {
    &&& r.index_count == g.index_count
    &&& r.source_count == g.source_count
    &&& r.stale == g.stale
    &&& r.missing == g.missing
    &&& r.deletes_skipped == g.deletes_skipped
    &&& r.partitions_scanned == g.partitions_scanned
    &&& r.partitions_skipped == g.partitions_skipped
}

/// A reconciliation by partition is answered with its counts.
pub proof fn lemma_counts_are_answered(g: GateResult, r: ReconcileIndexResponse)
    requires
        call_ensures(GateResult::into_response, (g,), r),
    ensures
        tells_counts(r, g),
{
}

/// A comparison of counts tells both, and none where the source reports none; nothing was repaired.
pub proof fn lemma_counts_are_compared(keys: u64, records: Option<i64>, r: ReconcileIndexResponse)
    requires
        call_ensures(count_response, (keys, records), r),
    ensures
        r.index_count == keys,
        records is Some && records->0 > 0 ==> r.source_count == records->0,
        records is None || records->0 <= 0 ==> r.source_count == 0,
        r.stale == 0 && r.missing == 0 && !r.deletes_skipped,
        r.partitions_scanned == 0 && r.partitions_skipped == 0,
{
}

/// A reconciliation of the whole shard tells what was found and what was repaired.
pub proof fn lemma_repair_is_answered(report: DriftReport, r: ReconcileIndexResponse)
    requires
        call_ensures(full_response, (&report,), r),
    ensures
        r.index_count == report.index_count,
        r.source_count == report.source_count,
        r.stale == report.deleted,
        r.missing == report.reindexed,
        r.deletes_skipped == report.deletes_skipped,
        r.partitions_scanned == 0 && r.partitions_skipped == 0,
{
}

/// A reconciliation by partition begins with nothing counted. It goes to each partition that the shard
/// owns, once and in order, and to no other; to all where nothing says whose they are.
pub proof fn lemma_partitions_are_gone_through(
    parts: Vec<PartitionCount>,
    fields: Vec<String>,
    owns: Option<&Vec<bool>>,
    r: Option<GatedReconcile>,
    i: usize,
)
    requires
        call_ensures(GatedReconcile::start, (Some(&parts), &fields, owns), r),
        owns matches Some(o) ==> o@.len() == parts@.len(),
    ensures
        r matches Some(g) ==> {
            &&& g.done == 0 && !g.differs
            &&& g.result.index_count == 0 && g.result.source_count == 0
            &&& g.result.stale == 0 && g.result.missing == 0 && !g.result.deletes_skipped
            &&& g.result.partitions_scanned == 0 && g.result.partitions_skipped == 0
            &&& g.records@.len() == parts@.len()
            &&& i < parts@.len() ==> g.records@[i as int] == parts@[i as int].records
            &&& g.visits@.contains(i) <==> i < parts@.len() && (owns is None || owns->0@[i as int])
            &&& forall|j: int, k: int|
                0 <= j < k < g.visits@.len() ==> #[trigger] g.visits@[j] < #[trigger] g.visits@[k]
        },
        r is Some ==> parts@.len() > 0,
{
    if let Some(g) = r {
        let own = match owns {
            Some(o) => Some(o@),
            None => None,
        };
        assert(parts.len() == parts@.len());
        lemma_own_partitions_only(own, parts@.len() as int, i);
        lemma_own_increase(own, parts@.len() as int);
    }
}

proof fn lemma_own_increase(owns: Option<Seq<bool>>, n: int)
    requires
        0 <= n <= usize::MAX,
    ensures
        forall|j: int, k: int|
            0 <= j < k < own_partitions(owns, n).len() ==> #[trigger] own_partitions(owns, n)[j]
                < #[trigger] own_partitions(owns, n)[k],
        forall|j: int|
            0 <= j < own_partitions(owns, n).len() ==> #[trigger] own_partitions(owns, n)[j] < n,
    decreases n,
{
    if n > 0 {
        lemma_own_increase(owns, n - 1);
        let before = own_partitions(owns, n - 1);
        let all = own_partitions(owns, n);
        assert forall|j: int, k: int| 0 <= j < k < all.len() implies #[trigger] all[j]
            < #[trigger] all[k] by {
            assert(all[j] == before[j]);
            if k < before.len() {
                assert(all[k] == before[k]);
            }
        }
        assert forall|j: int| 0 <= j < all.len() implies #[trigger] all[j] < n by {
            if j < before.len() {
                assert(all[j] == before[j]);
            }
        }
    }
}

/// Whether a reconciliation by partition now does this: it is over after its last partition; else it
/// reads the rows of its partition where its counts differ, and counts the keys of it where they were
/// not compared yet.
pub open spec fn gate_does(g: GatedReconcile, a: GateAction) -> bool {
    &&& a is Done <==> g.done == g.visits@.len()
    &&& a matches GateAction::Reconcile(p) ==> g.differs && p == g.visits@[g.done as int]
    &&& a matches GateAction::CountKeys(p) ==> !g.differs && p == g.visits@[g.done as int]
}

/// What a reconciliation by partition does next is about the partition it is at.
pub proof fn lemma_gate_does(g: GatedReconcile, a: GateAction)
    requires
        call_ensures(GatedReconcile::action, (&g,), a),
    ensures
        gate_does(g, a),
{
}

/// Whether keys of a partition were counted: both counts are added. A partition with as many rows is
/// skipped; else its rows are to be read.
pub open spec fn takes_count(before: GatedReconcile, keys: u64, after: GatedReconcile) -> bool {
    let rows = before.records@[before.visits@[before.done as int] as int];
    &&& after.records == before.records && after.visits == before.visits
    &&& after.result.source_count == before.result.source_count + rows
    &&& after.result.index_count == before.result.index_count + keys
    &&& rows == keys ==> after.done == before.done + 1 && !after.differs
        && after.result.partitions_skipped == before.result.partitions_skipped + 1
        && after.result.partitions_scanned == before.result.partitions_scanned
    &&& rows != keys ==> after.done == before.done && after.differs
        && after.result.partitions_scanned == before.result.partitions_scanned + 1
        && after.result.partitions_skipped == before.result.partitions_skipped
    &&& after.result.stale == before.result.stale && after.result.missing == before.result.missing
    &&& after.result.deletes_skipped == before.result.deletes_skipped
}

/// Whether a partition was repaired: what was repaired is added, and the next is to come.
pub open spec fn takes_repair(
    before: GatedReconcile,
    report: DriftReport,
    after: GatedReconcile,
) -> bool {
    &&& after.records == before.records && after.visits == before.visits
    &&& after.done == before.done + 1 && !after.differs
    &&& after.result.stale == before.result.stale + report.deleted
    &&& after.result.missing == before.result.missing + report.reindexed
    &&& after.result.deletes_skipped <==> before.result.deletes_skipped || report.deletes_skipped
    &&& after.result.source_count == before.result.source_count
    &&& after.result.index_count == before.result.index_count
    &&& after.result.partitions_scanned == before.result.partitions_scanned
    &&& after.result.partitions_skipped == before.result.partitions_skipped
}

/// Counting the keys of a partition adds both counts, and settles whether its rows are read.
pub proof fn lemma_keys_are_counted(g: &mut GatedReconcile, keys: u64)
    requires
        call_ensures(GatedReconcile::counted, (g, keys), ()),
        old(g).wf(),
        !old(g).differs,
        old(g).done < old(g).visits@.len(),
        old(g).result.source_count + old(g).rows() <= u64::MAX,
        old(g).result.index_count + keys <= u64::MAX,
    ensures
        takes_count(*old(g), keys, *final(g)),
{
    let n = old(g).visits.len();
    assert(old(g).visits@.len() == n);
}

/// Repairing a partition adds what was repaired, and goes on to the next.
pub proof fn lemma_partition_is_repaired(g: &mut GatedReconcile, report: DriftReport)
    requires
        call_ensures(GatedReconcile::reconciled, (g, &report), ()),
        old(g).wf(),
        old(g).differs,
        old(g).result.stale + report.deleted <= u64::MAX,
        old(g).result.missing + report.reindexed <= u64::MAX,
    ensures
        takes_repair(*old(g), report, *final(g)),
{
}

/// Whether what is done is what the reconciliation by partition does, and its counts once it is over.
pub open spec fn does_by_partition(g: GatedReconcile, action: ReconcileAction) -> bool {
    &&& g.done == g.visits@.len() ==> (action matches ReconcileAction::Stop(Ok(r)) && tells_counts(
        r,
        g.result,
    ))
    &&& g.done < g.visits@.len() && g.differs ==> (action matches ReconcileAction::Read(Some(p))
        && p == g.visits@[g.done as int])
    &&& g.done < g.visits@.len() && !g.differs ==> (action matches ReconcileAction::CountKeys(p) && p
        == g.visits@[g.done as int])
}

/// A failed action ends a reconciliation with what failed. A reconciliation is over exactly where it
/// answers; whose keys it compares, by which fields, and how it was asked for stay.
pub proof fn lemma_failed_reconcile_ends(
    d: &mut NodeReconcile,
    event: ReconcileEvent,
    action: ReconcileAction,
)
    requires
        call_ensures(NodeReconcile::advance, (d, event), action),
    ensures
        action is Stop <==> final(d).step is Ended,
        event matches ReconcileEvent::Failed(e) ==> (action matches ReconcileAction::Stop(Err(f)) && f
            == e),
        final(d).only == old(d).only,
        final(d).full == old(d).full,
        final(d).fields == old(d).fields,
        !(event is Captured) ==> final(d).captured == old(d).captured,
        !(event is Records) ==> final(d).records == old(d).records,
{
}

/// A comparison of counts asks the source and then the shard, and answers with both. The checkpoint
/// is noted before anything is read; all is read where that was asked for, and else the partitions are
/// listed first.
pub proof fn lemma_reconcile_prepares(
    d: &mut NodeReconcile,
    event: ReconcileEvent,
    action: ReconcileAction,
)
    requires
        call_ensures(NodeReconcile::advance, (d, event), action),
    ensures
        event matches ReconcileEvent::Records(n) ==> action is CountIndex && final(d).records == n
            && final(d).step is CountingIndex,
        old(d).step is CountingIndex ==> (event matches ReconcileEvent::Keys(n) ==> (
        action matches ReconcileAction::Stop(Ok(r)) && r.index_count == n && r.stale == 0
            && r.missing == 0 && (old(d).records is Some && old(d).records->0 > 0 ==> r.source_count
            == old(d).records->0) && (old(d).records is None || old(d).records->0 <= 0
            ==> r.source_count == 0))),
        event matches ReconcileEvent::Captured(c) ==> final(d).captured == c && (old(d).full ==> (
        action matches ReconcileAction::Read(p) && p is None) && final(d).step is Reading) && (
        !old(d).full ==> action is ListPartitions && final(d).step is Listing),
{
}

/// Rows that were read are repaired, in the part that they are of, against the checkpoint that was
/// noted.
pub proof fn lemma_rows_are_repaired(
    d: &mut NodeReconcile,
    event: ReconcileEvent,
    action: ReconcileAction,
)
    requires
        call_ensures(NodeReconcile::advance, (d, event), action),
        event is Read,
    ensures
        action matches ReconcileAction::Repair(part, captured) && captured == old(d).captured && (
        old(d).gate is None ==> part is None) && (old(d).gate matches Some(g) ==> part == Some(
            g.visits@[g.done as int],
        )),
        final(d).step is Repairing,
        final(d).gate == old(d).gate,
{
}

/// A repair of the whole shard ends the reconciliation with what was found and repaired. One of a
/// partition is added, and what comes next is about the next partition.
pub proof fn lemma_repair_goes_on(
    d: &mut NodeReconcile,
    report: DriftReport,
    action: ReconcileAction,
)
    requires
        call_ensures(NodeReconcile::advance, (d, ReconcileEvent::Repaired(report)), action),
        old(d).wf(),
        old(d).step is Repairing,
        old(d).gate matches Some(g) ==> g.result.stale + report.deleted <= u64::MAX
            && g.result.missing + report.reindexed <= u64::MAX,
    ensures
        old(d).gate is None ==> (action matches ReconcileAction::Stop(Ok(r)) && r.index_count
            == report.index_count && r.source_count == report.source_count && r.stale
            == report.deleted && r.missing == report.reindexed && r.deletes_skipped
            == report.deletes_skipped),
        old(d).gate matches Some(g) ==> (final(d).gate matches Some(h) && takes_repair(g, report, h)
            && does_by_partition(h, action)),
{
}

/// Keys of a partition that were counted are taken in, and what comes next is about the partition
/// whose counts differ, or the next one.
pub proof fn lemma_count_goes_on(d: &mut NodeReconcile, keys: u64, action: ReconcileAction)
    requires
        call_ensures(NodeReconcile::advance, (d, ReconcileEvent::Keys(keys)), action),
        old(d).wf(),
        old(d).step is CountingKeys,
        old(d).gate->0.result.source_count + old(d).gate->0.rows() <= u64::MAX,
        old(d).gate->0.result.index_count + keys <= u64::MAX,
    ensures
        final(d).gate matches Some(h) && takes_count(old(d).gate->0, keys, h) && does_by_partition(
            h,
            action,
        ),
{
    let n = old(d).gate->0.visits.len();
    assert(old(d).gate->0.visits@.len() == n);
}

/// Partitions that were listed are gone through where they are by just the fields of the index: those
/// of the shard that is compared, in order. Else all is read.
pub proof fn lemma_listed_partitions(
    d: &mut NodeReconcile,
    parts: Option<Vec<PartitionCount>>,
    owns: Vec<bool>,
    action: ReconcileAction,
    i: usize,
)
    requires
        call_ensures(NodeReconcile::advance, (d, ReconcileEvent::Partitions(parts, owns)), action),
        old(d).only is Some && parts is Some ==> owns@.len() == parts->0@.len(),
    ensures
        final(d).gate is None ==> (action matches ReconcileAction::Read(p) && p is None),
        final(d).gate is Some <==> parts is Some && parts->0@.len() > 0
            && parts->0@[0].fields.deep_view() == old(d).fields.deep_view(),
        final(d).gate matches Some(g) ==> {
            &&& does_by_partition(g, action)
            &&& g.visits@.contains(i) <==> i < parts->0@.len() && (old(d).only is None
                || owns@[i as int])
            &&& i < parts->0@.len() ==> g.records@[i as int] == parts->0@[i as int].records
        },
{
    if let Some(g) = final(d).gate {
        let own = if old(d).only is Some {
            Some(owns@)
        } else {
            None
        };
        assert(parts->0.len() == parts->0@.len());
        lemma_own_partitions_only(own, parts->0@.len() as int, i);
    }
}

/// A reconciliation begins only on a node with a source, for the index that is served. It compares the
/// keys of its own shard where there is a bucket map, which must be readable. It begins with the count
/// of the source where only counts are compared, and else by noting the checkpoint.
pub proof fn lemma_reconcile_is_begun(
    s: AdminService,
    index: &str,
    md: MetadataMap,
    owners: Vec<u32>,
    map: Result<(), String>,
    ordinal: u32,
    count_only: bool,
    full: bool,
    fields: Vec<String>,
    r: Result<(NodeReconcile, ReconcileAction), Status>,
)
    requires
        call_ensures(
            AdminService::begin_reconcile,
            (&s, index, &md, &owners, map, ordinal, count_only, full, fields),
            r,
        ),
    ensures
        r matches Ok(b) ==> {
            &&& s.source
            &&& owners@.len() > 0 ==> map is Ok && b.0.only == Some(ordinal)
            &&& owners@.len() == 0 ==> b.0.only is None
            &&& b.0.full == full
            &&& b.0.fields.deep_view() == fields.deep_view()
            &&& b.0.gate is None && b.0.captured is None
            &&& count_only ==> b.1 is CountSource && b.0.step is CountingSource
            &&& !count_only ==> b.1 is Capture && b.0.step is Capturing
            &&& index@.len() == 0 || index@ == s.index@
        },
        r matches Err(e) ==> {
            ||| e.code == Code::PermissionDenied
            ||| e.code == Code::NotFound && index@.len() > 0 && index@ != s.index@
            ||| e.code == Code::Unimplemented && !s.source
            ||| e.code == Code::InvalidArgument && owners@.len() > 0 && map is Err
        },
{
    let passed = choose|passed: Result<(), Status>| #[trigger]
        s.accepted(
            "ReconcileIndex"@,
            index@,
            crate::metadata::contents(md),
            passed,
        ) && match passed {
            Err(e) => r == Err::<(NodeReconcile, ReconcileAction), Status>(e),
            Ok(_) => crate::node_reconcile::reconcile_begins(
                s.source,
                owners@,
                map,
                ordinal,
                count_only,
                full,
                fields.deep_view(),
                r,
            ),
        };
    assert(s.accepted("ReconcileIndex"@, index@, crate::metadata::contents(md), passed));
}

} // verus!
