//! Reconciling a shard with the source, partition by partition where counts tell which ones
//! diverge.
use vstd::prelude::*;
use vstd::string::*;

use crate::drift::DriftReport;
use crate::text::same;

verus! {

/// How a reconciliation is carried out.
#[derive(Debug, Clone, Copy, PartialEq, Eq)]
pub enum ReconcileRoute {
    /// Only the counts are compared.
    CountOnly,
    /// The partitions whose counts differ are read, where partitions can be counted; else all.
    Gated,
    /// Everything is read.
    Full,
}

/// How a reconciliation is carried out.
pub fn reconcile_route(count_only: bool, full: bool) -> (r: ReconcileRoute)
    ensures
        r == (if count_only {
            ReconcileRoute::CountOnly
        } else if full {
            ReconcileRoute::Full
        } else {
            ReconcileRoute::Gated
        }),
{
    if count_only {
        ReconcileRoute::CountOnly
    } else if full {
        ReconcileRoute::Full
    } else {
        ReconcileRoute::Gated
    }
}

/// How many rows the source reports for a partition, and the fields that it is partitioned by.
#[derive(Debug, Clone)]
pub struct PartitionCount {
    pub fields: Vec<String>,
    pub records: u64,
}

fn same_names(a: &Vec<String>, b: &Vec<String>) -> (r: bool)
    ensures
        r == (a.deep_view() == b.deep_view()),
{
    if a.len() != b.len() {
        assert(a.deep_view().len() != b.deep_view().len());
        return false;
    }
    let mut i: usize = 0;
    while i < a.len()
        invariant
            a@.len() == b@.len(),
            i <= a@.len(),
            forall|k: int| 0 <= k < i ==> #[trigger] a.deep_view()[k] == b.deep_view()[k],
        decreases a@.len() - i,
    {
        if !same(a[i].as_str(), b[i].as_str()) {
            assert(a.deep_view()[i as int] != b.deep_view()[i as int]);
            return false;
        }
        assert(a.deep_view()[i as int] == b.deep_view()[i as int]);
        i = i + 1;
    }
    assert(a.deep_view() =~= b.deep_view());
    true
}

/// Whether the source can be reconciled partition by partition: it is partitioned by the fields
/// that the index is, and has a partition. `parts` is none where it is not cleanly partitioned.
pub fn gate_applies(parts: Option<&Vec<PartitionCount>>, index_fields: &Vec<String>) -> (b: bool)
    ensures
        b == (parts is Some && parts->0@.len() > 0 && parts->0@[0].fields.deep_view()
            == index_fields.deep_view()),
{
    match parts {
        None => false,
        Some(p) => p.len() > 0 && same_names(&p[0].fields, index_fields),
    }
}

/// What a reconciliation came to.
#[derive(Debug, Clone, Copy, PartialEq, Eq, Structural)]
pub struct ReconcileIndexResponse {
    pub index_count: u64,
    pub source_count: u64,
    pub stale: u64,
    pub missing: u64,
    pub deletes_skipped: bool,
    pub partitions_scanned: u64,
    pub partitions_skipped: u64,
}

/// A reconciliation by partition, under way.
#[derive(Debug, Clone, Copy, PartialEq, Eq, Structural)]
pub struct GateResult {
    pub index_count: u64,
    pub source_count: u64,
    pub stale: u64,
    pub missing: u64,
    pub deletes_skipped: bool,
    pub partitions_scanned: u64,
    pub partitions_skipped: u64,
}

impl Default for GateResult {
    fn default() -> (g: GateResult)
        ensures
            g == (GateResult {
                index_count: 0,
                source_count: 0,
                stale: 0,
                missing: 0,
                deletes_skipped: false,
                partitions_scanned: 0,
                partitions_skipped: 0,
            }),
    {
        GateResult {
            index_count: 0,
            source_count: 0,
            stale: 0,
            missing: 0,
            deletes_skipped: false,
            partitions_scanned: 0,
            partitions_skipped: 0,
        }
    }
}

impl GateResult {
    /// How many partitions were looked at.
    pub open spec fn visited(&self) -> int {
        self.partitions_scanned + self.partitions_skipped
    }

    /// Takes in a partition, and says whether its rows must be read: its counts differ.
    pub fn visit(&mut self, source_records: u64, index_records: u64) -> (scan: bool)
        requires
            old(self).source_count + source_records <= u64::MAX,
            old(self).index_count + index_records <= u64::MAX,
            old(self).visited() < u64::MAX,
        ensures
            scan == (source_records != index_records),
            *final(self) == (GateResult {
                source_count: (old(self).source_count + source_records) as u64,
                index_count: (old(self).index_count + index_records) as u64,
                partitions_scanned: (old(self).partitions_scanned + if scan {
                    1int
                } else {
                    0
                }) as u64,
                partitions_skipped: (old(self).partitions_skipped + if scan {
                    0int
                } else {
                    1
                }) as u64,
                ..*old(self)
            }),
            final(self).visited() == old(self).visited() + 1,
    {
        self.source_count = self.source_count + source_records;
        self.index_count = self.index_count + index_records;
        if index_records == source_records {
            self.partitions_skipped = self.partitions_skipped + 1;
            return false;
        }
        self.partitions_scanned = self.partitions_scanned + 1;
        true
    }

    /// Takes in what the reconciliation of a partition came to.
    pub fn fold(&mut self, report: &DriftReport)
        requires
            old(self).stale + report.deleted <= u64::MAX,
            old(self).missing + report.reindexed <= u64::MAX,
        ensures
            *final(self) == (GateResult {
                stale: (old(self).stale + report.deleted) as u64,
                missing: (old(self).missing + report.reindexed) as u64,
                deletes_skipped: old(self).deletes_skipped || report.deletes_skipped,
                ..*old(self)
            }),
    {
        self.stale = self.stale + report.deleted as u64;
        self.missing = self.missing + report.reindexed as u64;
        self.deletes_skipped = self.deletes_skipped || report.deletes_skipped;
    }

    /// What the reconciliation came to.
    pub fn into_response(self) -> (r: ReconcileIndexResponse)
        ensures
            r == gate_answer(self),
    {
        ReconcileIndexResponse {
            index_count: self.index_count,
            source_count: self.source_count,
            stale: self.stale,
            missing: self.missing,
            deletes_skipped: self.deletes_skipped,
            partitions_scanned: self.partitions_scanned,
            partitions_skipped: self.partitions_skipped,
        }
    }
}

/// The answer that a reconciliation by partition makes.
pub open spec fn gate_answer(g: GateResult) -> ReconcileIndexResponse {
    ReconcileIndexResponse {
        index_count: g.index_count,
        source_count: g.source_count,
        stale: g.stale,
        missing: g.missing,
        deletes_skipped: g.deletes_skipped,
        partitions_scanned: g.partitions_scanned,
        partitions_skipped: g.partitions_skipped,
    }
}

/// Whether partition `i` is the shard's own; all are where nothing says whose they are.
pub open spec fn owns_partition(owns: Option<Seq<bool>>, i: int) -> bool {
    owns is None || owns->0[i]
}

/// The partitions below `n` that are the shard's own, in order.
pub open spec fn own_partitions(owns: Option<Seq<bool>>, n: int) -> Seq<usize>
    decreases n,
{
    if n <= 0 {
        Seq::empty()
    } else if owns_partition(owns, n - 1) {
        own_partitions(owns, n - 1).push((n - 1) as usize)
    } else {
        own_partitions(owns, n - 1)
    }
}

/// A reconciliation visits each of the shard's own partitions once, and no other's.
pub proof fn lemma_own_partitions_only(owns: Option<Seq<bool>>, n: int, i: usize)
    requires
        0 <= n <= usize::MAX,
    ensures
        own_partitions(owns, n).contains(i) <==> i < n && owns_partition(owns, i as int),
        own_partitions(owns, n).no_duplicates(),
        forall|k: int|
            0 <= k < own_partitions(owns, n).len() ==> (#[trigger] own_partitions(owns, n)[k]) < n,
    decreases n,
{
    if n > 0 {
        lemma_own_partitions_only(owns, n - 1, i);
        let before = own_partitions(owns, n - 1);
        if owns_partition(owns, n - 1) {
            let all = own_partitions(owns, n);
            assert(all[all.len() - 1] == (n - 1) as usize);
            if before.contains(i) {
                let k = choose|k: int| 0 <= k < before.len() && before[k] == i;
                assert(all[k] == i);
            }
            assert(forall|k: int| 0 <= k < before.len() ==> all[k] == before[k]);
        }
    }
}

/// A reconciliation of the partitions whose counts differ, under way.
#[derive(Debug)]
pub struct GatedReconcile {
    /// How many rows the source reports for each partition.
    pub records: Vec<u64>,
    /// The partitions to visit.
    pub visits: Vec<usize>,
    /// How many of them are done.
    pub done: usize,
    /// Whether the rows of the next one must be read: its counts differ.
    pub differs: bool,
    pub result: GateResult,
}

/// What is to be done next. Partitions go by position.
#[derive(Debug, Clone, Copy, PartialEq, Eq, Structural)]
pub enum GateAction {
    /// Count the keys that the shard holds of this partition.
    CountKeys(usize),
    /// Read this partition's rows and reconcile the shard with them.
    Reconcile(usize),
    /// All of the shard's own partitions were visited.
    Done,
}

/// Whether `r` is the reconciliation by partition that begins: there is one where the source has
/// partitions, by just the fields that the index partitions its keys by. It visits the shard's own
/// partitions, and has visited none yet.
pub open spec fn starts(
    parts: Option<Seq<PartitionCount>>,
    index_fields: Seq<Seq<char>>,
    owns: Option<Seq<bool>>,
    r: Option<GatedReconcile>,
) -> bool {
    match r {
        None => parts is None || parts->0.len() == 0 || parts->0[0].fields.deep_view()
            != index_fields,
        Some(g) => {
            &&& parts is Some
            &&& parts->0.len() > 0
            &&& parts->0[0].fields.deep_view() == index_fields
            &&& g.wf()
            &&& g.records@ == parts->0.map_values(|p: PartitionCount| p.records)
            &&& g.visits@ == own_partitions(owns, parts->0.len() as int)
            &&& g.done == 0
            &&& !g.differs
            &&& g.result == (GateResult {
                index_count: 0,
                source_count: 0,
                stale: 0,
                missing: 0,
                deletes_skipped: false,
                partitions_scanned: 0,
                partitions_skipped: 0,
            })
        },
    }
}

/// Whether `after` is `before` once the shard's keys of the next partition were counted: it is
/// skipped where the source reports as many rows, and else its rows are read next.
pub open spec fn counts(before: GatedReconcile, keys: u64, after: GatedReconcile) -> bool {
    let rows = before.rows();
    &&& after.records == before.records
    &&& after.visits == before.visits
    &&& after.differs == (rows != keys)
    &&& after.done == before.done + (if rows == keys {
        1int
    } else {
        0
    })
    &&& after.result == (GateResult {
        source_count: (before.result.source_count + rows) as u64,
        index_count: (before.result.index_count + keys) as u64,
        partitions_scanned: (before.result.partitions_scanned + if rows != keys {
            1int
        } else {
            0
        }) as u64,
        partitions_skipped: (before.result.partitions_skipped + if rows == keys {
            1int
        } else {
            0
        }) as u64,
        ..before.result
    })
}

/// Whether `after` is `before` once the next partition was reconciled.
pub open spec fn repairs(before: GatedReconcile, report: DriftReport, after: GatedReconcile) -> bool {
    &&& after.records == before.records
    &&& after.visits == before.visits
    &&& !after.differs
    &&& after.done == before.done + 1
    &&& after.result == (GateResult {
        stale: (before.result.stale + report.deleted) as u64,
        missing: (before.result.missing + report.reindexed) as u64,
        deletes_skipped: before.result.deletes_skipped || report.deletes_skipped,
        ..before.result
    })
}

impl GatedReconcile {
    /// Whether the result tells of the partitions that were visited.
    pub open spec fn wf(&self) -> bool {
        &&& self.done <= self.visits@.len()
        &&& self.differs ==> self.done < self.visits@.len()
        &&& forall|k: int|
            0 <= k < self.visits@.len() ==> (#[trigger] self.visits@[k]) < self.records@.len()
        &&& self.result.visited() == self.done + (if self.differs {
            1int
        } else {
            0
        })
    }

    /// What is to be done next.
    pub open spec fn next(&self) -> GateAction {
        if self.done == self.visits@.len() {
            GateAction::Done
        } else if self.differs {
            GateAction::Reconcile(self.visits@[self.done as int])
        } else {
            GateAction::CountKeys(self.visits@[self.done as int])
        }
    }

    /// How many rows the source reports for the next partition.
    pub open spec fn rows(&self) -> u64 {
        self.records@[self.visits@[self.done as int] as int]
    }

    /// Begins to reconcile by partition, where the source can be. `owns` says of each partition
    /// whether the shard owns it; none where the shard has all of them.
    pub fn start(
        parts: Option<&Vec<PartitionCount>>,
        index_fields: &Vec<String>,
        owns: Option<&Vec<bool>>,
    ) -> (r: Option<GatedReconcile>)
        requires
            parts is Some && owns is Some ==> owns->0@.len() == parts->0@.len(),
        ensures
            starts(
                match parts {
                    Some(p) => Some(p@),
                    None => None,
                },
                index_fields.deep_view(),
                match owns {
                    Some(o) => Some(o@),
                    None => None,
                },
                r,
            ),
    {
        if !gate_applies(parts, index_fields) {
            return None;
        }
        let parts = match parts {
            Some(p) => p,
            None => return None,
        };
        let ghost own = match owns {
            Some(o) => Some(o@),
            None => None,
        };
        let mut records: Vec<u64> = Vec::new();
        let mut visits: Vec<usize> = Vec::new();
        let mut i: usize = 0;
        while i < parts.len()
            invariant
                i <= parts@.len(),
                own == (match owns {
                    Some(o) => Some(o@),
                    None => None,
                }),
                owns is Some ==> owns->0@.len() == parts@.len(),
                records@.len() == i,
                forall|k: int| 0 <= k < i ==> #[trigger] records@[k] == parts@[k].records,
                visits@ == own_partitions(own, i as int),
                forall|k: int| 0 <= k < visits@.len() ==> (#[trigger] visits@[k]) < i,
            decreases parts@.len() - i,
        {
            records.push(parts[i].records);
            let mine = match owns {
                Some(o) => o[i],
                None => true,
            };
            if mine {
                visits.push(i);
            }
            i = i + 1;
        }
        assert(records@ =~= parts@.map_values(|p: PartitionCount| p.records));
        Some(
            GatedReconcile { records, visits, done: 0, differs: false, result: GateResult::default() },
        )
    }

    /// What is to be done next.
    pub fn action(&self) -> (a: GateAction)
        requires
            self.wf(),
        ensures
            a == self.next(),
    {
        if self.done == self.visits.len() {
            GateAction::Done
        } else if self.differs {
            GateAction::Reconcile(self.visits[self.done])
        } else {
            GateAction::CountKeys(self.visits[self.done])
        }
    }

    /// Takes in how many keys the shard holds of the partition: it is skipped where the source
    /// reports as many rows, and else its rows are read next.
    pub fn counted(&mut self, keys: u64)
        requires
            old(self).wf(),
            !old(self).differs,
            old(self).done < old(self).visits@.len(),
            old(self).result.source_count + old(self).rows() <= u64::MAX,
            old(self).result.index_count + keys <= u64::MAX,
        ensures
            final(self).wf(),
            counts(*old(self), keys, *final(self)),
    {
        let n: usize = self.visits.len();
        assert(self.done < n);
        let rows: u64 = self.records[self.visits[self.done]];
        if self.result.visit(rows, keys) {
            self.differs = true;
        } else {
            self.done = self.done + 1;
        }
    }

    /// Takes in what the reconciliation of the partition came to.
    pub fn reconciled(&mut self, report: &DriftReport)
        requires
            old(self).wf(),
            old(self).differs,
            old(self).result.stale + report.deleted <= u64::MAX,
            old(self).result.missing + report.reindexed <= u64::MAX,
        ensures
            final(self).wf(),
            repairs(*old(self), *report, *final(self)),
    {
        let n: usize = self.visits.len();
        assert(self.done < n);
        self.result.fold(report);
        self.differs = false;
        self.done = self.done + 1;
    }
}

/// What a comparison of counts comes to, where the source reports `records` rows.
pub open spec fn count_answer(index_count: u64, records: Option<i64>) -> ReconcileIndexResponse {
    ReconcileIndexResponse {
        index_count,
        source_count: match records {
            Some(n) => if n > 0 {
                n as u64
            } else {
                0
            },
            None => 0,
        },
        stale: 0,
        missing: 0,
        deletes_skipped: false,
        partitions_scanned: 0,
        partitions_skipped: 0,
    }
}

/// What a comparison of counts comes to, where the source reports `records` rows.
pub fn count_response(index_count: u64, records: Option<i64>) -> (r: ReconcileIndexResponse)
    ensures
        r == count_answer(index_count, records),
{
    let source_count: u64 = match records {
        Some(n) => if n > 0 {
            n as u64
        } else {
            0
        },
        None => 0,
    };
    ReconcileIndexResponse {
        index_count,
        source_count,
        stale: 0,
        missing: 0,
        deletes_skipped: false,
        partitions_scanned: 0,
        partitions_skipped: 0,
    }
}

/// What a reconciliation of the whole shard came to.
pub open spec fn full_answer(report: DriftReport) -> ReconcileIndexResponse {
    ReconcileIndexResponse {
        index_count: report.index_count as u64,
        source_count: report.source_count as u64,
        stale: report.deleted as u64,
        missing: report.reindexed as u64,
        deletes_skipped: report.deletes_skipped,
        partitions_scanned: 0,
        partitions_skipped: 0,
    }
}

/// What a reconciliation of the whole shard came to.
pub fn full_response(report: &DriftReport) -> (r: ReconcileIndexResponse)
    ensures
        r == full_answer(*report),
{
    ReconcileIndexResponse {
        index_count: report.index_count as u64,
        source_count: report.source_count as u64,
        stale: report.deleted as u64,
        missing: report.reindexed as u64,
        deletes_skipped: report.deletes_skipped,
        partitions_scanned: 0,
        partitions_skipped: 0,
    }
}

} // verus!
