//! A node's admin service: rebuilding its shard, reconciling it with the source, altering its
//! definition and backing it up.
use tonic::metadata::MetadataMap;
use vstd::prelude::*;
use vstd::string::*;

use crate::auth::{answered, authorize, context_of, default_auth, AuthContextView, AuthDenied, SharedAuth};
use crate::fanout::{not_served, not_served_text};
use crate::metadata::contents;
use crate::status::{plain, Code, Status};
use crate::text::{
    append_decimal, append_signed, decimal, join, joined, lemma_decimal_injective, same,
    signed_decimal,
};

verus! {

/// How many documents a rebuild commits at once, at most.
pub const REINDEX_COMMIT_CHUNK: usize = 10_000;

/// How many times the size of the index a rebuild may need: the old, the new and the kept copy.
pub const REINDEX_DISK_HEADROOM: u64 = 3;

/// The admin service of one shard.
pub struct AdminService {
    pub index: String,
    pub auth: SharedAuth,
    /// Whether the node can read the source.
    pub source: bool,
    /// Where backups are written, if anywhere.
    pub backup: Option<String>,
}

/// What needs the source.
#[derive(Debug, Clone, Copy, PartialEq, Eq)]
pub enum SourceUse {
    Alter,
    Reindex,
    Reconcile,
}

/// The message for what needs the source on a node without one.
pub open spec fn no_source_text(u: SourceUse) -> Seq<char> {
    match u {
        SourceUse::Alter => "this node was started without source access for alter planning"@,
        SourceUse::Reindex => "this node was started without source access for reindex"@,
        SourceUse::Reconcile =>
            "reconcile requires source access (the node was started without a source)"@,
    }
}

/// The message for a backup without a target.
pub open spec fn no_backup_text() -> Seq<char> {
    "this node has no object-storage backup target (start it with GROWLERDB_BACKUP_BUCKET set)"@
}

/// What was last backed up.
#[derive(Debug, Clone, Copy)]
pub struct BackupManifest {
    pub snapshot: u64,
    pub created_ms: u64,
    pub file_count: u64,
}

/// Whether backups are configured, and what was last backed up.
#[derive(Debug, Clone, Copy, PartialEq, Eq)]
pub struct BackupStatusResponse {
    pub configured: bool,
    pub present: bool,
    pub snapshot: u64,
    pub created_ms: u64,
    pub file_count: u64,
}

impl AdminService {
    /// The service of `index`, which permits every call and can neither read the source nor
    /// back up.
    pub fn new(index: String) -> (s: AdminService)
        ensures
            s.index == index,
            forall|ctx: AuthContextView, answer: Result<(), AuthDenied>| #[trigger]
                s.auth.may_answer(ctx, answer) ==> answer is Ok,
            !s.auth.by_identity(),
            !s.source,
            s.backup is None,
    {
        AdminService::with_auth(index, default_auth())
    }

    /// The same, under a policy.
    pub fn with_auth(index: String, auth: SharedAuth) -> (s: AdminService)
        ensures
            s == (AdminService { index, auth, source: false, backup: None }),
    {
        AdminService { index, auth, source: false, backup: None }
    }

    /// Lets the service back up to `prefix`.
    pub fn with_backup(self, prefix: String) -> (s: AdminService)
        ensures
            s == (AdminService { backup: Some(prefix), ..self }),
    {
        let mut s = self;
        s.backup = Some(prefix);
        s
    }

    /// Lets the service read the source.
    pub fn with_source(self) -> (s: AdminService)
        ensures
            s == (AdminService { source: true, ..self }),
    {
        let mut s = self;
        s.source = true;
        s
    }

    /// What comes of a call of `method` for `index`: the policy is asked, and a call for an index
    /// that is not served is refused. A call that names no index is for the one that is.
    pub open spec fn accepted(
        &self,
        method: Seq<char>,
        index: Seq<char>,
        md: Map<Seq<char>, Seq<u8>>,
        r: Result<(), Status>,
    ) -> bool {
        exists|answer: Result<(), AuthDenied>, passed: Result<(), Status>|
            #![trigger self.auth.may_answer(context_of(method, None, md), answer), answered(passed, answer)]
            self.auth.may_answer(context_of(method, None, md), answer) && answered(passed, answer)
                && match passed {
                Err(e) => r == Err::<(), Status>(e),
                Ok(_) => if index.len() == 0 || index == self.index@ {
                    r is Ok
                } else {
                    r matches Err(e) && e@ == plain(
                        Code::NotFound,
                        not_served_text(index, self.index@),
                    )
                },
            }
    }

    /// Asks the policy about a call, and refuses one for an index that is not served.
    pub fn accepts(&self, method: &'static str, index: &str, md: &MetadataMap) -> (r: Result<
        (),
        Status,
    >)
        ensures
            self.accepted(method@, index@, contents(*md), r),
    {
        let passed = authorize(&self.auth, method, md);
        proof {
            let answer = choose|answer: Result<(), AuthDenied>| #[trigger]
                self.auth.may_answer(context_of(method@, None, contents(*md)), answer) && answered(
                    passed,
                    answer,
                );
            assert(self.auth.may_answer(context_of(method@, None, contents(*md)), answer)
                && answered(passed, answer));
        }
        match passed {
            Err(e) => Err(e),
            Ok(_) => if index.is_empty() || same(index, self.index.as_str()) {
                Ok(())
            } else {
                Err(not_served(index, self.index.as_str()))
            },
        }
    }

    /// Refuses what needs the source on a node without one.
    pub fn needs_source(&self, u: SourceUse) -> (r: Result<(), Status>)
        ensures
            match r {
                Ok(_) => self.source,
                Err(e) => !self.source && e@ == plain(Code::Unimplemented, no_source_text(u)),
            },
    {
        if self.source {
            return Ok(());
        }
        Err(
            match u {
                SourceUse::Alter => Status::fixed(
                    Code::Unimplemented,
                    "this node was started without source access for alter planning",
                ),
                SourceUse::Reindex => Status::fixed(
                    Code::Unimplemented,
                    "this node was started without source access for reindex",
                ),
                SourceUse::Reconcile => Status::fixed(
                    Code::Unimplemented,
                    "reconcile requires source access (the node was started without a source)",
                ),
            },
        )
    }

    /// Where a backup is written: to the prefix that is asked for, else to the configured one.
    pub fn backup_target(&self, prefix: &str) -> (r: Result<String, Status>)
        ensures
            match self.backup {
                Some(p) => r matches Ok(t) && t@ == (if prefix@.len() == 0 {
                    p@
                } else {
                    prefix@
                }),
                None => r matches Err(e) && e@ == plain(Code::Unimplemented, no_backup_text()),
            },
    {
        match &self.backup {
            Some(p) => if prefix.is_empty() {
                Ok(p.clone())
            } else {
                Ok(prefix.to_owned())
            },
            None => Err(
                Status::fixed(
                    Code::Unimplemented,
                    "this node has no object-storage backup target (start it with GROWLERDB_BACKUP_BUCKET set)",
                ),
            ),
        }
    }

    /// The name of the directory that a backup is staged in.
    pub fn backup_staging(&self) -> (name: String)
        ensures
            name@ == ".backup-staging-"@ + self.index@,
    {
        let mut name = ".backup-staging-".to_owned();
        name.append(self.index.as_str());
        name
    }

    /// What was last backed up, where `manifest` could be read.
    pub fn backup_status(&self, manifest: Option<BackupManifest>) -> (s: BackupStatusResponse)
        ensures
            s.configured == self.backup is Some,
            s.present == (self.backup is Some && manifest is Some),
            s.present ==> s.snapshot == manifest->0.snapshot && s.created_ms
                == manifest->0.created_ms && s.file_count == manifest->0.file_count,
            !s.present ==> s.snapshot == 0 && s.created_ms == 0 && s.file_count == 0,
    {
        let configured = match self.backup {
            Some(_) => true,
            None => false,
        };
        match manifest {
            Some(m) if configured => BackupStatusResponse {
                configured: true,
                present: true,
                snapshot: m.snapshot,
                created_ms: m.created_ms,
                file_count: m.file_count,
            },
            _ => BackupStatusResponse {
                configured,
                present: false,
                snapshot: 0,
                created_ms: 0,
                file_count: 0,
            },
        }
    }
}

/// The answer to a second reindex.
pub fn reindex_under_way() -> (s: Status)
    ensures
        s@ == plain(
            Code::FailedPrecondition,
            "a reindex is already in progress for this index"@,
        ),
{
    Status::fixed(Code::FailedPrecondition, "a reindex is already in progress for this index")
}

/// Which shard's keys a rebuild or reconciliation keeps: those of `ordinal` under a bucket map, or
/// all where there is no map. `map` says whether the map could be read.
pub fn owner_filter(owners: &Vec<u32>, map: Result<(), String>, ordinal: u32) -> (r: Result<
    Option<u32>,
    Status,
>)
    ensures
        match r {
            Ok(None) => owners@.len() == 0,
            Ok(Some(o)) => owners@.len() > 0 && map is Ok && o == ordinal,
            Err(s) => owners@.len() > 0 && (map matches Err(e) && s@ == plain(
                Code::InvalidArgument,
                "bucket map: "@ + e@,
            )),
        },
{
    if owners.len() == 0 {
        return Ok(None);
    }
    match map {
        Ok(_) => Ok(Some(ordinal)),
        Err(e) => {
            let mut m = "bucket map: ".to_owned();
            m.append(e.as_str());
            Err(Status::new(Code::InvalidArgument, m))
        },
    }
}

/// A position in the source: a snapshot and, where the table orders its snapshots, its place in
/// that order.
#[derive(Debug, Clone, Copy, PartialEq, Eq, Structural)]
pub struct SourceCheckpoint {
    pub snapshot: i64,
    pub sequence: Option<i64>,
}

/// One commit of a rebuild: which documents of the chunk it holds, where it stands, and its id.
#[derive(Debug)]
pub struct RebuildCommit {
    pub start: usize,
    pub end: usize,
    pub checkpoint: SourceCheckpoint,
    pub batch_id: String,
}

/// The id of a rebuild's commit.
pub open spec fn rebuild_id(checkpoint: i64, seq: u64) -> Seq<char> {
    "reindex-"@ + signed_decimal(checkpoint as int) + "-"@ + decimal(seq as nat)
}

/// The position of a rebuild; its place in the order is known where it is positive.
pub open spec fn rebuild_position(checkpoint: i64, sequence: i64) -> SourceCheckpoint {
    SourceCheckpoint {
        snapshot: checkpoint,
        sequence: if sequence > 0 {
            Some(sequence)
        } else {
            None
        },
    }
}

/// The commit of the documents from `start` to `end`.
pub fn reindex_commit(start: usize, end: usize, checkpoint: i64, sequence: i64, seq: u64) -> (c:
    RebuildCommit)
    ensures
        c.start == start,
        c.end == end,
        c.checkpoint == rebuild_position(checkpoint, sequence),
        c.batch_id@ == rebuild_id(checkpoint, seq),
{
    let mut batch_id = "reindex-".to_owned();
    append_signed(&mut batch_id, checkpoint);
    batch_id.append("-");
    append_decimal(&mut batch_id, seq);
    RebuildCommit {
        start,
        end,
        checkpoint: SourceCheckpoint {
            snapshot: checkpoint,
            sequence: if sequence > 0 {
                Some(sequence)
            } else {
                None
            },
        },
        batch_id,
    }
}

/// No two commits of a rebuild have the same id.
pub proof fn lemma_rebuild_ids_differ(checkpoint: i64, a: u64, b: u64)
    requires
        a != b,
    ensures
        rebuild_id(checkpoint, a) != rebuild_id(checkpoint, b),
{
    let head = "reindex-"@ + signed_decimal(checkpoint as int) + "-"@;
    if rebuild_id(checkpoint, a) == rebuild_id(checkpoint, b) {
        let x = rebuild_id(checkpoint, a);
        let y = rebuild_id(checkpoint, b);
        assert(x.skip(head.len() as int) =~= decimal(a as nat));
        assert(y.skip(head.len() as int) =~= decimal(b as nat));
        lemma_decimal_injective(a as nat, b as nat);
    }
}

/// The message for a rebuild that would empty an index.
pub open spec fn empty_rebuild_text(records: i64) -> Seq<char> {
    "reindex read 0 docs from a source that reports "@ + signed_decimal(records as int)
        + " rows — refusing to swap in an empty index (a delete-in-history read bug); the live index is unchanged"@
}

/// Why a rebuild must not be swapped in: it holds nothing, and the source reports rows.
pub fn empty_rebuild_abort_reason(doc_count: u64, records: Option<i64>) -> (r: Option<String>)
    ensures
        match r {
            Some(m) => doc_count == 0 && records is Some && records->0 > 0 && m@
                == empty_rebuild_text(records->0),
            None => doc_count > 0 || records is None || records->0 <= 0,
        },
{
    if let Some(n) = records {
        if doc_count == 0 && n > 0 {
            let mut m = "reindex read 0 docs from a source that reports ".to_owned();
            append_signed(&mut m, n);
            m.append(
                " rows — refusing to swap in an empty index (a delete-in-history read bug); the live index is unchanged",
            );
            return Some(m);
        }
    }
    None
}

/// A rebuild under way: where it stands, and how many commits and documents it made.
#[derive(Debug)]
pub struct Rebuild {
    pub checkpoint: i64,
    pub sequence: i64,
    pub seq: u64,
    pub doc_count: u64,
}

/// How many commits `docs` documents make.
pub open spec fn commits_for(docs: nat) -> nat {
    ((docs + REINDEX_COMMIT_CHUNK - 1) / REINDEX_COMMIT_CHUNK as int) as nat
}

/// Whether `c` is commit `k` of the chunk of `docs` documents that follows commit `seq`.
pub open spec fn is_slice(c: RebuildCommit, r: Rebuild, docs: nat, k: int) -> bool {
    let end = (k + 1) * REINDEX_COMMIT_CHUNK;
    &&& c.start == k * REINDEX_COMMIT_CHUNK
    &&& c.end == (if end < docs {
        end
    } else {
        docs as int
    })
    &&& c.checkpoint == rebuild_position(r.checkpoint, r.sequence)
    &&& c.batch_id@ == rebuild_id(r.checkpoint, (r.seq + k + 1) as u64)
}

impl Rebuild {
    /// A rebuild at a position, with nothing committed yet.
    pub fn new(checkpoint: i64, sequence: i64) -> (r: Rebuild)
        ensures
            r == (Rebuild { checkpoint, sequence, seq: 0, doc_count: 0 }),
    {
        Rebuild { checkpoint, sequence, seq: 0, doc_count: 0 }
    }

    /// The commits of a chunk of `docs` documents that the shard keeps.
    pub fn commit_chunk(&mut self, docs: usize) -> (out: Vec<RebuildCommit>)
        requires
            old(self).seq + docs <= u64::MAX,
            old(self).doc_count + docs <= u64::MAX,
        ensures
            out@.len() == commits_for(docs as nat),
            forall|k: int|
                0 <= k < out@.len() ==> is_slice(#[trigger] out@[k], *old(self), docs as nat, k),
            *final(self) == (Rebuild {
                seq: (old(self).seq + out@.len()) as u64,
                doc_count: (old(self).doc_count + docs) as u64,
                ..*old(self)
            }),
    {
        let ghost before = *self;
        let mut out: Vec<RebuildCommit> = Vec::new();
        let mut start: usize = 0;
        self.doc_count = self.doc_count + docs as u64;
        while start < docs
            invariant
                start <= docs,
                out@.len() <= start,
                start < docs ==> start == out@.len() * REINDEX_COMMIT_CHUNK,
                start == docs ==> out@.len() == commits_for(docs as nat),
                docs == 0 ==> out@.len() == 0,
                before.seq + docs <= u64::MAX,
                *self == (Rebuild {
                    seq: (before.seq + out@.len()) as u64,
                    doc_count: (before.doc_count + docs) as u64,
                    ..before
                }),
                forall|k: int|
                    0 <= k < out@.len() ==> is_slice(#[trigger] out@[k], before, docs as nat, k),
            decreases docs - start,
        {
            let end: usize = if docs - start > REINDEX_COMMIT_CHUNK {
                start + REINDEX_COMMIT_CHUNK
            } else {
                docs
            };
            self.seq = self.seq + 1;
            out.push(reindex_commit(start, end, self.checkpoint, self.sequence, self.seq));
            start = end;
        }
        out
    }

    /// Ends the rebuild. One without documents is refused where the source reports rows, unless
    /// the shard keeps only its own keys; otherwise it still records its position, by an empty
    /// commit.
    pub fn finish(&self, filtering: bool, records: Option<i64>) -> (r: Result<
        Option<RebuildCommit>,
        String,
    >)
        ensures
            match r {
                Err(m) => !filtering && self.doc_count == 0 && records is Some && records->0 > 0
                    && m@ == empty_rebuild_text(records->0),
                Ok(c) => {
                    &&& filtering || self.doc_count > 0 || records is None || records->0 <= 0
                    &&& c is Some == (self.doc_count == 0)
                    &&& c is Some ==> c->0.start == 0 && c->0.end == 0 && c->0.checkpoint
                        == rebuild_position(self.checkpoint, self.sequence) && c->0.batch_id@
                        == rebuild_id(self.checkpoint, 0)
                },
            },
    {
        if !filtering {
            if let Some(reason) = empty_rebuild_abort_reason(self.doc_count, records) {
                return Err(reason);
            }
        }
        if self.doc_count == 0 {
            return Ok(Some(reindex_commit(0, 0, self.checkpoint, self.sequence, 0)));
        }
        Ok(None)
    }
}

/// The commits of a chunk hold each of its documents once, in order, and none holds too many.
pub proof fn lemma_commits_cover(commits: Seq<RebuildCommit>, r: Rebuild, docs: nat)
    requires
        commits.len() == commits_for(docs),
        forall|k: int| 0 <= k < commits.len() ==> is_slice(#[trigger] commits[k], r, docs, k),
    ensures
        docs == 0 <==> commits.len() == 0,
        commits.len() > 0 ==> commits[0].start == 0 && commits.last().end == docs,
        forall|k: int|
            0 <= k < commits.len() - 1 ==> (#[trigger] commits[k]).end == commits[k + 1].start,
        forall|k: int|
            0 <= k < commits.len() ==> (#[trigger] commits[k]).start < commits[k].end
                <= commits[k].start + REINDEX_COMMIT_CHUNK,
{
    if commits.len() > 0 {
        assert(is_slice(commits[0], r, docs, 0));
        assert(is_slice(commits[commits.len() - 1], r, docs, commits.len() - 1));
    }
    assert forall|k: int| 0 <= k < commits.len() - 1 implies (#[trigger] commits[k]).end
        == commits[k + 1].start by {
        assert(is_slice(commits[k], r, docs, k));
        assert(is_slice(commits[k + 1], r, docs, k + 1));
    }
    assert forall|k: int| 0 <= k < commits.len() implies (#[trigger] commits[k]).start
        < commits[k].end <= commits[k].start + REINDEX_COMMIT_CHUNK by {
        assert(is_slice(commits[k], r, docs, k));
    }
}

/// What a rebuild of an index of `size` bytes may need.
pub open spec fn disk_need(size: u64) -> nat {
    if size * REINDEX_DISK_HEADROOM > u64::MAX {
        u64::MAX as nat
    } else {
        (size * REINDEX_DISK_HEADROOM) as nat
    }
}

/// The message for too little free disk.
pub open spec fn disk_text(size: u64, free: u64, at: Seq<char>) -> Seq<char> {
    "insufficient free disk for reindex: need ~"@ + decimal(disk_need(size)) + " bytes (≈"@
        + decimal(REINDEX_DISK_HEADROOM as nat) + "× the "@ + decimal(size as nat)
        + "-byte index), only "@ + decimal(free as nat) + " free at "@ + at
}

/// Refuses a rebuild of an index of `size` bytes where too little is free at `at`. Where it is not
/// known how much is free, the rebuild goes on.
pub fn precheck_free_disk(size: u64, free: Option<u64>, at: &str) -> (r: Result<(), String>)
    ensures
        match r {
            Ok(_) => free is None || free->0 >= disk_need(size),
            Err(m) => free is Some && free->0 < disk_need(size) && m@ == disk_text(
                size,
                free->0,
                at@,
            ),
        },
{
    let need: u64 = match size.checked_mul(REINDEX_DISK_HEADROOM) {
        Some(n) => n,
        None => u64::MAX,
    };
    if let Some(f) = free {
        if f < need {
            let mut m = "insufficient free disk for reindex: need ~".to_owned();
            append_decimal(&mut m, need);
            m.append(" bytes (≈");
            append_decimal(&mut m, REINDEX_DISK_HEADROOM);
            m.append("× the ");
            append_decimal(&mut m, size);
            m.append("-byte index), only ");
            append_decimal(&mut m, f);
            m.append(" free at ");
            m.append(at);
            return Err(m);
        }
    }
    Ok(())
}

/// A position, for a reader.
pub fn render_checkpoint(checkpoint: Option<SourceCheckpoint>) -> (s: String)
    ensures
        s@ == (match checkpoint {
            Some(cp) => "iceberg_snapshot:"@ + signed_decimal(cp.snapshot as int),
            None => "none"@,
        }),
{
    match checkpoint {
        Some(cp) => {
            let mut s = "iceberg_snapshot:".to_owned();
            append_signed(&mut s, cp.snapshot);
            s
        },
        None => "none".to_owned(),
    }
}

/// What a change of definition comes to: the changes that need a rebuild, and those that do not.
#[derive(Debug, Clone)]
pub struct AlterPlan {
    pub reindex_reasons: Vec<String>,
    pub in_place: Vec<String>,
}

/// A plan as it is answered.
#[derive(Debug)]
pub struct WireAlterPlan {
    pub is_noop: bool,
    pub requires_reindex: bool,
    pub reindex_reasons: Vec<String>,
    pub in_place_changes: Vec<String>,
}

impl AlterPlan {
    /// Whether nothing changes.
    pub open spec fn noop(&self) -> bool {
        self.reindex_reasons@.len() == 0 && self.in_place@.len() == 0
    }

    /// Whether nothing changes.
    pub fn is_noop(&self) -> (b: bool)
        ensures
            b == self.noop(),
    {
        self.reindex_reasons.len() == 0 && self.in_place.len() == 0
    }

    /// Whether the index must be rebuilt.
    pub fn requires_reindex(&self) -> (b: bool)
        ensures
            b == (self.reindex_reasons@.len() > 0),
    {
        self.reindex_reasons.len() > 0
    }
}

/// A plan as it is answered.
pub fn wire_plan(plan: AlterPlan) -> (w: WireAlterPlan)
    ensures
        w.is_noop == plan.noop(),
        w.requires_reindex == (plan.reindex_reasons@.len() > 0),
        w.reindex_reasons == plan.reindex_reasons,
        w.in_place_changes == plan.in_place,
{
    WireAlterPlan {
        is_noop: plan.is_noop(),
        requires_reindex: plan.requires_reindex(),
        reindex_reasons: plan.reindex_reasons,
        in_place_changes: plan.in_place,
    }
}

/// The message for a change that needs a rebuild.
pub open spec fn needs_reindex_text(reasons: Seq<Seq<char>>) -> Seq<char> {
    "alter requires a reindex ("@ + joined(reasons, ", "@)
        + "); update the definition and run ReindexIndex"@
}

/// The message for a change that a running node does not take over.
pub open spec fn needs_restart_text(changes: Seq<Seq<char>>) -> Seq<char> {
    "alter changes ("@ + joined(changes, ", "@)
        + ") are restart-required: the running shard keeps its built schema, so they would not take effect live — update the definition and restart the Node to apply them"@
}

/// Applies a change to a running node: one that changes nothing is all that can be.
pub fn apply_in_place(plan: &AlterPlan, current: &str, candidate: &str) -> (r: Result<(), Status>)
    ensures
        match r {
            Ok(_) => plan.noop(),
            Err(s) => !plan.noop() && s@ == plain(
                Code::FailedPrecondition,
                if plan.reindex_reasons@.len() > 0 {
                    needs_reindex_text(plan.reindex_reasons.deep_view())
                } else if candidate@ != current@ {
                    "renaming the served index is not supported on a single-index node"@
                } else {
                    needs_restart_text(plan.in_place.deep_view())
                },
            ),
        },
{
    if plan.is_noop() {
        return Ok(());
    }
    if plan.requires_reindex() {
        let reasons = join(&plan.reindex_reasons, ", ");
        let mut m = "alter requires a reindex (".to_owned();
        m.append(reasons.as_str());
        m.append("); update the definition and run ReindexIndex");
        return Err(Status::new(Code::FailedPrecondition, m));
    }
    if !same(candidate, current) {
        return Err(
            Status::fixed(
                Code::FailedPrecondition,
                "renaming the served index is not supported on a single-index node",
            ),
        );
    }
    let changes = join(&plan.in_place, ", ");
    let mut m = "alter changes (".to_owned();
    m.append(changes.as_str());
    m.append(
        ") are restart-required: the running shard keeps its built schema, so they would not take effect live — update the definition and restart the Node to apply them",
    );
    Err(Status::new(Code::FailedPrecondition, m))
}

} // verus!
