//! What holds of building and rebuilding an index on its node.
use tonic::metadata::MetadataMap;
use vstd::prelude::*;

use crate::admin::{
    apply_in_place, empty_rebuild_abort_reason, lemma_commits_cover, owner_filter,
    precheck_free_disk, reindex_commit, render_checkpoint, wire_plan, AdminService, AlterPlan,
    BackupManifest, BackupStatusResponse, Rebuild, RebuildCommit, SourceCheckpoint, SourceUse,
    WireAlterPlan,
};
use crate::auth::{AuthContextView, AuthDenied};
use crate::caller_laws::asks;
use crate::engine::{
    append_batch_id, checked_build, default_definition, last_segment, latest_window, may_sync,
    needs_fresh_build, shard_build_filter, snapshot_batch_id, IndexDefinition, ScanMode,
    SourceSchema, StreamedBuild,
};
use crate::error::EngineError;
use crate::fence::ReindexFence;
use crate::metadata::contents;
use crate::request_laws::lists;
use crate::status::{Code, Status};
use crate::text::{decimal, lemma_decimal_injective};
use crate::text_laws::{lemma_decimal_says, number_of};

verus! {

/// A call is accepted only where the policy may permit it by its metadata, and it is for the index
/// that is served or names none. A call for another index is not found, once the policy permits it.
pub proof fn lemma_call_is_for_the_index(
    s: AdminService,
    method: &'static str,
    index: &str,
    md: MetadataMap,
    r: Result<(), Status>,
) -> (asked: (AuthContextView, Result<(), AuthDenied>))
    requires
        call_ensures(AdminService::accepts, (&s, method, index, &md), r),
    ensures
        asks(asked.0, method@, None, contents(md)),
        s.auth.may_answer(asked.0, asked.1),
        r is Ok <==> asked.1 is Ok && (index@.len() == 0 || index@ == s.index@),
        asked.1 is Err <==> (r matches Err(e) && e.code == Code::PermissionDenied),
        asked.1 is Ok && r is Err ==> r->Err_0.code == Code::NotFound,
{
    let ctx = crate::auth::context_of(method@, None, contents(md));
    let (answer, passed) = choose|answer: Result<(), AuthDenied>, passed: Result<(), Status>|
        #![trigger s.auth.may_answer(ctx, answer), crate::auth::answered(passed, answer)]
        s.auth.may_answer(ctx, answer) && crate::auth::answered(passed, answer) && match passed {
            Err(e) => r == Err::<(), Status>(e),
            Ok(_) => if index@.len() == 0 || index@ == s.index@ {
                r is Ok
            } else {
                r matches Err(e) && e@ == crate::status::plain(
                    Code::NotFound,
                    crate::fanout::not_served_text(index@, s.index@),
                )
            },
        };
    (ctx, answer)
}

/// What needs the source is refused exactly on a node without it.
pub proof fn lemma_source_is_needed(s: AdminService, u: SourceUse, r: Result<(), Status>)
    requires
        call_ensures(AdminService::needs_source, (&s, u), r),
    ensures
        r is Ok <==> s.source,
        r matches Err(e) ==> e.code == Code::Unimplemented,
{
}

/// A backup goes where it is asked to, else where backups go; nowhere on a node without a target.
pub proof fn lemma_backup_goes_to(s: AdminService, prefix: &str, r: Result<String, Status>)
    requires
        call_ensures(AdminService::backup_target, (&s, prefix), r),
    ensures
        r is Ok <==> s.backup is Some,
        r matches Ok(t) ==> (prefix@.len() > 0 ==> t@ == prefix@) && (prefix@.len() == 0 ==> t@
            == s.backup->0@),
        r matches Err(e) ==> e.code == Code::Unimplemented,
{
}

/// Backups are staged apart by index.
pub proof fn lemma_staging_is_by_index(s: AdminService, t: AdminService, a: String, b: String)
    requires
        call_ensures(AdminService::backup_staging, (&s,), a),
        call_ensures(AdminService::backup_staging, (&t,), b),
    ensures
        a@ == b@ ==> s.index@ == t.index@,
        ".backup-staging-"@.is_prefix_of(a@),
{
    let head = ".backup-staging-"@;
    assert(a@.subrange(0, head.len() as int) =~= head);
    if a@ == b@ {
        assert(a@.skip(head.len() as int) =~= s.index@);
        assert(b@.skip(head.len() as int) =~= t.index@);
    }
}

/// The last backup is told exactly where backups are configured and there is one.
pub proof fn lemma_backup_is_told(
    s: AdminService,
    manifest: Option<BackupManifest>,
    r: BackupStatusResponse,
)
    requires
        call_ensures(AdminService::backup_status, (&s, manifest), r),
    ensures
        r.configured <==> s.backup is Some,
        r.present <==> s.backup is Some && manifest is Some,
        r.present ==> r.snapshot == manifest->0.snapshot && r.created_ms == manifest->0.created_ms
            && r.file_count == manifest->0.file_count,
        !r.present ==> r.snapshot == 0 && r.created_ms == 0 && r.file_count == 0,
{
}

/// A shard keeps its own keys where there is a bucket map that can be read, and every key where there
/// is no map.
pub proof fn lemma_shard_keeps_its_own(
    owners: Vec<u32>,
    map: Result<(), String>,
    ordinal: u32,
    r: Result<Option<u32>, Status>,
)
    requires
        call_ensures(owner_filter, (&owners, map, ordinal), r),
    ensures
        owners@.len() == 0 ==> r == Ok::<Option<u32>, Status>(None),
        owners@.len() > 0 && map is Ok ==> r == Ok::<Option<u32>, Status>(Some(ordinal)),
        owners@.len() > 0 && map is Err ==> (r matches Err(e) && e.code == Code::InvalidArgument),
{
}

/// A commit holds what it is told to, where the rebuild stands; a sequence that is not positive is not
/// known. Two commits of a rebuild have different ids.
pub proof fn lemma_rebuild_commit(
    start: usize,
    end: usize,
    checkpoint: i64,
    sequence: i64,
    seq: u64,
    c: RebuildCommit,
    other: u64,
    d: RebuildCommit,
)
    requires
        call_ensures(reindex_commit, (start, end, checkpoint, sequence, seq), c),
        call_ensures(reindex_commit, (start, end, checkpoint, sequence, other), d),
    ensures
        c.start == start,
        c.end == end,
        c.checkpoint.snapshot == checkpoint,
        sequence > 0 ==> c.checkpoint.sequence == Some(sequence),
        sequence <= 0 ==> c.checkpoint.sequence is None,
        c.batch_id@ == d.batch_id@ ==> seq == other,
{
    if seq != other {
        crate::admin::lemma_rebuild_ids_differ(checkpoint, seq, other);
    }
}

/// Whether a text is the decimal digits of a number that is not negative.
pub open spec fn writes(s: Seq<char>, n: int) -> bool {
    &&& s.len() > 0
    &&& forall|i: int| 0 <= i < s.len() ==> '0' <= #[trigger] s[i] <= '9'
    &&& number_of(s, 10) == n
    &&& n > 0 ==> s[0] != '0'
}

/// The id of a rebuild's commit tells where the rebuild stands and which commit it is.
pub proof fn lemma_rebuild_id_tells(
    start: usize,
    end: usize,
    checkpoint: i64,
    sequence: i64,
    seq: u64,
    c: RebuildCommit,
) -> (parts: (Seq<char>, Seq<char>))
    requires
        call_ensures(reindex_commit, (start, end, checkpoint, sequence, seq), c),
        checkpoint >= 0,
    ensures
        c.batch_id@ == "reindex-"@ + parts.0 + "-"@ + parts.1,
        writes(parts.0, checkpoint as int),
        writes(parts.1, seq as int),
{
    lemma_decimal_says(checkpoint as nat);
    lemma_decimal_says(seq as nat);
    (decimal(checkpoint as nat), decimal(seq as nat))
}

/// The ids of the commits of a build tell its snapshot, and of a chunk which one it is.
pub proof fn lemma_build_ids_tell(
    snapshot: i64,
    a: String,
    b: String,
    build: &mut StreamedBuild,
    kept: u64,
    c: String,
) -> (parts: (Seq<char>, Seq<char>))
    requires
        call_ensures(snapshot_batch_id, (snapshot,), a),
        call_ensures(append_batch_id, (snapshot,), b),
        call_ensures(StreamedBuild::chunk, (build, kept), c),
        old(build).snapshot == snapshot,
        old(build).chunks < u64::MAX,
        snapshot >= 0,
    ensures
        a@ == "snapshot-"@ + parts.0,
        b@ == "append-"@ + parts.0,
        c@ == "snapshot-"@ + parts.0 + "-"@ + parts.1,
        writes(parts.0, snapshot as int),
        writes(parts.1, old(build).chunks + 1),
{
    lemma_decimal_says(snapshot as nat);
    lemma_decimal_says((old(build).chunks + 1) as nat);
    (decimal(snapshot as nat), decimal((old(build).chunks + 1) as nat))
}

/// The commits of a chunk hold its documents in order, each once: the first begins with the first
/// document, each begins where the one before ended, and the last ends with the last. None holds more
/// than ten thousand, and each but the last holds that many. The rebuild counts both.
pub proof fn lemma_chunk_is_committed(r: &mut Rebuild, docs: usize, out: Vec<RebuildCommit>, k: int)
    requires
        call_ensures(Rebuild::commit_chunk, (r, docs), out),
        old(r).seq + docs <= u64::MAX,
        old(r).doc_count + docs <= u64::MAX,
    ensures
        docs == 0 <==> out@.len() == 0,
        out@.len() > 0 ==> out@[0].start == 0 && out@.last().end == docs,
        0 <= k < out@.len() - 1 ==> out@[k].end == out@[k + 1].start && out@[k].end
            - out@[k].start == 10_000,
        0 <= k < out@.len() ==> out@[k].start < out@[k].end <= out@[k].start + 10_000,
        0 <= k < out@.len() ==> out@[k].checkpoint.snapshot == old(r).checkpoint,
        0 <= k < out@.len() ==> (old(r).sequence > 0 ==> out@[k].checkpoint.sequence == Some(
            old(r).sequence,
        )) && (old(r).sequence <= 0 ==> out@[k].checkpoint.sequence is None),
        final(r).doc_count == old(r).doc_count + docs,
        final(r).seq == old(r).seq + out@.len(),
        final(r).checkpoint == old(r).checkpoint,
        final(r).sequence == old(r).sequence,
{
    lemma_commits_cover(out@, *old(r), docs as nat);
    assert(out@.len() <= docs);
    if 0 <= k < out@.len() {
        assert(crate::admin::is_slice(out@[k], *old(r), docs as nat, k));
    }
    if 0 <= k < out@.len() - 1 {
        assert(crate::admin::is_slice(out@[k + 1], *old(r), docs as nat, k + 1));
    }
}

/// The commits of a chunk have different ids.
pub proof fn lemma_chunk_commits_differ(
    r: &mut Rebuild,
    docs: usize,
    out: Vec<RebuildCommit>,
    j: int,
    k: int,
)
    requires
        call_ensures(Rebuild::commit_chunk, (r, docs), out),
        old(r).seq + docs <= u64::MAX,
        old(r).doc_count + docs <= u64::MAX,
        0 <= j < k < out@.len(),
    ensures
        out@[j].batch_id@ != out@[k].batch_id@,
{
    assert(crate::admin::is_slice(out@[j], *old(r), docs as nat, j));
    assert(crate::admin::is_slice(out@[k], *old(r), docs as nat, k));
    assert(out@.len() <= docs) by {
        lemma_commits_cover(out@, *old(r), docs as nat);
    }
    crate::admin::lemma_rebuild_ids_differ(
        old(r).checkpoint,
        (old(r).seq + j + 1) as u64,
        (old(r).seq + k + 1) as u64,
    );
}

/// A rebuild begins with nothing committed.
pub proof fn lemma_rebuild_begins(checkpoint: i64, sequence: i64, r: Rebuild)
    requires
        call_ensures(Rebuild::new, (checkpoint, sequence), r),
    ensures
        r.checkpoint == checkpoint,
        r.sequence == sequence,
        r.seq == 0,
        r.doc_count == 0,
{
}

/// A rebuild without documents is refused exactly where the source reports rows and every key was to
/// be kept. One that is not refused records its position: by an empty commit where it made none.
pub proof fn lemma_rebuild_ends(
    b: Rebuild,
    filtering: bool,
    records: Option<i64>,
    r: Result<Option<RebuildCommit>, String>,
)
    requires
        call_ensures(Rebuild::finish, (&b, filtering, records), r),
    ensures
        r is Err <==> !filtering && b.doc_count == 0 && records is Some && records->0 > 0,
        r matches Ok(c) ==> (c is Some <==> b.doc_count == 0),
        r matches Ok(Some(c)) ==> c.start == 0 && c.end == 0 && c.checkpoint.snapshot
            == b.checkpoint,
{
}

/// An empty rebuild is held back exactly where the source reports rows.
pub proof fn lemma_empty_rebuild(docs: u64, records: Option<i64>, r: Option<String>)
    requires
        call_ensures(empty_rebuild_abort_reason, (docs, records), r),
    ensures
        r is Some <==> docs == 0 && records is Some && records->0 > 0,
{
}

/// A rebuild goes on where three times the size of the index is free, or where it is not known how
/// much is.
pub proof fn lemma_disk_is_enough(size: u64, free: Option<u64>, at: &str, r: Result<(), String>)
    requires
        call_ensures(precheck_free_disk, (size, free, at), r),
    ensures
        free is None ==> r is Ok,
        free matches Some(f) ==> f < u64::MAX ==> (r is Ok <==> f >= 3 * size),
        free matches Some(f) ==> f == u64::MAX ==> r is Ok,
{
}

/// A position is shown by its snapshot.
pub proof fn lemma_position_is_shown(
    a: Option<SourceCheckpoint>,
    b: Option<SourceCheckpoint>,
    s: String,
    t: String,
)
    requires
        call_ensures(render_checkpoint, (a,), s),
        call_ensures(render_checkpoint, (b,), t),
    ensures
        a is None <==> s@ == "none"@,
        a is Some && b is Some && a->0.snapshot >= 0 && b->0.snapshot >= 0 && s@ == t@
            ==> a->0.snapshot == b->0.snapshot,
{
    reveal_strlit("none");
    reveal_strlit("iceberg_snapshot:");
    let head = "iceberg_snapshot:"@;
    assert("none"@.len() == 4);
    assert(head.len() == 17);
    if a is Some && b is Some && a->0.snapshot >= 0 && b->0.snapshot >= 0 && s@ == t@ {
        let m = a->0.snapshot as nat;
        let n = b->0.snapshot as nat;
        assert(s@.skip(head.len() as int) =~= decimal(m));
        assert(t@.skip(head.len() as int) =~= decimal(n));
        lemma_decimal_injective(m, n);
    }
}

/// A plan is told as it is.
pub proof fn lemma_plan_is_told(plan: AlterPlan, w: WireAlterPlan)
    requires
        call_ensures(wire_plan, (plan,), w),
    ensures
        w.is_noop <==> plan.reindex_reasons@.len() == 0 && plan.in_place@.len() == 0,
        w.requires_reindex <==> plan.reindex_reasons@.len() > 0,
        w.reindex_reasons@ == plan.reindex_reasons@,
        w.in_place_changes@ == plan.in_place@,
{
}

/// A running node takes over a change exactly where it changes nothing.
pub proof fn lemma_only_nothing_is_taken_over(
    plan: AlterPlan,
    current: &str,
    candidate: &str,
    r: Result<(), Status>,
)
    requires
        call_ensures(apply_in_place, (&plan, current, candidate), r),
    ensures
        r is Ok <==> plan.reindex_reasons@.len() == 0 && plan.in_place@.len() == 0,
        r matches Err(e) ==> e.code == Code::FailedPrecondition,
{
}

proof fn lemma_segment(s: Seq<char>) -> (i: int)
    ensures
        0 <= i <= s.len(),
        last_segment(s) == s.skip(i),
        i > 0 ==> s[i - 1] == '.',
        forall|k: int| i <= k < s.len() ==> #[trigger] s[k] != '.',
    decreases s.len(),
{
    if s.len() == 0 {
        assert(s.skip(0) =~= s);
        0
    } else if s.last() == '.' {
        assert(s.skip(s.len() as int) =~= Seq::empty());
        s.len() as int
    } else {
        let rest = s.drop_last();
        let i = lemma_segment(rest);
        assert(rest.skip(i).push(s.last()) =~= s.skip(i));
        assert forall|k: int| i <= k < s.len() implies #[trigger] s[k] != '.' by {
            if k < rest.len() {
                assert(rest[k] != '.');
            }
        }
        if i > 0 {
            assert(rest[i - 1] == s[i - 1]);
        }
        i
    }
}

/// An index without a definition is named after its table: by what follows the last dot of the
/// table's name, unless it is given a name. It has one shard, every partition field of the source, and
/// the identifier of the source; where the source has none, the field `id`, and else its only field.
/// There is no such index where none of these is there.
pub proof fn lemma_default_index(
    catalog: &str,
    table: &str,
    name: Option<&str>,
    source: SourceSchema,
    r: Result<IndexDefinition, EngineError>,
) -> (i: int)
    requires
        call_ensures(default_definition, (catalog, table, name, &source), r),
    ensures
        r is Err <==> source.identifier_fields@.len() == 0 && !lists(source.fields@, "id"@)
            && source.fields@.len() != 1,
        r matches Err(e) ==> e is NoIdentifier,
        r matches Ok(d) ==> {
            &&& name matches Some(n) ==> d.name@ == n@
            &&& name is None ==> 0 <= i <= table@.len() && d.name@ == table@.skip(i) && (i > 0
                ==> table@[i - 1] == '.') && forall|k: int|
                i <= k < table@.len() ==> #[trigger] table@[k] != '.'
            &&& d.catalog@ == catalog@
            &&& d.table@ == table@
            &&& d.partition_fields.deep_view() == source.partition_fields.deep_view()
            &&& source.identifier_fields@.len() > 0 ==> d.identifier_fields.deep_view()
                == source.identifier_fields.deep_view()
            &&& source.identifier_fields@.len() == 0 && lists(source.fields@, "id"@)
                ==> d.identifier_fields.deep_view() == seq!["id"@]
            &&& source.identifier_fields@.len() == 0 && !lists(source.fields@, "id"@)
                ==> d.identifier_fields.deep_view() == seq![source.fields@[0]@]
            &&& d.shard_count == 1
            &&& d.tenant_field is None
            &&& !d.windowed
        },
{
    let v = source.fields.deep_view();
    assert(v.len() == source.fields@.len());
    if v.contains("id"@) {
        let k = choose|k: int| 0 <= k < v.len() && v[k] == "id"@;
        assert(source.fields@[k]@ == "id"@);
    }
    if lists(source.fields@, "id"@) {
        let k = choose|k: int| 0 <= k < source.fields@.len() && (#[trigger] source.fields@[k])@
            == "id"@;
        assert(v[k] == "id"@);
    }
    lemma_segment(table@)
}

/// A shard of several keeps its share of the keys, by how many there are and which one it is; the only
/// shard keeps all. A windowed index is not built by shard.
pub proof fn lemma_shard_is_built(
    name: &str,
    windowed: bool,
    shards: u32,
    ordinal: u32,
    r: Result<Option<(u32, u32)>, EngineError>,
)
    requires
        call_ensures(shard_build_filter, (name, windowed, shards, ordinal), r),
    ensures
        shards <= 1 ==> r == Ok::<Option<(u32, u32)>, EngineError>(None),
        shards > 1 && !windowed ==> r == Ok::<Option<(u32, u32)>, EngineError>(
            Some((shards, ordinal)),
        ),
        shards > 1 && windowed ==> r is Err,
{
}

/// Only a source that is appended to is synced.
pub proof fn lemma_appended_is_synced(index: &str, scan: ScanMode, r: Result<(), EngineError>)
    requires
        call_ensures(may_sync, (index, scan), r),
    ensures
        r is Ok <==> scan is AppendFastPath,
        r matches Err(e) ==> (e matches EngineError::NotAppendFastPath(n) && n@ == index@),
{
}

/// An index is built anew exactly where it was built by another schema.
pub proof fn lemma_built_anew(built: bool, same_schema: bool, b: bool)
    requires
        call_ensures(needs_fresh_build, (built, same_schema), b),
    ensures
        b ==> built && !same_schema,
        built && !same_schema ==> b,
{
}

/// The commits of two snapshots have different ids, and the commit of a snapshot another than that
/// of what was appended up to it.
pub proof fn lemma_snapshots_are_told_apart(m: i64, n: i64, a: String, b: String, c: String)
    requires
        call_ensures(snapshot_batch_id, (m,), a),
        call_ensures(snapshot_batch_id, (n,), b),
        call_ensures(append_batch_id, (n,), c),
        m >= 0,
        n >= 0,
    ensures
        a@ == b@ ==> m == n,
        a@ != c@,
{
    reveal_strlit("snapshot-");
    reveal_strlit("append-");
    assert(a@[0] == 's');
    assert(c@[0] == 'a');
    if a@ == b@ {
        assert(a@.skip(9) =~= decimal(m as nat));
        assert(b@.skip(9) =~= decimal(n as nat));
        lemma_decimal_injective(m as nat, n as nat);
    }
}

/// A chunk counts once, with the documents that belong to the shard, and its commit has an id of its
/// own.
pub proof fn lemma_chunk_is_counted(
    b: &mut StreamedBuild,
    kept: u64,
    id: String,
    c: &mut StreamedBuild,
    more: u64,
    other: String,
)
    requires
        call_ensures(StreamedBuild::chunk, (b, kept), id),
        call_ensures(StreamedBuild::chunk, (c, more), other),
        old(b).chunks < u64::MAX,
        old(b).written + kept <= u64::MAX,
        old(c).chunks < u64::MAX,
        old(c).written + more <= u64::MAX,
        old(b).snapshot == old(c).snapshot,
    ensures
        final(b).chunks == old(b).chunks + 1,
        final(b).written == old(b).written + kept,
        final(b).snapshot == old(b).snapshot,
        id@ == other@ ==> old(b).chunks == old(c).chunks,
{
    if old(b).chunks != old(c).chunks {
        crate::engine::lemma_chunk_ids_differ(
            old(b).snapshot,
            final(b).chunks,
            final(c).chunks,
        );
    }
}

/// A build begins with nothing committed.
pub proof fn lemma_build_begins(snapshot: i64, b: StreamedBuild)
    requires
        call_ensures(StreamedBuild::new, (snapshot,), b),
    ensures
        b.snapshot == snapshot,
        b.chunks == 0,
        b.written == 0,
{
}

/// A build is refused exactly where it wrote nothing, was to keep everything, and the table reports
/// records. One that is not refused records its snapshot, where there is one and no chunk did.
pub proof fn lemma_build_is_finished(
    b: StreamedBuild,
    has_checkpoint: bool,
    filtered: bool,
    table: &str,
    records: Option<i64>,
    r: Result<Option<String>, EngineError>,
)
    requires
        call_ensures(StreamedBuild::finish, (&b, has_checkpoint, filtered, table, records), r),
    ensures
        r is Err <==> b.written == 0 && !filtered && records is Some && records->0 > 0,
        r matches Ok(anchor) ==> (anchor is Some <==> b.snapshot != 0 && !has_checkpoint),
        r matches Err(e) ==> (e matches EngineError::EmptyReadFromNonEmptySource {
            table: t,
            records: n,
        } && t@ == table@ && n == records->0),
{
}

/// A build is told by how many documents it has, and is refused where it has none, was to keep
/// everything, and the table reports records.
pub proof fn lemma_build_is_checked(
    docs: u64,
    filtered: bool,
    table: &str,
    records: Option<i64>,
    r: Result<u64, EngineError>,
)
    requires
        call_ensures(checked_build, (docs, filtered, table, records), r),
    ensures
        r is Err <==> docs == 0 && !filtered && records is Some && records->0 > 0,
        r matches Ok(n) ==> n == docs,
{
}

/// The latest window is one of the windows, and none is later.
pub proof fn lemma_latest_window(windows: Vec<i64>, w: Option<i64>, i: int)
    requires
        call_ensures(latest_window, (&windows,), w),
    ensures
        w is None <==> windows@.len() == 0,
        w matches Some(m) ==> (exists|k: int| 0 <= k < windows@.len() && #[trigger] windows@[k] == m),
        w matches Some(m) ==> 0 <= i < windows@.len() ==> windows@[i] <= m,
{
    if let Some(m) = w {
        let k = choose|k: int| 0 <= k < windows@.len() && windows@[k] == m;
        assert(windows@[k] == m);
    }
}

/// An error says what it is about, by name where there is one.
pub proof fn lemma_error_says(e: EngineError, m: String)
    requires
        call_ensures(EngineError::message, (&e,), m),
    ensures
        e matches EngineError::MissingLocator(k) ==> m@ == "no locator for key: "@ + k@,
        e matches EngineError::KeyNotFound(k) ==> m@ == k@,
        e matches EngineError::NotVectorField(f) ==> m@ == f@,
        e matches EngineError::SemanticTenantClaimRequired(n) ==> m@ == n@,
        e matches EngineError::Definition(t) ==> m@ == t@,
        e matches EngineError::Query(t) ==> m@ == t@,
        e matches EngineError::Store(t) ==> m@ == t@,
        e matches EngineError::Source(t) ==> m@ == t@,
        e matches EngineError::Io(t) ==> m@ == "io: "@ + t@,
        e matches EngineError::Codec(t) ==> m@ == "definition codec: "@ + t@,
        e matches EngineError::NotIndexed(n) ==> "index `"@.is_prefix_of(m@) && m@.len() > n@.len(),
        e matches EngineError::NotAppendFastPath(n) ==> m@ == "index `"@ + n@
            + "` is not APPEND_FAST_PATH — changelog sync is the connector's job"@,
        e matches EngineError::ShardingWindowedUnsupported(n) ==> m@ == "index `"@ + n@
            + "` is windowed — it shards by time window, not by `--shards`/`--shard-ordinal`"@,
{
    if let EngineError::NotIndexed(n) = e {
        reveal_strlit("index `");
        assert(m@.subrange(0, 7) =~= "index `"@);
    }
}

/// Of two that engage a fence one after the other, without a release between, only the first owns the
/// rebuild; the fence stays engaged.
pub proof fn lemma_one_owner(f: &mut ReindexFence, first: bool, g: &mut ReindexFence, second: bool)
    requires
        call_ensures(ReindexFence::engage, (f,), first),
        *old(g) == *final(f),
        call_ensures(ReindexFence::engage, (g,), second),
    ensures
        first <==> !old(f)@,
        !second,
        final(g)@,
{
}

/// A fence is engaged after it was engaged and not after it was released; a new one is not.
pub proof fn lemma_fence_is_engaged(
    f: &mut ReindexFence,
    owned: bool,
    during: bool,
    g: &mut ReindexFence,
    after: bool,
    fresh: ReindexFence,
    at_first: bool,
)
    requires
        call_ensures(ReindexFence::engage, (f,), owned),
        call_ensures(ReindexFence::is_engaged, (final(f),), during),
        call_ensures(ReindexFence::release, (g,), ()),
        call_ensures(ReindexFence::is_engaged, (final(g),), after),
        call_ensures(ReindexFence::new, (), fresh),
        call_ensures(ReindexFence::is_engaged, (&fresh,), at_first),
    ensures
        during,
        !after,
        !at_first,
{
}

} // verus!
