//! What holds of the smaller requests, and of what is told of an index.
use vstd::prelude::*;

use crate::admin::AlterPlan;
use crate::control::ControlPlaneService;
use crate::definition::{
    field_mappings, format_at, source_type_str, time_format_str, windowing_config, FieldMapping,
    FieldType, ResolvedField, ResolvedIndex, SourceType, TimeFormat, WindowingConfig,
};
use crate::index_info::{get_index, list_indexes, IndexEntry, IndexInfo, IndexSummary};
use crate::ingestion::IndexStatus;
use crate::registry::{created_or_present, placement_status, registry_status, RegistryError};
use crate::requests::{
    alter_action, core_saved, dead_owner_period_ms, definition_refused, may_bind_roles, may_create,
    may_mint, named_alias, new_token, placement_period_ms, query_to_save, sample_period_secs,
    token_meta, wire_saved, AlterAction, AlterControlResponse, ApiTokenMeta, DefinitionFault,
    GetLicenseResponse, SavedQuery, WireSavedQuery,
};
use crate::status::{Code, Status};
use crate::text::{is_whitespace, trim};
use crate::text_laws::lemma_trim_cuts;
use crate::tokens::ApiToken;

verus! {

/// Whether a time format is shown under its name, and as nothing where there is none.
pub open spec fn shows_format(s: Seq<char>, f: Option<TimeFormat>) -> bool {
    match f {
        None => s == ""@,
        Some(TimeFormat::EpochSeconds) => s == "epoch_seconds"@,
        Some(TimeFormat::EpochMillis) => s == "epoch_millis"@,
        Some(TimeFormat::EpochMicros) => s == "epoch_micros"@,
        Some(TimeFormat::EpochNanos) => s == "epoch_nanos"@,
        Some(TimeFormat::Rfc3339) => s == "rfc3339"@,
        Some(TimeFormat::DateOnly) => s == "date"@,
    }
}

/// Whether a type is shown under its name.
pub open spec fn shows_type(s: Seq<char>, ty: FieldType) -> bool {
    &&& ty is Text ==> s == "TEXT"@
    &&& ty is Keyword ==> s == "KEYWORD"@
    &&& ty is Long ==> s == "LONG"@
    &&& ty is Double ==> s == "DOUBLE"@
    &&& ty is Bool ==> s == "BOOL"@
    &&& ty is Date ==> s == "DATE"@
    &&& ty is Ip ==> s == "IP"@
    &&& ty is Vector ==> s == "VECTOR"@
    &&& ty is Variant ==> s == "VARIANT"@
}

/// Time formats are told apart by their names.
pub proof fn lemma_formats_have_names(f: TimeFormat, s: &'static str, g: TimeFormat, t: &'static str)
    requires
        call_ensures(time_format_str, (f,), s),
        call_ensures(time_format_str, (g,), t),
    ensures
        shows_format(s@, Some(f)),
        s@ == t@ ==> f == g,
{
    reveal_strlit("epoch_seconds");
    reveal_strlit("epoch_millis");
    reveal_strlit("epoch_micros");
    reveal_strlit("epoch_nanos");
    reveal_strlit("rfc3339");
    reveal_strlit("date");
    assert("epoch_seconds"@.len() == 13);
    assert("epoch_millis"@.len() == 12);
    assert("epoch_micros"@.len() == 12);
    assert("epoch_nanos"@.len() == 11);
    assert("rfc3339"@.len() == 7);
    assert("date"@.len() == 4);
    assert("epoch_millis"@[8] == 'l');
    assert("epoch_micros"@[8] == 'c');
}

/// Source types are told apart by their names.
pub proof fn lemma_source_types_have_names(ty: SourceType, s: &'static str)
    requires
        call_ensures(source_type_str, (ty,), s),
    ensures
        ty is Text ==> s@ == "string"@,
        ty is Long ==> s@ == "long"@,
        ty is Double ==> s@ == "double"@,
        ty is Bool ==> s@ == "bool"@,
        ty is Date ==> s@ == "date"@,
        ty is Binary ==> s@ == "binary"@,
        ty is Other ==> s@ == "other"@,
{
}

/// Whether a list of names holds this one.
pub open spec fn lists(names: Seq<String>, name: Seq<char>) -> bool {
    exists|i: int| 0 <= i < names.len() && (#[trigger] names[i])@ == name
}

proof fn lemma_lists(names: Vec<String>, name: Seq<char>)
    ensures
        names.deep_view().contains(name) <==> lists(names@, name),
{
    let v = names.deep_view();
    assert(v.len() == names@.len());
    if v.contains(name) {
        let i = choose|i: int| 0 <= i < v.len() && v[i] == name;
        assert(names@[i]@ == name);
    }
    if lists(names@, name) {
        let i = choose|i: int| 0 <= i < names@.len() && (#[trigger] names@[i])@ == name;
        assert(v[i] == name);
    }
}

/// The fields of an index are shown in their order. A field is shown as part of the key exactly where
/// the identifier or the partition has it, and as barred from the cache exactly where it is sensitive
/// or may be larger than what is cached.
pub proof fn lemma_fields_are_shown(def: ResolvedIndex, cap: u64, out: Vec<FieldMapping>, i: int)
    requires
        call_ensures(field_mappings, (&def, cap), out),
    ensures
        out@.len() == def.fields@.len(),
        0 <= i < out@.len() ==> ({
            let m = out@[i];
            let f = def.fields@[i];
            &&& m.path@ == f.path@
            &&& shows_type(m.ty@, f.ty)
            &&& f.analyzer matches Some(a) ==> m.analyzer@ == a@
            &&& f.analyzer is None ==> m.analyzer@.len() == 0
            &&& m.fast == f.fast
            &&& m.cached == f.cached
            &&& m.pk <==> lists(def.identifier_fields@, f.path@) || lists(
                def.partition_fields@,
                f.path@,
            )
            &&& m.blocked@.len() > 0 <==> f.sensitive || (f.max_bytes is Some && f.max_bytes->0 > cap)
            &&& shows_format(m.field_format@, f.format)
        }),
{
    reveal_strlit("sensitive (D23)");
    reveal_strlit("big text (D23)");
    reveal_strlit("");
    if 0 <= i < out@.len() {
        let f = def.fields@[i];
        lemma_lists(def.identifier_fields, f.path@);
        lemma_lists(def.partition_fields, f.path@);
        assert(crate::definition::maps(out@[i], f, def, cap));
    }
}

proof fn lemma_format_at(fields: Seq<ResolvedField>, path: Seq<char>, i: int)
    requires
        0 <= i < fields.len(),
        fields[i].path@ == path,
        forall|j: int| 0 <= j < i ==> (#[trigger] fields[j]).path@ != path,
    ensures
        format_at(fields, path) == fields[i].format,
    decreases i,
{
    if i > 0 {
        assert(fields[0].path@ != path);
        let rest = fields.drop_first();
        assert forall|j: int| 0 <= j < i - 1 implies (#[trigger] rest[j]).path@ != path by {
            assert(fields[j + 1].path@ != path);
        }
        lemma_format_at(rest, path, i - 1);
    }
}

/// The windows of an index are sent exactly where it has some, with their field, their length, the
/// number that stay hot where there is one, and the format of the first field of that name.
pub proof fn lemma_windows_are_sent(def: ResolvedIndex, c: Option<WindowingConfig>, i: int)
    requires
        call_ensures(windowing_config, (&def,), c),
    ensures
        c is Some <==> def.windowing is Some,
        c matches Some(s) ==> ({
            let w = def.windowing->0;
            &&& s.field@ == w.field@
            &&& w.granularity is Hourly ==> s.granularity@ == "hourly"@
            &&& w.granularity is Daily ==> s.granularity@ == "daily"@
            &&& w.granularity is Weekly ==> s.granularity@ == "weekly"@
            &&& w.event_time_field matches Some(f) ==> s.event_time_field@ == f@
            &&& w.event_time_field is None ==> s.event_time_field@.len() == 0
            &&& s.has_hot_windows <==> w.hot_windows is Some
            &&& w.hot_windows matches Some(n) ==> s.hot_windows == n
            &&& 0 <= i < def.fields@.len() && def.fields@[i].path@ == w.field@ && (forall|j: int|
                0 <= j < i ==> (#[trigger] def.fields@[j]).path@ != w.field@) ==> shows_format(
                s.field_format@,
                def.fields@[i].format,
            )
        }),
{
    if let Some(w) = def.windowing {
        if 0 <= i < def.fields@.len() && def.fields@[i].path@ == w.field@ && (forall|j: int|
            0 <= j < i ==> (#[trigger] def.fields@[j]).path@ != w.field@) {
            lemma_format_at(def.fields@, w.field@, i);
        }
    }
}

/// What is told of an index is what is registered of it, under its name; of one that is not
/// registered nothing is.
pub proof fn lemma_index_is_told(
    name: String,
    entry: Option<IndexEntry>,
    cap: u64,
    r: Result<IndexInfo, Status>,
)
    requires
        call_ensures(get_index, (name, entry, cap), r),
    ensures
        r is Ok <==> entry is Some,
        r matches Err(e) ==> e.code == Code::NotFound,
        r matches Ok(info) ==> ({
            let e = entry->0;
            &&& info.name@ == name@
            &&& e.status is Active ==> info.status@ == "active"@
            &&& e.status is Building ==> info.status@ == "building"@
            &&& info.shard_count == e.placement.shards@.len()
            &&& info.routing == e.routing
            &&& info.bucket_owners@ == e.bucket_owners@
            &&& info.fields@.len() == e.definition.fields@.len()
            &&& e.placement.windows@.len() > 0 ==> info.shard_status@.len()
                == e.placement.windows@.len()
            &&& e.placement.windows@.len() == 0 ==> info.shard_status@.len()
                == e.placement.shards@.len()
            &&& info.windowing is Some <==> e.definition.windowing is Some
            &&& info.generation == e.generation
            &&& info.definition_version == e.definition_version
            &&& e.definition_json matches Some(j) ==> info.definition_json@ == j@
            &&& e.definition_json is None ==> info.definition_json@.len() == 0
        }),
{
}

/// Every index is listed once, in its order, with its status.
pub proof fn lemma_indexes_are_listed(
    indexes: Vec<(String, IndexStatus)>,
    out: Vec<IndexSummary>,
    i: int,
)
    requires
        call_ensures(list_indexes, (indexes,), out),
    ensures
        out@.len() == indexes@.len(),
        0 <= i < out@.len() ==> out@[i].name@ == indexes@[i].0@ && (indexes@[i].1 is Active
            ==> out@[i].status@ == "active"@) && (indexes@[i].1 is Building ==> out@[i].status@
            == "building"@),
{
}

/// A saved query that is sent and taken back is the same.
pub proof fn lemma_saved_query_survives(q: SavedQuery, w: WireSavedQuery, back: SavedQuery)
    requires
        call_ensures(wire_saved, (q,), w),
        call_ensures(core_saved, (w,), back),
    ensures
        back == q,
        w.id@ == q.id@,
        w.name@ == q.name@,
        w.owner@ == q.owner@,
        w.query@ == q.query@,
        w.state@ == q.state@,
        w.shared == q.shared,
        w.created_at_ms == q.created_at_ms,
{
}

/// Whether a text says nothing: it has only white space, or nothing.
pub open spec fn is_blank_text(s: Seq<char>) -> bool {
    forall|i: int| 0 <= i < s.len() ==> is_whitespace(#[trigger] s[i])
}

/// Nothing is left of a text that says nothing when it is trimmed, and something of every other.
pub proof fn lemma_blank(s: Seq<char>)
    ensures
        trim(s).len() == 0 <==> is_blank_text(s),
{
    let cut = lemma_trim_cuts(s);
    if trim(s).len() > 0 {
        assert(s[cut.0] == trim(s)[0]);
    }
}

/// A query is saved as it was sent, unless there is none or neither its name nor its text says
/// anything.
pub proof fn lemma_query_is_saved(query: Option<WireSavedQuery>, r: Result<SavedQuery, Status>)
    requires
        call_ensures(query_to_save, (query,), r),
    ensures
        r is Ok <==> query is Some && !(is_blank_text(query->0.name@) && is_blank_text(
            query->0.query@,
        )),
        r matches Ok(q) ==> q.id == query->0.id && q.name == query->0.name && q.owner
            == query->0.owner && q.query == query->0.query && q.state == query->0.state && q.shared
            == query->0.shared && q.created_at_ms == query->0.created_at_ms,
        r matches Err(e) ==> e.code == Code::InvalidArgument,
{
    if let Some(w) = query {
        lemma_blank(w.name@);
        lemma_blank(w.query@);
    }
}

/// Roles are bound to a subject that is named, by who may give them.
pub proof fn lemma_roles_are_bound(
    subject: &str,
    assignable: Result<(), String>,
    r: Result<(), Status>,
)
    requires
        call_ensures(may_bind_roles, (subject, assignable), r),
    ensures
        r is Ok <==> !is_blank_text(subject@) && assignable is Ok,
        is_blank_text(subject@) <==> (r matches Err(e) && e.code == Code::InvalidArgument),
        !is_blank_text(subject@) && assignable is Err ==> (r matches Err(e) && e.code
            == Code::PermissionDenied && e.message@ == assignable->Err_0@),
{
    lemma_blank(subject@);
}

/// A token is minted under a label, by who may give its roles.
pub proof fn lemma_token_may_be_minted(
    label: &str,
    assignable: Result<(), String>,
    r: Result<(), Status>,
)
    requires
        call_ensures(may_mint, (label, assignable), r),
    ensures
        r is Ok <==> !is_blank_text(label@) && assignable is Ok,
        is_blank_text(label@) <==> (r matches Err(e) && e.code == Code::InvalidArgument),
        !is_blank_text(label@) && assignable is Err ==> (r matches Err(e) && e.code
            == Code::PermissionDenied && e.message@ == assignable->Err_0@),
{
    lemma_blank(label@);
}

/// A token is kept by its digest. Of its secret no more than the first thirteen characters are; they
/// begin the secret. Whoever asked for it owns it; when it was made is left to the registry.
pub proof fn lemma_token_is_kept(
    id: String,
    label: String,
    roles: Vec<String>,
    principal: Option<String>,
    secret: &str,
    hash: String,
    t: ApiToken,
)
    requires
        call_ensures(new_token, (id, label, roles, principal, secret, hash), t),
    ensures
        t.id@ == id@,
        t.label@ == label@,
        t.roles@ == roles@,
        t.hash@ == hash@,
        t.prefix@.len() <= 13,
        t.prefix@.len() == 13 || t.prefix@ == secret@,
        t.prefix@.is_prefix_of(secret@),
        principal matches Some(p) ==> t.owner@ == p@,
        principal is None ==> t.owner@.len() == 0,
        t.created_at_ms == 0,
        t.expires_at_ms is None,
{
    if secret@.len() > 13 {
        assert(t.prefix@ =~= secret@.subrange(0, 13));
    } else {
        assert(t.prefix@ =~= secret@.subrange(0, secret@.len() as int));
    }
}

/// What is shown of a token is what is kept of it, but for its digest.
pub proof fn lemma_token_is_shown(t: ApiToken, m: ApiTokenMeta)
    requires
        call_ensures(token_meta, (t,), m),
    ensures
        m.id@ == t.id@,
        m.label@ == t.label@,
        m.prefix@ == t.prefix@,
        m.roles@ == t.roles@,
        m.owner@ == t.owner@,
        m.created_at_ms == t.created_at_ms,
{
}

/// An alias has a name.
pub proof fn lemma_alias_has_a_name(alias: &str, r: Result<(), Status>)
    requires
        call_ensures(named_alias, (alias,), r),
    ensures
        r is Ok <==> alias@.len() > 0,
        r matches Err(e) ==> e.code == Code::InvalidArgument,
{
}

/// An index is created exactly where its name is free.
pub proof fn lemma_name_is_free(name: String, taken: bool, r: Result<(), Status>)
    requires
        call_ensures(may_create, (name, taken), r),
    ensures
        r is Ok <==> !taken,
        r matches Err(e) ==> e.code == Code::AlreadyExists && e.message@ == "index `"@ + name@
            + "` already exists"@,
{
}

/// A definition that cannot be used is refused with what was wrong with it.
pub proof fn lemma_definition_is_refused(f: DefinitionFault, s: Status)
    requires
        call_ensures(definition_refused, (f,), s),
    ensures
        s.code == Code::InvalidArgument,
        f matches DefinitionFault::Unreadable(e) ==> s.message@ == "invalid definition: "@ + e@,
        f matches DefinitionFault::Unresolved(e) ==> s.message@ == "definition does not resolve: "@
            + e@,
        f matches DefinitionFault::UnreadableJson(e) ==> s.message@ == "invalid definition_json: "@
            + e@,
        f matches DefinitionFault::UnreadableCandidate(e) ==> s.message@
            == "invalid candidate definition: "@ + e@,
        f matches DefinitionFault::UnresolvedCandidate(e) ==> s.message@
            == "candidate does not resolve: "@ + e@,
{
}

/// A change of a definition is stored exactly where that was asked for and something changes, in
/// place of the version that it was planned from; the shards are rebuilt exactly where a change needs
/// it. The answer tells the plan.
pub proof fn lemma_change_is_stored(
    plan: AlterPlan,
    apply: bool,
    version: u64,
    generation: u64,
    r: (AlterAction, AlterControlResponse),
)
    requires
        call_ensures(alter_action, (plan, apply, version, generation), r),
    ensures
        r.0 is Answer <==> !apply || (plan.reindex_reasons@.len() == 0 && plan.in_place@.len() == 0),
        r.0 is StoreAndReindex <==> apply && plan.reindex_reasons@.len() > 0,
        r.0 matches AlterAction::Store { expected } ==> expected == version,
        r.0 matches AlterAction::StoreAndReindex { expected } ==> expected == version,
        r.1.is_noop <==> plan.reindex_reasons@.len() == 0 && plan.in_place@.len() == 0,
        r.1.requires_reindex <==> plan.reindex_reasons@.len() > 0,
        r.1.reindex_reasons@ == plan.reindex_reasons@,
        r.1.in_place_changes@ == plan.in_place@,
        !r.1.applied && !r.1.reindex_triggered,
        r.1.generation == generation,
{
}

/// A stored change is told as applied, and a rebuild with the generation that it brought.
pub proof fn lemma_change_is_told(
    a: AlterControlResponse,
    reindexed: Option<u64>,
    r: AlterControlResponse,
)
    requires
        call_ensures(AlterControlResponse::done, (a, reindexed), r),
    ensures
        r.applied,
        reindexed matches Some(g) ==> r.reindex_triggered && r.generation == g,
        reindexed is None ==> r.reindex_triggered == a.reindex_triggered && r.generation
            == a.generation,
        r.is_noop == a.is_noop,
        r.requires_reindex == a.requires_reindex,
        r.reindex_reasons == a.reindex_reasons,
        r.in_place_changes == a.in_place_changes,
{
}

/// What a deployment may use is what its license says, and three nodes without one.
pub proof fn lemma_license_is_told(s: ControlPlaneService, n: u32, r: GetLicenseResponse)
    requires
        call_ensures(ControlPlaneService::license_status, (&s, n), r),
    ensures
        r.licensed <==> s.license is Some,
        s.license matches Some(l) ==> r.licensee@ == l.licensee@ && r.max_nodes == l.max_nodes,
        s.license is None ==> r.licensee@.len() == 0 && r.max_nodes == 3,
        r.current_nodes == n,
{
}

/// Dead owners are looked for twice in the time after which a node counts as dead, and at most once
/// a second.
pub proof fn lemma_dead_owner_period(ttl_ms: i64, p: u64)
    requires
        call_ensures(dead_owner_period_ms, (ttl_ms,), p),
    ensures
        p >= 1000,
        ttl_ms >= 2000 ==> 2 * p <= ttl_ms < 2 * p + 2,
        ttl_ms < 2000 ==> p == 1000,
{
}

/// Placement is brought up to date four times between reports, and at most once a second.
pub proof fn lemma_placement_period(report_ms: i64, p: u64)
    requires
        call_ensures(placement_period_ms, (report_ms,), p),
    ensures
        p >= 1000,
        report_ms >= 4000 ==> 4 * p <= report_ms < 4 * p + 4,
        report_ms < 4000 ==> p == 1000,
{
}

/// Ingestion is sampled as often as asked, and at most once a second.
pub proof fn lemma_sample_period(asked: u64, p: u64)
    requires
        call_ensures(sample_period_secs, (asked,), p),
    ensures
        asked >= 1 ==> p == asked,
        asked == 0 ==> p == 1,
{
}

/// What the registry refuses is answered by its kind, and what is not found by its name.
pub proof fn lemma_registry_is_answered(e: RegistryError, s: Status)
    requires
        call_ensures(registry_status, (e,), s),
    ensures
        e is AlreadyExists <==> s.code == Code::AlreadyExists,
        e is InvalidDefinition || e is AliasNameClash <==> s.code == Code::InvalidArgument,
        e is PlacementConflict || e is NotLeader <==> s.code == Code::FailedPrecondition,
        e is PlacementConflict ==> s.reason@ == "PLACEMENT_CONFLICT"@,
        e is NotLeader ==> s.reason@ == "NOT_LEADER"@,
        e is EntitlementExceeded <==> s.code == Code::ResourceExhausted,
        e is NotFound || e is AliasNotFound || e is SavedQueryNotFound || e is JobNotFound
            <==> s.code == Code::NotFound,
        e is NoLiveNode || e is Other <==> s.code == Code::Internal,
        e matches RegistryError::NotFound(n) ==> s.message@ == "index `"@ + n@ + "` not found"@,
        e matches RegistryError::AliasNotFound(n) ==> s.message@ == "alias `"@ + n@ + "` not found"@,
        e matches RegistryError::SavedQueryNotFound(n) ==> s.message@ == "saved query `"@ + n@
            + "` not found"@,
        e matches RegistryError::JobNotFound(n) ==> s.message@ == "job `"@ + n@ + "` not found"@,
        e matches RegistryError::InvalidDefinition(d) ==> s.message@ == d@,
        e matches RegistryError::Other(d) ==> s.message@ == d@,
{
}

/// That no node is alive yet may be tried again; every other refusal of a placement is answered as
/// the registry's.
pub proof fn lemma_placement_may_be_tried_again(e: RegistryError, s: Status, t: Status)
    requires
        call_ensures(placement_status, (e,), s),
        call_ensures(registry_status, (e,), t),
    ensures
        e is NoLiveNode <==> s.code == Code::Unavailable,
        e matches RegistryError::NoLiveNode(m) ==> s.message@ == m@,
        !(e is NoLiveNode) ==> s@ == t@,
{
}

/// An index that another node announced first is there all the same; every other refusal stands.
pub proof fn lemma_index_is_there(created: Result<(), RegistryError>, r: Result<(), Status>, t: Status)
    requires
        call_ensures(created_or_present, (created,), r),
        created is Err ==> call_ensures(registry_status, (created->Err_0,), t),
    ensures
        r is Ok <==> created is Ok || created->Err_0 is AlreadyExists,
        r matches Err(e) ==> e@ == t@,
{
}

} // verus!
