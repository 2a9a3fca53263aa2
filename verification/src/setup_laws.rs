//! What holds of a gateway and its services as they are set up, of what a gateway admits, and of the
//! tools that lists and keys are handled with.
use tonic::metadata::MetadataMap;
use vstd::prelude::*;

use crate::admin::{AdminService, SourceCheckpoint};
use crate::auth::{default_auth, AuthContextView, AuthDenied, SharedAuth};
use crate::authn::{
    default_authn, AuthnErrorView, ChainAuthenticator, SharedAuthn, Verified, VerifiedView,
};
use crate::control::{login_busy, ControlPlaneService, License};
use crate::drift::{has_moved, DriftReport};
use crate::fanout::{
    aggregates_nothing, not_served, Explained, MergedPage, SearchRequest, ShardsScanned,
};
use crate::gateway::{Gateway, GatewayLimits, WindowSlot};
use crate::jobs::{
    job_kind_str, job_state_str, kind_for, shard_phase_str, JobKind, JobState, ReindexJob,
    ShardPhase,
};
use crate::keys::{copied, first_occurrences, same_bytes, ByteKey};
use crate::metadata::{contents, header};
use crate::order::{lemma_stable_order_permutes, sorted_positions, Ranked};
use crate::query::is_one_of;
use crate::reconcile::GateResult;
use crate::reindex_driver::fail_vanished;
use crate::request_laws::{is_blank_text, lemma_blank, lists};
use crate::requests::{alias_activity, alter_activity, created_activity};
use crate::status::{Code, Status};
use crate::text::{chars_of, copies, trim};
use crate::throttle::LoginThrottle;

verus! {

/// A shard has moved since a checkpoint exactly where it had one and no longer has just that one: the
/// snapshot or its place in the order is another, whichever is later, or there is none.
pub proof fn lemma_shard_has_moved(
    captured: Option<SourceCheckpoint>,
    current: Option<SourceCheckpoint>,
    b: bool,
)
    requires
        call_ensures(has_moved, (captured, current), b),
    ensures
        captured is None ==> !b,
        captured is Some && current is None ==> b,
        captured is Some && current is Some ==> (b <==> captured->0.snapshot != current->0.snapshot
            || captured->0.sequence != current->0.sequence),
{
}

/// A report is clean exactly where nothing was deleted and nothing indexed.
pub proof fn lemma_report_is_clean(report: DriftReport, b: bool)
    requires
        call_ensures(DriftReport::is_clean, (&report,), b),
    ensures
        b <==> report.deleted == 0 && report.reindexed == 0,
{
}

/// Calls to shards are bounded by the limit, and not at all where it is zero.
pub proof fn lemma_fanout_is_bounded(l: GatewayLimits, b: Option<usize>)
    requires
        call_ensures(GatewayLimits::fanout_bound, (&l,), b),
    ensures
        b is None <==> l.max_concurrent_fanout == 0,
        b matches Some(n) ==> n == l.max_concurrent_fanout,
{
}

/// A gateway has the shards that it is made over, or one per window, and one where nothing is said. It
/// lets everyone in, serves every index, and has the usual limits.
pub proof fn lemma_gateway_is_made(
    one: Gateway,
    n: usize,
    many: Gateway,
    windows: Vec<WindowSlot>,
    windowed: Gateway,
)
    requires
        call_ensures(Gateway::new, (), one),
        call_ensures(Gateway::sharded, (n,), many),
        call_ensures(Gateway::windowed, (windows,), windowed),
    ensures
        one.shards == 1 && one.windows is None,
        many.shards == n && many.windows is None,
        windowed.shards == windows@.len() && windowed.windows == Some(windows),
        many.authn is None && many.authz is None && many.served_index is None && many.cold is None,
        many.limits.max_fetch == 10_000 && many.limits.max_concurrent_fanout == 256
            && many.limits.deadline_ms == Some(30_000u64),
        !many.password_login && many.partition_fields@.len() == 0,
        windowed.authn is None && windowed.authz is None && windowed.served_index is None
            && windowed.cold is None,
        one.authn is None && one.authz is None && one.served_index is None && one.cold is None,
{
}

/// A new set of shards is taken over exactly where there is a shard and the router is for as many; the
/// windows are then gone. Else nothing changes. What was configured stays either way.
pub proof fn lemma_routing_is_swapped(g: &mut Gateway, shards: usize, router: u32, taken: bool)
    requires
        call_ensures(Gateway::swap_routing, (g, shards, router), taken),
    ensures
        taken <==> shards > 0 && router == shards,
        taken ==> final(g).shards == shards && final(g).windows is None,
        !taken ==> final(g).shards == old(g).shards && final(g).windows == old(g).windows,
        final(g).authn == old(g).authn && final(g).authz == old(g).authz,
        final(g).served_index == old(g).served_index && final(g).cold == old(g).cold,
        final(g).limits == old(g).limits && final(g).partition_fields == old(g).partition_fields,
{
}

/// A new set of windows is taken over exactly where there is one for each shard, and a shard. Else
/// nothing changes.
pub proof fn lemma_windows_are_swapped(
    g: &mut Gateway,
    shards: usize,
    windows: Vec<WindowSlot>,
    taken: bool,
)
    requires
        call_ensures(Gateway::swap_windowed, (g, shards, windows), taken),
    ensures
        taken <==> shards > 0 && windows@.len() == shards,
        taken ==> final(g).shards == shards && final(g).windows == Some(windows),
        !taken ==> final(g).shards == old(g).shards && final(g).windows == old(g).windows,
        final(g).authn == old(g).authn && final(g).authz == old(g).authz,
        final(g).served_index == old(g).served_index && final(g).cold == old(g).cold,
        final(g).limits == old(g).limits && final(g).partition_fields == old(g).partition_fields,
{
}

/// Each setting of a gateway changes just that, and is read back.
pub proof fn lemma_gateway_is_set_up(
    g: Gateway,
    fields: Vec<String>,
    a: Gateway,
    limits: GatewayLimits,
    b: Gateway,
    index: String,
    c: Gateway,
    authn: SharedAuthn,
    d: Gateway,
    on: bool,
    e: Gateway,
    authz: SharedAuth,
    f: Gateway,
    cold: Vec<i64>,
    h: Gateway,
)
    requires
        call_ensures(Gateway::with_partition_fields, (g, fields), a),
        call_ensures(Gateway::with_limits, (g, limits), b),
        call_ensures(Gateway::serving, (g, index), c),
        call_ensures(Gateway::with_authn, (g, authn), d),
        call_ensures(Gateway::with_password_login, (g, on), e),
        call_ensures(Gateway::with_authz, (g, authz), f),
        call_ensures(Gateway::with_cold_tier, (g, cold), h),
    ensures
        a.partition_fields@ == fields@ && a.limits == g.limits && a.authn == g.authn && a.authz
            == g.authz && a.served_index == g.served_index && a.shards == g.shards && a.windows
            == g.windows,
        b.limits == limits && b.authn == g.authn && b.authz == g.authz && b.served_index
            == g.served_index && b.shards == g.shards && b.windows == g.windows,
        c.served_index == Some(index) && c.authn == g.authn && c.authz == g.authz && c.limits
            == g.limits && c.shards == g.shards && c.windows == g.windows,
        d.authn == Some(authn) && d.authz == g.authz && d.served_index == g.served_index && d.limits
            == g.limits && d.shards == g.shards && d.windows == g.windows,
        e.password_login == on && e.authn == g.authn && e.authz == g.authz && e.shards == g.shards,
        f.authz == Some(authz) && f.authn == g.authn && f.served_index == g.served_index && f.limits
            == g.limits && f.shards == g.shards && f.windows == g.windows,
        h.cold == Some(cold) && h.authn == g.authn && h.authz == g.authz && h.shards == g.shards
            && h.windows == g.windows,
{
}

/// A gateway tells how many shards it has, whether callers must be authenticated, whether they can
/// log in by password, and whether it forwards to its only shard.
pub proof fn lemma_gateway_tells(g: Gateway, n: usize, required: bool, password: bool, forwards: bool)
    requires
        call_ensures(Gateway::shard_count, (&g,), n),
        call_ensures(Gateway::auth_required, (&g,), required),
        call_ensures(Gateway::password_login, (&g,), password),
        call_ensures(Gateway::forwards, (&g,), forwards),
    ensures
        n == g.shards,
        required <==> g.authn is Some,
        password <==> g.password_login,
        forwards <==> g.shards == 1,
{
}

/// An open gateway tells that nobody in particular calls. One with an authenticator tells only an
/// identity that the authenticator may have answered.
pub proof fn lemma_identity_is_told(g: Gateway, md: &mut MetadataMap, r: Result<Verified, Status>)
    requires
        call_ensures(Gateway::identity, (&g, md), r),
    ensures
        g.authn is None ==> (r matches Ok(v) && v.principal@.len() == 0 && v.tenant is None
            && v.roles@.len() == 0 && v.indexes@.len() == 0) && contents(*final(md)) == contents(
            *old(md),
        ),
        g.authn matches Some(a) ==> match r {
            Ok(v) => a.may_yield(header(contents(*old(md)), "authorization"@), Ok(v@)),
            Err(e) => e.code == Code::Unauthenticated,
        },
{
    if let Some(a) = g.authn {
        let h = header(contents(*old(md)), "authorization"@);
        let answer = choose|answer: Result<VerifiedView, AuthnErrorView>| #[trigger]
            a.may_yield(h, answer) && crate::authn::admitted(
                contents(*old(md)),
                answer,
                contents(*final(md)),
                r,
            );
        assert(a.may_yield(h, answer));
    } else {
        let v = r->Ok_0;
        assert(v@.tenant == v.tenant.deep_view());
        assert(v.roles.deep_view().len() == v.roles@.len());
        assert(v.indexes.deep_view().len() == v.indexes@.len());
    }
}

/// Whether `want` is the index `name`, with white space around it perhaps.
pub open spec fn asks_for(want: Seq<char>, name: Seq<char>) -> bool {
    trim(want) == name
}

/// A request is refused as for another index exactly where one index is served, the request names one,
/// and it is not that.
pub proof fn lemma_request_is_in_scope(g: Gateway, index: &str, r: Result<(), Status>)
    requires
        call_ensures(Gateway::in_scope, (&g, index), r),
    ensures
        r is Ok <==> g.served_index is None || is_blank_text(index@) || asks_for(
            index@,
            g.served_index->0@,
        ),
        r matches Err(e) ==> e.code == Code::NotFound,
{
    lemma_blank(index@);
    if let Some(s) = g.served_index {
        assert(g.served_index.deep_view() == Some(s@));
    }
}

/// The refusal of an index tells which one was asked for and which one is served.
pub proof fn lemma_other_index_is_refused(want: &str, served: &str, s: Status)
    requires
        call_ensures(not_served, (want, served), s),
    ensures
        s.code == Code::NotFound,
        s.message@ == "index `"@ + want@ + "` is not served by this endpoint (serving `"@ + served@
            + "`)"@,
{
}

/// A search is admitted only where the guard may let it pass, it is for what is served, and its page
/// is not past the limit; and it is refused for nothing else.
pub proof fn lemma_search_is_admitted(
    g: Gateway,
    req: SearchRequest,
    md: &mut MetadataMap,
    r: Result<(), Status>,
)
    requires
        call_ensures(Gateway::admit_search, (&g, &req, md), r),
    ensures
        r is Ok ==> g.served_index is None || is_blank_text(req.index@) || asks_for(
            req.index@,
            g.served_index->0@,
        ),
        r is Ok && g.limits.max_fetch > 0 && req.offset + req.limit <= usize::MAX ==> req.offset
            + req.limit <= g.limits.max_fetch,
        g.authn is None && g.authz is None && (g.served_index is None || is_blank_text(req.index@)
            || asks_for(req.index@, g.served_index->0@)) && (g.limits.max_fetch == 0 || req.offset
            + req.limit <= g.limits.max_fetch) ==> r is Ok,
        g.authn is None && g.authz is None && r is Err ==> r->Err_0.code == Code::NotFound
            || r->Err_0.code == Code::InvalidArgument,
{
    lemma_blank(req.index@);
    if let Some(s) = g.served_index {
        assert(g.served_index.deep_view() == Some(s@));
    }
    let before = contents(*old(md));
    let after = contents(*final(md));
    let refusal = crate::fanout::search_refusal(g, req);
    let passed = choose|passed: Result<(), Status>| #[trigger]
        crate::gateway::guarded(g, "Search"@, before, after, passed) && match passed {
            Err(e) => r == Err::<(), Status>(e),
            Ok(_) => crate::fanout::refuses(r, refusal),
        };
    assert(crate::gateway::guarded(g, "Search"@, before, after, passed));
}

/// An explanation is admitted only where it is for what is served and names a document; where nothing
/// guards the gateway, it is refused for nothing else.
pub proof fn lemma_explanation_is_admitted(
    g: Gateway,
    index: &str,
    has_coordinates: bool,
    md: &mut MetadataMap,
    r: Result<(), Status>,
)
    requires
        call_ensures(Gateway::admit_explain, (&g, index, has_coordinates, md), r),
    ensures
        r is Ok ==> has_coordinates && (g.served_index is None || is_blank_text(index@) || asks_for(
            index@,
            g.served_index->0@,
        )),
        g.authn is None && g.authz is None && has_coordinates && (g.served_index is None
            || is_blank_text(index@) || asks_for(index@, g.served_index->0@)) ==> r is Ok,
{
    lemma_blank(index@);
    if let Some(s) = g.served_index {
        assert(g.served_index.deep_view() == Some(s@));
    }
}

/// A search that no shard can match finds nothing, and tells that none was asked.
pub proof fn lemma_nothing_is_found(g: Gateway, page: MergedPage, one: ShardsScanned)
    requires
        call_ensures(Gateway::nothing_found, (&g,), page),
        call_ensures(Gateway::one_scanned, (&g,), one),
        g.wf(),
    ensures
        page.picks@.len() == 0 && page.total == 0 && page.cursor_after is None && !page.partial,
        page.shards_scanned == 0 && page.shards_total == g.shards,
        one.scanned == 1 && one.total == g.shards,
{
}

/// An explanation rests on one shard, and tells how long its row took where there was one.
pub proof fn lemma_explanation_tells(g: Gateway, hydrated: bool, elapsed_us: u64, e: Explained)
    requires
        call_ensures(Gateway::explained, (&g, hydrated, elapsed_us), e),
        g.wf(),
    ensures
        e.shards.scanned == 1 && e.shards.total == g.shards,
        hydrated ==> e.hydration_us == elapsed_us,
        !hydrated ==> e.hydration_us == 0,
{
}

/// Nothing is aggregated where the text says nothing.
pub proof fn lemma_nothing_is_aggregated(aggs: &str, b: bool)
    requires
        call_ensures(aggregates_nothing, (aggs,), b),
    ensures
        b <==> is_blank_text(aggs@),
{
    lemma_blank(aggs@);
}

/// Each setting of a control plane changes just that.
pub proof fn lemma_control_plane_is_set_up(
    auth: SharedAuth,
    s: ControlPlaneService,
    license: Option<License>,
    a: ControlPlaneService,
    authn: SharedAuthn,
    b: ControlPlaneService,
    secret: Vec<u8>,
    c: ControlPlaneService,
)
    requires
        call_ensures(ControlPlaneService::with_auth, (auth,), s),
        call_ensures(ControlPlaneService::with_license, (s, license), a),
        call_ensures(ControlPlaneService::with_authn, (s, authn), b),
        call_ensures(ControlPlaneService::with_session_secret, (s, secret), c),
    ensures
        s.auth == auth && s.authn is None && s.session_secret is None && s.license is None
            && s.replication_factor == 1,
        a.license == license && a.auth == auth && a.authn is None && a.session_secret is None,
        b.authn == Some(authn) && b.auth == auth && b.license is None && b.session_secret is None,
        c.session_secret == Some(secret) && c.auth == auth && c.authn is None && c.license is None,
{
}

/// Too many logins at a time may be tried again.
pub proof fn lemma_busy_login(s: Status)
    requires
        call_ensures(login_busy, (), s),
    ensures
        s.code == Code::Unavailable,
{
}

/// Each setting of a node's service changes just that.
pub proof fn lemma_admin_is_set_up(
    index: String,
    auth: SharedAuth,
    s: AdminService,
    prefix: String,
    a: AdminService,
    b: AdminService,
)
    requires
        call_ensures(AdminService::with_auth, (index, auth), s),
        call_ensures(AdminService::with_backup, (s, prefix), a),
        call_ensures(AdminService::with_source, (s,), b),
    ensures
        s.index == index && s.auth == auth && !s.source && s.backup is None,
        a.index == index && a.auth == auth && !a.source && a.backup == Some(prefix),
        b.index == index && b.auth == auth && b.source && b.backup is None,
{
}

/// A chain hands each scheme to the authenticator that was set for it, and has none at first.
pub proof fn lemma_chain_is_set_up(
    c: ChainAuthenticator,
    bearer: SharedAuthn,
    d: ChainAuthenticator,
    keys: SharedAuthn,
    e: ChainAuthenticator,
)
    requires
        call_ensures(ChainAuthenticator::new, (), c),
        call_ensures(ChainAuthenticator::with_bearer, (c, bearer), d),
        call_ensures(ChainAuthenticator::with_api_keys, (d, keys), e),
    ensures
        c.bearer is None && c.api_key is None,
        d.bearer == Some(bearer) && d.api_key is None,
        e.bearer == Some(bearer) && e.api_key == Some(keys),
{
}

/// The names of kinds, states and phases on the wire.
pub proof fn lemma_jobs_have_names(
    k: JobKind,
    kind: &'static str,
    s: JobState,
    state: &'static str,
    p: ShardPhase,
    phase: &'static str,
)
    requires
        call_ensures(job_kind_str, (k,), kind),
        call_ensures(job_state_str, (s,), state),
        call_ensures(shard_phase_str, (p,), phase),
    ensures
        k is Reindex ==> kind@ == "reindex"@,
        k is Alter ==> kind@ == "alter"@,
        s is Pending ==> state@ == "pending"@,
        s is Building ==> state@ == "building"@,
        s is CatchingUp ==> state@ == "catching_up"@,
        s is CuttingOver ==> state@ == "cutting_over"@,
        s is Done ==> state@ == "done"@,
        s is Failed ==> state@ == "failed"@,
        s is Canceled ==> state@ == "canceled"@,
        p is Pending ==> phase@ == "pending"@,
        p is Building ==> phase@ == "building"@,
        p is Built ==> phase@ == "built"@,
        p is Promoting ==> phase@ == "promoting"@,
        p is Promoted ==> phase@ == "promoted"@,
        p is Discarded ==> phase@ == "discarded"@,
{
}

/// A job is over where it is done, failed or canceled. One with a new definition alters, and one
/// without reindexes.
pub proof fn lemma_job_is_over(s: JobState, over: bool, def_json: &str, k: JobKind)
    requires
        call_ensures(JobState::is_terminal, (s,), over),
        call_ensures(kind_for, (def_json,), k),
    ensures
        over <==> s is Done || s is Failed || s is Canceled,
        k is Alter <==> def_json@.len() > 0,
{
}

/// A job whose index is gone has failed, with its units as they were.
pub proof fn lemma_vanished_job_has_failed(job: &mut ReindexJob)
    requires
        call_ensures(fail_vanished, (job,), ()),
    ensures
        final(job).state is Failed,
        final(job).shards == old(job).shards,
        final(job).id == old(job).id && final(job).index == old(job).index && final(job).kind
            == old(job).kind,
        final(job).cancel_requested == old(job).cancel_requested,
        final(job).error@ == "index `"@ + old(job).index@ + "` vanished before the reindex started"@,
{
}

/// A sort names every item once. Of two items the one that ranks first comes first, and of two that
/// rank alike the one that came first.
pub proof fn lemma_sorted<T: Ranked>(items: Vec<T>, at: Vec<usize>, k: int, l: int)
    requires
        call_ensures(sorted_positions::<T>, (&items,), at),
    ensures
        at@.len() == items@.len(),
        at@.no_duplicates(),
        0 <= k < at@.len() ==> at@[k] < items@.len(),
        0 <= k < l < at@.len() ==> !items@[at@[l] as int].before(&items@[at@[k] as int]) || (
        items@[at@[k] as int].before(&items@[at@[l] as int])),
        0 <= k < l < at@.len() && !items@[at@[k] as int].before(&items@[at@[l] as int]) ==> at@[k]
            < at@[l],
{
    lemma_stable_order_permutes(items@, at@);
    if 0 <= k < l < at@.len() {
        assert(crate::order::comes_first(items@, at@[k] as int, at@[l] as int));
    }
}

/// An item is the first with its key exactly where no earlier one has it.
pub proof fn lemma_first_with_a_key(keys: Vec<ByteKey>, first: Vec<bool>, i: int)
    requires
        call_ensures(first_occurrences, (&keys,), first),
    ensures
        first@.len() == keys@.len(),
        0 <= i < keys@.len() ==> (first@[i] <==> forall|j: int|
            0 <= j < i ==> (#[trigger] keys@[j]).bytes@ != keys@[i].bytes@),
{
}

/// Copies are the same, and keys are the same exactly where their bytes are.
pub proof fn lemma_bytes_are_compared(a: Vec<u8>, b: Vec<u8>, r: bool, c: Vec<u8>)
    requires
        call_ensures(same_bytes, (&a, &b), r),
        call_ensures(copied, (&a,), c),
    ensures
        c@ == a@,
        r <==> a@.len() == b@.len() && forall|i: int| 0 <= i < a@.len() ==> a@[i] == b@[i],
{
    if a@.len() == b@.len() && forall|i: int| 0 <= i < a@.len() ==> a@[i] == b@[i] {
        assert(a@ =~= b@);
    }
}

/// A name is among names exactly where one of them is it. Copies of names are the same names, and a
/// text's characters are its own.
pub proof fn lemma_names_are_looked_up(
    name: &str,
    names: Vec<String>,
    b: bool,
    copy: Vec<String>,
    cs: Vec<char>,
)
    requires
        call_ensures(is_one_of, (name, &names), b),
        call_ensures(copies, (&names,), copy),
        call_ensures(chars_of, (name,), cs),
    ensures
        b <==> lists(names@, name@),
        copy@.len() == names@.len(),
        forall|i: int| 0 <= i < names@.len() ==> (#[trigger] copy@[i])@ == names@[i]@,
        cs@ == name@,
{
    let v = names.deep_view();
    let w = copy.deep_view();
    assert(v.len() == names@.len());
    assert(w.len() == copy@.len());
    if b {
        let i = choose|i: int| 0 <= i < v.len() && v[i] == name@;
        assert(names@[i]@ == name@);
    }
    if lists(names@, name@) {
        let i = choose|i: int| 0 <= i < names@.len() && (#[trigger] names@[i])@ == name@;
        assert(v[i] == name@);
    }
    assert forall|i: int| 0 <= i < names@.len() implies (#[trigger] copy@[i])@ == names@[i]@ by {
        assert(w[i] == v[i]);
    }
}

/// Without a policy every call is permitted, and without an authenticator everyone is anonymous.
pub proof fn lemma_defaults_let_everyone_in(
    a: SharedAuth,
    ctx: AuthContextView,
    answer: Result<(), AuthDenied>,
    n: SharedAuthn,
    h: Option<Seq<char>>,
    r: Result<VerifiedView, AuthnErrorView>,
)
    requires
        call_ensures(default_auth, (), a),
        call_ensures(default_authn, (), n),
    ensures
        a.may_answer(ctx, answer) ==> answer is Ok,
        n.may_yield(h, r) ==> (r matches Ok(v) && v.principal == "anonymous"@ && v.tenant is None
            && v.roles.len() == 0 && v.indexes.len() == 0),
{
}

/// The services that are made without a policy permit every call.
pub proof fn lemma_open_services(
    s: ControlPlaneService,
    index: String,
    t: AdminService,
    ctx: AuthContextView,
    answer: Result<(), AuthDenied>,
)
    requires
        call_ensures(ControlPlaneService::new, (), s),
        call_ensures(AdminService::new, (index,), t),
    ensures
        s.auth.may_answer(ctx, answer) ==> answer is Ok,
        s.authn is None && s.session_secret is None && s.license is None && s.replication_factor
            == 1,
        t.auth.may_answer(ctx, answer) ==> answer is Ok,
        t.index == index && !t.source && t.backup is None,
{
}

/// A status says its code, its reason where it has one, and its message.
pub proof fn lemma_status_says(
    code: Code,
    text: &str,
    message: String,
    a: Status,
    b: Status,
    c: Status,
    d: Status,
)
    requires
        call_ensures(Status::new, (code, message), a),
        call_ensures(Status::fixed, (code, text), b),
        call_ensures(Status::with_reason, (code, text, message), c),
        call_ensures(Status::internal, (message,), d),
    ensures
        a.code == code && a.reason@.len() == 0 && a.message@ == message@,
        b.code == code && b.reason@.len() == 0 && b.message@ == text@,
        c.code == code && c.reason@ == text@ && c.message@ == message@,
        d.code == Code::Internal && d.reason@ == "INTERNAL"@ && d.message@ == message@,
{
}

/// A gateway whose router is for as many shards as there are has those shards.
pub proof fn lemma_gateway_with_a_router(n: usize, router: u32, g: Gateway)
    requires
        call_ensures(Gateway::sharded_with, (n, router), g),
    ensures
        g.shards == n && g.windows is None && g.authn is None && g.authz is None
            && g.served_index is None,
{
}

/// A new throttle holds nobody back, and a new reconciliation has counted nothing.
pub proof fn lemma_begins_with_nothing(t: LoginThrottle, g: GateResult)
    requires
        call_ensures(LoginThrottle::new, (), t),
        call_ensures(<GateResult as Default>::default, (), g),
    ensures
        t@.len() == 0,
        g.index_count == 0 && g.source_count == 0 && g.stale == 0 && g.missing == 0,
        g.partitions_scanned == 0 && g.partitions_skipped == 0 && !g.deletes_skipped,
{
}

/// What is logged names what was changed.
pub proof fn lemma_changes_are_logged(
    alias: &str,
    target: &str,
    a: String,
    name: &str,
    b: String,
    reindexed: bool,
    c: String,
)
    requires
        call_ensures(alias_activity, (alias, target), a),
        call_ensures(created_activity, (name,), b),
        call_ensures(alter_activity, (name, reindexed), c),
    ensures
        a@ == "alias `"@ + alias@ + "` → `"@ + target@ + "` swapped"@,
        b@ == "index `"@ + name@ + "` created"@,
        reindexed ==> c@ == "altered `"@ + name@ + "` (reindex="@ + "true"@ + ")"@,
        !reindexed ==> c@ == "altered `"@ + name@ + "` (reindex="@ + "false"@ + ")"@,
{
}

} // verus!
