//! The smaller requests of the control plane: what each must say, and what comes of it.
use vstd::prelude::*;
use vstd::string::*;

use crate::admin::AlterPlan;
use crate::control::ControlPlaneService;
use crate::registry::{registry_answer, registry_status, RegistryError};
use crate::status::{plain, tagged, Code, Status};
use crate::text::{chars_of, trim, trimmed};
use crate::tokens::ApiToken;

verus! {

/// A saved query.
#[derive(Debug)]
pub struct SavedQuery {
    pub id: String,
    pub name: String,
    pub owner: String,
    pub query: String,
    pub state: String,
    pub shared: bool,
    pub created_at_ms: i64,
}

/// A saved query as it is sent.
#[derive(Debug)]
pub struct WireSavedQuery {
    pub id: String,
    pub name: String,
    pub owner: String,
    pub query: String,
    pub state: String,
    pub shared: bool,
    pub created_at_ms: i64,
}

/// Whether `w` is `q` as it is sent.
pub open spec fn same_saved(w: WireSavedQuery, q: SavedQuery) -> bool {
    &&& w.id == q.id
    &&& w.name == q.name
    &&& w.owner == q.owner
    &&& w.query == q.query
    &&& w.state == q.state
    &&& w.shared == q.shared
    &&& w.created_at_ms == q.created_at_ms
}

/// A saved query as it is sent.
pub fn wire_saved(q: SavedQuery) -> (w: WireSavedQuery)
    ensures
        same_saved(w, q),
{
    WireSavedQuery {
        id: q.id,
        name: q.name,
        owner: q.owner,
        query: q.query,
        state: q.state,
        shared: q.shared,
        created_at_ms: q.created_at_ms,
    }
}

/// A saved query that was sent.
pub fn core_saved(w: WireSavedQuery) -> (q: SavedQuery)
    ensures
        same_saved(w, q),
{
    SavedQuery {
        id: w.id,
        name: w.name,
        owner: w.owner,
        query: w.query,
        state: w.state,
        shared: w.shared,
        created_at_ms: w.created_at_ms,
    }
}

fn is_blank(s: &str) -> (b: bool)
    ensures
        b == (trim(s@).len() == 0),
{
    trimmed(s).is_empty()
}

/// The query to save: there must be one, and it must have a name or a text.
pub fn query_to_save(query: Option<WireSavedQuery>) -> (r: Result<SavedQuery, Status>)
    ensures
        match query {
            None => r matches Err(e) && e@ == plain(Code::InvalidArgument, "query is required"@),
            Some(w) => if trim(w.name@).len() == 0 && trim(w.query@).len() == 0 {
                r matches Err(e) && e@ == plain(
                    Code::InvalidArgument,
                    "a saved query needs a name or a query"@,
                )
            } else {
                r matches Ok(q) && same_saved(w, q)
            },
        },
{
    match query {
        None => Err(Status::fixed(Code::InvalidArgument, "query is required")),
        Some(w) => {
            if is_blank(w.name.as_str()) && is_blank(w.query.as_str()) {
                return Err(
                    Status::fixed(Code::InvalidArgument, "a saved query needs a name or a query"),
                );
            }
            Ok(core_saved(w))
        },
    }
}

/// What comes of a request to give roles: `given` must not be blank, and the caller must hold what
/// it gives, which `assignable` says.
pub open spec fn role_grant(
    r: Result<(), Status>,
    given: Seq<char>,
    blank: Seq<char>,
    assignable: Result<(), String>,
) -> bool {
    if trim(given).len() == 0 {
        r matches Err(e) && e@ == plain(Code::InvalidArgument, blank)
    } else {
        match assignable {
            Ok(_) => r is Ok,
            Err(reason) => r matches Err(e) && e@ == tagged(
                Code::PermissionDenied,
                "PERMISSION_DENIED"@,
                reason@,
            ),
        }
    }
}

fn grant(given: &str, blank: &str, assignable: Result<(), String>) -> (r: Result<(), Status>)
    ensures
        role_grant(r, given@, blank@, assignable),
{
    if is_blank(given) {
        return Err(Status::fixed(Code::InvalidArgument, blank));
    }
    match assignable {
        Ok(_) => Ok(()),
        Err(reason) => Err(
            Status::with_reason(Code::PermissionDenied, "PERMISSION_DENIED", reason),
        ),
    }
}

/// Whether roles may be bound to a subject.
pub fn may_bind_roles(subject: &str, assignable: Result<(), String>) -> (r: Result<(), Status>)
    ensures
        role_grant(r, subject@, "subject is required"@, assignable),
{
    grant(subject, "subject is required", assignable)
}

/// Whether a token with roles may be minted under a label.
pub fn may_mint(label: &str, assignable: Result<(), String>) -> (r: Result<(), Status>)
    ensures
        role_grant(r, label@, "a token needs a label"@, assignable),
{
    grant(label, "a token needs a label", assignable)
}

/// What is shown of a token's secret: its first 13 characters.
pub open spec fn shown_prefix(secret: Seq<char>) -> Seq<char> {
    if secret.len() > 13 {
        secret.take(13)
    } else {
        secret
    }
}

/// The token to keep for a secret that was minted: its digest, and what is shown of it.
pub fn new_token(
    id: String,
    label: String,
    roles: Vec<String>,
    principal: Option<String>,
    secret: &str,
    hash: String,
) -> (t: ApiToken)
    ensures
        t.id == id,
        t.label == label,
        t.prefix@ == shown_prefix(secret@),
        t.hash == hash,
        t.roles == roles,
        t.owner@ == (match principal {
            Some(p) => p@,
            None => Seq::empty(),
        }),
        t.created_at_ms == 0,
        t.expires_at_ms is None,
{
    let n: usize = chars_of(secret).len();
    let prefix = if n > 13 {
        let head = secret.substring_char(0, 13);
        assert(head@ =~= secret@.take(13));
        head.to_owned()
    } else {
        secret.to_owned()
    };
    let owner = match principal {
        Some(p) => p,
        None => String::new(),
    };
    ApiToken {
        id,
        label,
        prefix,
        hash,
        roles,
        owner,
        created_at_ms: 0,
        expires_at_ms: None,
    }
}

/// What is shown of a token: neither its secret nor its digest.
#[derive(Debug)]
pub struct ApiTokenMeta {
    pub id: String,
    pub label: String,
    pub prefix: String,
    pub roles: Vec<String>,
    pub owner: String,
    pub created_at_ms: i64,
}

/// What is shown of a token.
pub fn token_meta(t: ApiToken) -> (m: ApiTokenMeta)
    ensures
        m == (ApiTokenMeta {
            id: t.id,
            label: t.label,
            prefix: t.prefix,
            roles: t.roles,
            owner: t.owner,
            created_at_ms: t.created_at_ms,
        }),
{
    ApiTokenMeta {
        id: t.id,
        label: t.label,
        prefix: t.prefix,
        roles: t.roles,
        owner: t.owner,
        created_at_ms: t.created_at_ms,
    }
}

/// Refuses an alias without a name.
pub fn named_alias(alias: &str) -> (r: Result<(), Status>)
    ensures
        match r {
            Ok(_) => alias@.len() > 0,
            Err(e) => alias@.len() == 0 && e@ == plain(
                Code::InvalidArgument,
                "alias name is required"@,
            ),
        },
{
    if alias.is_empty() {
        return Err(Status::fixed(Code::InvalidArgument, "alias name is required"));
    }
    Ok(())
}

/// What is logged of an alias at the index that it now names.
pub fn alias_activity(alias: &str, target: &str) -> (m: String)
    ensures
        m@ == "alias `"@ + alias@ + "` → `"@ + target@ + "` swapped"@,
{
    let mut m = "alias `".to_owned();
    m.append(alias);
    m.append("` → `");
    m.append(target);
    m.append("` swapped");
    m
}

/// What is logged of a new index.
pub fn created_activity(name: &str) -> (m: String)
    ensures
        m@ == "index `"@ + name@ + "` created"@,
{
    let mut m = "index `".to_owned();
    m.append(name);
    m.append("` created");
    m
}

/// Refuses a new index whose name is taken.
pub fn may_create(name: String, taken: bool) -> (r: Result<(), Status>)
    ensures
        match r {
            Ok(_) => !taken,
            Err(e) => taken && e@ == registry_answer(RegistryError::AlreadyExists(name)),
        },
{
    if taken {
        return Err(registry_status(RegistryError::AlreadyExists(name)));
    }
    Ok(())
}

/// What keeps a definition from being used.
#[derive(Debug)]
pub enum DefinitionFault {
    /// It could not be read.
    Unreadable(String),
    /// It does not fit its source.
    Unresolved(String),
    /// The definition that a node sent could not be read.
    UnreadableJson(String),
    /// The definition that a node is to be altered to could not be read.
    UnreadableCandidate(String),
    /// The definition that a node is to be altered to does not fit its source.
    UnresolvedCandidate(String),
}

/// What is said of a definition that cannot be used.
pub open spec fn fault_text(f: DefinitionFault) -> Seq<char> {
    match f {
        DefinitionFault::Unreadable(e) => "invalid definition: "@ + e@,
        DefinitionFault::Unresolved(e) => "definition does not resolve: "@ + e@,
        DefinitionFault::UnreadableJson(e) => "invalid definition_json: "@ + e@,
        DefinitionFault::UnreadableCandidate(e) => "invalid candidate definition: "@ + e@,
        DefinitionFault::UnresolvedCandidate(e) => "candidate does not resolve: "@ + e@,
    }
}

/// The answer to a definition that cannot be used.
pub fn definition_refused(f: DefinitionFault) -> (s: Status)
    ensures
        s@ == plain(Code::InvalidArgument, fault_text(f)),
{
    let (before, detail) = match f {
        DefinitionFault::Unreadable(e) => ("invalid definition: ", e),
        DefinitionFault::Unresolved(e) => ("definition does not resolve: ", e),
        DefinitionFault::UnreadableJson(e) => ("invalid definition_json: ", e),
        DefinitionFault::UnreadableCandidate(e) => ("invalid candidate definition: ", e),
        DefinitionFault::UnresolvedCandidate(e) => ("candidate does not resolve: ", e),
    };
    let mut m = before.to_owned();
    m.append(detail.as_str());
    Status::new(Code::InvalidArgument, m)
}

/// What a change of a cluster's definition came to.
#[derive(Debug)]
pub struct AlterControlResponse {
    pub is_noop: bool,
    pub requires_reindex: bool,
    pub reindex_reasons: Vec<String>,
    pub in_place_changes: Vec<String>,
    pub applied: bool,
    pub reindex_triggered: bool,
    pub generation: u64,
}

/// What is to be done about a change of a cluster's definition.
#[derive(Debug, Clone, Copy, PartialEq, Eq, Structural)]
pub enum AlterAction {
    /// The plan is all that was asked for, or nothing changes.
    Answer,
    /// The new definition is stored in place of that of version `expected`. Where another version
    /// is stored by now, someone else changed it since: storing fails and theirs stays.
    Store { expected: u64 },
    /// The same, and then every shard is rebuilt by it.
    StoreAndReindex { expected: u64 },
}

/// What is to be done about a change that was planned from the definition of `version`, and the
/// answer where nothing is.
pub fn alter_action(plan: AlterPlan, apply: bool, version: u64, generation: u64) -> (r: (
    AlterAction,
    AlterControlResponse,
))
    ensures
        r.0 == (if !apply || plan.noop() {
            AlterAction::Answer
        } else if plan.reindex_reasons@.len() > 0 {
            AlterAction::StoreAndReindex { expected: version }
        } else {
            AlterAction::Store { expected: version }
        }),
        r.1 == (AlterControlResponse {
            is_noop: plan.noop(),
            requires_reindex: plan.reindex_reasons@.len() > 0,
            reindex_reasons: plan.reindex_reasons,
            in_place_changes: plan.in_place,
            applied: false,
            reindex_triggered: false,
            generation,
        }),
{
    let action = if !apply || plan.is_noop() {
        AlterAction::Answer
    } else if plan.requires_reindex() {
        AlterAction::StoreAndReindex { expected: version }
    } else {
        AlterAction::Store { expected: version }
    };
    let resp = AlterControlResponse {
        is_noop: plan.is_noop(),
        requires_reindex: plan.requires_reindex(),
        reindex_reasons: plan.reindex_reasons,
        in_place_changes: plan.in_place,
        applied: false,
        reindex_triggered: false,
        generation,
    };
    (action, resp)
}

impl AlterControlResponse {
    /// The answer once the definition is stored and, where `reindexed` gives the generation that it
    /// brought, the shards are rebuilt.
    pub fn done(self, reindexed: Option<u64>) -> (r: AlterControlResponse)
        ensures
            r == (AlterControlResponse {
                applied: true,
                reindex_triggered: reindexed is Some || self.reindex_triggered,
                generation: match reindexed {
                    Some(g) => g,
                    None => self.generation,
                },
                ..self
            }),
    {
        let mut r = self;
        r.applied = true;
        if let Some(g) = reindexed {
            r.reindex_triggered = true;
            r.generation = g;
        }
        r
    }
}

/// What is logged of a changed definition.
pub fn alter_activity(index: &str, reindexed: bool) -> (m: String)
    ensures
        m@ == "altered `"@ + index@ + "` (reindex="@ + (if reindexed {
            "true"@
        } else {
            "false"@
        }) + ")"@,
{
    let mut m = "altered `".to_owned();
    m.append(index);
    m.append("` (reindex=");
    m.append(
        if reindexed {
            "true"
        } else {
            "false"
        },
    );
    m.append(")");
    m
}

/// What a deployment may use, and what it uses.
#[derive(Debug)]
pub struct GetLicenseResponse {
    pub licensed: bool,
    pub licensee: String,
    pub max_nodes: u32,
    pub current_nodes: u32,
}

impl ControlPlaneService {
    /// What the deployment may use, where `current_nodes` nodes hold primaries.
    pub fn license_status(&self, current_nodes: u32) -> (r: GetLicenseResponse)
        ensures
            r.licensed == self.license is Some,
            r.licensee@ == (match self.license {
                Some(l) => l.licensee@,
                None => Seq::empty(),
            }),
            r.max_nodes == self.entitlement(),
            r.current_nodes == current_nodes,
    {
        let (licensed, licensee) = match &self.license {
            Some(l) => (true, l.licensee.clone()),
            None => (false, String::new()),
        };
        GetLicenseResponse {
            licensed,
            licensee,
            max_nodes: self.entitled_nodes() as u32,
            current_nodes,
        }
    }
}

/// How often units of dead nodes are looked for, in milliseconds, where a node counts as dead after
/// `ttl_ms`.
pub fn dead_owner_period_ms(ttl_ms: i64) -> (p: u64)
    ensures
        p == (if ttl_ms >= 2000 {
            ttl_ms as int / 2
        } else {
            1000
        }),
{
    if ttl_ms >= 2000 {
        (ttl_ms / 2) as u64
    } else {
        1000
    }
}

/// How often placement is brought up to date, in milliseconds, where nodes report every
/// `report_ms`.
pub fn placement_period_ms(report_ms: i64) -> (p: u64)
    ensures
        p == (if report_ms >= 4000 {
            report_ms as int / 4
        } else {
            1000
        }),
{
    if report_ms >= 4000 {
        (report_ms / 4) as u64
    } else {
        1000
    }
}

/// How often ingestion is sampled, in seconds.
pub fn sample_period_secs(asked: u64) -> (p: u64)
    ensures
        p == (if asked > 1 {
            asked
        } else {
            1
        }),
{
    if asked > 1 {
        asked
    } else {
        1
    }
}

} // verus!
