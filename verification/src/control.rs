//! The control plane's front door: who calls, with which roles, and whether they may; and the
//! built-in login.
use tonic::metadata::MetadataMap;
use vstd::prelude::*;
use vstd::string::*;

use crate::auth::{
    answer_of, answered, default_auth, denied_status, header_items, header_list, AuthContext,
    AuthContextView, AuthDenied, SharedAuth,
};
use crate::authn::{
    authn_status, error_text, outcome, unauthenticated, AuthnError, AuthnErrorView, SharedAuthn,
    VerifiedView,
};
use crate::jwt::{
    mint_session_jwt, minted, BUILTIN_SESSION_AUDIENCE, BUILTIN_SESSION_ISSUER,
    BUILTIN_SESSION_TTL_SECS,
};
use crate::metadata::{
    contents, header, header_text, AUTHORIZATION_KEY, PRINCIPAL_KEY, ROLES_KEY, TENANT_KEY,
};
use crate::registry::FREE_NODE_LIMIT;
use crate::status::{plain, tagged, Code, Status, StatusView};
use crate::text::{append_decimal, decimal, same};
use crate::throttle::{failed, locked_at, LoginThrottle};

verus! {

/// A verified license that raises the node limit.
#[derive(Debug)]
pub struct License {
    pub licensee: String,
    pub max_nodes: u32,
    pub expires_at: Option<i64>,
}

/// How a control plane is set up.
pub struct ControlPlaneService {
    pub auth: SharedAuth,
    /// Verifies callers where there is one; else what the gateway stamped is trusted.
    pub authn: Option<SharedAuthn>,
    /// Signs sessions; without it there is no built-in login.
    pub session_secret: Option<Vec<u8>>,
    pub license: Option<License>,
    /// The holders of each unit: a primary and the rest read replicas.
    pub replication_factor: usize,
}

/// Who calls the control plane.
#[derive(Debug)]
pub struct Caller {
    pub principal: String,
    pub roles: Vec<String>,
    pub tenant: Option<String>,
    /// When the credential was issued, in seconds since the epoch, where that is to be checked.
    pub issued_at: Option<u64>,
}

/// What a [`Caller`] says.
pub struct CallerView {
    pub principal: Seq<char>,
    pub roles: Seq<Seq<char>>,
    pub tenant: Option<Seq<char>>,
    pub issued_at: Option<u64>,
}

impl View for Caller {
    type V = CallerView;

    open spec fn view(&self) -> CallerView {
        CallerView {
            principal: self.principal@,
            roles: self.roles.deep_view(),
            tenant: self.tenant.deep_view(),
            issued_at: self.issued_at,
        }
    }
}

/// The caller that a verified identity names.
pub open spec fn verified_caller(v: VerifiedView) -> CallerView {
    CallerView {
        principal: v.principal,
        roles: v.roles,
        tenant: v.tenant,
        issued_at: v.issued_at,
    }
}

/// The caller that stamped metadata names.
pub open spec fn stamped_caller(md: Map<Seq<char>, Seq<u8>>) -> CallerView {
    CallerView {
        principal: match header(md, PRINCIPAL_KEY@) {
            Some(p) => p,
            None => Seq::empty(),
        },
        roles: header_list(md, ROLES_KEY@),
        tenant: header(md, TENANT_KEY@),
        issued_at: None,
    }
}

/// A number of 64 bits read as a signed one.
pub open spec fn as_signed(n: u64) -> int {
    if n > i64::MAX {
        n - 0x1_0000_0000_0000_0000
    } else {
        n as int
    }
}

/// A number of milliseconds in whole seconds, towards zero.
pub open spec fn whole_secs(ms: i64) -> int {
    if ms >= 0 {
        ms / 1000
    } else {
        -((-ms) / 1000)
    }
}

/// Whether a credential issued at `iat` is older than the subject's session epoch.
pub open spec fn superseded(iat: Option<u64>, epoch_ms: i64) -> bool {
    iat matches Some(t) && as_signed(t) < whole_secs(epoch_ms)
}

/// `roles` and those of `bound` that it lacks.
pub open spec fn merged(roles: Seq<Seq<char>>, bound: Seq<Seq<char>>) -> Seq<Seq<char>>
    decreases bound.len(),
{
    if bound.len() == 0 {
        roles
    } else {
        let before = merged(roles, bound.drop_last());
        if before.contains(bound.last()) {
            before
        } else {
            before.push(bound.last())
        }
    }
}

/// What the policy is asked about a caller: control-plane operations go by role, not by index.
pub open spec fn gate_context(
    method: Seq<char>,
    caller: CallerView,
    bound: Seq<Seq<char>>,
) -> AuthContextView {
    AuthContextView {
        method,
        principal: if caller.principal.len() == 0 {
            None
        } else {
            Some(caller.principal)
        },
        tenant: caller.tenant,
        roles: merged(caller.roles, bound),
        index: None,
        allowed_indexes: Seq::empty(),
    }
}

/// The answer to a session that a role change has superseded.
pub open spec fn superseded_status() -> StatusView {
    tagged(
        Code::Unauthenticated,
        "UNAUTHENTICATED"@,
        "session superseded by a role change — please sign in again"@,
    )
}

/// What is answered to a caller whose policy decision is `answer`.
pub open spec fn gated(
    r: Result<AuthContext, Status>,
    ctx: AuthContextView,
    answer: Result<(), AuthDenied>,
) -> bool {
    match answer {
        Ok(_) => r matches Ok(c) && c@ == ctx,
        Err(denied) => r matches Err(e) && e@ == denied_status(denied.reason@),
    }
}

/// Every role that is bound to a subject is among those it is judged by, and every role of its
/// credential stays.
pub proof fn lemma_bound_roles_count(roles: Seq<Seq<char>>, bound: Seq<Seq<char>>, role: Seq<char>)
    ensures
        merged(roles, bound).contains(role) <==> roles.contains(role) || bound.contains(role),
    decreases bound.len(),
{
    if bound.len() > 0 {
        let rest = bound.drop_last();
        let before = merged(roles, rest);
        let last = bound.last();
        lemma_bound_roles_count(roles, rest, role);
        assert(bound =~= rest.push(last));
        assert(bound.contains(role) <==> rest.contains(role) || role == last) by {
            if rest.contains(role) {
                let i = choose|i: int| 0 <= i < rest.len() && rest[i] == role;
                assert(bound[i] == role);
            }
            if role == last {
                assert(bound[bound.len() - 1] == role);
            }
            if bound.contains(role) && role != last {
                let i = choose|i: int| 0 <= i < bound.len() && bound[i] == role;
                assert(rest[i] == role);
            }
        }
        let after = before.push(last);
        assert(after.contains(role) <==> before.contains(role) || role == last) by {
            if before.contains(role) {
                let i = choose|i: int| 0 <= i < before.len() && before[i] == role;
                assert(after[i] == role);
            }
            assert(after[before.len() as int] == last);
            if after.contains(role) && role != last {
                let i = choose|i: int| 0 <= i < after.len() && after[i] == role;
                assert(before[i] == role);
            }
        }
    }
}

fn holds_role(roles: &Vec<String>, role: &str) -> (b: bool)
    ensures
        b == roles.deep_view().contains(role@),
{
    let mut i: usize = 0;
    while i < roles.len()
        invariant
            i <= roles@.len(),
            forall|k: int| 0 <= k < i ==> roles.deep_view()[k] != role@,
        decreases roles@.len() - i,
    {
        assert(roles.deep_view()[i as int] == roles@[i as int]@);
        if same(roles[i].as_str(), role) {
            return true;
        }
        i = i + 1;
    }
    false
}

fn merge_roles(roles: Vec<String>, bound: &Vec<String>) -> (out: Vec<String>)
    ensures
        out.deep_view() == merged(roles.deep_view(), bound.deep_view()),
{
    let ghost given = roles.deep_view();
    let ghost all = bound.deep_view();
    let mut out = roles;
    let mut i: usize = 0;
    assert(all.take(0) =~= Seq::empty());
    while i < bound.len()
        invariant
            all == bound.deep_view(),
            i <= bound@.len(),
            out.deep_view() == merged(given, all.take(i as int)),
        decreases bound@.len() - i,
    {
        assert(all.take(i + 1).drop_last() =~= all.take(i as int));
        assert(all.take(i + 1).last() == bound@[i as int]@);
        let ghost before = out.deep_view();
        if !holds_role(&out, bound[i].as_str()) {
            out.push(bound[i].clone());
            assert(out.deep_view() =~= before.push(bound@[i as int]@));
        }
        i = i + 1;
    }
    assert(all.take(i as int) =~= all);
    out
}

fn is_superseded(iat: Option<u64>, epoch_ms: i64) -> (b: bool)
    ensures
        b == superseded(iat, epoch_ms),
{
    match iat {
        Some(t) => {
            let signed: i128 = if t > 0x7fff_ffff_ffff_ffff {
                t as i128 - 0x1_0000_0000_0000_0000
            } else {
                t as i128
            };
            let ms: i128 = epoch_ms as i128;
            let secs: i128 = if ms >= 0 {
                (ms as u128 / 1000) as i128
            } else {
                -(((-ms) as u128 / 1000) as i128)
            };
            signed < secs
        },
        None => false,
    }
}

impl ControlPlaneService {
    /// A control plane that lets everyone do everything.
    pub fn new() -> (s: ControlPlaneService)
        ensures
            forall|ctx: AuthContextView, answer: Result<(), AuthDenied>| #[trigger]
                s.auth.may_answer(ctx, answer) ==> answer is Ok,
            !s.auth.by_identity(),
            s.authn is None,
            s.session_secret is None,
            s.license is None,
            s.replication_factor == 1,
    {
        ControlPlaneService::with_auth(default_auth())
    }

    /// A control plane under a policy.
    pub fn with_auth(auth: SharedAuth) -> (s: ControlPlaneService)
        ensures
            s.auth == auth,
            s.authn is None,
            s.session_secret is None,
            s.license is None,
            s.replication_factor == 1,
    {
        ControlPlaneService {
            auth,
            authn: None,
            session_secret: None,
            license: None,
            replication_factor: 1,
        }
    }

    /// Installs a license, or takes it away.
    pub fn with_license(self, license: Option<License>) -> (s: ControlPlaneService)
        ensures
            s == (ControlPlaneService { license, ..self }),
    {
        let mut s = self;
        s.license = license;
        s
    }

    /// Sets the number of holders of each unit, at least one.
    pub fn with_replication_factor(self, r: usize) -> (s: ControlPlaneService)
        ensures
            s == (ControlPlaneService {
                replication_factor: if r == 0 {
                    1
                } else {
                    r
                },
                ..self
            }),
    {
        let mut s = self;
        s.replication_factor = if r == 0 {
            1
        } else {
            r
        };
        s
    }

    /// The nodes that may hold primaries: as many as the license says, or as the free tier has.
    pub open spec fn entitlement(&self) -> usize {
        match self.license {
            Some(l) => l.max_nodes as usize,
            None => FREE_NODE_LIMIT,
        }
    }

    /// The nodes that may hold primaries.
    pub fn entitled_nodes(&self) -> (n: usize)
        ensures
            n == self.entitlement(),
    {
        match &self.license {
            Some(l) => l.max_nodes as usize,
            None => FREE_NODE_LIMIT,
        }
    }

    /// Verifies callers with `authn`.
    pub fn with_authn(self, authn: SharedAuthn) -> (s: ControlPlaneService)
        ensures
            s == (ControlPlaneService { authn: Some(authn), ..self }),
    {
        let mut s = self;
        s.authn = Some(authn);
        s
    }

    /// Enables the built-in login, with sessions signed by `secret`.
    pub fn with_session_secret(self, secret: Vec<u8>) -> (s: ControlPlaneService)
        ensures
            s == (ControlPlaneService { session_secret: Some(secret), ..self }),
    {
        let mut s = self;
        s.session_secret = Some(secret);
        s
    }

    /// Who calls: the verified identity where there is an authenticator, else what the gateway
    /// stamped.
    pub fn identify(&self, md: &MetadataMap) -> (r: Result<Caller, Status>)
        ensures
            match self.authn {
                None => r matches Ok(c) && c@ == stamped_caller(contents(*md)),
                Some(authn) => exists|a: Result<VerifiedView, AuthnErrorView>| #[trigger]
                    authn.may_yield(header(contents(*md), AUTHORIZATION_KEY@), a) && match a {
                        Ok(v) => r matches Ok(c) && c@ == verified_caller(v),
                        Err(e) => r matches Err(s) && s@ == unauthenticated(e),
                    },
            },
    {
        match &self.authn {
            Some(authn) => {
                let authorization = header_text(md, AUTHORIZATION_KEY);
                let answer = match &authorization {
                    Some(s) => authn.authn.authenticate(Some(s.as_str())),
                    None => authn.authn.authenticate(None),
                };
                let ghost a = outcome(answer);
                assert(authn.may_yield(header(contents(*md), AUTHORIZATION_KEY@), a));
                match answer {
                    Ok(v) => Ok(
                        Caller {
                            principal: v.principal,
                            roles: v.roles,
                            tenant: v.tenant,
                            issued_at: v.issued_at,
                        },
                    ),
                    Err(e) => Err(authn_status(e)),
                }
            },
            None => {
                let principal = match header_text(md, PRINCIPAL_KEY) {
                    Some(p) => p,
                    None => String::new(),
                };
                Ok(
                    Caller {
                        principal,
                        roles: header_items(md, ROLES_KEY),
                        tenant: header_text(md, TENANT_KEY),
                        issued_at: None,
                    },
                )
            },
        }
    }

    /// Decides on a call, by the caller, the subject's session epoch and the roles bound to it: a
    /// session older than the epoch is refused, and the policy is asked with the bound roles
    /// counted in.
    pub fn gate(
        &self,
        method: &'static str,
        caller: Caller,
        epoch_ms: i64,
        bound_roles: &Vec<String>,
    ) -> (r: Result<AuthContext, Status>)
        ensures
            if superseded(caller.issued_at, epoch_ms) {
                r matches Err(e) && e@ == superseded_status()
            } else {
                exists|answer: Result<(), AuthDenied>| #[trigger]
                    self.auth.may_answer(
                        gate_context(method@, caller@, bound_roles.deep_view()),
                        answer,
                    ) && gated(
                        r,
                        gate_context(method@, caller@, bound_roles.deep_view()),
                        answer,
                    )
            },
    {
        if is_superseded(caller.issued_at, epoch_ms) {
            return Err(
                Status::with_reason(
                    Code::Unauthenticated,
                    "UNAUTHENTICATED",
                    "session superseded by a role change — please sign in again".to_owned(),
                ),
            );
        }
        let ghost who = caller@;
        let principal = if caller.principal.as_str().is_empty() {
            None
        } else {
            Some(caller.principal)
        };
        let ctx = AuthContext {
            method,
            principal,
            tenant: caller.tenant,
            roles: merge_roles(caller.roles, bound_roles),
            index: None,
            allowed_indexes: Vec::new(),
        };
        assert(ctx.allowed_indexes.deep_view() =~= Seq::empty());
        assert(ctx@ == gate_context(method@, who, bound_roles.deep_view()));
        let answer = self.auth.hook.authorize(&ctx);
        assert(self.auth.may_answer(ctx@, answer));
        match answer_of(answer) {
            Ok(_) => Ok(ctx),
            Err(e) => Err(e),
        }
    }

    /// Admits a login attempt to the password check: there is a built-in login, the request names
    /// an account, and the account is not locked.
    pub fn admit_login(&self, username: &str, throttle: &LoginThrottle, now: u64) -> (r: Result<
        (),
        Status,
    >)
        requires
            throttle.wf(),
        ensures
            if self.session_secret is None {
                r matches Err(e) && e@ == plain(
                    Code::Unimplemented,
                    "built-in login is not enabled on this deployment"@,
                )
            } else if username@.len() == 0 {
                r matches Err(e) && e@ == plain(Code::InvalidArgument, "username is required"@)
            } else if throttle@.contains_key(username@) && locked_at(throttle@[username@], now) {
                r matches Err(e) && e@ == plain(
                    Code::Unavailable,
                    locked_text((throttle@[username@].locked_until_ms->0 - now) as u64),
                )
            } else {
                r is Ok
            },
    {
        if self.session_secret.is_none() {
            return Err(
                Status::fixed(
                    Code::Unimplemented,
                    "built-in login is not enabled on this deployment",
                ),
            );
        }
        if username.is_empty() {
            return Err(Status::fixed(Code::InvalidArgument, "username is required"));
        }
        match throttle.locked_for(username, now) {
            Some(ms) => {
                let secs: u64 = if ms < 1000 {
                    1
                } else {
                    ms / 1000
                };
                let mut m = "too many failed attempts; retry in ".to_owned();
                append_decimal(&mut m, secs);
                m.append("s");
                Err(Status::new(Code::Unavailable, m))
            },
            None => Ok(()),
        }
    }

    /// The session of an account that logged in, with the roles and the index allowlist bound to
    /// it. [`session_answer`] says what is answered for each outcome of minting its token.
    pub fn open_session(
        &self,
        username: &str,
        roles: Vec<String>,
        indexes: &Vec<String>,
        now_ms: i64,
    ) -> (r: Result<LoginResponse, Status>)
        requires
            self.session_secret is Some,
            now_ms <= i64::MAX - 1000 * BUILTIN_SESSION_TTL_SECS,
        ensures
            exists|token: Result<String, AuthnError>| #[trigger]
                minted(
                    token,
                    username@,
                    roles.deep_view(),
                    indexes.deep_view(),
                    BUILTIN_SESSION_ISSUER@,
                    BUILTIN_SESSION_AUDIENCE@,
                    BUILTIN_SESSION_TTL_SECS,
                    None,
                    self.session_secret->0@,
                ) && answers_login(r, token, roles, now_ms),
    {
        let empty: Vec<u8> = Vec::new();
        let secret = match &self.session_secret {
            Some(s) => s,
            None => &empty,
        };
        let held = roles.as_slice();
        let scope = indexes.as_slice();
        assert(held.deep_view() =~= roles.deep_view());
        assert(scope.deep_view() =~= indexes.deep_view());
        let name: Option<&str> = None;
        assert(name.deep_view() == None::<Seq<char>>);
        let token = mint_session_jwt(
            secret.as_slice(),
            username,
            held,
            scope,
            BUILTIN_SESSION_ISSUER,
            BUILTIN_SESSION_AUDIENCE,
            BUILTIN_SESSION_TTL_SECS,
            name,
        );
        assert(minted(
            token,
            username@,
            roles.deep_view(),
            indexes.deep_view(),
            BUILTIN_SESSION_ISSUER@,
            BUILTIN_SESSION_AUDIENCE@,
            BUILTIN_SESSION_TTL_SECS,
            None,
            self.session_secret->0@,
        ));
        session_answer(token, roles, now_ms)
    }
}

/// Whether `r` answers a login for which `token` was minted: the session with its roles and its end,
/// or the failure to mint it.
pub open spec fn answers_login(
    r: Result<LoginResponse, Status>,
    token: Result<String, AuthnError>,
    roles: Vec<String>,
    now_ms: i64,
) -> bool {
    match token {
        Ok(t) => r matches Ok(l) && l.token == t && l.expires_at_ms == now_ms + 1000
            * BUILTIN_SESSION_TTL_SECS && l.roles == roles,
        Err(e) => r matches Err(s) && s@ == plain(Code::Internal, error_text(e@)),
    }
}

/// The answer to a login at `now_ms` for which `token` was minted.
pub fn session_answer(token: Result<String, AuthnError>, roles: Vec<String>, now_ms: i64) -> (r:
    Result<LoginResponse, Status>)
    requires
        now_ms <= i64::MAX - 1000 * BUILTIN_SESSION_TTL_SECS,
    ensures
        answers_login(r, token, roles, now_ms),
{
    match token {
        Ok(token) => Ok(
            LoginResponse {
                token,
                expires_at_ms: now_ms + 1000 * (BUILTIN_SESSION_TTL_SECS as i64),
                roles,
            },
        ),
        Err(e) => Err(Status::new(Code::Internal, e.message())),
    }
}

/// A session that was opened.
#[derive(Debug)]
pub struct LoginResponse {
    pub token: String,
    pub expires_at_ms: i64,
    pub roles: Vec<String>,
}

/// The answer to a locked account.
pub open spec fn locked_text(ms: u64) -> Seq<char> {
    "too many failed attempts; retry in "@ + decimal(
        (if ms < 1000 {
            1
        } else {
            ms / 1000
        }) as nat,
    ) + "s"@
}

/// The answer where too many passwords are being checked.
pub fn login_busy() -> (s: Status)
    ensures
        s@ == plain(Code::Unavailable, "login is busy; retry shortly"@),
{
    Status::fixed(Code::Unavailable, "login is busy; retry shortly")
}

/// Takes the outcome of a password check: a failure counts against the account and is answered
/// the same whether the account exists or not; a success clears its failures.
pub fn login_checked(throttle: &mut LoginThrottle, username: &str, verified: bool, now: u64) -> (r:
    Result<(), Status>)
    requires
        old(throttle).wf(),
        now <= u64::MAX - 300_000,
    ensures
        final(throttle).wf(),
        if verified {
            r is Ok && final(throttle)@ == old(throttle)@.remove(username@)
        } else {
            &&& r matches Err(e) && e@ == plain(
                Code::Unauthenticated,
                "invalid username or password"@,
            )
            &&& final(throttle)@ == failed(old(throttle)@, username@, now)
        },
{
    if verified {
        throttle.record_success(username);
        Ok(())
    } else {
        throttle.record_failure(username, now);
        Err(Status::fixed(Code::Unauthenticated, "invalid username or password"))
    }
}

/// The subject that owns saved queries: the gated principal, empty on an open gateway.
pub fn subject_of(ctx: &AuthContext) -> (s: String)
    ensures
        s@ == match ctx.principal {
            Some(p) => p@,
            None => Seq::empty(),
        },
{
    match &ctx.principal {
        Some(p) => p.clone(),
        None => String::new(),
    }
}

/// Whether a control plane may serve: a policy that decides by identity needs an authenticator,
/// or the identity it decides by is the caller's own word.
pub fn wiring_is_safe(has_authn: bool, policy_is_authorizing: bool) -> (b: bool)
    ensures
        b == !(policy_is_authorizing && !has_authn),
{
    has_authn || !policy_is_authorizing
}

} // verus!
