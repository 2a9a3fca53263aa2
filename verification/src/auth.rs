//! Authorization: what a policy is asked about a request, and how a denial is answered.
use tonic::metadata::MetadataMap;
use vstd::prelude::*;
use vstd::string::*;

use crate::metadata::{
    contents, header, header_text, INDEXES_KEY, PRINCIPAL_KEY, ROLES_KEY, TENANT_KEY,
};
use crate::status::{tagged, Code, Status, StatusView};
use crate::text::{list_items, listed, Separator};

verus! {

/// What a policy is asked about.
#[derive(Debug, Clone, Default, PartialEq, Eq)]
pub struct AuthContext {
    /// The RPC method being called.
    pub method: &'static str,
    /// The authenticated principal, if the request carried one.
    pub principal: Option<String>,
    /// The tenant that the request is scoped to, if any.
    pub tenant: Option<String>,
    /// The caller's roles.
    pub roles: Vec<String>,
    /// The index that the request is about, where it was resolved.
    pub index: Option<String>,
    /// The indexes that the caller may use; none means no restriction.
    pub allowed_indexes: Vec<String>,
}

/// What an [`AuthContext`] says.
pub struct AuthContextView {
    pub method: Seq<char>,
    pub principal: Option<Seq<char>>,
    pub tenant: Option<Seq<char>>,
    pub roles: Seq<Seq<char>>,
    pub index: Option<Seq<char>>,
    pub allowed_indexes: Seq<Seq<char>>,
}

impl View for AuthContext {
    type V = AuthContextView;

    open spec fn view(&self) -> AuthContextView {
        AuthContextView {
            method: self.method@,
            principal: self.principal.deep_view(),
            tenant: self.tenant.deep_view(),
            roles: self.roles.deep_view(),
            index: self.index.deep_view(),
            allowed_indexes: self.allowed_indexes.deep_view(),
        }
    }
}

/// A denial, with the reason that the caller is told.
#[derive(Debug, Clone)]
pub struct AuthDenied {
    /// Why the request was rejected.
    pub reason: String,
}

impl AuthDenied {
    /// Denies for `reason`.
    pub fn new(reason: String) -> (d: AuthDenied)
        ensures
            d.reason == reason,
    {
        AuthDenied { reason }
    }
}

/// An authorization policy. It runs on every RPC, so it is to be cheap and free of side effects.
pub trait AuthHook: Send + Sync {
    /// Whether the policy may answer so to what `ctx` describes. A policy that says nothing of it
    /// may answer anything.
    open spec fn may_answer(&self, ctx: AuthContextView, answer: Result<(), AuthDenied>) -> bool {
        true
    }

    /// Decides on the request that `ctx` describes.
    fn authorize(&self, ctx: &AuthContext) -> (answer: Result<(), AuthDenied>)
        ensures
            self.may_answer(ctx@, answer),
    ;

    /// Whether the policy may decide by the caller's identity. One that says nothing of it may.
    open spec fn by_identity(&self) -> bool {
        true
    }

    /// Whether the policy decides by the caller's identity. A service that holds such a policy
    /// must verify identities itself: it would otherwise decide by what callers assert.
    fn is_authorizing(&self) -> (b: bool)
        ensures
            b ==> self.by_identity(),
        default_ensures
            !b,
    {
        false
    }
}

/// The policy that permits every request.
#[derive(Debug, Clone, Default)]
pub struct AllowAll;

impl AuthHook for AllowAll {
    open spec fn may_answer(&self, ctx: AuthContextView, answer: Result<(), AuthDenied>) -> bool {
        answer is Ok
    }

    open spec fn by_identity(&self) -> bool {
        false
    }

    fn authorize(&self, _ctx: &AuthContext) -> (answer: Result<(), AuthDenied>) {
        Ok(())
    }
}

/// The policy that a service holds, whatever its type.
pub struct SharedAuth {
    pub hook: Box<dyn AuthHook>,
}

impl SharedAuth {
    /// Whether the policy may answer so to what `ctx` describes.
    pub open spec fn may_answer(&self, ctx: AuthContextView, answer: Result<(), AuthDenied>) -> bool {
        self.hook.may_answer(ctx, answer)
    }

    /// Whether the policy may decide by the caller's identity.
    pub open spec fn by_identity(&self) -> bool {
        self.hook.by_identity()
    }
}

/// The policy of a service that is given none.
pub fn default_auth() -> (a: SharedAuth)
    ensures
        forall|ctx: AuthContextView, answer: Result<(), AuthDenied>| #[trigger]
            a.may_answer(ctx, answer) ==> answer is Ok,
        !a.by_identity(),
{
    SharedAuth { hook: Box::new(AllowAll) }
}

/// The items listed under `key`; none where there is no readable text.
pub open spec fn header_list(md: Map<Seq<char>, Seq<u8>>, key: Seq<char>) -> Seq<Seq<char>> {
    match header(md, key) {
        Some(s) => listed(s, Separator::Comma),
        None => Seq::empty(),
    }
}

/// The context of a request with metadata `md`.
pub open spec fn context_of(
    method: Seq<char>,
    index: Option<Seq<char>>,
    md: Map<Seq<char>, Seq<u8>>,
) -> AuthContextView {
    AuthContextView {
        method,
        principal: header(md, PRINCIPAL_KEY@),
        tenant: header(md, TENANT_KEY@),
        roles: header_list(md, ROLES_KEY@),
        index,
        allowed_indexes: header_list(md, INDEXES_KEY@),
    }
}

/// The status of a denial.
pub open spec fn denied_status(reason: Seq<char>) -> StatusView {
    tagged(Code::PermissionDenied, "PERMISSION_DENIED"@, reason)
}

/// What is answered to a request that a policy decided on.
pub open spec fn answered(r: Result<(), Status>, answer: Result<(), AuthDenied>) -> bool {
    match answer {
        Ok(_) => r is Ok,
        Err(denied) => r matches Err(e) && e@ == denied_status(denied.reason@),
    }
}

/// The items listed under `key`.
pub fn header_items(md: &MetadataMap, key: &'static str) -> (items: Vec<String>)
    requires
        crate::metadata::known_key(key@),
    ensures
        items.deep_view() == header_list(contents(*md), key@),
{
    match header_text(md, key) {
        Some(s) => list_items(s.as_str(), Separator::Comma),
        None => {
            let none: Vec<String> = Vec::new();
            assert(none.deep_view() =~= Seq::empty());
            none
        },
    }
}

/// The context of a request, from its metadata.
pub fn request_context(method: &'static str, index: Option<&str>, md: &MetadataMap) -> (ctx:
    AuthContext)
    ensures
        ctx@ == context_of(method@, index.deep_view(), contents(*md)),
{
    let index = match index {
        Some(i) => Some(i.to_owned()),
        None => None,
    };
    AuthContext {
        method,
        principal: header_text(md, PRINCIPAL_KEY),
        tenant: header_text(md, TENANT_KEY),
        roles: header_items(md, ROLES_KEY),
        index,
        allowed_indexes: header_items(md, INDEXES_KEY),
    }
}

/// What is answered to a request that a policy decided on.
pub fn answer_of(answer: Result<(), AuthDenied>) -> (r: Result<(), Status>)
    ensures
        answered(r, answer),
{
    match answer {
        Ok(_) => Ok(()),
        Err(denied) => Err(
            Status::with_reason(Code::PermissionDenied, "PERMISSION_DENIED", denied.reason),
        ),
    }
}

/// Asks the policy about a request, by its metadata alone.
pub fn authorize(auth: &SharedAuth, method: &'static str, md: &MetadataMap) -> (r: Result<
    (),
    Status,
>)
    ensures
        exists|answer: Result<(), AuthDenied>| #[trigger]
            auth.may_answer(context_of(method@, None, contents(*md)), answer) && answered(
                r,
                answer,
            ),
{
    authorize_index(auth, method, None, md)
}

/// Asks the policy about a request for `index`: what the policy is asked is what the metadata
/// says, and a denial is answered as such.
pub fn authorize_index(
    auth: &SharedAuth,
    method: &'static str,
    index: Option<&str>,
    md: &MetadataMap,
) -> (r: Result<(), Status>)
    ensures
        exists|answer: Result<(), AuthDenied>| #[trigger]
            auth.may_answer(context_of(method@, index.deep_view(), contents(*md)), answer)
                && answered(r, answer),
{
    let ctx = request_context(method, index, md);
    let answer = auth.hook.authorize(&ctx);
    let ghost a = answer;
    let r = answer_of(answer);
    assert(auth.may_answer(ctx@, a));
    r
}

/// The tenant that a request carries.
pub fn tenant_of(md: &MetadataMap) -> (t: Option<String>)
    ensures
        t.deep_view() == header(contents(*md), TENANT_KEY@),
{
    header_text(md, TENANT_KEY)
}

} // verus!
