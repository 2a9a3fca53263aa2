//! What holds of callers: what a policy is asked of them, what becomes of the identity they assert,
//! and what they are refused for.
use tonic::metadata::MetadataMap;
use vstd::prelude::*;
use vstd::utf8::encode_utf8;

use crate::auth::{
    answer_of, authorize, authorize_index, request_context, tenant_of, AuthContext,
    AuthContextView, AuthDenied, SharedAuth,
};
use crate::authn::{
    admit_caller, api_key, authenticate, authn_status, bearer_token, lemma_no_forged_identity,
    scheme_of, stamp_identity, stamped, strip_identity, Anonymous, Authenticator, AuthnError,
    AuthnErrorView, ChainAuthenticator, SharedAuthn, Verified, VerifiedView,
};
use crate::control::{
    lemma_bound_roles_count, login_checked, merged, session_answer, subject_of, wiring_is_safe,
    Caller, ControlPlaneService, LoginResponse,
};
use crate::gateway::{cold_count, ColdStatus, Gateway, WindowStatus};
use crate::metadata::{contents, header, readable, text_of, writable};
use crate::status::{Code, Status};
use crate::text::{is_whitespace, joined, listed, lowered, trim, Separator};
use crate::text_laws::{
    lemma_joined_is_listed, lemma_listed_one, lemma_listed_splits, lemma_trim_cuts, listable,
};
use crate::throttle::LoginThrottle;

verus! {

/// What the commas under this key separate; nothing where there is no readable text.
pub open spec fn items_under(md: Map<Seq<char>, Seq<u8>>, key: Seq<char>) -> Seq<Seq<char>> {
    match header(md, key) {
        Some(s) => listed(s, Separator::Comma),
        None => Seq::empty(),
    }
}

/// Whether a policy is asked what the metadata of a call says, each part by its own header.
pub open spec fn asks(
    ctx: AuthContextView,
    method: Seq<char>,
    index: Option<Seq<char>>,
    md: Map<Seq<char>, Seq<u8>>,
) -> bool {
    &&& ctx.method == method
    &&& ctx.index == index
    &&& ctx.principal == header(md, "x-growlerdb-principal"@)
    &&& ctx.tenant == header(md, "x-growlerdb-tenant"@)
    &&& ctx.roles == items_under(md, "x-growlerdb-roles"@)
    &&& ctx.allowed_indexes == items_under(md, "x-growlerdb-indexes"@)
}

/// The context of a request has each part from its own header, and the method and the index it was
/// made for.
pub proof fn lemma_context_is_of_the_request(
    method: &'static str,
    index: Option<&str>,
    md: MetadataMap,
    ctx: AuthContext,
)
    requires
        call_ensures(request_context, (method, index, &md), ctx),
    ensures
        asks(ctx@, method@, index.deep_view(), contents(md)),
{
}

/// A tenant is read from the header of tenants.
pub proof fn lemma_tenant_is_of_the_request(md: MetadataMap, t: Option<String>)
    requires
        call_ensures(tenant_of, (&md,), t),
    ensures
        t.deep_view() == header(contents(md), "x-growlerdb-tenant"@),
{
}

/// A denial refuses the call for the reason that the policy gave, and only a denial does.
pub proof fn lemma_denial_refuses(answer: Result<(), AuthDenied>, r: Result<(), Status>)
    requires
        call_ensures(answer_of, (answer,), r),
    ensures
        r is Ok <==> answer is Ok,
        answer matches Err(denied) ==> (r matches Err(e) && e.code == Code::PermissionDenied
            && e.reason@ == "PERMISSION_DENIED"@ && e.message@ == denied.reason@),
{
}

/// A call for an index passes only where the policy may permit what the metadata says of it, and is
/// refused only where the policy may deny that, for its reason.
pub proof fn lemma_policy_decides(
    auth: SharedAuth,
    method: &'static str,
    index: Option<&str>,
    md: MetadataMap,
    r: Result<(), Status>,
) -> (asked: (AuthContextView, Result<(), AuthDenied>))
    requires
        call_ensures(authorize_index, (&auth, method, index, &md), r),
    ensures
        asks(asked.0, method@, index.deep_view(), contents(md)),
        auth.may_answer(asked.0, asked.1),
        r is Ok <==> asked.1 is Ok,
        r matches Err(e) ==> e.code == Code::PermissionDenied && e.message@
            == asked.1->Err_0.reason@,
{
    let ctx = crate::auth::context_of(method@, index.deep_view(), contents(md));
    let answer = choose|answer: Result<(), AuthDenied>| #[trigger]
        auth.may_answer(ctx, answer) && crate::auth::answered(r, answer);
    (ctx, answer)
}

/// A call without an index is decided on as one is with it, by its metadata.
pub proof fn lemma_policy_decides_without_index(
    auth: SharedAuth,
    method: &'static str,
    md: MetadataMap,
    r: Result<(), Status>,
) -> (asked: (AuthContextView, Result<(), AuthDenied>))
    requires
        call_ensures(authorize, (&auth, method, &md), r),
    ensures
        asks(asked.0, method@, None, contents(md)),
        auth.may_answer(asked.0, asked.1),
        r is Ok <==> asked.1 is Ok,
        r matches Err(e) ==> e.code == Code::PermissionDenied && e.message@
            == asked.1->Err_0.reason@,
{
    let ctx = crate::auth::context_of(method@, None, contents(md));
    let answer = choose|answer: Result<(), AuthDenied>| #[trigger]
        auth.may_answer(ctx, answer) && crate::auth::answered(r, answer);
    (ctx, answer)
}

/// Whether a header tells who calls.
pub open spec fn tells_identity(key: Seq<char>) -> bool {
    ||| key == "x-growlerdb-principal"@
    ||| key == "x-growlerdb-tenant"@
    ||| key == "x-growlerdb-roles"@
    ||| key == "x-growlerdb-indexes"@
}

/// A stripped call keeps its other headers and none that tells who calls.
pub proof fn lemma_stripped_call(md: &mut MetadataMap, key: Seq<char>)
    requires
        call_ensures(strip_identity, (md,), ()),
    ensures
        tells_identity(key) ==> !contents(*final(md)).contains_key(key),
        !tells_identity(key) ==> contents(*final(md)).contains_key(key) == contents(
            *old(md),
        ).contains_key(key),
        !tells_identity(key) && contents(*old(md)).contains_key(key) ==> contents(*final(md))[key]
            == contents(*old(md))[key],
{
}

proof fn lemma_headers_differ()
    ensures
        "x-growlerdb-principal"@.len() == 21,
        "x-growlerdb-tenant"@.len() == 18,
        "x-growlerdb-roles"@.len() == 17,
        "x-growlerdb-indexes"@.len() == 19,
{
    reveal_strlit("x-growlerdb-principal");
    reveal_strlit("x-growlerdb-tenant");
    reveal_strlit("x-growlerdb-roles");
    reveal_strlit("x-growlerdb-indexes");
}

/// What a stamped call carries: each part of the identity under its own header where there is such
/// a part, and no header for one that is not there.
pub open spec fn carries(md: Map<Seq<char>, Seq<u8>>, v: Verified) -> bool {
    &&& md.contains_key("x-growlerdb-principal"@)
    &&& md["x-growlerdb-principal"@] == encode_utf8(v.principal@)
    &&& md.contains_key("x-growlerdb-tenant"@) <==> v.tenant is Some
    &&& v.tenant is Some ==> md["x-growlerdb-tenant"@] == encode_utf8(v.tenant->0@)
    &&& md.contains_key("x-growlerdb-roles"@) <==> v.roles@.len() > 0
    &&& v.roles@.len() > 0 ==> md["x-growlerdb-roles"@] == encode_utf8(
        joined(v.roles.deep_view(), ","@),
    )
    &&& md.contains_key("x-growlerdb-indexes"@) <==> v.indexes@.len() > 0
    &&& v.indexes@.len() > 0 ==> md["x-growlerdb-indexes"@] == encode_utf8(
        joined(v.indexes.deep_view(), ","@),
    )
}

/// A call that was stamped carries the identity and no part of another, and its other headers as
/// they were; one that could not be is refused as not authenticated.
pub proof fn lemma_stamped_call(v: Verified, md: &mut MetadataMap, r: Result<(), Status>, key: Seq<char>)
    requires
        call_ensures(stamp_identity, (&v, md), r),
    ensures
        r is Ok ==> carries(contents(*final(md)), v),
        r matches Err(e) ==> e.code == Code::Unauthenticated,
        !tells_identity(key) ==> contents(*final(md)).contains_key(key) == contents(
            *old(md),
        ).contains_key(key),
        !tells_identity(key) && contents(*old(md)).contains_key(key) ==> contents(*final(md))[key]
            == contents(*old(md))[key],
{
    lemma_headers_differ();
    lemma_no_forged_identity(contents(*old(md)), v@, key);
    assert(v.roles.deep_view().len() == v.roles@.len());
    assert(v.indexes.deep_view().len() == v.indexes@.len());
    assert(stamped(contents(*old(md)), v@).0 == contents(*final(md)));
}

/// Whether a text is carried by a header as it is.
pub open spec fn carried(text: Seq<char>, bytes: Seq<u8>) -> bool {
    bytes == encode_utf8(text) && readable(bytes) && text_of(bytes) == text
}

/// A policy is asked about the identity that was stamped on the call: the same principal, tenant,
/// roles and indexes, whatever the caller asserted. This is of identities whose texts a header
/// carries as they are, with roles and indexes that can stand in a list.
pub proof fn lemma_policy_is_asked_about_the_verified(
    v: Verified,
    md: &mut MetadataMap,
    r: Result<(), Status>,
    method: &'static str,
    index: Option<&str>,
    ctx: AuthContext,
)
    requires
        call_ensures(stamp_identity, (&v, md), r),
        r is Ok,
        call_ensures(request_context, (method, index, final(md)), ctx),
        carried(v.principal@, encode_utf8(v.principal@)),
        v.tenant matches Some(t) ==> carried(t@, encode_utf8(t@)),
        carried(
            joined(v.roles.deep_view(), ","@),
            encode_utf8(joined(v.roles.deep_view(), ","@)),
        ),
        carried(
            joined(v.indexes.deep_view(), ","@),
            encode_utf8(joined(v.indexes.deep_view(), ","@)),
        ),
        forall|i: int| 0 <= i < v.roles@.len() ==> listable(#[trigger] v.roles@[i]@),
        forall|i: int| 0 <= i < v.indexes@.len() ==> listable(#[trigger] v.indexes@[i]@),
    ensures
        ctx.principal matches Some(p) && p@ == v.principal@,
        ctx.tenant.deep_view() == v.tenant.deep_view(),
        ctx.roles.deep_view() == v.roles.deep_view(),
        ctx.allowed_indexes.deep_view() == v.indexes.deep_view(),
{
    lemma_stamped_call(v, md, r, ","@);
    let roles = v.roles.deep_view();
    let indexes = v.indexes.deep_view();
    assert forall|i: int| 0 <= i < roles.len() implies listable(#[trigger] roles[i]) by {
        assert(roles[i] == v.roles@[i]@);
    }
    assert forall|i: int| 0 <= i < indexes.len() implies listable(#[trigger] indexes[i]) by {
        assert(indexes[i] == v.indexes@[i]@);
    }
    lemma_joined_is_listed(roles);
    lemma_joined_is_listed(indexes);
    assert(asks(ctx@, method@, index.deep_view(), contents(*final(md))));
    if v.roles@.len() == 0 {
        assert(roles =~= Seq::empty());
    }
    if v.indexes@.len() == 0 {
        assert(indexes =~= Seq::empty());
    }
    assert(ctx@.principal == Some(v.principal@));
}

/// A call is admitted exactly where its credential was verified and the identity could be written;
/// the identity is the verified one. A credential that was refused leaves the call as it was.
pub proof fn lemma_admitted_call(
    answer: Result<Verified, AuthnError>,
    md: &mut MetadataMap,
    r: Result<Verified, Status>,
)
    requires
        call_ensures(admit_caller, (answer, md), r),
    ensures
        r matches Ok(w) ==> answer is Ok && w@ == answer->Ok_0@ && carries(
            contents(*final(md)),
            answer->Ok_0,
        ),
        r matches Err(e) ==> e.code == Code::Unauthenticated,
        answer is Err ==> r is Err && contents(*final(md)) == contents(*old(md)),
{
    lemma_headers_differ();
    if let Ok(v) = answer {
        assert(v.roles.deep_view().len() == v.roles@.len());
        assert(v.indexes.deep_view().len() == v.indexes@.len());
        lemma_no_forged_identity(contents(*old(md)), v@, ","@);
    }
}

/// The credential of a call is what its `authorization` header says; a call passes only with an
/// identity that the authenticator may have answered to it.
pub proof fn lemma_credential_is_of_the_call(
    authn: SharedAuthn,
    md: &mut MetadataMap,
    r: Result<Verified, Status>,
)
    requires
        call_ensures(authenticate, (&authn, md), r),
    ensures
        r matches Ok(w) ==> authn.may_yield(header(contents(*old(md)), "authorization"@), Ok(w@)),
        r matches Err(e) ==> e.code == Code::Unauthenticated,
{
    let h = header(contents(*old(md)), "authorization"@);
    let a = choose|a: Result<VerifiedView, AuthnErrorView>| #[trigger]
        authn.may_yield(h, a) && crate::authn::admitted(
            contents(*old(md)),
            a,
            contents(*final(md)),
            r,
        );
    assert(authn.may_yield(h, a));
}

/// A failed authentication says that the caller is not authenticated, and why.
pub proof fn lemma_failed_authentication(err: AuthnError, s: Status)
    requires
        call_ensures(authn_status, (err,), s),
    ensures
        s.code == Code::Unauthenticated,
        s.reason@ == "UNAUTHENTICATED"@,
        match err {
            AuthnError::Missing => s.message@ == "missing bearer credential"@,
            AuthnError::Malformed => s.message@ == "malformed authorization header"@,
            AuthnError::Invalid(m) => s.message@ == "invalid token: "@ + m@,
            AuthnError::MissingClaim(c) => s.message@ == "token is missing the `"@ + c@
                + "` claim"@,
            AuthnError::Discovery(m) => s.message@ == "OIDC/JWKS error: "@ + m@,
        },
{
}

/// Whether a header is `scheme`, followed by the token with only white space around it.
pub open spec fn presents(h: Seq<char>, scheme: Seq<char>, token: Seq<char>) -> bool {
    exists|before: Seq<char>, after: Seq<char>|
        h == scheme + #[trigger] (before + token + after) && (forall|i: int|
            0 <= i < before.len() ==> is_whitespace(#[trigger] before[i])) && (forall|i: int|
            0 <= i < after.len() ==> is_whitespace(#[trigger] after[i]))
}

proof fn lemma_presents(h: Seq<char>, scheme: Seq<char>, rest: Seq<char>)
    requires
        h == scheme + rest,
    ensures
        presents(h, scheme, trim(rest)),
        trim(rest).len() > 0 ==> !is_whitespace(trim(rest)[0]) && !is_whitespace(trim(rest).last()),
{
    let cut = lemma_trim_cuts(rest);
    let before = rest.take(cut.0);
    let after = rest.skip(cut.1);
    assert(rest =~= before + trim(rest) + after);
    assert forall|i: int| 0 <= i < before.len() implies is_whitespace(#[trigger] before[i]) by {
        assert(before[i] == rest[i]);
    }
    assert forall|i: int| 0 <= i < after.len() implies is_whitespace(#[trigger] after[i]) by {
        assert(after[i] == rest[cut.1 + i]);
    }
}

/// A bearer token is what follows the scheme, without the white space around it. There is none only
/// where there is no header; a header of another scheme, or without a token, is malformed.
pub proof fn lemma_bearer_token(authorization: Option<&str>, r: Result<&str, AuthnError>)
    requires
        call_ensures(bearer_token, (authorization,), r),
    ensures
        authorization is None <==> (r matches Err(e) && e is Missing),
        r matches Err(e) ==> e is Missing || e is Malformed,
        r matches Ok(t) ==> t@.len() > 0 && !is_whitespace(t@[0]) && !is_whitespace(t@.last()) && (
        presents(authorization->0@, "Bearer "@, t@) || presents(
            authorization->0@,
            "bearer "@,
            t@,
        )),
        authorization matches Some(h) ==> forall|t: Seq<char>|
            (h@ == #[trigger] ("Bearer "@ + t) || h@ == "bearer "@ + t) && trim(t).len() > 0 ==> r is Ok,
{
    reveal_strlit("Bearer ");
    reveal_strlit("bearer ");
    lemma_credential(authorization, "Bearer "@, "bearer "@, r);
}

/// An API key is what follows its scheme, without the white space around it. There is none only
/// where there is no header; a header of another scheme, or without a key, is malformed.
pub proof fn lemma_api_key(authorization: Option<&str>, r: Result<&str, AuthnError>)
    requires
        call_ensures(api_key, (authorization,), r),
    ensures
        authorization is None <==> (r matches Err(e) && e is Missing),
        r matches Err(e) ==> e is Missing || e is Malformed,
        r matches Ok(t) ==> t@.len() > 0 && !is_whitespace(t@[0]) && !is_whitespace(t@.last()) && (
        presents(authorization->0@, "ApiKey "@, t@) || presents(
            authorization->0@,
            "apikey "@,
            t@,
        )),
        authorization matches Some(h) ==> forall|t: Seq<char>|
            (h@ == #[trigger] ("ApiKey "@ + t) || h@ == "apikey "@ + t) && trim(t).len() > 0 ==> r is Ok,
{
    reveal_strlit("ApiKey ");
    reveal_strlit("apikey ");
    lemma_credential(authorization, "ApiKey "@, "apikey "@, r);
}

proof fn lemma_credential(
    authorization: Option<&str>,
    scheme: Seq<char>,
    lower: Seq<char>,
    r: Result<&str, AuthnError>,
)
    requires
        crate::authn::reads(
            r,
            crate::authn::credential(authorization.deep_view(), scheme, lower),
        ),
        scheme.len() > 0,
        lower.len() > 0,
        scheme[0] != lower[0],
    ensures
        authorization is None <==> (r matches Err(e) && e is Missing),
        r matches Err(e) ==> e is Missing || e is Malformed,
        r matches Ok(t) ==> t@.len() > 0 && !is_whitespace(t@[0]) && !is_whitespace(t@.last()) && (
        presents(authorization->0@, scheme, t@) || presents(authorization->0@, lower, t@)),
        authorization matches Some(h) ==> forall|t: Seq<char>|
            (h@ == #[trigger] (scheme + t) || h@ == lower + t) && trim(t).len() > 0 ==> r is Ok,
{
    if let Some(h) = authorization {
        assert(authorization.deep_view() == Some(h@));
        let a = crate::text::after_prefix(h@, scheme);
        let b = crate::text::after_prefix(h@, lower);
        if let Some(t) = a {
            assert(h@ =~= scheme + t);
            lemma_presents(h@, scheme, t);
        } else if let Some(t) = b {
            assert(h@ =~= lower + t);
            lemma_presents(h@, lower, t);
        }
        assert forall|t: Seq<char>|
            (h@ == #[trigger] (scheme + t) || h@ == lower + t) && trim(t).len() > 0 implies r is Ok by {
            lemma_after(h@, scheme, t);
            lemma_after(h@, lower, t);
            if a is Some && h@ != scheme + t {
                assert(h@[0] == scheme[0]);
                assert((lower + t)[0] == lower[0]);
            }
        }
    }
}

/// What follows a prefix of a text is the rest of it.
pub proof fn lemma_after(h: Seq<char>, prefix: Seq<char>, t: Seq<char>)
    ensures
        h == prefix + t ==> crate::text::after_prefix(h, prefix) == Some(t),
{
    if h == prefix + t {
        assert(h.subrange(0, prefix.len() as int) =~= prefix);
        assert(prefix.is_prefix_of(h));
        assert(h.subrange(prefix.len() as int, h.len() as int) =~= t);
    }
}

/// A chain without a header answers that there is no credential. It answers with an identity only
/// one that the authenticator for the scheme may answer with.
pub proof fn lemma_chain_routes(
    c: ChainAuthenticator,
    authorization: Option<&str>,
    r: Result<Verified, AuthnError>,
    word: Seq<char>,
    gap: char,
    rest: Seq<char>,
)
    requires
        call_ensures(<ChainAuthenticator as Authenticator>::authenticate, (&c, authorization), r),
        word.len() > 0,
        forall|i: int| 0 <= i < word.len() ==> !is_whitespace(#[trigger] word[i]),
        is_whitespace(gap),
    ensures
        authorization is None ==> (r matches Err(e) && e is Missing),
        authorization matches Some(h) ==> h@ == word.push(gap) + rest ==> ({
            let one = if lowered(word) == "bearer"@ {
                c.bearer
            } else if lowered(word) == "apikey"@ {
                c.api_key
            } else {
                None
            };
            match one {
                Some(a) => a.may_yield(Some(h@), crate::authn::outcome(r)),
                None => r matches Err(e) && e is Malformed,
            }
        }),
{
    if let Some(h) = authorization {
        if h@ == word.push(gap) + rest {
            lemma_listed_splits(word, gap, rest, Separator::Whitespace);
            let cut = lemma_trim_cuts(word);
            if cut.0 > 0 {
                assert(is_whitespace(word[0]));
            }
            if cut.1 < word.len() {
                assert(is_whitespace(word[word.len() - 1]));
            }
            assert(trim(word) =~= word);
            lemma_listed_one(word, Separator::Whitespace);
            assert(listed(h@, Separator::Whitespace)[0] == word);
            assert(scheme_of(h@) == lowered(word));
            assert(authorization.deep_view() == Some(h@));
        }
    }
}

/// Without an authenticator a caller is who the headers say; with one, who it may have verified.
pub proof fn lemma_caller_is_identified(
    s: ControlPlaneService,
    md: MetadataMap,
    r: Result<Caller, Status>,
)
    requires
        call_ensures(ControlPlaneService::identify, (&s, &md), r),
    ensures
        s.authn is None ==> (r matches Ok(c) && {
            &&& header(contents(md), "x-growlerdb-principal"@) == Some(c.principal@) || (header(
                contents(md),
                "x-growlerdb-principal"@,
            ) is None && c.principal@.len() == 0)
            &&& c.roles.deep_view() == items_under(contents(md), "x-growlerdb-roles"@)
            &&& c.tenant.deep_view() == header(contents(md), "x-growlerdb-tenant"@)
            &&& c.issued_at is None
        }),
        s.authn matches Some(a) ==> match r {
            Ok(c) => exists|v: VerifiedView| #[trigger]
                a.may_yield(header(contents(md), "authorization"@), Ok(v)) && v.principal
                    == c.principal@ && v.roles == c.roles.deep_view() && v.tenant
                    == c.tenant.deep_view() && v.issued_at == c.issued_at,
            Err(e) => e.code == Code::Unauthenticated,
        },
{
    if let Some(a) = s.authn {
        let h = header(contents(md), "authorization"@);
        let answer = choose|answer: Result<VerifiedView, AuthnErrorView>| #[trigger]
            a.may_yield(h, answer) && match answer {
                Ok(v) => r matches Ok(c) && c@ == crate::control::verified_caller(v),
                Err(e) => r matches Err(s) && s@ == crate::authn::unauthenticated(e),
            };
        assert(a.may_yield(h, answer));
        if let Ok(c) = r {
            let v = answer->Ok_0;
            assert(a.may_yield(h, Ok(v)));
            assert(c@.principal == v.principal);
        }
    }
}

/// Whether a session that was issued in this second, read as a signed number, is older than the epoch
/// in whole seconds.
pub open spec fn is_over(issued_at: u64, epoch_ms: i64) -> bool {
    let t: int = if issued_at > i64::MAX {
        issued_at - 0x1_0000_0000_0000_0000
    } else {
        issued_at as int
    };
    if epoch_ms >= 0 {
        1000 * (t + 1) <= epoch_ms
    } else {
        1000 * t < epoch_ms
    }
}

/// A session that was issued in a second that was over at the subject's epoch is refused; one that
/// was issued later, or at a time that is not told, is not refused for that. The policy is then asked
/// about the caller with every role of the credential and every role that is bound to it, and with no
/// other.
pub proof fn lemma_gate_decides(
    s: ControlPlaneService,
    method: &'static str,
    caller: Caller,
    epoch_ms: i64,
    bound: Vec<String>,
    r: Result<AuthContext, Status>,
    role: Seq<char>,
)
    requires
        call_ensures(ControlPlaneService::gate, (&s, method, caller, epoch_ms, &bound), r),
    ensures
        caller.issued_at is Some && is_over(caller.issued_at->0, epoch_ms) <==> (r matches Err(e)
            && e.code == Code::Unauthenticated),
        r matches Ok(ctx) ==> {
            &&& s.auth.may_answer(ctx@, Ok(()))
            &&& ctx.method@ == method@
            &&& ctx.principal is None <==> caller.principal@.len() == 0
            &&& ctx.principal matches Some(p) ==> p@ == caller.principal@
            &&& ctx.tenant.deep_view() == caller.tenant.deep_view()
            &&& ctx.index is None
            &&& ctx.allowed_indexes@.len() == 0
            &&& ctx.roles.deep_view().contains(role) <==> caller.roles.deep_view().contains(role)
                || bound.deep_view().contains(role)
        },
        r matches Err(e) ==> e.code == Code::Unauthenticated || e.code == Code::PermissionDenied,
{
    lemma_bound_roles_count(caller.roles.deep_view(), bound.deep_view(), role);
    if !crate::control::superseded(caller.issued_at, epoch_ms) {
        let ctx = crate::control::gate_context(method@, caller@, bound.deep_view());
        let answer = choose|answer: Result<(), AuthDenied>| #[trigger]
            s.auth.may_answer(ctx, answer) && crate::control::gated(r, ctx, answer);
        assert(s.auth.may_answer(ctx, answer));
        if let Ok(c) = r {
            assert(answer->Ok_0 == ());
            assert(c.allowed_indexes.deep_view().len() == c.allowed_indexes@.len());
            assert(c@.principal == ctx.principal);
            assert(c@.index == ctx.index);
        }
    }
}

/// A role that is bound more than once, or that the credential already has, is counted once more
/// for none of them.
pub proof fn lemma_gate_adds_no_role_twice(
    s: ControlPlaneService,
    method: &'static str,
    caller: Caller,
    epoch_ms: i64,
    bound: Vec<String>,
    r: Result<AuthContext, Status>,
)
    requires
        call_ensures(ControlPlaneService::gate, (&s, method, caller, epoch_ms, &bound), r),
        caller.roles.deep_view().no_duplicates(),
    ensures
        r matches Ok(ctx) ==> ctx.roles.deep_view().no_duplicates() && ctx.roles@.len()
            >= caller.roles@.len() && ctx.roles.deep_view().take(caller.roles@.len() as int)
            == caller.roles.deep_view(),
{
    lemma_merged_once(caller.roles.deep_view(), bound.deep_view());
    let ctx = crate::control::gate_context(method@, caller@, bound.deep_view());
    if let Ok(c) = r {
        assert(c@ == ctx);
        assert(c@.roles == ctx.roles);
        assert(c.roles.deep_view().len() == c.roles@.len());
        assert(caller.roles.deep_view().len() == caller.roles@.len());
    }
}

proof fn lemma_merged_once(roles: Seq<Seq<char>>, bound: Seq<Seq<char>>)
    requires
        roles.no_duplicates(),
    ensures
        merged(roles, bound).no_duplicates(),
        merged(roles, bound).len() >= roles.len(),
        merged(roles, bound).take(roles.len() as int) == roles,
    decreases bound.len(),
{
    if bound.len() > 0 {
        lemma_merged_once(roles, bound.drop_last());
        let before = merged(roles, bound.drop_last());
        assert(before.push(bound.last()).take(roles.len() as int) =~= before.take(
            roles.len() as int,
        ));
    } else {
        assert(roles.take(roles.len() as int) =~= roles);
    }
}

/// A login is tried only where there is a secret to sign sessions with, an account is named and it
/// is not locked; each refusal is for the first of these that fails. A locked account is told how
/// many seconds it stays so, one at least.
pub proof fn lemma_login_is_admitted(
    s: ControlPlaneService,
    username: &str,
    throttle: LoginThrottle,
    now: u64,
    r: Result<(), Status>,
)
    requires
        call_ensures(ControlPlaneService::admit_login, (&s, username, &throttle, now), r),
    ensures
        s.session_secret is None <==> (r matches Err(e) && e.code == Code::Unimplemented),
        s.session_secret is Some && username@.len() == 0 <==> (r matches Err(e) && e.code
            == Code::InvalidArgument),
        r is Ok <==> s.session_secret is Some && username@.len() > 0 && !(throttle@.contains_key(
            username@,
        ) && throttle@[username@].locked_until_ms is Some && now
            < throttle@[username@].locked_until_ms->0),
        r matches Err(e) ==> e.code == Code::Unimplemented || e.code == Code::InvalidArgument
            || e.code == Code::Unavailable,
{
}

/// A session that was opened has the token that was minted and the roles of the account, and ends
/// twelve hours after it began.
pub proof fn lemma_session_is_answered(
    token: Result<String, AuthnError>,
    roles: Vec<String>,
    now_ms: i64,
    r: Result<LoginResponse, Status>,
)
    requires
        call_ensures(session_answer, (token, roles, now_ms), r),
    ensures
        r is Ok <==> token is Ok,
        r matches Ok(l) ==> l.token@ == token->Ok_0@ && l.roles@ == roles@ && l.expires_at_ms
            == now_ms + 12 * 60 * 60 * 1000,
        r matches Err(e) ==> e.code == Code::Internal,
{
}

/// A wrong password is refused with the same words whatever the account, and counts against it where
/// there is room; a right one is not refused, and the account's failures are forgotten.
pub proof fn lemma_wrong_password_is_refused(
    throttle: &mut LoginThrottle,
    username: &str,
    verified: bool,
    now: u64,
    r: Result<(), Status>,
)
    requires
        call_ensures(login_checked, (throttle, username, verified, now), r),
    ensures
        r is Ok <==> verified,
        r matches Err(e) ==> e.code == Code::Unauthenticated && e.reason@.len() == 0 && e.message@
            == "invalid username or password"@,
        verified ==> !final(throttle)@.contains_key(username@),
        !verified && old(throttle)@.len() < 10_000 ==> final(throttle)@.contains_key(username@),
        !verified && old(throttle)@.len() < 10_000 && old(throttle)@.contains_key(username@)
            && old(throttle)@[username@].failures < u32::MAX ==> final(throttle)@[username@].failures
            == old(throttle)@[username@].failures + 1,
{
}

/// Saved queries belong to the principal, and to no one where there is none.
pub proof fn lemma_subject_is_the_principal(ctx: AuthContext, s: String)
    requires
        call_ensures(subject_of, (&ctx,), s),
    ensures
        ctx.principal matches Some(p) ==> s@ == p@,
        ctx.principal is None ==> s@.len() == 0,
{
}

/// A policy that decides by identity is not served without an authenticator, and every other
/// setting is served.
pub proof fn lemma_identity_needs_verifying(has_authn: bool, authorizing: bool, b: bool)
    requires
        call_ensures(wiring_is_safe, (has_authn, authorizing), b),
    ensures
        has_authn ==> b,
        !authorizing ==> b,
        authorizing && !has_authn ==> !b,
{
}

/// As many nodes may hold primaries as the license says; three without one.
pub proof fn lemma_license_entitles(s: ControlPlaneService, n: usize)
    requires
        call_ensures(ControlPlaneService::entitled_nodes, (&s,), n),
    ensures
        s.license matches Some(l) ==> n == l.max_nodes,
        s.license is None ==> n == 3,
{
}

/// Each unit has the holders that were asked for, and one at least.
pub proof fn lemma_units_have_holders(s: ControlPlaneService, n: usize, t: ControlPlaneService)
    requires
        call_ensures(ControlPlaneService::with_replication_factor, (s, n), t),
    ensures
        t.replication_factor >= 1,
        n >= 1 ==> t.replication_factor == n,
        n == 0 ==> t.replication_factor == 1,
        t.license == s.license,
        t.auth == s.auth,
        t.authn == s.authn,
        t.session_secret == s.session_secret,
{
}

/// How many windows are read through from object storage.
pub open spec fn all_cold(windows: Seq<WindowStatus>) -> int {
    windows.fold_left(
        0int,
        |n: int, w: WindowStatus|
            if w.cold {
                n + 1
            } else {
                n
            },
    )
}

proof fn lemma_cold_folds(windows: Seq<WindowStatus>)
    ensures
        cold_count(windows, windows.len() as int) == all_cold(windows),
    decreases windows.len(),
{
    reveal(Seq::fold_left);
    if windows.len() > 0 {
        let rest = windows.drop_last();
        lemma_cold_folds(rest);
        lemma_cold_same(windows, rest, rest.len() as int);
    }
}

proof fn lemma_cold_same(a: Seq<WindowStatus>, b: Seq<WindowStatus>, n: int)
    requires
        forall|k: int| 0 <= k < n ==> a[k] == b[k],
    ensures
        cold_count(a, n) == cold_count(b, n),
    decreases n,
{
    if n > 0 {
        lemma_cold_same(a, b, n - 1);
    }
}

/// The tier of each window is shown in the order of the windows: it is cold exactly where it is among
/// the cold ones, and has the times of its zone. The counts are those of what is shown.
pub proof fn lemma_tiers_are_shown(g: Gateway, s: Option<ColdStatus>, i: int)
    requires
        call_ensures(Gateway::cold_status, (&g,), s),
    ensures
        s is Some <==> g.windows is Some,
        s matches Some(t) ==> {
            &&& t.windows@.len() == g.windows->0@.len()
            &&& t.cold == all_cold(t.windows@)
            &&& t.hot == t.windows@.len() - all_cold(t.windows@)
            &&& t.cached <==> all_cold(t.windows@) > 0
        },
        s matches Some(t) ==> 0 <= i < t.windows@.len() ==> ({
            let w = t.windows@[i];
            let slot = g.windows->0@[i];
            &&& w.window == slot.window
            &&& w.cold <==> g.cold is Some && exists|k: int|
                0 <= k < g.cold->0@.len() && #[trigger] g.cold->0@[k] == slot.window
            &&& slot.zone is None ==> w.event_min is None && w.event_max is None
            &&& slot.zone matches Some(z) ==> w.event_min == Some(z.0) && w.event_max == Some(z.1)
        }),
{
    if let Some(t) = s {
        lemma_cold_folds(t.windows@);
        if 0 <= i < t.windows@.len() {
            let slot = g.windows->0@[i];
            assert(t.windows@[i] == crate::gateway::tier_of(slot, g.cold_ids()));
        }
    }
}

/// A gateway without an authenticator lets a call go on without any identity. With one, a call that
/// passes carries an identity that the authenticator may have answered to its `authorization` header.
/// Where there is a policy, a call that passes is one that the policy may permit by what it then
/// carries.
pub proof fn lemma_guarded_call(
    g: Gateway,
    method: &'static str,
    md: &mut MetadataMap,
    r: Result<(), Status>,
    key: Seq<char>,
)
    requires
        call_ensures(Gateway::guard, (&g, method, md), r),
    ensures
        g.authn is None && tells_identity(key) ==> !contents(*final(md)).contains_key(key),
        g.authn is None && g.authz is None ==> r is Ok,
        g.authn matches Some(a) ==> r is Ok ==> exists|v: VerifiedView| #[trigger]
            a.may_yield(header(contents(*old(md)), "authorization"@), Ok(v)) && contents(
                *final(md),
            )["x-growlerdb-principal"@] == encode_utf8(v.principal),
        g.authz matches Some(z) ==> r is Ok ==> exists|ctx: AuthContextView| #[trigger]
            z.may_answer(ctx, Ok(())) && asks(ctx, method@, None, contents(*final(md))),
{
    lemma_headers_differ();
    let before = contents(*old(md));
    let after = contents(*final(md));
    let refusal = choose|refusal: Option<crate::status::StatusView>| #[trigger]
        crate::gateway::authenticated(g.authn, before, after, refusal) && match refusal {
            Some(s) => r matches Err(e) && e@ == s,
            None => crate::gateway::authorized(g.authz, method@, after, r),
        };
    assert(crate::gateway::authenticated(g.authn, before, after, refusal));
    if r is Ok {
        if let Some(a) = g.authn {
            let h = header(before, "authorization"@);
            let (answer, admission) = choose|
                answer: Result<VerifiedView, AuthnErrorView>,
                admission: Result<Verified, Status>,
            |
                #![trigger a.may_yield(h, answer), crate::authn::admitted(before, answer, after, admission)]
                a.may_yield(h, answer) && crate::authn::admitted(before, answer, after, admission)
                    && admission is Ok;
            let v = answer->Ok_0;
            assert(a.may_yield(h, Ok(v)));
        }
        if let Some(z) = g.authz {
            let ctx = crate::auth::context_of(method@, None, after);
            let answer = choose|answer: Result<(), AuthDenied>| #[trigger]
                z.may_answer(ctx, answer) && crate::auth::answered(r, answer);
            assert(z.may_answer(ctx, answer));
            assert(answer->Ok_0 == ());
            assert(asks(ctx, method@, None, after));
        }
    }
}

/// An identity is written exactly where each part of it that is there can stand in a header and the
/// call has at most 6550 headers besides.
pub proof fn lemma_identity_is_written(v: Verified, md: &mut MetadataMap, r: Result<(), Status>)
    requires
        call_ensures(stamp_identity, (&v, md), r),
    ensures
        r is Ok <==> {
            &&& contents(*old(md)).remove("x-growlerdb-principal"@).remove(
                "x-growlerdb-tenant"@,
            ).remove("x-growlerdb-roles"@).remove("x-growlerdb-indexes"@).len() <= 6_550
            &&& writable(v.principal@)
            &&& v.tenant matches Some(t) ==> writable(t@)
            &&& v.roles@.len() > 0 ==> writable(joined(v.roles.deep_view(), ","@))
            &&& v.indexes@.len() > 0 ==> writable(joined(v.indexes.deep_view(), ","@))
        },
{
    assert(v.roles.deep_view().len() == v.roles@.len());
    assert(v.indexes.deep_view().len() == v.indexes@.len());
    assert(v@.tenant == v.tenant.deep_view());
}

/// Who is let in without a check is anonymous, and where nobody is asked, nobody.
pub proof fn lemma_anonymous(
    a: Anonymous,
    h: Option<&str>,
    r: Result<Verified, AuthnError>,
    nobody: Verified,
)
    requires
        call_ensures(<Anonymous as Authenticator>::authenticate, (&a, h), r),
        call_ensures(Verified::anonymous, (), nobody),
    ensures
        r matches Ok(v) && v.principal@ == "anonymous"@ && v.roles@.len() == 0 && v.tenant is None,
        nobody.principal@.len() == 0 && nobody.roles@.len() == 0 && nobody.tenant is None
            && nobody.indexes@.len() == 0,
{
    assert(crate::authn::outcome(r) is Ok);
    let v = r->Ok_0;
    assert(crate::authn::outcome(r)->Ok_0 == v@);
    assert(v@.tenant == v.tenant.deep_view());
    assert(v.roles.deep_view().len() == v.roles@.len());
    assert(nobody@.tenant == nobody.tenant.deep_view());
    assert(nobody.roles.deep_view().len() == nobody.roles@.len());
    assert(nobody.indexes.deep_view().len() == nobody.indexes@.len());
}

} // verus!
