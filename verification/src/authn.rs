//! Authentication: a caller's credential becomes a verified identity, which replaces whatever
//! identity the caller asserted.
use tonic::metadata::MetadataMap;
use vstd::prelude::*;
use vstd::string::*;
use vstd::utf8::encode_utf8;

use crate::metadata::{
    contents, drop_header, header, header_text, key_count, put_header, writable, AUTHORIZATION_KEY,
    INDEXES_KEY, MAX_KEYS, PRINCIPAL_KEY, ROLES_KEY, TENANT_KEY,
};
use crate::status::{plain, tagged, Code, Status, StatusView};
use crate::text::{
    after_prefix, join, joined, list_items, listed, lowered, same_lowered, trim, trimmed,
    without_prefix, Separator,
};

verus! {

/// A verified caller.
#[derive(Debug, Clone, PartialEq, Eq, Default)]
pub struct Verified {
    /// The authenticated principal.
    pub principal: String,
    /// The tenant that the caller is scoped to, if any.
    pub tenant: Option<String>,
    /// The caller's roles.
    pub roles: Vec<String>,
    /// The indexes that the caller may use; none means no restriction.
    pub indexes: Vec<String>,
    /// The caller's name, for display.
    pub display_name: Option<String>,
    /// The caller's email address.
    pub email: Option<String>,
    /// When the credential was issued, in seconds since the epoch.
    pub issued_at: Option<u64>,
}

/// What a [`Verified`] says.
pub struct VerifiedView {
    pub principal: Seq<char>,
    pub tenant: Option<Seq<char>>,
    pub roles: Seq<Seq<char>>,
    pub indexes: Seq<Seq<char>>,
    pub display_name: Option<Seq<char>>,
    pub email: Option<Seq<char>>,
    pub issued_at: Option<u64>,
}

impl View for Verified {
    type V = VerifiedView;

    open spec fn view(&self) -> VerifiedView {
        VerifiedView {
            principal: self.principal@,
            tenant: self.tenant.deep_view(),
            roles: self.roles.deep_view(),
            indexes: self.indexes.deep_view(),
            display_name: self.display_name.deep_view(),
            email: self.email.deep_view(),
            issued_at: self.issued_at,
        }
    }
}

/// A caller of whom only the principal is known.
pub open spec fn bare(principal: Seq<char>) -> VerifiedView {
    VerifiedView {
        principal,
        tenant: None,
        roles: Seq::empty(),
        indexes: Seq::empty(),
        display_name: None,
        email: None,
        issued_at: None,
    }
}

impl Verified {
    fn of_principal(principal: String) -> (v: Verified)
        ensures
            v@ == bare(principal@),
    {
        let v = Verified {
            principal,
            tenant: None,
            roles: Vec::new(),
            indexes: Vec::new(),
            display_name: None,
            email: None,
            issued_at: None,
        };
        assert(v.roles.deep_view() =~= Seq::empty());
        assert(v.indexes.deep_view() =~= Seq::empty());
        v
    }

    /// The identity on an open gateway: no principal, no roles.
    pub fn anonymous() -> (v: Verified)
        ensures
            v@ == bare(Seq::empty()),
    {
        Verified::of_principal(String::new())
    }
}

/// Why authentication failed.
#[derive(Debug, PartialEq, Eq)]
pub enum AuthnError {
    /// There was no credential.
    Missing,
    /// The credential was not of the form expected.
    Malformed,
    /// The credential failed validation.
    Invalid(String),
    /// The credential is valid but lacks a claim that an identity needs.
    MissingClaim(&'static str),
    /// Key material could not be fetched or parsed.
    Discovery(String),
}

/// What an [`AuthnError`] says.
pub enum AuthnErrorView {
    Missing,
    Malformed,
    Invalid(Seq<char>),
    MissingClaim(Seq<char>),
    Discovery(Seq<char>),
}

impl View for AuthnError {
    type V = AuthnErrorView;

    open spec fn view(&self) -> AuthnErrorView {
        match self {
            AuthnError::Missing => AuthnErrorView::Missing,
            AuthnError::Malformed => AuthnErrorView::Malformed,
            AuthnError::Invalid(m) => AuthnErrorView::Invalid(m@),
            AuthnError::MissingClaim(c) => AuthnErrorView::MissingClaim(c@),
            AuthnError::Discovery(m) => AuthnErrorView::Discovery(m@),
        }
    }
}

/// The message of an authentication error.
pub open spec fn error_text(e: AuthnErrorView) -> Seq<char> {
    match e {
        AuthnErrorView::Missing => "missing bearer credential"@,
        AuthnErrorView::Malformed => "malformed authorization header"@,
        AuthnErrorView::Invalid(m) => "invalid token: "@ + m,
        AuthnErrorView::MissingClaim(c) => "token is missing the `"@ + c + "` claim"@,
        AuthnErrorView::Discovery(m) => "OIDC/JWKS error: "@ + m,
    }
}

impl AuthnError {
    /// The message of the error.
    pub fn message(&self) -> (m: String)
        ensures
            m@ == error_text(self@),
    {
        match self {
            AuthnError::Missing => "missing bearer credential".to_owned(),
            AuthnError::Malformed => "malformed authorization header".to_owned(),
            AuthnError::Invalid(why) => {
                let mut m = "invalid token: ".to_owned();
                m.append(why.as_str());
                m
            },
            AuthnError::MissingClaim(claim) => {
                let mut m = "token is missing the `".to_owned();
                m.append(claim);
                m.append("` claim");
                m
            },
            AuthnError::Discovery(why) => {
                let mut m = "OIDC/JWKS error: ".to_owned();
                m.append(why.as_str());
                m
            },
        }
    }
}

/// What an authenticator's result says.
pub open spec fn outcome(r: Result<Verified, AuthnError>) -> Result<VerifiedView, AuthnErrorView> {
    match r {
        Ok(v) => Ok(v@),
        Err(e) => Err(e@),
    }
}

/// Validates the value of an `Authorization` header. It runs on every request, so it is to be
/// cheap and free of side effects.
pub trait Authenticator: Send + Sync {
    /// Whether the authenticator may answer so to this header. One that says nothing of it may
    /// answer anything.
    open spec fn may_yield(
        &self,
        authorization: Option<Seq<char>>,
        r: Result<VerifiedView, AuthnErrorView>,
    ) -> bool {
        true
    }

    /// Authenticates the value of an `Authorization` header, `None` where there was none.
    fn authenticate(&self, authorization: Option<&str>) -> (r: Result<Verified, AuthnError>)
        ensures
            self.may_yield(authorization.deep_view(), outcome(r)),
    ;
}

/// The authenticator that lets everyone in as `anonymous`.
#[derive(Debug, Clone, Default)]
pub struct Anonymous;

impl Authenticator for Anonymous {
    open spec fn may_yield(
        &self,
        authorization: Option<Seq<char>>,
        r: Result<VerifiedView, AuthnErrorView>,
    ) -> bool {
        r == Ok::<VerifiedView, AuthnErrorView>(bare("anonymous"@))
    }

    fn authenticate(&self, _authorization: Option<&str>) -> (r: Result<Verified, AuthnError>) {
        Ok(Verified::of_principal("anonymous".to_owned()))
    }
}

/// The authenticator that a service holds, whatever its type.
pub struct SharedAuthn {
    pub authn: Box<dyn Authenticator>,
}

impl SharedAuthn {
    /// Whether the authenticator may answer so to this header.
    pub open spec fn may_yield(
        &self,
        authorization: Option<Seq<char>>,
        r: Result<VerifiedView, AuthnErrorView>,
    ) -> bool {
        self.authn.may_yield(authorization, r)
    }
}

/// The authenticator of a service that is given none.
pub fn default_authn() -> (a: SharedAuthn)
    ensures
        forall|h: Option<Seq<char>>, r: Result<VerifiedView, AuthnErrorView>| #[trigger]
            a.may_yield(h, r) ==> r == Ok::<VerifiedView, AuthnErrorView>(bare("anonymous"@)),
{
    SharedAuthn { authn: Box::new(Anonymous) }
}

/// `md` without any identity.
pub open spec fn stripped(md: Map<Seq<char>, Seq<u8>>) -> Map<Seq<char>, Seq<u8>> {
    md.remove(PRINCIPAL_KEY@).remove(TENANT_KEY@).remove(ROLES_KEY@).remove(INDEXES_KEY@)
}

/// The most keys that a request may have besides its identity, which takes up to four.
pub const MAX_OTHER_KEYS: usize = MAX_KEYS - 3;

/// `md` with the identity `v` in place of any other, and the message of the first part of `v`
/// that cannot be written, where there is one; what comes before that part is then written.
/// Nothing is written to metadata with too many keys.
pub open spec fn stamped(md: Map<Seq<char>, Seq<u8>>, v: VerifiedView) -> (
    Map<Seq<char>, Seq<u8>>,
    Option<Seq<char>>,
) {
    let none = stripped(md);
    let roles = joined(v.roles, ","@);
    let indexes = joined(v.indexes, ","@);
    if none.len() > MAX_OTHER_KEYS {
        (none, Some("request metadata has too many keys"@))
    } else if !writable(v.principal) {
        (none, Some("authenticated principal is not a valid identifier"@))
    } else {
        let named = none.insert(PRINCIPAL_KEY@, encode_utf8(v.principal));
        if v.tenant is Some && !writable(v.tenant->0) {
            (named, Some("tenant claim is not a valid identifier"@))
        } else {
            let scoped = match v.tenant {
                Some(t) => named.insert(TENANT_KEY@, encode_utf8(t)),
                None => named,
            };
            if v.roles.len() > 0 && !writable(roles) {
                (scoped, Some("a role claim is not a valid header value"@))
            } else {
                let ranked = if v.roles.len() > 0 {
                    scoped.insert(ROLES_KEY@, encode_utf8(roles))
                } else {
                    scoped
                };
                if v.indexes.len() > 0 && !writable(indexes) {
                    (ranked, Some("an index allowlist entry is not a valid header value"@))
                } else if v.indexes.len() > 0 {
                    (ranked.insert(INDEXES_KEY@, encode_utf8(indexes)), None)
                } else {
                    (ranked, None)
                }
            }
        }
    }
}

/// The status of a failed authentication.
pub open spec fn unauthenticated(e: AuthnErrorView) -> StatusView {
    tagged(Code::Unauthenticated, "UNAUTHENTICATED"@, error_text(e))
}

/// The status of a failed authentication.
pub fn authn_status(err: AuthnError) -> (s: Status)
    ensures
        s@ == unauthenticated(err@),
{
    Status::with_reason(Code::Unauthenticated, "UNAUTHENTICATED", err.message())
}

fn unwritable(message: &'static str) -> (s: Status)
    ensures
        s@ == plain(Code::Unauthenticated, message@),
{
    Status::fixed(Code::Unauthenticated, message)
}

/// Drops every identity that the caller asserted. Nothing verifies it on an open gateway, and a
/// tenant-scoped index then denies for want of a tenant.
pub fn strip_identity(md: &mut MetadataMap)
    ensures
        contents(*final(md)) == stripped(contents(*old(md))),
{
    drop_header(md, PRINCIPAL_KEY);
    drop_header(md, TENANT_KEY);
    drop_header(md, ROLES_KEY);
    drop_header(md, INDEXES_KEY);
}

/// Writes the identity `v` in place of any that the caller asserted.
pub fn stamp_identity(v: &Verified, md: &mut MetadataMap) -> (r: Result<(), Status>)
    ensures
        contents(*final(md)) == stamped(contents(*old(md)), v@).0,
        match stamped(contents(*old(md)), v@).1 {
            None => r is Ok,
            Some(m) => r matches Err(e) && e@ == plain(Code::Unauthenticated, m),
        },
{
    strip_identity(md);
    if key_count(md) > MAX_OTHER_KEYS {
        return Err(unwritable("request metadata has too many keys"));
    }
    if !put_header(md, PRINCIPAL_KEY, v.principal.as_str()) {
        return Err(unwritable("authenticated principal is not a valid identifier"));
    }
    if let Some(tenant) = &v.tenant {
        if !put_header(md, TENANT_KEY, tenant.as_str()) {
            return Err(unwritable("tenant claim is not a valid identifier"));
        }
    }
    if v.roles.len() > 0 {
        let roles = join(&v.roles, ",");
        if !put_header(md, ROLES_KEY, roles.as_str()) {
            return Err(unwritable("a role claim is not a valid header value"));
        }
    }
    if v.indexes.len() > 0 {
        let indexes = join(&v.indexes, ",");
        if !put_header(md, INDEXES_KEY, indexes.as_str()) {
            return Err(unwritable("an index allowlist entry is not a valid header value"));
        }
    }
    Ok(())
}

/// What comes of a request whose credential an authenticator answered with `a`: the metadata
/// after it, and the answer.
pub open spec fn admitted(
    before: Map<Seq<char>, Seq<u8>>,
    a: Result<VerifiedView, AuthnErrorView>,
    after: Map<Seq<char>, Seq<u8>>,
    r: Result<Verified, Status>,
) -> bool {
    match a {
        Err(e) => after == before && (r matches Err(s) && s@ == unauthenticated(e)),
        Ok(v) => after == stamped(before, v).0 && match stamped(before, v).1 {
            None => r matches Ok(w) && w@ == v,
            Some(m) => r matches Err(s) && s@ == plain(Code::Unauthenticated, m),
        },
    }
}

/// Finishes the authentication of a request whose credential was answered with `answer`.
pub fn admit_caller(answer: Result<Verified, AuthnError>, md: &mut MetadataMap) -> (r: Result<
    Verified,
    Status,
>)
    ensures
        admitted(contents(*old(md)), outcome(answer), contents(*final(md)), r),
{
    match answer {
        Err(e) => Err(authn_status(e)),
        Ok(v) => match stamp_identity(&v, md) {
            Ok(_) => Ok(v),
            Err(e) => Err(e),
        },
    }
}

/// Authenticates a request and writes the verified identity in place of the asserted one.
pub fn authenticate(authn: &SharedAuthn, md: &mut MetadataMap) -> (r: Result<Verified, Status>)
    ensures
        exists|a: Result<VerifiedView, AuthnErrorView>| #[trigger]
            authn.may_yield(header(contents(*old(md)), AUTHORIZATION_KEY@), a) && admitted(
                contents(*old(md)),
                a,
                contents(*final(md)),
                r,
            ),
{
    let authorization = header_text(md, AUTHORIZATION_KEY);
    let answer = match &authorization {
        Some(s) => authn.authn.authenticate(Some(s.as_str())),
        None => authn.authn.authenticate(None),
    };
    let ghost a = outcome(answer);
    assert(authn.may_yield(header(contents(*md), AUTHORIZATION_KEY@), a));
    admit_caller(answer, md)
}

proof fn lemma_keys_differ()
    ensures
        PRINCIPAL_KEY@ != TENANT_KEY@,
        PRINCIPAL_KEY@ != ROLES_KEY@,
        PRINCIPAL_KEY@ != INDEXES_KEY@,
        TENANT_KEY@ != ROLES_KEY@,
        TENANT_KEY@ != INDEXES_KEY@,
        ROLES_KEY@ != INDEXES_KEY@,
{
    reveal_strlit("x-growlerdb-principal");
    reveal_strlit("x-growlerdb-tenant");
    reveal_strlit("x-growlerdb-roles");
    reveal_strlit("x-growlerdb-indexes");
    assert(PRINCIPAL_KEY@.len() == 21);
    assert(TENANT_KEY@.len() == 18);
    assert(ROLES_KEY@.len() == 17);
    assert(INDEXES_KEY@.len() == 19);
}

/// Whether `key` carries identity.
pub open spec fn identity_key(key: Seq<char>) -> bool {
    key == PRINCIPAL_KEY@ || key == TENANT_KEY@ || key == ROLES_KEY@ || key == INDEXES_KEY@
}

/// What a request carries under each identity key once `v` is stamped on it.
pub open spec fn identity_value(v: VerifiedView, key: Seq<char>) -> Option<Seq<u8>> {
    if key == PRINCIPAL_KEY@ {
        Some(encode_utf8(v.principal))
    } else if key == TENANT_KEY@ {
        match v.tenant {
            Some(t) => Some(encode_utf8(t)),
            None => None,
        }
    } else if key == ROLES_KEY@ {
        if v.roles.len() > 0 {
            Some(encode_utf8(joined(v.roles, ","@)))
        } else {
            None
        }
    } else {
        if v.indexes.len() > 0 {
            Some(encode_utf8(joined(v.indexes, ","@)))
        } else {
            None
        }
    }
}

/// No identity that a caller asserted survives authentication: under each identity key a request
/// carries what was verified, or nothing, whatever it carried before; and nothing else of the
/// request changes.
pub proof fn lemma_no_forged_identity(md: Map<Seq<char>, Seq<u8>>, v: VerifiedView, key: Seq<char>)
    ensures
        ({
            let after = stamped(md, v).0;
            &&& identity_key(key) ==> !after.contains_key(key) || identity_value(v, key) == Some(
                after[key],
            )
            &&& identity_key(key) && stamped(md, v).1 is None ==> after.contains_key(key) == (
            identity_value(v, key) is Some)
            &&& !identity_key(key) ==> after.contains_key(key) == md.contains_key(key) && (
            md.contains_key(key) ==> after[key] == md[key])
        }),
{
    lemma_keys_differ();
}

/// No identity that a caller asserted survives on an open gateway, and nothing else changes.
pub proof fn lemma_stripped_of_identity(md: Map<Seq<char>, Seq<u8>>, key: Seq<char>)
    ensures
        identity_key(key) ==> header(stripped(md), key) is None,
        !identity_key(key) ==> header(stripped(md), key) == header(md, key),
{
}

/// A credential of one scheme, as a header carries it.
pub enum Credential {
    Missing,
    Malformed,
    Token(Seq<char>),
}

/// The credential in a header: what follows `scheme`, or the same in lower case, without white
/// space around it.
pub open spec fn credential(
    authorization: Option<Seq<char>>,
    scheme: Seq<char>,
    lower: Seq<char>,
) -> Credential {
    match authorization {
        None => Credential::Missing,
        Some(h) => {
            let rest = match after_prefix(h, scheme) {
                Some(t) => Some(t),
                None => after_prefix(h, lower),
            };
            match rest {
                None => Credential::Malformed,
                Some(t) => if trim(t).len() == 0 {
                    Credential::Malformed
                } else {
                    Credential::Token(trim(t))
                },
            }
        },
    }
}

/// The bearer token in a header.
pub open spec fn bearer_credential(authorization: Option<Seq<char>>) -> Credential {
    credential(authorization, "Bearer "@, "bearer "@)
}

/// The API key in a header.
pub open spec fn key_credential(authorization: Option<Seq<char>>) -> Credential {
    credential(authorization, "ApiKey "@, "apikey "@)
}

/// What reading a credential gives.
pub open spec fn reads(r: Result<&str, AuthnError>, c: Credential) -> bool {
    match c {
        Credential::Missing => r matches Err(e) && e is Missing,
        Credential::Malformed => r matches Err(e) && e is Malformed,
        Credential::Token(t) => r matches Ok(s) && s@ == t,
    }
}

fn read_credential<'a>(
    authorization: Option<&'a str>,
    scheme: &'static str,
    lower: &'static str,
) -> (r: Result<&'a str, AuthnError>)
    ensures
        reads(r, credential(authorization.deep_view(), scheme@, lower@)),
{
    let h = match authorization {
        Some(h) => h,
        None => {
            return Err(AuthnError::Missing);
        },
    };
    let rest = match without_prefix(h, scheme) {
        Some(t) => Some(t),
        None => without_prefix(h, lower),
    };
    match rest {
        None => Err(AuthnError::Malformed),
        Some(t) => {
            let token = trimmed(t);
            if token.is_empty() {
                Err(AuthnError::Malformed)
            } else {
                Ok(token)
            }
        },
    }
}

/// The token of an `Authorization: Bearer <token>` header.
pub fn bearer_token(authorization: Option<&str>) -> (r: Result<&str, AuthnError>)
    ensures
        reads(r, bearer_credential(authorization.deep_view())),
{
    read_credential(authorization, "Bearer ", "bearer ")
}

/// The key of an `Authorization: ApiKey <key>` header.
pub fn api_key(authorization: Option<&str>) -> (r: Result<&str, AuthnError>)
    ensures
        reads(r, key_credential(authorization.deep_view())),
{
    read_credential(authorization, "ApiKey ", "apikey ")
}

/// Routes a request to the authenticator of its `Authorization` scheme.
pub struct ChainAuthenticator {
    pub bearer: Option<SharedAuthn>,
    pub api_key: Option<SharedAuthn>,
}

/// The scheme of a header: its first word, in lower case.
pub open spec fn scheme_of(header: Seq<char>) -> Seq<char> {
    let words = listed(header, Separator::Whitespace);
    if words.len() > 0 {
        lowered(words[0])
    } else {
        Seq::empty()
    }
}

impl ChainAuthenticator {
    /// A chain that accepts nothing.
    pub fn new() -> (c: ChainAuthenticator)
        ensures
            c.bearer is None,
            c.api_key is None,
    {
        ChainAuthenticator { bearer: None, api_key: None }
    }

    /// Hands `Bearer` tokens to `authn`.
    pub fn with_bearer(self, authn: SharedAuthn) -> (c: ChainAuthenticator)
        ensures
            c.bearer == Some(authn),
            c.api_key == self.api_key,
    {
        ChainAuthenticator { bearer: Some(authn), api_key: self.api_key }
    }

    /// Hands `ApiKey` credentials to `authn`.
    pub fn with_api_keys(self, authn: SharedAuthn) -> (c: ChainAuthenticator)
        ensures
            c.api_key == Some(authn),
            c.bearer == self.bearer,
    {
        ChainAuthenticator { bearer: self.bearer, api_key: Some(authn) }
    }

    /// Whether there is an authenticator for the scheme of `header`, and it may answer so.
    pub open spec fn routed(
        &self,
        header: Seq<char>,
        r: Result<VerifiedView, AuthnErrorView>,
    ) -> bool {
        let malformed = Err::<VerifiedView, AuthnErrorView>(AuthnErrorView::Malformed);
        if scheme_of(header) == "bearer"@ {
            match self.bearer {
                Some(a) => a.may_yield(Some(header), r),
                None => r == malformed,
            }
        } else if scheme_of(header) == "apikey"@ {
            match self.api_key {
                Some(a) => a.may_yield(Some(header), r),
                None => r == malformed,
            }
        } else {
            r == malformed
        }
    }
}

impl Authenticator for ChainAuthenticator {
    open spec fn may_yield(
        &self,
        authorization: Option<Seq<char>>,
        r: Result<VerifiedView, AuthnErrorView>,
    ) -> bool {
        match authorization {
            None => r == Err::<VerifiedView, AuthnErrorView>(AuthnErrorView::Missing),
            Some(h) => self.routed(h, r),
        }
    }

    fn authenticate(&self, authorization: Option<&str>) -> (r: Result<Verified, AuthnError>) {
        let header = match authorization {
            Some(h) => h,
            None => {
                return Err(AuthnError::Missing);
            },
        };
        let words = list_items(header, Separator::Whitespace);
        proof {
            reveal_strlit("bearer");
            reveal_strlit("apikey");
        }
        assert("bearer"@[0] != "apikey"@[0]);
        if words.len() == 0 {
            assert(scheme_of(header@).len() == 0);
            return Err(AuthnError::Malformed);
        }
        assert(scheme_of(header@) == lowered(words.deep_view()[0]));
        let scheme = words[0].as_str();
        let chosen = if same_lowered(scheme, "bearer") {
            &self.bearer
        } else if same_lowered(scheme, "apikey") {
            &self.api_key
        } else {
            return Err(AuthnError::Malformed);
        };
        match chosen {
            Some(a) => a.authn.authenticate(Some(header)),
            None => Err(AuthnError::Malformed),
        }
    }
}

} // verus!
