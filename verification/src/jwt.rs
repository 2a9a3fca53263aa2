//! JSON Web Tokens: bearer tokens checked against a fixed key or a key set, and the session
//! tokens that the built-in login hands out.
use jsonwebtoken::jwk::JwkSet;
use jsonwebtoken::{Algorithm, DecodingKey, EncodingKey, Header, Validation};
use vstd::prelude::*;
use vstd::slice::slice_to_vec;
use vstd::string::*;

use crate::authn::{
    bearer_credential, bearer_token, outcome, Authenticator, AuthnError, AuthnErrorView, Credential,
    Verified, VerifiedView,
};
use crate::text::{
    is_whitespace, list_items, listed, same, trim, trim_end_char, trimmed_end_char, Separator,
};

verus! {

/// The issuer of built-in session tokens.
pub const BUILTIN_SESSION_ISSUER: &'static str = "growlerdb";

/// The audience of built-in session tokens.
pub const BUILTIN_SESSION_AUDIENCE: &'static str = "growlerdb-console";

/// How long a built-in session lasts, in seconds.
pub const BUILTIN_SESSION_TTL_SECS: u64 = 43_200;

/// The claims that carry the tenant, the roles and the index allowlist.
#[derive(Debug)]
pub struct ClaimMapping {
    pub tenant: String,
    pub roles: String,
    pub indexes: String,
}

impl Default for ClaimMapping {
    fn default() -> (m: ClaimMapping)
        ensures
            m.tenant@ == "tenant"@,
            m.roles@ == "roles"@,
            m.indexes@ == "indexes"@,
    {
        ClaimMapping {
            tenant: "tenant".to_owned(),
            roles: "roles".to_owned(),
            indexes: "indexes".to_owned(),
        }
    }
}

/// A claim, as far as identities read it.
#[derive(Debug)]
pub enum ClaimValue {
    Null,
    Text(String),
    Whole(u64),
    /// The items of a list, those that are not texts as `None`.
    List(Vec<Option<String>>),
    Other,
}

/// What a [`ClaimValue`] says.
pub enum ClaimView {
    Null,
    Text(Seq<char>),
    Whole(u64),
    List(Seq<Option<Seq<char>>>),
    Other,
}

impl View for ClaimValue {
    type V = ClaimView;

    open spec fn view(&self) -> ClaimView {
        match self {
            ClaimValue::Null => ClaimView::Null,
            ClaimValue::Text(s) => ClaimView::Text(s@),
            ClaimValue::Whole(n) => ClaimView::Whole(*n),
            ClaimValue::List(items) => ClaimView::List(items.deep_view()),
            ClaimValue::Other => ClaimView::Other,
        }
    }
}

/// serde_json's JSON values.
#[verifier::external_type_specification]
#[verifier::external_body]
pub struct ExValue(serde_json::Value);

/// serde_json's map of a JSON object.
#[verifier::external_type_specification]
#[verifier::external_body]
#[verifier::reject_recursive_types(K)]
#[verifier::reject_recursive_types(V)]
pub struct ExJsonMap<K, V>(serde_json::Map<K, V>);

/// jsonwebtoken's set of JSON Web Keys.
#[verifier::external_type_specification]
#[verifier::external_body]
pub struct ExJwkSet(JwkSet);

/// What a JSON object holds: the claim under each name.
pub uninterp spec fn claims_in(m: serde_json::Map<String, serde_json::Value>) -> Map<
    Seq<char>,
    ClaimView,
>;

/// What a key set holds: each key's id, if any, and the key as JSON text.
pub uninterp spec fn keys_in(set: JwkSet) -> Seq<(Option<Seq<char>>, Seq<char>)>;

/// Why a JSON Web Key cannot be used, or `None` where it can.
pub uninterp spec fn jwk_fault_of(jwk: Seq<char>) -> Option<Seq<char>>;

/// Why a PEM text is no RSA public key, or `None` where it is one.
pub uninterp spec fn pem_fault_of(pem: Seq<u8>) -> Option<Seq<char>>;

/// The key id in a token's header, or why the header cannot be read.
pub uninterp spec fn kid_in(token: Seq<char>) -> Result<Option<Seq<char>>, Seq<char>>;

/// A key that tokens are checked against.
#[derive(Debug)]
pub enum TokenKey {
    /// A secret shared with the issuer, for HS256.
    Secret(Vec<u8>),
    /// An RSA public key as PEM text, for RS256.
    RsaPem(Vec<u8>),
    /// A JSON Web Key as JSON text, for RS256.
    Jwk(String),
}

/// What a [`TokenKey`] says.
pub enum KeyView {
    Secret(Seq<u8>),
    RsaPem(Seq<u8>),
    Jwk(Seq<char>),
}

impl View for TokenKey {
    type V = KeyView;

    open spec fn view(&self) -> KeyView {
        match self {
            TokenKey::Secret(s) => KeyView::Secret(s@),
            TokenKey::RsaPem(p) => KeyView::RsaPem(p@),
            TokenKey::Jwk(j) => KeyView::Jwk(j@),
        }
    }
}

/// The claims of a token that passes every check but that of its expiry against the clock: it is
/// signed by `key` and meant by `issuer` for `audience`. `None` where it fails one.
pub uninterp spec fn vetted(
    token: Seq<char>,
    key: KeyView,
    issuer: Seq<char>,
    audience: Seq<char>,
) -> Option<Map<Seq<char>, ClaimView>>;

/// What validation has checked of a token's claims: it has an expiry, and an issuer or an audience
/// that is a text is the one expected.
pub open spec fn checked(
    claims: Map<Seq<char>, ClaimView>,
    issuer: Seq<char>,
    audience: Seq<char>,
) -> bool {
    &&& claims.contains_key("exp"@)
    &&& claims.contains_key("iss"@) && claims["iss"@] is Text ==> claims["iss"@] == ClaimView::Text(
        issuer,
    )
    &&& claims.contains_key("aud"@) && claims["aud"@] is Text ==> claims["aud"@] == ClaimView::Text(
        audience,
    )
}

/// `jsonwebtoken::decode` of an HS256 token into a JSON object, with `DecodingKey::from_secret` and a
/// `Validation` of this issuer and audience. It verifies the signature, the expiry (which must be
/// there), the issuer and the audience, and gives the claims that the token carries. A token that
/// fails a check is refused; whether one that passes the others is refused as expired rests on the
/// time and is left open, and so is what an error says.
#[verifier::external_body]
fn decode_hs256(token: &str, secret: &[u8], issuer: &str, audience: &str) -> (r: Result<
    serde_json::Map<String, serde_json::Value>,
    String,
>)
    ensures
        r matches Ok(m) ==> vetted(token@, KeyView::Secret(secret@), issuer@, audience@) == Some(
            claims_in(m),
        ),
        r matches Ok(m) ==> checked(claims_in(m), issuer@, audience@),
{
    let key = DecodingKey::from_secret(secret);
    let mut validation = Validation::new(Algorithm::HS256);
    validation.set_issuer(&[issuer]);
    validation.set_audience(&[audience]);
    jsonwebtoken::decode(token, &key, &validation).map(|d| d.claims).map_err(|e| e.to_string())
}

/// `jsonwebtoken::decode` of an RS256 token, with `DecodingKey::from_rsa_pem`; otherwise as
/// [`decode_hs256`]. A text that is no RSA public key is refused.
#[verifier::external_body]
fn decode_rs256_pem(token: &str, pem: &[u8], issuer: &str, audience: &str) -> (r: Result<
    serde_json::Map<String, serde_json::Value>,
    String,
>)
    ensures
        r matches Ok(m) ==> vetted(token@, KeyView::RsaPem(pem@), issuer@, audience@) == Some(
            claims_in(m),
        ),
        r matches Ok(m) ==> checked(claims_in(m), issuer@, audience@),
{
    let key = DecodingKey::from_rsa_pem(pem).map_err(|e| e.to_string())?;
    let mut validation = Validation::new(Algorithm::RS256);
    validation.set_issuer(&[issuer]);
    validation.set_audience(&[audience]);
    jsonwebtoken::decode(token, &key, &validation).map(|d| d.claims).map_err(|e| e.to_string())
}

/// `jsonwebtoken::decode` of an RS256 token, with `DecodingKey::from_jwk` of a key that is given as
/// JSON text; otherwise as [`decode_hs256`]. A key that cannot be read or used is refused.
#[verifier::external_body]
fn decode_rs256_jwk(token: &str, jwk: &str, issuer: &str, audience: &str) -> (r: Result<
    serde_json::Map<String, serde_json::Value>,
    String,
>)
    ensures
        r matches Ok(m) ==> vetted(token@, KeyView::Jwk(jwk@), issuer@, audience@) == Some(
            claims_in(m),
        ),
        r matches Ok(m) ==> checked(claims_in(m), issuer@, audience@),
{
    let parsed = serde_json::from_str(jwk).map_err(|e| e.to_string())?;
    let key = DecodingKey::from_jwk(&parsed).map_err(|e| e.to_string())?;
    let mut validation = Validation::new(Algorithm::RS256);
    validation.set_issuer(&[issuer]);
    validation.set_audience(&[audience]);
    jsonwebtoken::decode(token, &key, &validation).map(|d| d.claims).map_err(|e| e.to_string())
}

/// The claims of `token`, checked with the algorithm that goes with the key: a shared secret signs
/// by HS256, a key of an identity provider by RS256.
fn decode_claims(token: &str, key: &TokenKey, issuer: &str, audience: &str) -> (r: Result<
    serde_json::Map<String, serde_json::Value>,
    String,
>)
    ensures
        r matches Ok(m) ==> vetted(token@, key@, issuer@, audience@) == Some(claims_in(m)),
        r matches Ok(m) ==> checked(claims_in(m), issuer@, audience@),
{
    match key {
        TokenKey::Secret(s) => decode_hs256(token, s.as_slice(), issuer, audience),
        TokenKey::RsaPem(p) => decode_rs256_pem(token, p.as_slice(), issuer, audience),
        TokenKey::Jwk(j) => decode_rs256_jwk(token, j.as_str(), issuer, audience),
    }
}

/// `serde_json::Map::get`: the claim called `name`, where there is one.
#[verifier::external_body]
fn claim(m: &serde_json::Map<String, serde_json::Value>, name: &str) -> (r: Option<ClaimValue>)
    ensures
        match r {
            Some(v) => claims_in(*m).contains_key(name@) && claims_in(*m)[name@] == v@,
            None => !claims_in(*m).contains_key(name@),
        },
{
    m.get(name).map(
        |v| match v {
            serde_json::Value::Null => ClaimValue::Null,
            serde_json::Value::String(s) => ClaimValue::Text(s.clone()),
            serde_json::Value::Number(n) => n.as_u64().map_or(ClaimValue::Other, ClaimValue::Whole),
            serde_json::Value::Array(a) => ClaimValue::List(
                a.iter().map(|x| x.as_str().map(str::to_string)).collect(),
            ),
            _ => ClaimValue::Other,
        },
    )
}

/// `jsonwebtoken::decode_header`: the key id in a token's header.
#[verifier::external_body]
fn header_kid(token: &str) -> (r: Result<Option<String>, String>)
    ensures
        match r {
            Ok(kid) => kid_in(token@) == Ok::<Option<Seq<char>>, Seq<char>>(kid.deep_view()),
            Err(e) => kid_in(token@) == Err::<Option<Seq<char>>, Seq<char>>(e@),
        },
{
    jsonwebtoken::decode_header(token).map(|h| h.kid).map_err(|e| e.to_string())
}

/// `DecodingKey::from_rsa_pem`: why `pem` is no RSA public key.
#[verifier::external_body]
fn pem_fault(pem: &[u8]) -> (r: Option<String>)
    ensures
        r.deep_view() == pem_fault_of(pem@),
{
    DecodingKey::from_rsa_pem(pem).err().map(|e| e.to_string())
}

/// `DecodingKey::from_jwk`: why the key cannot be used.
#[verifier::external_body]
fn jwk_fault(jwk: &str) -> (r: Option<String>)
    ensures
        r.deep_view() == jwk_fault_of(jwk@),
{
    match serde_json::from_str(jwk) {
        Ok(key) => DecodingKey::from_jwk(&key).err().map(|e| e.to_string()),
        Err(e) => Some(e.to_string()),
    }
}

/// The `keys` of a `JwkSet`, each as its id and as the JSON text that `serde_json::to_string` gives.
#[verifier::external_body]
fn set_keys(set: &JwkSet) -> (keys: Vec<(Option<String>, String)>)
    ensures
        keys.deep_view() == keys_in(*set),
{
    set.keys.iter().map(
        |k| (k.common.key_id.clone(), serde_json::to_string(k).unwrap_or_default()),
    ).collect()
}

/// `jsonwebtoken::get_current_timestamp`: the seconds since the epoch. Which second it is, is left
/// open.
#[verifier::external_body]
fn current_timestamp() -> u64 {
    jsonwebtoken::get_current_timestamp()
}

/// One claim of a token to sign.
#[derive(Debug)]
pub enum SessionClaim {
    Text(String),
    Texts(Vec<String>),
    Whole(u64),
}

/// What a [`SessionClaim`] says.
pub enum SessionClaimView {
    Text(Seq<char>),
    Texts(Seq<Seq<char>>),
    Whole(u64),
}

impl DeepView for SessionClaim {
    type V = SessionClaimView;

    open spec fn deep_view(&self) -> SessionClaimView {
        match self {
            SessionClaim::Text(s) => SessionClaimView::Text(s@),
            SessionClaim::Texts(v) => SessionClaimView::Texts(v.deep_view()),
            SessionClaim::Whole(n) => SessionClaimView::Whole(*n),
        }
    }
}

/// A claim to sign, as a reader of the token sees it.
pub open spec fn read_claim(c: SessionClaimView) -> ClaimView {
    match c {
        SessionClaimView::Text(s) => ClaimView::Text(s),
        SessionClaimView::Texts(v) => ClaimView::List(
            Seq::new(v.len(), |i: int| Some(v[i])),
        ),
        SessionClaimView::Whole(n) => ClaimView::Whole(n),
    }
}

/// The claims to sign by name; a later one of the same name replaces an earlier one.
pub open spec fn claims_by_name(claims: Seq<(Seq<char>, SessionClaimView)>) -> Map<
    Seq<char>,
    ClaimView,
>
    decreases claims.len(),
{
    if claims.len() == 0 {
        Map::empty()
    } else {
        claims_by_name(claims.drop_last()).insert(claims.last().0, read_claim(claims.last().1))
    }
}

/// Whether claims have an expiry, name this issuer and this audience, and are such that a reader
/// can check them: a subject is a text, and nothing says from when on they hold.
pub open spec fn addressed(
    claims: Map<Seq<char>, ClaimView>,
    issuer: Seq<char>,
    audience: Seq<char>,
) -> bool {
    &&& claims.contains_key("exp"@) && claims["exp"@] is Whole
    &&& claims.contains_key("iss"@) && claims["iss"@] == ClaimView::Text(issuer)
    &&& claims.contains_key("aud"@) && claims["aud"@] == ClaimView::Text(audience)
    &&& claims.contains_key("sub"@) ==> claims["sub"@] is Text
    &&& !claims.contains_key("nbf"@)
}

/// Whether a text can follow the scheme in a header: it is not empty and holds no white space.
pub open spec fn one_word(t: Seq<char>) -> bool {
    t.len() > 0 && forall|i: int| 0 <= i < t.len() ==> !is_whitespace(#[trigger] t[i])
}

/// The HS256 token of these claims under `secret`, or why there is none.
pub uninterp spec fn signed(claims: Seq<(Seq<char>, SessionClaimView)>, secret: Seq<u8>) -> Result<
    Seq<char>,
    Seq<char>,
>;

/// `jsonwebtoken::encode` of these claims as a JSON object, in their order, with an HS256 header and
/// `EncodingKey::from_secret`. The token is three parts in URL-safe base64 with dots between them.
/// `jsonwebtoken::decode` with the same secret gives the claims back, if they have an expiry that
/// is not past and name the issuer and the audience that it asks for; their subject must be a text
/// and there must be no `nbf`, for `decode` reads both when it checks.
#[verifier::external_body]
fn sign_hs256(claims: &Vec<(String, SessionClaim)>, secret: &[u8]) -> (r: Result<String, String>)
    ensures
        match r {
            Ok(t) => signed(claims.deep_view(), secret@) == Ok::<Seq<char>, Seq<char>>(t@),
            Err(e) => signed(claims.deep_view(), secret@) == Err::<Seq<char>, Seq<char>>(e@),
        },
        r matches Ok(t) ==> one_word(t@),
        r matches Ok(t) ==> forall|issuer: Seq<char>, audience: Seq<char>|
            addressed(claims_by_name(claims.deep_view()), issuer, audience) ==> #[trigger] vetted(
                t@,
                KeyView::Secret(secret@),
                issuer,
                audience,
            ) == Some(claims_by_name(claims.deep_view())),
{
    let object: serde_json::Map<String, serde_json::Value> = claims.iter().map(
        |(k, c)| (
            k.clone(),
            match c {
                SessionClaim::Text(s) => s.clone().into(),
                SessionClaim::Texts(v) => v.clone().into(),
                SessionClaim::Whole(n) => (*n).into(),
            },
        ),
    ).collect();
    jsonwebtoken::encode(&Header::new(Algorithm::HS256), &object, &EncodingKey::from_secret(secret))
        .map_err(|e| e.to_string())
}

/// A claim other than the subject.
pub open spec fn extra(claims: Map<Seq<char>, ClaimView>, name: Seq<char>) -> Option<ClaimView> {
    if name != "sub"@ && claims.contains_key(name) {
        Some(claims[name])
    } else {
        None
    }
}

/// The text of a claim, where it is one.
pub open spec fn claim_text(c: Option<ClaimView>) -> Option<Seq<char>> {
    match c {
        Some(ClaimView::Text(s)) => Some(s),
        _ => None,
    }
}

/// The texts among the items of a list.
pub open spec fn texts_among(items: Seq<Option<Seq<char>>>) -> Seq<Seq<char>>
    decreases items.len(),
{
    if items.len() == 0 {
        Seq::empty()
    } else {
        let before = texts_among(items.drop_last());
        match items.last() {
            Some(s) => before.push(s),
            None => before,
        }
    }
}

/// The names in a claim: the texts of a list, or the words of a text.
pub open spec fn claim_names(c: Option<ClaimView>) -> Seq<Seq<char>> {
    match c {
        Some(ClaimView::List(items)) => texts_among(items),
        Some(ClaimView::Text(s)) => listed(s, Separator::Whitespace),
        _ => Seq::empty(),
    }
}

/// The number in a claim, where it is one.
pub open spec fn claim_number(c: Option<ClaimView>) -> Option<u64> {
    match c {
        Some(ClaimView::Whole(n)) => Some(n),
        _ => None,
    }
}

/// The message for a subject that is no text.
pub open spec fn bad_subject() -> Seq<char> {
    "JSON error: the `sub` claim is not a string"@
}

/// The identity that validated claims give.
pub open spec fn identity_of(claims: Map<Seq<char>, ClaimView>, mapping: ClaimMapping) -> Result<
    VerifiedView,
    AuthnErrorView,
> {
    if !claims.contains_key("sub"@) || claims["sub"@] is Null {
        Err(AuthnErrorView::MissingClaim("sub"@))
    } else {
        match claims["sub"@] {
            ClaimView::Text(principal) => Ok(
                VerifiedView {
                    principal,
                    tenant: claim_text(extra(claims, mapping.tenant@)),
                    roles: claim_names(extra(claims, mapping.roles@)),
                    indexes: claim_names(extra(claims, mapping.indexes@)),
                    display_name: claim_text(extra(claims, "name"@)),
                    email: claim_text(extra(claims, "email"@)),
                    issued_at: claim_number(extra(claims, "iat"@)),
                },
            ),
            _ => Err(AuthnErrorView::Invalid(bad_subject())),
        }
    }
}

/// What a token may be answered with: an error of validation, or the identity that its claims
/// give. There is an identity only where `key` signed the token, for this issuer and audience.
pub open spec fn token_answer(
    token: Seq<char>,
    key: KeyView,
    issuer: Seq<char>,
    audience: Seq<char>,
    mapping: ClaimMapping,
    r: Result<VerifiedView, AuthnErrorView>,
) -> bool {
    ||| r matches Err(AuthnErrorView::Invalid(_))
    ||| (vetted(token, key, issuer, audience) matches Some(claims) && checked(
        claims,
        issuer,
        audience,
    ) && r == identity_of(claims, mapping))
}

/// What a claim that was looked up says.
pub open spec fn seen(c: Option<ClaimValue>) -> Option<ClaimView> {
    match c {
        Some(v) => Some(v@),
        None => None,
    }
}

fn extra_claim(m: &serde_json::Map<String, serde_json::Value>, name: &str) -> (r: Option<
    ClaimValue,
>)
    ensures
        seen(r) == extra(claims_in(*m), name@),
{
    if same(name, "sub") {
        None
    } else {
        claim(m, name)
    }
}

fn claim_string(c: Option<ClaimValue>) -> (r: Option<String>)
    ensures
        r.deep_view() == claim_text(seen(c)),
{
    match c {
        Some(ClaimValue::Text(s)) => Some(s),
        _ => None,
    }
}

fn claim_roles(c: Option<ClaimValue>) -> (r: Vec<String>)
    ensures
        r.deep_view() == claim_names(seen(c)),
{
    match c {
        Some(ClaimValue::List(items)) => {
            let mut out: Vec<String> = Vec::new();
            let ghost all = items.deep_view();
            let mut i: usize = 0;
            assert(all.take(0) =~= Seq::empty());
            assert(out.deep_view() =~= texts_among(all.take(0)));
            while i < items.len()
                invariant
                    all == items.deep_view(),
                    i <= items@.len(),
                    out.deep_view() == texts_among(all.take(i as int)),
                decreases items@.len() - i,
            {
                assert(all.take(i + 1).drop_last() =~= all.take(i as int));
                let ghost before = out.deep_view();
                if let Some(s) = &items[i] {
                    out.push(s.clone());
                    assert(out.deep_view() =~= before.push(s@));
                }
                i = i + 1;
            }
            assert(all.take(i as int) =~= all);
            out
        },
        Some(ClaimValue::Text(s)) => list_items(s.as_str(), Separator::Whitespace),
        _ => {
            let none: Vec<String> = Vec::new();
            assert(none.deep_view() =~= Seq::empty());
            none
        },
    }
}

/// The identity that the claims of a validated token give.
pub fn claims_identity(
    m: &serde_json::Map<String, serde_json::Value>,
    mapping: &ClaimMapping,
) -> (r: Result<Verified, AuthnError>)
    ensures
        outcome(r) == identity_of(claims_in(*m), *mapping),
{
    let principal = match claim(m, "sub") {
        None => {
            return Err(AuthnError::MissingClaim("sub"));
        },
        Some(ClaimValue::Null) => {
            return Err(AuthnError::MissingClaim("sub"));
        },
        Some(ClaimValue::Text(s)) => s,
        Some(_) => {
            return Err(
                AuthnError::Invalid("JSON error: the `sub` claim is not a string".to_owned()),
            );
        },
    };
    let issued_at: Option<u64> = match extra_claim(m, "iat") {
        Some(ClaimValue::Whole(n)) => Some(n),
        _ => None,
    };
    Ok(
        Verified {
            principal,
            tenant: claim_string(extra_claim(m, mapping.tenant.as_str())),
            roles: claim_roles(extra_claim(m, mapping.roles.as_str())),
            indexes: claim_roles(extra_claim(m, mapping.indexes.as_str())),
            display_name: claim_string(extra_claim(m, "name")),
            email: claim_string(extra_claim(m, "email")),
            issued_at,
        },
    )
}

/// Validates `token` and maps its claims to an identity.
pub fn decode_and_map(
    token: &str,
    key: &TokenKey,
    issuer: &str,
    audience: &str,
    mapping: &ClaimMapping,
) -> (r: Result<Verified, AuthnError>)
    ensures
        token_answer(token@, key@, issuer@, audience@, *mapping, outcome(r)),
{
    match decode_claims(token, key, issuer, audience) {
        Ok(m) => claims_identity(&m, mapping),
        Err(e) => Err(AuthnError::Invalid(e)),
    }
}

/// Checks bearer tokens against one key.
pub struct JwtAuthenticator {
    pub key: TokenKey,
    pub issuer: String,
    pub audience: String,
    pub claims: ClaimMapping,
}

/// Whether `m` names the default claims.
pub open spec fn default_mapping(m: ClaimMapping) -> bool {
    m.tenant@ == "tenant"@ && m.roles@ == "roles"@ && m.indexes@ == "indexes"@
}

impl JwtAuthenticator {
    /// Checks tokens of `issuer` for `audience` against `key`.
    pub fn new(key: TokenKey, issuer: &str, audience: &str) -> (a: JwtAuthenticator)
        ensures
            a.key == key,
            a.issuer@ == issuer@,
            a.audience@ == audience@,
            default_mapping(a.claims),
    {
        JwtAuthenticator {
            key,
            issuer: issuer.to_owned(),
            audience: audience.to_owned(),
            claims: ClaimMapping::default(),
        }
    }

    /// Checks HS256 tokens signed with a shared `secret`.
    pub fn from_hs256_secret(secret: &[u8], issuer: &str, audience: &str) -> (a: JwtAuthenticator)
        ensures
            a.key matches TokenKey::Secret(s) && s@ == secret@,
            a.issuer@ == issuer@,
            a.audience@ == audience@,
            default_mapping(a.claims),
    {
        JwtAuthenticator::new(TokenKey::Secret(slice_to_vec(secret)), issuer, audience)
    }

    /// Checks RS256 tokens against an RSA public key as PEM text.
    pub fn from_rs256_pem(pem: &[u8], issuer: &str, audience: &str) -> (r: Result<
        JwtAuthenticator,
        AuthnError,
    >)
        ensures
            match pem_fault_of(pem@) {
                Some(why) => r matches Err(e) && e@ == AuthnErrorView::Invalid(why),
                None => r matches Ok(a) && (a.key matches TokenKey::RsaPem(p) && p@ == pem@)
                    && a.issuer@ == issuer@ && a.audience@ == audience@ && default_mapping(
                    a.claims,
                ),
            },
    {
        match pem_fault(pem) {
            Some(why) => Err(AuthnError::Invalid(why)),
            None => Ok(JwtAuthenticator::new(TokenKey::RsaPem(slice_to_vec(pem)), issuer, audience)),
        }
    }

    /// Reads the tenant, the roles and the index allowlist from other claims.
    pub fn with_claim_mapping(self, claims: ClaimMapping) -> (a: JwtAuthenticator)
        ensures
            a == (JwtAuthenticator { claims, ..self }),
    {
        JwtAuthenticator {
            key: self.key,
            issuer: self.issuer,
            audience: self.audience,
            claims,
        }
    }
}

impl Authenticator for JwtAuthenticator {
    open spec fn may_yield(
        &self,
        authorization: Option<Seq<char>>,
        r: Result<VerifiedView, AuthnErrorView>,
    ) -> bool {
        match bearer_credential(authorization) {
            Credential::Missing => r == Err::<VerifiedView, AuthnErrorView>(AuthnErrorView::Missing),
            Credential::Malformed => r == Err::<VerifiedView, AuthnErrorView>(
                AuthnErrorView::Malformed,
            ),
            Credential::Token(t) => token_answer(
                t,
                self.key@,
                self.issuer@,
                self.audience@,
                self.claims,
                r,
            ),
        }
    }

    fn authenticate(&self, authorization: Option<&str>) -> (r: Result<Verified, AuthnError>) {
        match bearer_token(authorization) {
            Ok(token) => decode_and_map(
                token,
                &self.key,
                self.issuer.as_str(),
                self.audience.as_str(),
                &self.claims,
            ),
            Err(e) => Err(e),
        }
    }
}

/// Where a key set comes from.
#[derive(Debug)]
pub enum JwksSource {
    /// The endpoint that the issuer's discovery document names.
    Discover { issuer: String },
    /// A fixed endpoint.
    Uri(String),
}

/// The keys of a set that have an id, in order.
pub open spec fn keyed(keys: Seq<(Option<Seq<char>>, Seq<char>)>) -> Seq<(Seq<char>, Seq<char>)>
    decreases keys.len(),
{
    if keys.len() == 0 {
        Seq::empty()
    } else {
        let before = keyed(keys.drop_last());
        match keys.last().0 {
            Some(kid) => before.push((kid, keys.last().1)),
            None => before,
        }
    }
}

/// The message for a key that cannot be used.
pub open spec fn unusable_text(kid: Seq<char>, why: Seq<char>) -> Seq<char> {
    "unusable JWK for kid `"@ + kid + "`: "@ + why
}

/// What reading a key set gives: its keys by id, or why it cannot be used. The first key with an
/// id that cannot be used spoils the set, and so does the want of any key with an id.
pub open spec fn key_map_of(keys: Seq<(Option<Seq<char>>, Seq<char>)>) -> Result<
    Seq<(Seq<char>, Seq<char>)>,
    AuthnErrorView,
> {
    let all = keyed(keys);
    if exists|i: int| 0 <= i < all.len() && jwk_fault_of((#[trigger] all[i]).1) is Some {
        let i = first_fault(all, 0);
        Err(AuthnErrorView::Discovery(unusable_text(all[i].0, jwk_fault_of(all[i].1)->0)))
    } else if all.len() == 0 {
        Err(AuthnErrorView::Discovery("JWKS contained no usable keys with a `kid`"@))
    } else {
        Ok(all)
    }
}

/// The position from `i` on of the first key that cannot be used.
pub open spec fn first_fault(all: Seq<(Seq<char>, Seq<char>)>, i: int) -> int
    decreases all.len() - i,
{
    if i < 0 || i >= all.len() || jwk_fault_of(all[i].1) is Some {
        i
    } else {
        first_fault(all, i + 1)
    }
}

/// The keys of a set by id, in the set's order.
pub fn build_key_map(set: &JwkSet) -> (r: Result<Vec<(String, String)>, AuthnError>)
    ensures
        match key_map_of(keys_in(*set)) {
            Ok(m) => r matches Ok(v) && v.deep_view() == m,
            Err(e) => r matches Err(f) && f@ == e,
        },
{
    let keys = set_keys(set);
    let ghost given = keys.deep_view();
    let ghost all = keyed(given);
    let mut map: Vec<(String, String)> = Vec::new();
    let mut i: usize = 0;
    assert(given.take(0) =~= Seq::empty());
    assert(map.deep_view() =~= keyed(given.take(0)));
    while i < keys.len()
        invariant
            given == keys.deep_view(),
            given == keys_in(*set),
            all == keyed(given),
            i <= keys@.len(),
            map.deep_view() == keyed(given.take(i as int)),
            forall|k: int|
                0 <= k < map@.len() ==> jwk_fault_of((#[trigger] map.deep_view()[k]).1) is None,
        decreases keys@.len() - i,
    {
        let ghost before = map.deep_view();
        proof {
            assert(given.take(i + 1).drop_last() =~= given.take(i as int));
            lemma_keyed_prefix(given, i + 1);
        }
        if let Some(kid) = &keys[i].0 {
            let ghost pair = (kid@, keys@[i as int].1@);
            assert(given[i as int] == (Some(kid@), keys@[i as int].1@));
            assert(keyed(given.take(i + 1)) == before.push(pair));
            if let Some(why) = jwk_fault(keys[i].1.as_str()) {
                let mut m = "unusable JWK for kid `".to_owned();
                m.append(kid.as_str());
                m.append("`: ");
                m.append(why.as_str());
                proof {
                    let at = before.len() as int;
                    assert(all[at] == before.push(pair)[at]);
                    assert forall|k: int| 0 <= k < at implies jwk_fault_of(
                        (#[trigger] all[k]).1,
                    ) is None by {
                        assert(all[k] == before.push(pair)[k]);
                        assert(before[k] == map.deep_view()[k]);
                    }
                    lemma_first_fault(all, 0, at);
                }
                return Err(AuthnError::Discovery(m));
            }
            map.push((kid.clone(), keys[i].1.clone()));
            assert(map.deep_view() =~= before.push(pair));
        }
        i = i + 1;
    }
    assert(given.take(i as int) =~= given);
    assert forall|k: int| 0 <= k < all.len() implies jwk_fault_of((#[trigger] all[k]).1) is None by {
        assert(map.deep_view()[k] == all[k]);
    }
    if map.len() == 0 {
        return Err(
            AuthnError::Discovery("JWKS contained no usable keys with a `kid`".to_owned()),
        );
    }
    Ok(map)
}

proof fn lemma_keyed_prefix(keys: Seq<(Option<Seq<char>>, Seq<char>)>, n: int)
    requires
        0 <= n <= keys.len(),
    ensures
        keyed(keys.take(n)).len() <= keyed(keys).len(),
        forall|k: int|
            0 <= k < keyed(keys.take(n)).len() ==> #[trigger] keyed(keys)[k] == keyed(
                keys.take(n),
            )[k],
    decreases keys.len(),
{
    if n == keys.len() {
        assert(keys.take(n) =~= keys);
    } else {
        lemma_keyed_prefix(keys.drop_last(), n);
        assert(keys.drop_last().take(n) =~= keys.take(n));
    }
}

proof fn lemma_first_fault(all: Seq<(Seq<char>, Seq<char>)>, i: int, at: int)
    requires
        0 <= i <= at < all.len(),
        jwk_fault_of(all[at].1) is Some,
        forall|k: int| i <= k < at ==> jwk_fault_of((#[trigger] all[k]).1) is None,
    ensures
        first_fault(all, i) == at,
    decreases at - i,
{
    if i < at {
        lemma_first_fault(all, i + 1, at);
    }
}

/// Checks RS256 tokens against the keys of an identity provider, chosen by the token's key id.
/// Keys rotate, so the set is fetched again from time to time.
pub struct JwksAuthenticator {
    pub keys: Vec<(String, String)>,
    pub issuer: String,
    pub audience: String,
    pub claims: ClaimMapping,
    pub source: JwksSource,
}

/// The position of the last key with this id before `n`; a later key replaces an earlier one.
pub open spec fn last_with_kid(keys: Seq<(Seq<char>, Seq<char>)>, kid: Seq<char>, n: int) -> Option<
    int,
>
    decreases n,
{
    if n <= 0 {
        None
    } else if keys[n - 1].0 == kid {
        Some(n - 1)
    } else {
        last_with_kid(keys, kid, n - 1)
    }
}

/// The message for a key id that no key has.
pub open spec fn no_key_text(kid: Seq<char>) -> Seq<char> {
    "no signing key for kid `"@ + kid + "` (key rotated or JWKS not refreshed)"@
}

/// What a fetch of keys asks for.
#[derive(Debug)]
pub enum JwksRequest {
    /// Fetch the key set here.
    Keys(String),
    /// Fetch the discovery document here; it names where the key set is.
    Discovery(String),
}

/// Where an issuer's discovery document is.
pub open spec fn discovery_url(issuer: Seq<char>) -> Seq<char> {
    trim_end_char(issuer, '/') + "/.well-known/openid-configuration"@
}

impl JwksAuthenticator {
    /// Checks tokens of `issuer` for `audience`, with keys from where the issuer's discovery
    /// document says. There are no keys before the first fetch.
    pub fn for_issuer(issuer: &str, audience: &str) -> (a: JwksAuthenticator)
        ensures
            a.keys@.len() == 0,
            a.issuer@ == issuer@,
            a.audience@ == audience@,
            default_mapping(a.claims),
            a.source matches JwksSource::Discover { issuer: i } && i@ == issuer@,
    {
        JwksAuthenticator::with_source(
            JwksSource::Discover { issuer: issuer.to_owned() },
            issuer,
            audience,
        )
    }

    /// As [`Self::for_issuer`], with keys from `jwks_uri`.
    pub fn for_jwks_uri(issuer: &str, audience: &str, jwks_uri: &str) -> (a: JwksAuthenticator)
        ensures
            a.keys@.len() == 0,
            a.issuer@ == issuer@,
            a.audience@ == audience@,
            default_mapping(a.claims),
            a.source matches JwksSource::Uri(u) && u@ == jwks_uri@,
    {
        JwksAuthenticator::with_source(JwksSource::Uri(jwks_uri.to_owned()), issuer, audience)
    }

    fn with_source(source: JwksSource, issuer: &str, audience: &str) -> (a: JwksAuthenticator)
        ensures
            a.keys@.len() == 0,
            a.issuer@ == issuer@,
            a.audience@ == audience@,
            default_mapping(a.claims),
            a.source == source,
    {
        JwksAuthenticator {
            keys: Vec::new(),
            issuer: issuer.to_owned(),
            audience: audience.to_owned(),
            claims: ClaimMapping::default(),
            source,
        }
    }

    /// Checks tokens against a key set that was fetched already.
    pub fn from_jwk_set(set: &JwkSet, issuer: &str, audience: &str) -> (r: Result<
        JwksAuthenticator,
        AuthnError,
    >)
        ensures
            match key_map_of(keys_in(*set)) {
                Ok(m) => r matches Ok(a) && a.keys.deep_view() == m && a.issuer@ == issuer@
                    && a.audience@ == audience@ && default_mapping(a.claims) && (
                a.source matches JwksSource::Uri(u) && u@.len() == 0),
                Err(e) => r matches Err(f) && f@ == e,
            },
    {
        match build_key_map(set) {
            Ok(keys) => {
                let a = JwksAuthenticator::with_source(
                    JwksSource::Uri(String::new()),
                    issuer,
                    audience,
                );
                Ok(
                    JwksAuthenticator {
                        keys,
                        issuer: a.issuer,
                        audience: a.audience,
                        claims: a.claims,
                        source: a.source,
                    },
                )
            },
            Err(e) => Err(e),
        }
    }

    /// Reads the tenant, the roles and the index allowlist from other claims.
    pub fn with_claim_mapping(self, claims: ClaimMapping) -> (a: JwksAuthenticator)
        ensures
            a == (JwksAuthenticator { claims, ..self }),
    {
        JwksAuthenticator {
            keys: self.keys,
            issuer: self.issuer,
            audience: self.audience,
            claims,
            source: self.source,
        }
    }

    /// What to fetch to refresh the keys.
    pub fn refresh_request(&self) -> (r: Result<JwksRequest, AuthnError>)
        ensures
            match self.source {
                JwksSource::Uri(u) => if u@.len() == 0 {
                    r matches Err(e) && e@ == AuthnErrorView::Discovery("no jwks_uri configured"@)
                } else {
                    r matches Ok(JwksRequest::Keys(k)) && k@ == u@
                },
                JwksSource::Discover { issuer } => r matches Ok(JwksRequest::Discovery(d)) && d@
                    == discovery_url(issuer@),
            },
    {
        match &self.source {
            JwksSource::Uri(u) => if u.as_str().is_empty() {
                Err(AuthnError::Discovery("no jwks_uri configured".to_owned()))
            } else {
                Ok(JwksRequest::Keys(u.clone()))
            },
            JwksSource::Discover { issuer } => {
                let mut url = trimmed_end_char(issuer.as_str(), '/').to_owned();
                url.append("/.well-known/openid-configuration");
                Ok(JwksRequest::Discovery(url))
            },
        }
    }

    /// Takes over the keys of a fetched set. A set that cannot be used leaves the keys there were.
    pub fn install(&mut self, set: &JwkSet) -> (r: Result<(), AuthnError>)
        ensures
            final(self).issuer == old(self).issuer,
            final(self).audience == old(self).audience,
            final(self).claims == old(self).claims,
            final(self).source == old(self).source,
            match key_map_of(keys_in(*set)) {
                Ok(m) => r is Ok && final(self).keys.deep_view() == m,
                Err(e) => (r matches Err(f) && f@ == e) && final(self).keys == old(self).keys,
            },
    {
        match build_key_map(set) {
            Ok(keys) => {
                self.keys = keys;
                Ok(())
            },
            Err(e) => Err(e),
        }
    }

    fn find_key(&self, kid: &str) -> (at: Option<usize>)
        ensures
            match at {
                Some(k) => k < self.keys@.len() && last_with_kid(
                    self.keys.deep_view(),
                    kid@,
                    self.keys@.len() as int,
                ) == Some(k as int),
                None => last_with_kid(self.keys.deep_view(), kid@, self.keys@.len() as int) is None,
            },
    {
        let mut n: usize = self.keys.len();
        while n > 0
            invariant
                n <= self.keys@.len(),
                last_with_kid(self.keys.deep_view(), kid@, self.keys@.len() as int)
                    == last_with_kid(self.keys.deep_view(), kid@, n as int),
            decreases n,
        {
            assert(self.keys.deep_view()[n - 1].0 == self.keys@[n - 1].0@);
            if same(self.keys[n - 1].0.as_str(), kid) {
                return Some(n - 1);
            }
            n = n - 1;
        }
        None
    }
}

impl Authenticator for JwksAuthenticator {
    open spec fn may_yield(
        &self,
        authorization: Option<Seq<char>>,
        r: Result<VerifiedView, AuthnErrorView>,
    ) -> bool {
        match bearer_credential(authorization) {
            Credential::Missing => r == Err::<VerifiedView, AuthnErrorView>(AuthnErrorView::Missing),
            Credential::Malformed => r == Err::<VerifiedView, AuthnErrorView>(
                AuthnErrorView::Malformed,
            ),
            Credential::Token(t) => match kid_in(t) {
                Err(why) => r == Err::<VerifiedView, AuthnErrorView>(AuthnErrorView::Invalid(why)),
                Ok(None) => r == Err::<VerifiedView, AuthnErrorView>(
                    AuthnErrorView::Invalid("token has no `kid` header"@),
                ),
                Ok(Some(kid)) => match last_with_kid(
                    self.keys.deep_view(),
                    kid,
                    self.keys@.len() as int,
                ) {
                    None => r == Err::<VerifiedView, AuthnErrorView>(
                        AuthnErrorView::Invalid(no_key_text(kid)),
                    ),
                    Some(k) => token_answer(
                        t,
                        KeyView::Jwk(self.keys@[k].1@),
                        self.issuer@,
                        self.audience@,
                        self.claims,
                        r,
                    ),
                },
            },
        }
    }

    fn authenticate(&self, authorization: Option<&str>) -> (r: Result<Verified, AuthnError>) {
        let token = match bearer_token(authorization) {
            Ok(t) => t,
            Err(e) => {
                return Err(e);
            },
        };
        let kid = match header_kid(token) {
            Ok(Some(kid)) => kid,
            Ok(None) => {
                return Err(AuthnError::Invalid("token has no `kid` header".to_owned()));
            },
            Err(why) => {
                return Err(AuthnError::Invalid(why));
            },
        };
        match self.find_key(kid.as_str()) {
            Some(k) => decode_and_map(
                token,
                &TokenKey::Jwk(self.keys[k].1.clone()),
                self.issuer.as_str(),
                self.audience.as_str(),
                &self.claims,
            ),
            None => {
                let mut m = "no signing key for kid `".to_owned();
                m.append(kid.as_str());
                m.append("` (key rotated or JWKS not refreshed)");
                Err(AuthnError::Invalid(m))
            },
        }
    }
}

/// The endpoint that a discovery document names.
pub fn discovered_uri(jwks_uri: Option<String>, url: &str) -> (r: Result<String, AuthnError>)
    ensures
        match jwks_uri {
            Some(u) => r == Ok::<String, AuthnError>(u),
            None => r matches Err(e) && e@ == AuthnErrorView::Discovery(
                "OIDC config at "@ + url@ + " has no jwks_uri"@,
            ),
        },
{
    match jwks_uri {
        Some(u) => Ok(u),
        None => {
            let mut m = "OIDC config at ".to_owned();
            m.append(url);
            m.append(" has no jwks_uri");
            Err(AuthnError::Discovery(m))
        },
    }
}

/// The claims of a session token: subject, roles, the index allowlist unless it is empty, issuer,
/// audience, expiry, time of issue, and the name where there is one.
pub open spec fn session_claims(
    subject: Seq<char>,
    roles: Seq<Seq<char>>,
    indexes: Seq<Seq<char>>,
    issuer: Seq<char>,
    audience: Seq<char>,
    now: u64,
    expiry: u64,
    name: Option<Seq<char>>,
) -> Seq<(Seq<char>, SessionClaimView)> {
    let first = seq![
        ("sub"@, SessionClaimView::Text(subject)),
        ("roles"@, SessionClaimView::Texts(roles)),
    ];
    let scoped = if indexes.len() == 0 {
        first
    } else {
        first.push(("indexes"@, SessionClaimView::Texts(indexes)))
    };
    let dated = scoped.push(("iss"@, SessionClaimView::Text(issuer))).push(
        ("aud"@, SessionClaimView::Text(audience)),
    ).push(("exp"@, SessionClaimView::Whole(expiry))).push(("iat"@, SessionClaimView::Whole(now)));
    match name {
        Some(n) => dated.push(("name"@, SessionClaimView::Text(n))),
        None => dated,
    }
}

/// The caller that a session token stands for.
pub open spec fn session_identity(
    subject: Seq<char>,
    roles: Seq<Seq<char>>,
    indexes: Seq<Seq<char>>,
    now: u64,
    name: Option<Seq<char>>,
) -> VerifiedView {
    VerifiedView {
        principal: subject,
        tenant: None,
        roles,
        indexes,
        display_name: name,
        email: None,
        issued_at: Some(now),
    }
}

/// Whether who holds `secret` reads `v` from a token that is meant by `issuer` for `audience`.
pub open spec fn opens_as(
    token: Seq<char>,
    secret: Seq<u8>,
    issuer: Seq<char>,
    audience: Seq<char>,
    v: VerifiedView,
) -> bool {
    &&& one_word(token)
    &&& vetted(token, KeyView::Secret(secret), issuer, audience) matches Some(claims) && forall|
        mapping: ClaimMapping,
    |
        default_mapping(mapping) ==> #[trigger] identity_of(claims, mapping) == Ok::<
            VerifiedView,
            AuthnErrorView,
        >(v)
}

proof fn lemma_pushed(claims: Seq<(Seq<char>, SessionClaimView)>, c: (Seq<char>, SessionClaimView))
    ensures
        claims_by_name(claims.push(c)) == claims_by_name(claims).insert(c.0, read_claim(c.1)),
{
    assert(claims.push(c).drop_last() =~= claims);
}

proof fn lemma_all_texts(texts: Seq<Seq<char>>)
    ensures
        texts_among(Seq::new(texts.len(), |i: int| Some(texts[i]))) == texts,
    decreases texts.len(),
{
    let items = Seq::new(texts.len(), |i: int| Some(texts[i]));
    if texts.len() > 0 {
        lemma_all_texts(texts.drop_last());
        assert(items.drop_last() =~= Seq::new(
            texts.drop_last().len(),
            |i: int| Some(texts.drop_last()[i]),
        ));
        assert(texts.drop_last().push(texts.last()) =~= texts);
    } else {
        assert(texts =~= Seq::empty());
    }
}

proof fn lemma_claim_names_differ()
    ensures
        forall|i: int, j: int|
            0 <= i < j < claim_name_list().len() ==> claim_name_list()[i] != claim_name_list()[j],
{
    reveal_strlit("sub");
    reveal_strlit("roles");
    reveal_strlit("indexes");
    reveal_strlit("iss");
    reveal_strlit("aud");
    reveal_strlit("exp");
    reveal_strlit("iat");
    reveal_strlit("name");
    reveal_strlit("tenant");
    reveal_strlit("email");
    reveal_strlit("nbf");
    let l = claim_name_list();
    assert(l[0][0] == 's');
    assert(l[1].len() == 5 && l[1][0] == 'r');
    assert(l[2].len() == 7);
    assert(l[3].len() == 3 && l[3][0] == 'i' && l[3][1] == 's');
    assert(l[4].len() == 3 && l[4][0] == 'a');
    assert(l[5].len() == 3 && l[5][0] == 'e');
    assert(l[6].len() == 3 && l[6][0] == 'i' && l[6][1] == 'a');
    assert(l[7].len() == 4);
    assert(l[8].len() == 6);
    assert(l[9].len() == 5 && l[9][0] == 'e');
    assert(l[10].len() == 3 && l[10][0] == 'n');
}

/// The names of the claims that session tokens carry and readers look for.
spec fn claim_name_list() -> Seq<Seq<char>> {
    seq![
        "sub"@,
        "roles"@,
        "indexes"@,
        "iss"@,
        "aud"@,
        "exp"@,
        "iat"@,
        "name"@,
        "tenant"@,
        "email"@,
        "nbf"@,
    ]
}

/// The claims of a session token name its issuer and audience, and give the identity of its
/// subject.
pub proof fn lemma_session_claims(
    subject: Seq<char>,
    roles: Seq<Seq<char>>,
    indexes: Seq<Seq<char>>,
    issuer: Seq<char>,
    audience: Seq<char>,
    now: u64,
    expiry: u64,
    name: Option<Seq<char>>,
)
    ensures
        ({
            let claims = claims_by_name(
                session_claims(subject, roles, indexes, issuer, audience, now, expiry, name),
            );
            &&& addressed(claims, issuer, audience)
            &&& forall|mapping: ClaimMapping|
                default_mapping(mapping) ==> #[trigger] identity_of(claims, mapping) == Ok::<
                    VerifiedView,
                    AuthnErrorView,
                >(session_identity(subject, roles, indexes, now, name))
        }),
{
    let l = claim_name_list();
    lemma_claim_names_differ();
    assert(l[0] == "sub"@ && l[1] == "roles"@ && l[2] == "indexes"@ && l[3] == "iss"@ && l[4]
        == "aud"@ && l[5] == "exp"@ && l[6] == "iat"@ && l[7] == "name"@ && l[8] == "tenant"@
        && l[9] == "email"@);
    let none = Seq::<(Seq<char>, SessionClaimView)>::empty();
    let sub = ("sub"@, SessionClaimView::Text(subject));
    let rol = ("roles"@, SessionClaimView::Texts(roles));
    let idx = ("indexes"@, SessionClaimView::Texts(indexes));
    let iss = ("iss"@, SessionClaimView::Text(issuer));
    let aud = ("aud"@, SessionClaimView::Text(audience));
    let exp = ("exp"@, SessionClaimView::Whole(expiry));
    let iat = ("iat"@, SessionClaimView::Whole(now));
    let first = none.push(sub).push(rol);
    assert(seq![sub, rol] =~= first);
    lemma_pushed(none, sub);
    lemma_pushed(none.push(sub), rol);
    lemma_pushed(first, idx);
    let scoped = if indexes.len() == 0 {
        first
    } else {
        first.push(idx)
    };
    lemma_pushed(scoped, iss);
    lemma_pushed(scoped.push(iss), aud);
    lemma_pushed(scoped.push(iss).push(aud), exp);
    lemma_pushed(scoped.push(iss).push(aud).push(exp), iat);
    let dated = scoped.push(iss).push(aud).push(exp).push(iat);
    if let Some(n) = name {
        lemma_pushed(dated, ("name"@, SessionClaimView::Text(n)));
    }
    lemma_all_texts(roles);
    lemma_all_texts(indexes);
    if indexes.len() == 0 {
        assert(indexes =~= Seq::empty());
    }
}

fn push_claim(claims: &mut Vec<(String, SessionClaim)>, name: &'static str, value: SessionClaim)
    ensures
        final(claims).deep_view() == old(claims).deep_view().push((name@, value.deep_view())),
{
    claims.push((name.to_owned(), value));
    assert(claims.deep_view() =~= old(claims).deep_view().push((name@, value.deep_view())));
}

fn owned_texts(texts: &[String]) -> (out: Vec<String>)
    ensures
        out.deep_view() == texts.deep_view(),
{
    let mut out: Vec<String> = Vec::new();
    let mut i: usize = 0;
    while i < texts.len()
        invariant
            i <= texts@.len(),
            out@.len() == i,
            forall|k: int| 0 <= k < i ==> (#[trigger] out@[k])@ == texts@[k]@,
        decreases texts@.len() - i,
    {
        out.push(texts[i].clone());
        i = i + 1;
    }
    assert(out.deep_view() =~= texts.deep_view());
    out
}

/// Whether `r` is the session token of these claims.
pub open spec fn is_session_token(
    r: Result<String, AuthnError>,
    claims: Seq<(Seq<char>, SessionClaimView)>,
    secret: Seq<u8>,
) -> bool {
    match signed(claims, secret) {
        Ok(t) => r matches Ok(s) && s@ == t,
        Err(why) => r matches Err(e) && e@ == AuthnErrorView::Invalid(why),
    }
}

/// A session token issued at `now` that expires at `expiry`.
pub fn session_jwt_at(
    secret: &[u8],
    subject: &str,
    roles: &[String],
    indexes: &[String],
    issuer: &str,
    audience: &str,
    now: u64,
    expiry: u64,
    display_name: Option<&str>,
) -> (r: Result<String, AuthnError>)
    ensures
        is_session_token(
            r,
            session_claims(
                subject@,
                roles.deep_view(),
                indexes.deep_view(),
                issuer@,
                audience@,
                now,
                expiry,
                display_name.deep_view(),
            ),
            secret@,
        ),
        r matches Ok(t) ==> opens_as(
            t@,
            secret@,
            issuer@,
            audience@,
            session_identity(
                subject@,
                roles.deep_view(),
                indexes.deep_view(),
                now,
                display_name.deep_view(),
            ),
        ),
{
    let mut claims: Vec<(String, SessionClaim)> = Vec::new();
    assert(claims.deep_view() =~= Seq::empty());
    push_claim(&mut claims, "sub", SessionClaim::Text(subject.to_owned()));
    push_claim(&mut claims, "roles", SessionClaim::Texts(owned_texts(roles)));
    assert(claims.deep_view() =~= seq![
        ("sub"@, SessionClaimView::Text(subject@)),
        ("roles"@, SessionClaimView::Texts(roles.deep_view())),
    ]);
    if indexes.len() > 0 {
        push_claim(&mut claims, "indexes", SessionClaim::Texts(owned_texts(indexes)));
    }
    push_claim(&mut claims, "iss", SessionClaim::Text(issuer.to_owned()));
    push_claim(&mut claims, "aud", SessionClaim::Text(audience.to_owned()));
    push_claim(&mut claims, "exp", SessionClaim::Whole(expiry));
    push_claim(&mut claims, "iat", SessionClaim::Whole(now));
    if let Some(n) = display_name {
        push_claim(&mut claims, "name", SessionClaim::Text(n.to_owned()));
    }
    proof {
        lemma_session_claims(
            subject@,
            roles.deep_view(),
            indexes.deep_view(),
            issuer@,
            audience@,
            now,
            expiry,
            display_name.deep_view(),
        );
    }
    match sign_hs256(&claims, secret) {
        Ok(t) => Ok(t),
        Err(why) => Err(AuthnError::Invalid(why)),
    }
}

/// Whether `r` is a session token of these claims that was issued at `now` and lasts `ttl_secs` from
/// then, or the refusal of one that would outlast the clock.
pub open spec fn minted_at(
    r: Result<String, AuthnError>,
    subject: Seq<char>,
    roles: Seq<Seq<char>>,
    indexes: Seq<Seq<char>>,
    issuer: Seq<char>,
    audience: Seq<char>,
    now: u64,
    ttl_secs: u64,
    name: Option<Seq<char>>,
    secret: Seq<u8>,
) -> bool {
    if now + ttl_secs > u64::MAX {
        r matches Err(e) && e@ == AuthnErrorView::Invalid("session outlasts the clock"@)
    } else {
        is_session_token(
            r,
            session_claims(
                subject,
                roles,
                indexes,
                issuer,
                audience,
                now,
                (now + ttl_secs) as u64,
                name,
            ),
            secret,
        ) && (r matches Ok(t) ==> opens_as(
            t@,
            secret,
            issuer,
            audience,
            session_identity(subject, roles, indexes, now, name),
        ))
    }
}

/// Whether `r` is what minting a session token comes to at some time.
pub open spec fn minted(
    r: Result<String, AuthnError>,
    subject: Seq<char>,
    roles: Seq<Seq<char>>,
    indexes: Seq<Seq<char>>,
    issuer: Seq<char>,
    audience: Seq<char>,
    ttl_secs: u64,
    name: Option<Seq<char>>,
    secret: Seq<u8>,
) -> bool {
    exists|now: u64| #[trigger]
        minted_at(r, subject, roles, indexes, issuer, audience, now, ttl_secs, name, secret)
}

proof fn lemma_word_is_trimmed(t: Seq<char>)
    requires
        one_word(t),
    ensures
        trim(t) == t,
{
    assert(!is_whitespace(t[0]));
    assert(!is_whitespace(t[t.len() - 1]));
}

/// A session token is accepted by whoever holds the secret that it was signed with: an
/// authenticator for that secret, issuer and audience finds in it the identity that it was minted
/// for, unless it refuses the token as no longer valid.
pub proof fn lemma_session_accepted(
    a: JwtAuthenticator,
    secret: Seq<u8>,
    token: Seq<char>,
    v: VerifiedView,
    r: Result<VerifiedView, AuthnErrorView>,
)
    requires
        a.key@ == KeyView::Secret(secret),
        default_mapping(a.claims),
        opens_as(token, secret, a.issuer@, a.audience@, v),
        a.may_yield(Some("Bearer "@ + token), r),
    ensures
        r == Ok::<VerifiedView, AuthnErrorView>(v) || r matches Err(AuthnErrorView::Invalid(_)),
{
    let h = "Bearer "@ + token;
    assert("Bearer "@.is_prefix_of(h));
    assert(h.subrange("Bearer "@.len() as int, h.len() as int) =~= token);
    lemma_word_is_trimmed(token);
}

/// Nobody is let in by a token that was not signed by the authenticator's key for its issuer and
/// audience, and who is let in is who the token's claims say.
pub proof fn lemma_only_signed_tokens(
    a: JwtAuthenticator,
    authorization: Option<Seq<char>>,
    v: VerifiedView,
)
    requires
        a.may_yield(authorization, Ok(v)),
    ensures
        bearer_credential(authorization) matches Credential::Token(t) && vetted(
            t,
            a.key@,
            a.issuer@,
            a.audience@,
        ) matches Some(claims) && identity_of(claims, a.claims) == Ok::<
            VerifiedView,
            AuthnErrorView,
        >(v),
{
}

/// A session token for `subject` that is issued at `now` and lasts `ttl_secs` from then. A lifetime
/// past the end of time is refused.
pub fn session_jwt_from(
    secret: &[u8],
    subject: &str,
    roles: &[String],
    indexes: &[String],
    issuer: &str,
    audience: &str,
    now: u64,
    ttl_secs: u64,
    display_name: Option<&str>,
) -> (r: Result<String, AuthnError>)
    ensures
        minted_at(
            r,
            subject@,
            roles.deep_view(),
            indexes.deep_view(),
            issuer@,
            audience@,
            now,
            ttl_secs,
            display_name.deep_view(),
            secret@,
        ),
{
    match now.checked_add(ttl_secs) {
        Some(expiry) => session_jwt_at(
            secret,
            subject,
            roles,
            indexes,
            issuer,
            audience,
            now,
            expiry,
            display_name,
        ),
        None => Err(AuthnError::Invalid("session outlasts the clock".to_owned())),
    }
}

/// A session token for `subject` that lasts `ttl_secs` from now. [`session_jwt_from`] says what it is
/// at each time.
pub fn mint_session_jwt(
    secret: &[u8],
    subject: &str,
    roles: &[String],
    indexes: &[String],
    issuer: &str,
    audience: &str,
    ttl_secs: u64,
    display_name: Option<&str>,
) -> (r: Result<String, AuthnError>)
    ensures
        minted(
            r,
            subject@,
            roles.deep_view(),
            indexes.deep_view(),
            issuer@,
            audience@,
            ttl_secs,
            display_name.deep_view(),
            secret@,
        ),
{
    let now: u64 = current_timestamp();
    let r = session_jwt_from(
        secret,
        subject,
        roles,
        indexes,
        issuer,
        audience,
        now,
        ttl_secs,
        display_name,
    );
    assert(minted_at(
        r,
        subject@,
        roles.deep_view(),
        indexes.deep_view(),
        issuer@,
        audience@,
        now,
        ttl_secs,
        display_name.deep_view(),
        secret@,
    ));
    r
}

} // verus!
