//! What holds of tokens: whom a token or a key stands for, and which keys tokens are checked by.
use jsonwebtoken::jwk::JwkSet;
use vstd::prelude::*;
use vstd::utf8::encode_utf8;

use crate::authn::{
    bearer_credential, key_credential, Authenticator, AuthnError, Credential, Verified,
};
use crate::caller_laws::lemma_after;
use crate::control::{ControlPlaneService, LoginResponse};
use crate::jwt::{
    build_key_map, claims_identity, claims_in, decode_and_map, discovered_uri, first_fault,
    jwk_fault_of, keyed, keys_in, kid_in, last_with_kid, minted, minted_at, mint_session_jwt,
    session_claims, session_jwt_at, session_jwt_from, signed, texts_among, vetted, ClaimMapping,
    ClaimView, JwksAuthenticator, JwksRequest, JwksSource, JwtAuthenticator, KeyView,
    SessionClaimView, TokenKey,
};
use crate::status::{Code, Status};
use crate::text::{is_whitespace, listed, Separator};
use crate::text_laws::lemma_trim_keeps;
use crate::tokens::{
    api_token_from, base64url, digest, hash_api_token, kept_form, mint_api_token,
    presented_token_hash, secret_from, sha256_of, token_identity, ApiKeyStore, ApiToken,
    KeyIdentity,
};

verus! {

/// The texts of a list, in its order.
pub open spec fn texts_in(items: Seq<Option<Seq<char>>>) -> Seq<Seq<char>> {
    items.filter(|x: Option<Seq<char>>| x is Some).map_values(|x: Option<Seq<char>>| x->0)
}

proof fn lemma_texts_in(items: Seq<Option<Seq<char>>>)
    ensures
        texts_among(items) == texts_in(items),
    decreases items.len(),
{
    reveal(Seq::filter);
    if items.len() == 0 {
        assert(texts_among(items) =~= texts_in(items));
    } else {
        lemma_texts_in(items.drop_last());
        assert(texts_among(items) =~= texts_in(items));
    }
}

/// Whether `out` is what a claim of this name says as a text; the subject is not read so.
pub open spec fn reads_text(
    claims: Map<Seq<char>, ClaimView>,
    name: Seq<char>,
    out: Option<String>,
) -> bool {
    match out {
        Some(s) => name != "sub"@ && claims.contains_key(name) && claims[name] == ClaimView::Text(
            s@,
        ),
        None => name == "sub"@ || !claims.contains_key(name) || !(claims[name] is Text),
    }
}

/// Whether `out` is what a claim of this name lists: the texts of a list, or the words of a text.
pub open spec fn reads_names(
    claims: Map<Seq<char>, ClaimView>,
    name: Seq<char>,
    out: Seq<Seq<char>>,
) -> bool {
    if name == "sub"@ || !claims.contains_key(name) {
        out.len() == 0
    } else {
        match claims[name] {
            ClaimView::List(items) => out == texts_in(items),
            ClaimView::Text(s) => out == listed(s, Separator::Whitespace),
            _ => out.len() == 0,
        }
    }
}

/// Claims name a caller exactly where their subject is a text, who is then the principal. Every
/// other part is read from its own claim.
pub proof fn lemma_claims_name_the_caller(
    m: serde_json::Map<String, serde_json::Value>,
    mapping: ClaimMapping,
    r: Result<Verified, AuthnError>,
)
    requires
        call_ensures(claims_identity, (&m, &mapping), r),
    ensures
        ({
            let claims = claims_in(m);
            &&& r is Ok <==> claims.contains_key("sub"@) && claims["sub"@] is Text
            &&& (!claims.contains_key("sub"@) || claims["sub"@] is Null) <==> (r matches Err(
                AuthnError::MissingClaim(c),
            ) && c@ == "sub"@)
            &&& r matches Err(e) ==> e is MissingClaim || e is Invalid
            &&& r matches Ok(v) ==> {
                &&& claims["sub"@] == ClaimView::Text(v.principal@)
                &&& reads_text(claims, mapping.tenant@, v.tenant)
                &&& reads_names(claims, mapping.roles@, v.roles.deep_view())
                &&& reads_names(claims, mapping.indexes@, v.indexes.deep_view())
                &&& reads_text(claims, "name"@, v.display_name)
                &&& reads_text(claims, "email"@, v.email)
                &&& v.issued_at matches Some(n) ==> claims.contains_key("iat"@) && claims["iat"@]
                    == ClaimView::Whole(n)
                &&& v.issued_at is None ==> !claims.contains_key("iat"@) || !(
                claims["iat"@] is Whole)
            }
        }),
{
    reveal_strlit("sub");
    reveal_strlit("name");
    reveal_strlit("email");
    reveal_strlit("iat");
    assert("iat"@[0] != "sub"@[0]);
    let claims = claims_in(m);
    if let Ok(v) = r {
        let w = v@;
        assert(crate::authn::outcome(r)->Ok_0 == w);
        if claims.contains_key(mapping.roles@) && claims[mapping.roles@] is List {
            lemma_texts_in(claims[mapping.roles@]->List_0);
        }
        if claims.contains_key(mapping.indexes@) && claims[mapping.indexes@] is List {
            lemma_texts_in(claims[mapping.indexes@]->List_0);
        }
        assert(w.tenant == v.tenant.deep_view());
        assert(w.display_name == v.display_name.deep_view());
        assert(w.email == v.email.deep_view());
        assert(w.roles == v.roles.deep_view());
        assert(w.indexes == v.indexes.deep_view());
    } else {
        let e = r->Err_0;
        assert(crate::authn::outcome(r)->Err_0 == e@);
    }
}

/// A caller who is let in by a token is the one that its checked claims name, by the key, the issuer
/// and the audience that were asked for.
pub proof fn lemma_token_is_checked(
    token: &str,
    key: TokenKey,
    issuer: &str,
    audience: &str,
    mapping: ClaimMapping,
    r: Result<Verified, AuthnError>,
)
    requires
        call_ensures(decode_and_map, (token, &key, issuer, audience, &mapping), r),
    ensures
        r matches Ok(v) ==> vetted(token@, key@, issuer@, audience@) is Some && ({
            let claims = vetted(token@, key@, issuer@, audience@)->0;
            &&& claims.contains_key("sub"@) && claims["sub"@] == ClaimView::Text(v.principal@)
            &&& claims.contains_key("exp"@)
            &&& reads_text(claims, mapping.tenant@, v.tenant)
            &&& reads_names(claims, mapping.roles@, v.roles.deep_view())
            &&& reads_names(claims, mapping.indexes@, v.indexes.deep_view())
        }),
        r matches Err(e) ==> e is Invalid || e is MissingClaim,
{
    if let Ok(v) = r {
        let w = v@;
        assert(crate::authn::outcome(r)->Ok_0 == w);
        let claims = vetted(token@, key@, issuer@, audience@)->0;
        if claims.contains_key(mapping.roles@) && claims[mapping.roles@] is List {
            lemma_texts_in(claims[mapping.roles@]->List_0);
        }
        if claims.contains_key(mapping.indexes@) && claims[mapping.indexes@] is List {
            lemma_texts_in(claims[mapping.indexes@]->List_0);
        }
        assert(w.tenant == v.tenant.deep_view());
        assert(w.roles == v.roles.deep_view());
        assert(w.indexes == v.indexes.deep_view());
    } else {
        assert(crate::authn::outcome(r)->Err_0 == r->Err_0@);
    }
}

/// Whether claims to sign are those of a session: each of these once, with an allowlist where there
/// is one and a name where there is one, and nothing else.
pub open spec fn tells_session(
    claims: Seq<(Seq<char>, SessionClaimView)>,
    subject: Seq<char>,
    roles: Seq<Seq<char>>,
    indexes: Seq<Seq<char>>,
    issuer: Seq<char>,
    audience: Seq<char>,
    now: u64,
    expiry: int,
    name: Option<Seq<char>>,
) -> bool {
    &&& claims.contains(("sub"@, SessionClaimView::Text(subject)))
    &&& claims.contains(("roles"@, SessionClaimView::Texts(roles)))
    &&& indexes.len() > 0 ==> claims.contains(("indexes"@, SessionClaimView::Texts(indexes)))
    &&& claims.contains(("iss"@, SessionClaimView::Text(issuer)))
    &&& claims.contains(("aud"@, SessionClaimView::Text(audience)))
    &&& 0 <= expiry <= u64::MAX && claims.contains(("exp"@, SessionClaimView::Whole(expiry as u64)))
    &&& claims.contains(("iat"@, SessionClaimView::Whole(now)))
    &&& name matches Some(n) ==> claims.contains(("name"@, SessionClaimView::Text(n)))
    &&& claims.len() == 6 + (if indexes.len() > 0 {
        1int
    } else {
        0
    }) + (if name is Some {
        1int
    } else {
        0
    })
}

proof fn lemma_tells_session(
    subject: Seq<char>,
    roles: Seq<Seq<char>>,
    indexes: Seq<Seq<char>>,
    issuer: Seq<char>,
    audience: Seq<char>,
    now: u64,
    expiry: u64,
    name: Option<Seq<char>>,
)
    ensures
        tells_session(
            session_claims(subject, roles, indexes, issuer, audience, now, expiry, name),
            subject,
            roles,
            indexes,
            issuer,
            audience,
            now,
            expiry as int,
            name,
        ),
{
    let c = session_claims(subject, roles, indexes, issuer, audience, now, expiry, name);
    let o: int = if indexes.len() > 0 {
        1
    } else {
        0
    };
    assert(c[0] == ("sub"@, SessionClaimView::Text(subject)));
    assert(c[1] == ("roles"@, SessionClaimView::Texts(roles)));
    if indexes.len() > 0 {
        assert(c[2] == ("indexes"@, SessionClaimView::Texts(indexes)));
    }
    assert(c[2 + o] == ("iss"@, SessionClaimView::Text(issuer)));
    assert(c[3 + o] == ("aud"@, SessionClaimView::Text(audience)));
    assert(c[4 + o] == ("exp"@, SessionClaimView::Whole(expiry)));
    assert(c[5 + o] == ("iat"@, SessionClaimView::Whole(now)));
    if let Some(n) = name {
        assert(c[6 + o] == ("name"@, SessionClaimView::Text(n)));
    }
}

/// A session token is the signature of claims that say whose it is, what they may do, who it is by
/// and for, when it was issued and when it expires.
pub proof fn lemma_session_says(
    secret: &[u8],
    subject: &str,
    roles: &[String],
    indexes: &[String],
    issuer: &str,
    audience: &str,
    now: u64,
    expiry: u64,
    display_name: Option<&str>,
    r: Result<String, AuthnError>,
) -> (claims: Seq<(Seq<char>, SessionClaimView)>)
    requires
        call_ensures(
            session_jwt_at,
            (secret, subject, roles, indexes, issuer, audience, now, expiry, display_name),
            r,
        ),
    ensures
        tells_session(
            claims,
            subject@,
            roles.deep_view(),
            indexes.deep_view(),
            issuer@,
            audience@,
            now,
            expiry as int,
            display_name.deep_view(),
        ),
        match r {
            Ok(t) => signed(claims, secret@) == Ok::<Seq<char>, Seq<char>>(t@),
            Err(e) => signed(claims, secret@) is Err && e is Invalid,
        },
{
    lemma_tells_session(
        subject@,
        roles.deep_view(),
        indexes.deep_view(),
        issuer@,
        audience@,
        now,
        expiry,
        display_name.deep_view(),
    );
    session_claims(
        subject@,
        roles.deep_view(),
        indexes.deep_view(),
        issuer@,
        audience@,
        now,
        expiry,
        display_name.deep_view(),
    )
}

/// A session token expires as long after its issue as it was to last, and there is none where that
/// is past the end of the clock.
pub proof fn lemma_session_lasts(
    secret: &[u8],
    subject: &str,
    roles: &[String],
    indexes: &[String],
    issuer: &str,
    audience: &str,
    now: u64,
    ttl_secs: u64,
    display_name: Option<&str>,
    r: Result<String, AuthnError>,
) -> (claims: Seq<(Seq<char>, SessionClaimView)>)
    requires
        call_ensures(
            session_jwt_from,
            (secret, subject, roles, indexes, issuer, audience, now, ttl_secs, display_name),
            r,
        ),
    ensures
        now + ttl_secs > u64::MAX ==> r is Err,
        r matches Ok(t) ==> signed(claims, secret@) == Ok::<Seq<char>, Seq<char>>(t@)
            && tells_session(
            claims,
            subject@,
            roles.deep_view(),
            indexes.deep_view(),
            issuer@,
            audience@,
            now,
            now + ttl_secs,
            display_name.deep_view(),
        ),
        r is Err && now + ttl_secs <= u64::MAX ==> signed(claims, secret@) is Err,
{
    let expiry = (now + ttl_secs) as u64;
    lemma_tells_session(
        subject@,
        roles.deep_view(),
        indexes.deep_view(),
        issuer@,
        audience@,
        now,
        expiry,
        display_name.deep_view(),
    );
    session_claims(
        subject@,
        roles.deep_view(),
        indexes.deep_view(),
        issuer@,
        audience@,
        now,
        expiry,
        display_name.deep_view(),
    )
}

/// A minted session token was issued at some second and expires `ttl_secs` after it.
pub proof fn lemma_minted_session_lasts(
    secret: &[u8],
    subject: &str,
    roles: &[String],
    indexes: &[String],
    issuer: &str,
    audience: &str,
    ttl_secs: u64,
    display_name: Option<&str>,
    r: Result<String, AuthnError>,
) -> (at: (u64, Seq<(Seq<char>, SessionClaimView)>))
    requires
        call_ensures(
            mint_session_jwt,
            (secret, subject, roles, indexes, issuer, audience, ttl_secs, display_name),
            r,
        ),
    ensures
        r matches Ok(t) ==> signed(at.1, secret@) == Ok::<Seq<char>, Seq<char>>(t@)
            && tells_session(
            at.1,
            subject@,
            roles.deep_view(),
            indexes.deep_view(),
            issuer@,
            audience@,
            at.0,
            at.0 + ttl_secs,
            display_name.deep_view(),
        ),
{
    lemma_minted(
        r,
        subject@,
        roles.deep_view(),
        indexes.deep_view(),
        issuer@,
        audience@,
        ttl_secs,
        display_name.deep_view(),
        secret@,
    )
}

proof fn lemma_minted(
    r: Result<String, AuthnError>,
    subject: Seq<char>,
    roles: Seq<Seq<char>>,
    indexes: Seq<Seq<char>>,
    issuer: Seq<char>,
    audience: Seq<char>,
    ttl_secs: u64,
    name: Option<Seq<char>>,
    secret: Seq<u8>,
) -> (at: (u64, Seq<(Seq<char>, SessionClaimView)>))
    requires
        minted(r, subject, roles, indexes, issuer, audience, ttl_secs, name, secret),
    ensures
        r matches Ok(t) ==> signed(at.1, secret) == Ok::<Seq<char>, Seq<char>>(t@)
            && tells_session(
            at.1,
            subject,
            roles,
            indexes,
            issuer,
            audience,
            at.0,
            at.0 + ttl_secs,
            name,
        ),
{
    let now = choose|now: u64| #[trigger]
        minted_at(r, subject, roles, indexes, issuer, audience, now, ttl_secs, name, secret);
    let expiry = (now + ttl_secs) as u64;
    lemma_tells_session(subject, roles, indexes, issuer, audience, now, expiry, name);
    (now, session_claims(subject, roles, indexes, issuer, audience, now, expiry, name))
}

/// The session of a login is signed by the control plane's secret, for the console, and lasts twelve
/// hours; it is for the account, with the roles and the allowlist that are bound to it.
pub proof fn lemma_login_opens_a_session(
    s: ControlPlaneService,
    username: &str,
    roles: Vec<String>,
    indexes: Vec<String>,
    now_ms: i64,
    r: Result<LoginResponse, Status>,
) -> (at: (u64, Seq<(Seq<char>, SessionClaimView)>))
    requires
        call_ensures(ControlPlaneService::open_session, (&s, username, roles, &indexes, now_ms), r),
        s.session_secret is Some,
    ensures
        r matches Ok(l) ==> {
            &&& signed(at.1, s.session_secret->0@) == Ok::<Seq<char>, Seq<char>>(l.token@)
            &&& tells_session(
                at.1,
                username@,
                roles.deep_view(),
                indexes.deep_view(),
                "growlerdb"@,
                "growlerdb-console"@,
                at.0,
                at.0 + 12 * 60 * 60,
                None,
            )
            &&& l.roles@ == roles@
            &&& l.expires_at_ms == now_ms + 12 * 60 * 60 * 1000
        },
        r matches Err(e) ==> e.code == Code::Internal,
{
    let token = choose|token: Result<String, AuthnError>| #[trigger]
        minted(
            token,
            username@,
            roles.deep_view(),
            indexes.deep_view(),
            "growlerdb"@,
            "growlerdb-console"@,
            43_200u64,
            None,
            s.session_secret->0@,
        ) && crate::control::answers_login(r, token, roles, now_ms);
    lemma_minted(
        token,
        username@,
        roles.deep_view(),
        indexes.deep_view(),
        "growlerdb"@,
        "growlerdb-console"@,
        43_200u64,
        None,
        s.session_secret->0@,
    )
}

/// The keys of a set that have an id, in the set's order.
pub open spec fn with_ids(keys: Seq<(Option<Seq<char>>, Seq<char>)>) -> Seq<(Seq<char>, Seq<char>)> {
    keys.filter(|k: (Option<Seq<char>>, Seq<char>)| k.0 is Some).map_values(
        |k: (Option<Seq<char>>, Seq<char>)| (k.0->0, k.1),
    )
}

proof fn lemma_with_ids(keys: Seq<(Option<Seq<char>>, Seq<char>)>)
    ensures
        keyed(keys) == with_ids(keys),
    decreases keys.len(),
{
    reveal(Seq::filter);
    if keys.len() > 0 {
        lemma_with_ids(keys.drop_last());
    }
    assert(keyed(keys) =~= with_ids(keys));
}

/// A key set is used where it has a key with an id and every such key can be used; its keys are then
/// those, in their order, each under its own id. Any other set is refused.
pub proof fn lemma_key_set_is_read(set: JwkSet, r: Result<Vec<(String, String)>, AuthnError>)
    requires
        call_ensures(build_key_map, (&set,), r),
    ensures
        r matches Ok(v) ==> v.deep_view() == with_ids(keys_in(set)) && v@.len() > 0 && forall|i: int|
            0 <= i < v@.len() ==> jwk_fault_of((#[trigger] v@[i]).1@) is None,
        r matches Err(e) ==> e is Discovery && (with_ids(keys_in(set)).len() == 0 || exists|i: int|
            0 <= i < with_ids(keys_in(set)).len() && jwk_fault_of(
                (#[trigger] with_ids(keys_in(set))[i]).1,
            ) is Some),
{
    lemma_with_ids(keys_in(set));
    if let Ok(v) = r {
        assert(v.deep_view().len() == v@.len());
        assert forall|i: int| 0 <= i < v@.len() implies jwk_fault_of((#[trigger] v@[i]).1@) is None by {
            assert(v.deep_view()[i].1 == v@[i].1@);
        }
    }
}

/// A set that can be used replaces the keys there were; one that cannot leaves them. Whom tokens are
/// by and for, and how they are read, stays.
pub proof fn lemma_keys_are_replaced(a: &mut JwksAuthenticator, set: JwkSet, r: Result<(), AuthnError>)
    requires
        call_ensures(JwksAuthenticator::install, (a, &set), r),
    ensures
        r is Ok ==> final(a).keys.deep_view() == with_ids(keys_in(set)) && final(a).keys@.len() > 0,
        r is Err ==> final(a).keys == old(a).keys,
        final(a).issuer == old(a).issuer,
        final(a).audience == old(a).audience,
        final(a).claims == old(a).claims,
        final(a).source == old(a).source,
{
    lemma_with_ids(keys_in(set));
    assert(final(a).keys.deep_view().len() == final(a).keys@.len());
}

proof fn lemma_last_with_kid(keys: Seq<(Seq<char>, Seq<char>)>, kid: Seq<char>, n: int)
    requires
        0 <= n <= keys.len(),
    ensures
        last_with_kid(keys, kid, n) matches Some(k) ==> 0 <= k < n && keys[k].0 == kid && forall|
            j: int,
        |
            k < j < n ==> (#[trigger] keys[j]).0 != kid,
        last_with_kid(keys, kid, n) is None ==> forall|j: int|
            0 <= j < n ==> (#[trigger] keys[j]).0 != kid,
    decreases n,
{
    if n > 0 {
        lemma_last_with_kid(keys, kid, n - 1);
    }
}

/// A token of an identity provider is checked by the last key that has the id in the token's header.
/// A token whose header names no key that there is lets nobody in.
pub proof fn lemma_token_is_checked_by_its_key(
    a: JwksAuthenticator,
    authorization: Option<&str>,
    r: Result<Verified, AuthnError>,
    token: Seq<char>,
) -> (k: int)
    requires
        call_ensures(<JwksAuthenticator as Authenticator>::authenticate, (&a, authorization), r),
        bearer_credential(authorization.deep_view()) == Credential::Token(token),
    ensures
        r matches Ok(v) ==> {
            &&& kid_in(token) matches Ok(Some(kid)) && 0 <= k < a.keys@.len() && a.keys@[k].0@ == kid
                && forall|j: int| k < j < a.keys@.len() ==> (#[trigger] a.keys@[j]).0@ != kid
            &&& vetted(token, KeyView::Jwk(a.keys@[k].1@), a.issuer@, a.audience@) matches Some(claims)
                && claims.contains_key("sub"@) && claims["sub"@] == ClaimView::Text(v.principal@)
        },
        kid_in(token) is Err || kid_in(token)->Ok_0 is None ==> r is Err,
        kid_in(token) matches Ok(Some(kid)) ==> (forall|j: int|
            0 <= j < a.keys@.len() ==> (#[trigger] a.keys@[j]).0@ != kid) ==> r is Err,
{
    let keys = a.keys.deep_view();
    assert(keys.len() == a.keys@.len());
    assert(forall|j: int| 0 <= j < keys.len() ==> #[trigger] keys[j] == (a.keys@[j].0@, a.keys@[j].1@));
    if let Ok(v) = r {
        assert(crate::authn::outcome(r)->Ok_0 == v@);
    }
    match kid_in(token) {
        Ok(Some(kid)) => {
            lemma_last_with_kid(keys, kid, keys.len() as int);
            match last_with_kid(keys, kid, keys.len() as int) {
                Some(k) => {
                    assert forall|j: int| k < j < a.keys@.len() implies (
                    #[trigger] a.keys@[j]).0@ != kid by {
                        assert(keys[j].0 == a.keys@[j].0@);
                    }
                    assert(keys[k].0 == a.keys@[k].0@);
                    k
                },
                None => 0,
            }
        },
        _ => 0,
    }
}

/// Keys are fetched from the endpoint that was given; else from the one that the issuer's discovery
/// document names, which stands at a fixed place below the issuer.
pub proof fn lemma_keys_are_fetched(a: JwksAuthenticator, r: Result<JwksRequest, AuthnError>)
    requires
        call_ensures(JwksAuthenticator::refresh_request, (&a,), r),
    ensures
        a.source matches JwksSource::Uri(u) ==> if u@.len() == 0 {
            r is Err
        } else {
            r matches Ok(JwksRequest::Keys(k)) && k@ == u@
        },
        a.source matches JwksSource::Discover { issuer } ==> (r matches Ok(JwksRequest::Discovery(d))
            && forall|base: Seq<char>|
            issuer@ == base && base.len() > 0 && base.last() != '/' ==> d@ == #[trigger] (base
                + "/.well-known/openid-configuration"@)),
        a.source matches JwksSource::Discover { issuer } ==> (r matches Ok(JwksRequest::Discovery(d))
            && forall|base: Seq<char>|
            issuer@ == base.push('/') && base.len() > 0 && base.last() != '/' ==> d@
                == #[trigger] (base + "/.well-known/openid-configuration"@)),
{
    if let JwksSource::Discover { issuer } = a.source {
        assert forall|base: Seq<char>|
            issuer@ == base.push('/') && base.len() > 0 && base.last() != '/' implies r->Ok_0->Discovery_0@
            == #[trigger] (base + "/.well-known/openid-configuration"@) by {
            assert(base.push('/').drop_last() =~= base);
            reveal_with_fuel(crate::text::trim_end_char, 3);
        }
    }
}

/// The endpoint of the keys is the one that the discovery document names, and there is none where it
/// names none.
pub proof fn lemma_endpoint_is_discovered(
    jwks_uri: Option<String>,
    url: &str,
    r: Result<String, AuthnError>,
)
    requires
        call_ensures(discovered_uri, (jwks_uri, url), r),
    ensures
        r is Ok <==> jwks_uri is Some,
        r matches Ok(u) ==> u@ == jwks_uri->0@,
        r matches Err(e) ==> e is Discovery,
{
}

/// A secret is kept as the digest of its text.
pub proof fn lemma_secret_is_digested(raw: &str, a: String, b: String)
    requires
        call_ensures(digest, (raw,), a),
        call_ensures(hash_api_token, (raw,), b),
    ensures
        a@ == base64url(sha256_of(encode_utf8(raw@))),
        b@ == a@,
{
}

/// A key that was inserted lets its holder in as its identity; one that was then revoked lets in
/// nobody, and revoking tells whether there was one. Keys of other digests are left alone.
pub proof fn lemma_key_is_inserted(
    s: &mut ApiKeyStore,
    raw: &str,
    identity: KeyIdentity,
    authorization: Option<&str>,
    r: Result<Verified, AuthnError>,
    token: Seq<char>,
)
    requires
        call_ensures(ApiKeyStore::insert, (s, raw, identity), ()),
        call_ensures(
            <ApiKeyStore as Authenticator>::authenticate,
            (final(s), authorization),
            r,
        ),
        key_credential(authorization.deep_view()) == Credential::Token(token),
    ensures
        token == raw@ ==> (r matches Ok(v) && v.principal@ == identity.principal@
            && v.tenant.deep_view() == identity.tenant.deep_view() && v.roles.deep_view()
            == identity.roles.deep_view() && v.indexes.deep_view() == identity.indexes.deep_view()),
        final(s)@.contains_key(base64url(sha256_of(encode_utf8(raw@)))),
        final(s)@[base64url(sha256_of(encode_utf8(raw@)))] == identity,
        forall|d: Seq<char>|
            d != base64url(sha256_of(encode_utf8(raw@))) ==> #[trigger] final(s)@.contains_key(d)
                == old(s)@.contains_key(d),
        forall|d: Seq<char>|
            d != base64url(sha256_of(encode_utf8(raw@))) && old(s)@.contains_key(d)
                ==> #[trigger] final(s)@[d] == old(s)@[d],
{
    if token == raw@ {
        assert(crate::authn::outcome(r) == Ok::<
            crate::authn::VerifiedView,
            crate::authn::AuthnErrorView,
        >(identity@));
        assert(r->Ok_0@ == identity@);
    }
}

/// A revoked key lets in nobody, and every other key stays.
pub proof fn lemma_key_is_revoked(
    s: &mut ApiKeyStore,
    raw: &str,
    had: bool,
    authorization: Option<&str>,
    r: Result<Verified, AuthnError>,
    token: Seq<char>,
)
    requires
        call_ensures(ApiKeyStore::revoke, (s, raw), had),
        call_ensures(
            <ApiKeyStore as Authenticator>::authenticate,
            (final(s), authorization),
            r,
        ),
        key_credential(authorization.deep_view()) == Credential::Token(token),
    ensures
        token == raw@ ==> (r matches Err(e) && e is Invalid),
        had <==> old(s)@.contains_key(base64url(sha256_of(encode_utf8(raw@)))),
        forall|d: Seq<char>|
            d != base64url(sha256_of(encode_utf8(raw@))) ==> #[trigger] final(s)@.contains_key(d)
                == old(s)@.contains_key(d),
        forall|d: Seq<char>|
            d != base64url(sha256_of(encode_utf8(raw@))) && old(s)@.contains_key(d)
                ==> #[trigger] final(s)@[d] == old(s)@[d],
{
    if token == raw@ {
        assert(crate::authn::outcome(r) == crate::tokens::unknown_key());
        assert(r->Err_0@ is Invalid);
    }
}

/// An issued key is the secret that was given, and stands for the identity; without a secret nothing
/// is issued.
pub proof fn lemma_key_is_issued(
    s: &mut ApiKeyStore,
    secret: Option<String>,
    identity: KeyIdentity,
    raw: Option<String>,
)
    requires
        call_ensures(ApiKeyStore::issue_secret, (s, secret, identity), raw),
    ensures
        raw == secret,
        secret is None ==> final(s)@ == old(s)@,
        secret matches Some(t) ==> final(s)@.contains_key(base64url(sha256_of(encode_utf8(t@))))
            && final(s)@[base64url(sha256_of(encode_utf8(t@)))] == identity,
        secret matches Some(t) ==> forall|d: Seq<char>|
            d != base64url(sha256_of(encode_utf8(t@))) ==> #[trigger] final(s)@.contains_key(d)
                == old(s)@.contains_key(d),
{
}

/// A key that lets someone in is kept under the digest of what was presented, and they are whom the
/// store has there.
pub proof fn lemma_key_stands_for(
    s: ApiKeyStore,
    authorization: Option<&str>,
    r: Result<Verified, AuthnError>,
    token: Seq<char>,
)
    requires
        call_ensures(<ApiKeyStore as Authenticator>::authenticate, (&s, authorization), r),
        key_credential(authorization.deep_view()) == Credential::Token(token),
    ensures
        r is Ok <==> s@.contains_key(base64url(sha256_of(encode_utf8(token)))),
        r matches Ok(v) ==> ({
            let k = s@[base64url(sha256_of(encode_utf8(token)))];
            &&& v.principal@ == k.principal@
            &&& v.tenant.deep_view() == k.tenant.deep_view()
            &&& v.roles.deep_view() == k.roles.deep_view()
            &&& v.indexes.deep_view() == k.indexes.deep_view()
            &&& v.display_name is None && v.email is None && v.issued_at is None
        }),
{
    if s@.contains_key(kept_form(token)) {
        assert(crate::authn::outcome(r) == Ok::<
            crate::authn::VerifiedView,
            crate::authn::AuthnErrorView,
        >(s@[kept_form(token)]@));
        assert(r->Ok_0@ == s@[kept_form(token)]@);
        assert(r->Ok_0@.display_name == r->Ok_0.display_name.deep_view());
        assert(r->Ok_0@.email == r->Ok_0.email.deep_view());
    } else {
        assert(crate::authn::outcome(r) == crate::tokens::unknown_key());
    }
}

/// An API token is a prefix and the secret, and is looked up by the digest of both.
pub proof fn lemma_api_token_is_made(secret: Option<String>, t: Option<(String, String)>)
    requires
        call_ensures(api_token_from, (secret,), t),
    ensures
        t is Some <==> secret is Some,
        t matches Some(p) ==> p.0@ == "gdb_live_"@ + secret->0@ && p.1@ == base64url(
            sha256_of(encode_utf8("gdb_live_"@ + secret->0@)),
        ),
{
}

/// A secret is the random bytes in URL-safe Base64.
pub proof fn lemma_secret_is_made(bytes: Option<Vec<u8>>, s: Option<String>)
    requires
        call_ensures(secret_from, (bytes,), s),
    ensures
        s is Some <==> bytes is Some,
        s matches Some(t) ==> t@ == base64url(bytes->0@),
{
}

proof fn lemma_presented(h: Seq<char>, token: Seq<char>)
    requires
        h == "ApiKey "@ + token,
        token.len() > 0,
        !is_whitespace(token[0]),
        !is_whitespace(token.last()),
    ensures
        key_credential(Some(h)) == Credential::Token(token),
{
    lemma_after(h, "ApiKey "@, token);
    lemma_trim_keeps(token);
}

/// A presented API token is looked up by the digest of what was presented; where there is no header
/// there is none.
pub proof fn lemma_token_is_looked_up(
    authorization: Option<&str>,
    r: Result<String, AuthnError>,
    token: Seq<char>,
)
    requires
        call_ensures(presented_token_hash, (authorization,), r),
    ensures
        authorization is None ==> (r matches Err(e) && e is Missing),
        presents_key(authorization, token) ==> (r matches Ok(h) && h@ == base64url(
            sha256_of(encode_utf8(token)),
        )),
{
    if presents_key(authorization, token) {
        let h = authorization->0@;
        lemma_presented(h, token);
        assert(authorization.deep_view() == Some(h));
    }
}

/// Whether a header presents this token as an API key.
pub open spec fn presents_key(authorization: Option<&str>, token: Seq<char>) -> bool {
    &&& authorization is Some
    &&& authorization->0@ == "ApiKey "@ + token
    &&& token.len() > 0
    &&& !is_whitespace(token[0])
    &&& !is_whitespace(token.last())
}

/// A registered token stands for its owner, with the token's roles and label; one that was not found
/// lets in nobody.
pub proof fn lemma_registered_token_stands_for(
    found: Option<ApiToken>,
    r: Result<Verified, AuthnError>,
)
    requires
        call_ensures(token_identity, (found,), r),
    ensures
        r is Ok <==> found is Some,
        r matches Ok(v) ==> {
            &&& v.principal@ == found->0.owner@
            &&& v.roles.deep_view() == found->0.roles.deep_view()
            &&& v.display_name matches Some(n) && n@ == found->0.label@
            &&& v.tenant is None
            &&& v.indexes@.len() == 0
            &&& v.email is None
            &&& v.issued_at is None
        },
        r matches Err(e) ==> e is Invalid,
{
    if let Ok(v) = r {
        assert(crate::authn::outcome(r)->Ok_0 == v@);
        assert(v@.tenant == v.tenant.deep_view());
        assert(v@.email == v.email.deep_view());
        assert(v@.display_name == v.display_name.deep_view());
        assert(v.indexes.deep_view().len() == v.indexes@.len());
    } else {
        assert(crate::authn::outcome(r)->Err_0 == r->Err_0@);
    }
}

/// A new store has no key; an issued one is kept by its digest, and the store counts it.
pub proof fn lemma_store_is_filled(
    fresh: ApiKeyStore,
    s: &mut ApiKeyStore,
    identity: KeyIdentity,
    raw: Option<String>,
    text: &str,
    held: bool,
    n: usize,
)
    requires
        call_ensures(ApiKeyStore::new, (), fresh),
        call_ensures(ApiKeyStore::issue, (s, identity), raw),
        call_ensures(ApiKeyStore::holds, (final(s), text), held),
        call_ensures(ApiKeyStore::len, (final(s),), n),
    ensures
        fresh@.len() == 0,
        raw is None ==> final(s)@ == old(s)@,
        raw matches Some(t) ==> final(s)@.contains_key(base64url(sha256_of(encode_utf8(t@))))
            && final(s)@[base64url(sha256_of(encode_utf8(t@)))] == identity,
        held <==> final(s)@.contains_key(text@),
        n == final(s)@.len(),
{
}

/// A minted token is the prefix and the random part, and its digest is that of the whole.
pub proof fn lemma_token_is_minted(t: Option<(String, String)>)
    requires
        call_ensures(mint_api_token, (), t),
    ensures
        t matches Some(p) ==> "gdb_live_"@.is_prefix_of(p.0@) && p.0@.len() > "gdb_live_"@.len()
            && p.1@ == base64url(sha256_of(encode_utf8(p.0@))),
{
    if let Some(p) = t {
        let s = choose|s: Seq<char>| #[trigger]
            crate::tokens::is_secret(s) && p.0@ == "gdb_live_"@ + s;
        let b = choose|b: Seq<u8>| b.len() == 32 && s == #[trigger] base64url(b);
        assert(s.len() == 43);
        assert(p.0@.subrange(0, "gdb_live_"@.len() as int) =~= "gdb_live_"@);
    }
}

/// Whether claims are read under their usual names.
pub open spec fn usual_claims(m: ClaimMapping) -> bool {
    m.tenant@ == "tenant"@ && m.roles@ == "roles"@ && m.indexes@ == "indexes"@
}

/// An authenticator of tokens checks them by the key, for the issuer and the audience that it was made
/// for, and reads the usual claims until it is told of others.
pub proof fn lemma_token_checks_are_set_up(
    secret: &[u8],
    issuer: &str,
    audience: &str,
    a: JwtAuthenticator,
    claims: ClaimMapping,
    b: JwtAuthenticator,
    pem: &[u8],
    c: Result<JwtAuthenticator, AuthnError>,
)
    requires
        call_ensures(JwtAuthenticator::from_hs256_secret, (secret, issuer, audience), a),
        call_ensures(JwtAuthenticator::with_claim_mapping, (a, claims), b),
        call_ensures(JwtAuthenticator::from_rs256_pem, (pem, issuer, audience), c),
    ensures
        a.key@ == KeyView::Secret(secret@) && a.issuer@ == issuer@ && a.audience@ == audience@,
        usual_claims(a.claims),
        b.key == a.key && b.issuer == a.issuer && b.audience == a.audience && b.claims == claims,
        c is Ok <==> crate::jwt::pem_fault_of(pem@) is None,
        c matches Ok(d) ==> d.key@ == KeyView::RsaPem(pem@) && d.issuer@ == issuer@ && d.audience@
            == audience@ && usual_claims(d.claims),
{
}

/// An authenticator of an identity provider begins without keys, and fetches them from where it was
/// told; one that is made over a key set has its keys.
pub proof fn lemma_provider_is_set_up(
    issuer: &str,
    audience: &str,
    a: JwksAuthenticator,
    uri: &str,
    b: JwksAuthenticator,
    set: JwkSet,
    c: Result<JwksAuthenticator, AuthnError>,
    claims: ClaimMapping,
    d: JwksAuthenticator,
)
    requires
        call_ensures(JwksAuthenticator::for_issuer, (issuer, audience), a),
        call_ensures(JwksAuthenticator::for_jwks_uri, (issuer, audience, uri), b),
        call_ensures(JwksAuthenticator::from_jwk_set, (&set, issuer, audience), c),
        call_ensures(JwksAuthenticator::with_claim_mapping, (a, claims), d),
    ensures
        a.keys@.len() == 0 && a.issuer@ == issuer@ && a.audience@ == audience@ && usual_claims(
            a.claims,
        ),
        a.source matches JwksSource::Discover { issuer: i } && i@ == issuer@,
        b.keys@.len() == 0 && b.issuer@ == issuer@ && b.audience@ == audience@ && usual_claims(
            b.claims,
        ),
        b.source matches JwksSource::Uri(u) && u@ == uri@,
        c matches Ok(e) ==> e.keys.deep_view() == with_ids(keys_in(set)) && e.issuer@ == issuer@
            && e.audience@ == audience@ && usual_claims(e.claims),
        d.claims == claims && d.keys == a.keys && d.issuer == a.issuer && d.audience == a.audience
            && d.source == a.source,
{
    lemma_with_ids(keys_in(set));
}

/// A bearer token lets someone in only where it is checked by the authenticator's key, for its issuer
/// and audience; they are then the subject of the token. Without a header there is no credential.
pub proof fn lemma_bearer_is_checked(
    a: JwtAuthenticator,
    authorization: Option<&str>,
    r: Result<Verified, AuthnError>,
    token: Seq<char>,
)
    requires
        call_ensures(<JwtAuthenticator as Authenticator>::authenticate, (&a, authorization), r),
    ensures
        authorization is None ==> (r matches Err(e) && e is Missing),
        bearer_credential(authorization.deep_view()) == Credential::Token(token) ==> match r {
            Ok(v) => vetted(token, a.key@, a.issuer@, a.audience@) matches Some(claims)
                && claims.contains_key("sub"@) && claims["sub"@] == ClaimView::Text(v.principal@),
            Err(e) => e is Invalid || e is MissingClaim,
        },
{
    if let Ok(v) = r {
        assert(crate::authn::outcome(r)->Ok_0 == v@);
    } else {
        assert(crate::authn::outcome(r)->Err_0 == r->Err_0@);
    }
}

/// A key set that is refused for a key names the first key with an id that cannot be used, and why.
pub proof fn lemma_unusable_key_is_named(
    set: JwkSet,
    r: Result<Vec<(String, String)>, AuthnError>,
    i: int,
)
    requires
        call_ensures(build_key_map, (&set,), r),
        0 <= i < with_ids(keys_in(set)).len(),
        jwk_fault_of(with_ids(keys_in(set))[i].1) is Some,
        forall|j: int|
            0 <= j < i ==> jwk_fault_of((#[trigger] with_ids(keys_in(set))[j]).1) is None,
    ensures
        r matches Err(AuthnError::Discovery(m)) && m@ == "unusable JWK for kid `"@ + with_ids(
            keys_in(set),
        )[i].0 + "`: "@ + jwk_fault_of(with_ids(keys_in(set))[i].1)->0,
{
    lemma_with_ids(keys_in(set));
    let all = with_ids(keys_in(set));
    assert(jwk_fault_of(all[i].1) is Some);
    lemma_first_faulty(all, 0, i);
}

proof fn lemma_first_faulty(all: Seq<(Seq<char>, Seq<char>)>, i: int, at: int)
    requires
        0 <= i <= at < all.len(),
        jwk_fault_of(all[at].1) is Some,
        forall|k: int| i <= k < at ==> jwk_fault_of((#[trigger] all[k]).1) is None,
    ensures
        first_fault(all, i) == at,
    decreases at - i,
{
    if i < at {
        assert(jwk_fault_of(all[i].1) is None);
        lemma_first_faulty(all, i + 1, at);
    }
}

} // verus!
