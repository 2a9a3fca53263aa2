use base64::engine::general_purpose::{STANDARD, URL_SAFE_NO_PAD};
use base64::Engine;
use growlerdb_engine::authn::{
    admit_caller, authenticate, default_authn, strip_identity, Anonymous, Authenticator, AuthnError,
    ChainAuthenticator, SharedAuthn, Verified,
};
use growlerdb_engine::jwt::{
    build_key_map, claims_identity, discovered_uri, mint_session_jwt, session_jwt_from,
    ClaimMapping, JwksAuthenticator, JwksRequest, JwtAuthenticator,
};
use growlerdb_engine::metadata::{
    AUTHORIZATION_KEY, INDEXES_KEY, PRINCIPAL_KEY, ROLES_KEY, TENANT_KEY,
};
use growlerdb_engine::status::Code;
use growlerdb_engine::tokens::{
    api_token_from, digest, generate_secret, hash_api_token, mint_api_token, presented_token_hash,
    secret_from, token_identity, ApiKeyStore, ApiToken, KeyIdentity,
};
use jsonwebtoken::jwk::JwkSet;
use jsonwebtoken::{encode, get_current_timestamp, Algorithm, EncodingKey, Header};
use serde_json::Value;
use tonic::metadata::{Ascii, MetadataKey, MetadataMap};

const SECRET: &[u8] = b"test-shared-secret";
const ISSUER: &str = "https://idp.example/realms/growlerdb";
const AUDIENCE: &str = "growlerdb";

/// A throwaway RSA key, as the base64 of its DER form, in pieces.
const RSA_DER: &[&str] = &[
    "MIIEowIBAAKCAQEAxfJvqN+skMSmDFcp2IWetmQbm1uayvRrPL9ZEQsEv3LrkUeVGdcY66MUKaSWmmxHwzY3ZdEh",
    "sWVXHBzkp3zVBuN1UXmnVRo/s7xsg5AwZVaGHZ7hZ8o0VZP4Dy9CQdGE5ba/xg2HqwD9w4g28X7T2CXe9p3HkEGN",
    "7rvwMTsakdP0w4liwrn/VrUooZPVoNkrJ7elDbSBUoTIvAoNL6Qt47juaCImegT/1lyqF2FvRyFFY1U1JI7LDKSJ",
    "CKNeX+L3bT3HPh56oCKq743fLFZES77A7byQH+mInKEwncZBgCxmwTGoRS/DAarxaru89hVheAi9Y7nn1nwJCjg1",
    "R/IgQQIDAQABAoIBADFSqXQA1/TyqxVkGq8zDEsSQrbBap6rrJTkcQMIJdS2g/AdUA+yQylj50BBHK250V/ZAJDE",
    "PYsAX2ZH5Mm/Fy2yO6djkshn0/urNbbKlOSLXLvAvRWpksTILAVMl0vjMyQyFzL4aBe6FYFFTbt7CLpRJW95/SH6",
    "06zq83yw53vyTlRVHw0JoCPcVsJAaqF2HtmxK0C38i2398hASsh6TeBt6W9Auuv7c5S1u5ugfSSYXRoQ+54UbX9k",
    "Q+EpOjfMXOHjpbC738MvhpFNWstqOCEzcaCzUYRpxkHKq33eG42T4jNGUp/fa6jl3tZcHlmxo/6m2yMXIuGfDqRE",
    "KkJS5YECgYEA5ZG3j9myR9ZymxZmJZ926twp6WhA6QjDidAWwJgDgf3EPt5jpwQJCIzIOZ/hTlZelgyaJIGALy+B",
    "ALJ7IzarzhC7dTAjSdOLmR36unCk4yLHZkDtYbrcge2vwgsKUK0mJTDOSOCawWY7icxXSF9a2oehLwXfFnREaU+J",
    "P49UefkCgYEA3LyxMdh/D3yNgk9WfuhyNIJb5dF788BEp8uPrGVh7YpoSZ8X2ieoYoNn+a3VlfcqD8Zg7dl0U2Cz",
    "fLalNxmvvF+Kwtuic/EAo+GA5PLL0Unk173BsiVKD4AeNznik72+jfQ1gRg8aLkqXm23j95/Hg69v+/k8gq+EBw2",
    "BZQKKokCgYA+2x7/bAO8V6MZg5CETJ0qwQ1YswrSw2uGmEsigHy1Yt4QuKNgX2J5zNIltPjjkhJj0x+BT1Phl4gi",
    "wLumcJmp2jr5YyzGUf2u9t5nneAHsMYX4T8duyQVDxdIce1pGX+QP0S7/4Nf4LX8jM55KmKd4vTnAxyJ8Vup2fUi",
    "SgQ/QQKBgQCkRTiJI9jLKaIWC/0OzOXQ9gJ18YQRTlDJns/5OCm8oXgi8ebKTyEczzYdtaRxylLfEn8oAuBy/FAW",
    "y8YAT3lc8q1Nfi5TolMbosJNn/LWeet4MptnfCC1kF7sMoPP9zFMayU2QVcTiFljlLs6shZfxBCqOlljV2NCkfwS",
    "Aq3eIQKBgDY4dUIZz5dd9jVuF5u+Y0k0bHoZ+CSJZqvwKP4VCwqQ9NgDQKZYjobaNt2LLT+icKru+ADCOUvFwq+Q",
    "Y0jf21kWJpMwizP2po/mW0D9vByQQbhOu615J8CzoH/7RrJR0UgV9/AFZ+sL2V7UjhHC0smUDkHBLkQWsSoS027S",
    "w8zd",
];

/// The public half of that key: its modulus, and its DER form as base64.
const RSA_N: &[&str] = &[
    "xfJvqN-skMSmDFcp2IWetmQbm1uayvRrPL9ZEQsEv3LrkUeVGdcY66MUKaSWmmxHwzY3ZdEhsWVXHBzkp3zVBuN1",
    "UXmnVRo_s7xsg5AwZVaGHZ7hZ8o0VZP4Dy9CQdGE5ba_xg2HqwD9w4g28X7T2CXe9p3HkEGN7rvwMTsakdP0w4li",
    "wrn_VrUooZPVoNkrJ7elDbSBUoTIvAoNL6Qt47juaCImegT_1lyqF2FvRyFFY1U1JI7LDKSJCKNeX-L3bT3HPh56",
    "oCKq743fLFZES77A7byQH-mInKEwncZBgCxmwTGoRS_DAarxaru89hVheAi9Y7nn1nwJCjg1R_IgQQ",
];
const RSA_SPKI: &[&str] = &[
    "MIIBIjANBgkqhkiG9w0BAQEFAAOCAQ8AMIIBCgKCAQEAxfJvqN+skMSmDFcp2IWe",
    "tmQbm1uayvRrPL9ZEQsEv3LrkUeVGdcY66MUKaSWmmxHwzY3ZdEhsWVXHBzkp3zV",
    "BuN1UXmnVRo/s7xsg5AwZVaGHZ7hZ8o0VZP4Dy9CQdGE5ba/xg2HqwD9w4g28X7T",
    "2CXe9p3HkEGN7rvwMTsakdP0w4liwrn/VrUooZPVoNkrJ7elDbSBUoTIvAoNL6Qt",
    "47juaCImegT/1lyqF2FvRyFFY1U1JI7LDKSJCKNeX+L3bT3HPh56oCKq743fLFZE",
    "S77A7byQH+mInKEwncZBgCxmwTGoRS/DAarxaru89hVheAi9Y7nn1nwJCjg1R/Ig",
    "QQIDAQAB",
];
const RSA_KID: &str = "test-key";

fn texts(items: &[&str]) -> Value {
    Value::Array(items.iter().map(|s| Value::from(*s)).collect())
}

fn good_claims() -> serde_json::Map<String, Value> {
    let mut m = serde_json::Map::new();
    m.insert("sub".into(), Value::from("alice"));
    m.insert("iss".into(), Value::from(ISSUER));
    m.insert("aud".into(), Value::from(AUDIENCE));
    m.insert("exp".into(), Value::from(get_current_timestamp() + 3600));
    m.insert("tenant".into(), Value::from("acme"));
    m.insert("roles".into(), texts(&["viewer", "index-admin"]));
    m
}

fn hs256(claims: serde_json::Map<String, Value>) -> String {
    encode(
        &Header::new(Algorithm::HS256),
        &claims,
        &EncodingKey::from_secret(SECRET),
    )
    .unwrap()
}

fn authn() -> JwtAuthenticator {
    JwtAuthenticator::from_hs256_secret(SECRET, ISSUER, AUDIENCE)
}

fn bearer(token: &str) -> String {
    format!("Bearer {token}")
}

#[test]
fn session_jwt_round_trips_through_the_hs256_authenticator() {
    let roles = vec!["admin".to_string(), "reader".to_string()];
    let token = mint_session_jwt(
        SECRET, "alice", &roles, &[], ISSUER, AUDIENCE, 3600, Some("Alice"),
    )
    .unwrap();
    let authn = JwtAuthenticator::from_hs256_secret(SECRET, ISSUER, AUDIENCE);
    let v = authn.authenticate(Some(&format!("Bearer {token}"))).unwrap();
    assert_eq!(v.principal, "alice");
    assert_eq!(v.roles, roles);
    assert_eq!(v.display_name.as_deref(), Some("Alice"));
    assert!(v.indexes.is_empty());
    let other = JwtAuthenticator::from_hs256_secret(b"different-secret", ISSUER, AUDIENCE);
    assert!(other.authenticate(Some(&format!("Bearer {token}"))).is_err());
}

#[test]
fn session_jwt_carries_the_index_allowlist_claim() {
    let roles = vec!["reader".to_string(), "operator".to_string()];
    let indexes = vec!["docs".to_string(), "catalog".to_string()];
    let token = mint_session_jwt(
        SECRET, "demo", &roles, &indexes, ISSUER, AUDIENCE, 3600, None,
    )
    .unwrap();
    let authn = JwtAuthenticator::from_hs256_secret(SECRET, ISSUER, AUDIENCE);
    let v = authn.authenticate(Some(&format!("Bearer {token}"))).unwrap();
    assert_eq!(v.principal, "demo");
    assert_eq!(v.roles, roles);
    assert_eq!(v.indexes, indexes);
}

#[test]
fn a_session_token_says_when_it_was_issued() {
    let before = get_current_timestamp();
    let token =
        mint_session_jwt(SECRET, "alice", &[], &[], ISSUER, AUDIENCE, 3600, None).unwrap();
    let v = authn().authenticate(Some(&bearer(&token))).unwrap();
    let at = v.issued_at.unwrap();
    assert!(before <= at && at <= get_current_timestamp());
    assert_eq!(v.email, None);
}

fn payload(token: &str) -> String {
    let body = token.split('.').nth(1).unwrap();
    String::from_utf8(URL_SAFE_NO_PAD.decode(body).unwrap()).unwrap()
}

#[test]
fn a_session_token_holds_its_claims_in_order() {
    let roles = vec!["admin".to_string()];
    let indexes = vec!["docs".to_string()];
    let from = |indexes: &[String], name: Option<&str>| {
        session_jwt_from(SECRET, "alice", &roles, indexes, "i", "a", 100, 50, name).unwrap()
    };
    assert_eq!(
        payload(&from(&[], None)),
        r#"{"sub":"alice","roles":["admin"],"iss":"i","aud":"a","exp":150,"iat":100}"#
    );
    assert_eq!(
        payload(&from(&indexes, Some("Al"))),
        r#"{"sub":"alice","roles":["admin"],"indexes":["docs"],"iss":"i","aud":"a","exp":150,"iat":100,"name":"Al"}"#
    );
}

#[test]
fn a_session_does_not_outlast_the_clock() {
    let from = |now, ttl| session_jwt_from(SECRET, "alice", &[], &[], "i", "a", now, ttl, None);
    assert!(from(u64::MAX - 1, 1).is_ok());
    let err = from(u64::MAX, 1).unwrap_err();
    assert_eq!(err.message(), "invalid token: session outlasts the clock");
}

#[test]
fn valid_token_yields_verified_identity() {
    let token = hs256(good_claims());
    let verified = authn().authenticate(Some(&bearer(&token))).unwrap();
    assert_eq!(verified.principal, "alice");
    assert_eq!(verified.tenant.as_deref(), Some("acme"));
    assert_eq!(verified.roles, vec!["viewer", "index-admin"]);
}

#[test]
fn roles_as_space_delimited_string_are_split() {
    let mut claims = good_claims();
    claims.insert("roles".into(), Value::from("viewer operator"));
    let token = hs256(claims);
    let verified = authn().authenticate(Some(&bearer(&token))).unwrap();
    assert_eq!(verified.roles, vec!["viewer", "operator"]);
}

#[test]
fn absent_tenant_and_roles_default_empty() {
    let mut claims = good_claims();
    claims.remove("tenant");
    claims.remove("roles");
    let token = hs256(claims);
    let verified = authn().authenticate(Some(&bearer(&token))).unwrap();
    assert_eq!(verified.tenant, None);
    assert!(verified.roles.is_empty());
}

#[test]
fn configurable_claim_names_are_honored() {
    let mut claims = serde_json::Map::new();
    claims.insert("sub".into(), Value::from("svc"));
    claims.insert("iss".into(), Value::from(ISSUER));
    claims.insert("aud".into(), Value::from(AUDIENCE));
    claims.insert("exp".into(), Value::from(get_current_timestamp() + 3600));
    claims.insert("org".into(), Value::from("globex"));
    claims.insert("scope".into(), Value::from("viewer"));
    let token = hs256(claims);
    let authn = authn().with_claim_mapping(ClaimMapping {
        tenant: "org".to_string(),
        roles: "scope".to_string(),
        indexes: "indexes".to_string(),
    });
    let verified = authn.authenticate(Some(&bearer(&token))).unwrap();
    assert_eq!(verified.tenant.as_deref(), Some("globex"));
    assert_eq!(verified.roles, vec!["viewer"]);
}

#[test]
fn expired_token_is_rejected() {
    let mut claims = good_claims();
    claims.insert("exp".into(), Value::from(get_current_timestamp() - 3600));
    let token = hs256(claims);
    let err = authn().authenticate(Some(&bearer(&token))).unwrap_err();
    assert!(matches!(err, AuthnError::Invalid(_)));
}

#[test]
fn wrong_issuer_is_rejected() {
    let mut claims = good_claims();
    claims.insert("iss".into(), Value::from("https://evil.example"));
    let token = hs256(claims);
    let err = authn().authenticate(Some(&bearer(&token))).unwrap_err();
    assert!(matches!(err, AuthnError::Invalid(_)));
}

#[test]
fn wrong_audience_is_rejected() {
    let mut claims = good_claims();
    claims.insert("aud".into(), Value::from("someone-else"));
    let token = hs256(claims);
    let err = authn().authenticate(Some(&bearer(&token))).unwrap_err();
    assert!(matches!(err, AuthnError::Invalid(_)));
}

#[test]
fn bad_signature_is_rejected() {
    let token = encode(
        &Header::new(Algorithm::HS256),
        &good_claims(),
        &EncodingKey::from_secret(b"a-different-secret"),
    )
    .unwrap();
    let err = authn().authenticate(Some(&bearer(&token))).unwrap_err();
    assert!(matches!(err, AuthnError::Invalid(_)));
}

#[test]
fn token_without_sub_is_rejected() {
    let mut claims = good_claims();
    claims.remove("sub");
    let token = hs256(claims);
    let err = authn().authenticate(Some(&bearer(&token))).unwrap_err();
    assert_eq!(err, AuthnError::MissingClaim("sub"));
}

#[test]
fn missing_header_is_missing_error() {
    assert_eq!(authn().authenticate(None).unwrap_err(), AuthnError::Missing);
}

#[test]
fn non_bearer_header_is_malformed() {
    let err = authn().authenticate(Some("Basic dXNlcjpwYXNz")).unwrap_err();
    assert_eq!(err, AuthnError::Malformed);
    let empty = authn().authenticate(Some("Bearer ")).unwrap_err();
    assert_eq!(empty, AuthnError::Malformed);
}

#[test]
fn lowercase_bearer_scheme_is_accepted() {
    let token = hs256(good_claims());
    let verified = authn().authenticate(Some(&format!("bearer {token}"))).unwrap();
    assert_eq!(verified.principal, "alice");
}

fn request_with(authorization: Option<&str>, forged_principal: Option<&str>) -> MetadataMap {
    let mut md = MetadataMap::new();
    if let Some(a) = authorization {
        md.insert(AUTHORIZATION_KEY, a.parse().unwrap());
    }
    if let Some(p) = forged_principal {
        md.insert(PRINCIPAL_KEY, p.parse().unwrap());
    }
    md
}

fn shared(a: JwtAuthenticator) -> SharedAuthn {
    SharedAuthn { authn: Box::new(a) }
}

#[test]
fn authenticate_stamps_verified_identity_over_a_forged_principal() {
    let token = hs256(good_claims());
    let shared = shared(authn());
    let mut md = request_with(Some(&bearer(&token)), Some("attacker"));
    let verified = authenticate(&shared, &mut md).unwrap();
    assert_eq!(verified.principal, "alice");
    assert_eq!(md.get(PRINCIPAL_KEY).unwrap().to_str().unwrap(), "alice");
    assert_eq!(md.get(TENANT_KEY).unwrap().to_str().unwrap(), "acme");
}

#[test]
fn roles_and_indexes_are_stamped_as_lists() {
    let mut claims = good_claims();
    claims.insert("indexes".into(), texts(&["docs", "catalog"]));
    let token = hs256(claims);
    let mut md = request_with(Some(&bearer(&token)), None);
    authenticate(&shared(authn()), &mut md).unwrap();
    assert_eq!(
        md.get(ROLES_KEY).unwrap().to_str().unwrap(),
        "viewer,index-admin"
    );
    assert_eq!(
        md.get(INDEXES_KEY).unwrap().to_str().unwrap(),
        "docs,catalog"
    );
}

#[test]
fn an_identity_that_no_header_can_hold_is_refused() {
    let mut claims = good_claims();
    claims.insert("sub".into(), Value::from("al\nice"));
    let token = hs256(claims);
    let mut md = request_with(Some(&bearer(&token)), Some("attacker"));
    let status = authenticate(&shared(authn()), &mut md).unwrap_err();
    assert_eq!(status.code, Code::Unauthenticated);
    assert_eq!(
        status.message,
        "authenticated principal is not a valid identifier"
    );
    assert!(md.get(PRINCIPAL_KEY).is_none());
}

#[test]
fn authenticate_clears_a_forged_tenant_when_the_token_carries_none() {
    let mut claims = good_claims();
    claims.remove("tenant");
    let token = hs256(claims);
    let shared = shared(authn());
    let mut md = request_with(Some(&bearer(&token)), None);
    md.insert(TENANT_KEY, "forged".parse().unwrap());
    authenticate(&shared, &mut md).unwrap();
    assert!(md.get(TENANT_KEY).is_none());
}

#[test]
fn strip_identity_drops_all_caller_asserted_headers() {
    let mut md = MetadataMap::new();
    md.insert(PRINCIPAL_KEY, "attacker".parse().unwrap());
    md.insert(TENANT_KEY, "victim-tenant".parse().unwrap());
    md.insert(ROLES_KEY, "admin".parse().unwrap());
    strip_identity(&mut md);
    assert!(md.get(PRINCIPAL_KEY).is_none());
    assert!(md.get(TENANT_KEY).is_none());
    assert!(md.get(ROLES_KEY).is_none());
}

#[test]
fn authenticate_maps_failure_to_unauthenticated() {
    let shared = shared(authn());
    let mut md = request_with(None, Some("attacker"));
    let status = authenticate(&shared, &mut md).unwrap_err();
    assert_eq!(status.code, Code::Unauthenticated);
}

#[test]
fn anonymous_ignores_any_credential() {
    let anon = Anonymous;
    let verified = anon.authenticate(Some("Bearer whatever")).unwrap();
    assert_eq!(verified.principal, "anonymous");
    assert_eq!(verified.tenant, None);
    assert!(verified.roles.is_empty());
    assert_eq!(anon.authenticate(None).unwrap(), verified);
}

#[test]
fn the_default_authenticator_is_the_anonymous_one() {
    let v: Verified = default_authn().authn.authenticate(None).unwrap();
    assert_eq!(v.principal, "anonymous");
}

// RS256 by key set.

fn private_key() -> EncodingKey {
    EncodingKey::from_rsa_der(&STANDARD.decode(RSA_DER.concat()).unwrap())
}

fn jwks(kid: Option<&str>) -> JwkSet {
    let mut key = serde_json::Map::new();
    key.insert("kty".into(), Value::from("RSA"));
    key.insert("use".into(), Value::from("sig"));
    key.insert("alg".into(), Value::from("RS256"));
    if let Some(k) = kid {
        key.insert("kid".into(), Value::from(k));
    }
    key.insert("n".into(), Value::from(RSA_N.concat()));
    key.insert("e".into(), Value::from("AQAB"));
    let mut set = serde_json::Map::new();
    set.insert("keys".into(), Value::Array(vec![Value::Object(key)]));
    serde_json::from_value(Value::Object(set)).unwrap()
}

fn rs256(claims: serde_json::Map<String, Value>, kid: Option<&str>) -> String {
    let mut header = Header::new(Algorithm::RS256);
    header.kid = kid.map(str::to_string);
    encode(&header, &claims, &private_key()).unwrap()
}

fn jwks_authn() -> JwksAuthenticator {
    JwksAuthenticator::from_jwk_set(&jwks(Some(RSA_KID)), ISSUER, AUDIENCE).unwrap()
}

#[test]
fn jwks_validates_an_rs256_token_by_kid() {
    let token = rs256(good_claims(), Some(RSA_KID));
    let verified = jwks_authn().authenticate(Some(&bearer(&token))).unwrap();
    assert_eq!(verified.principal, "alice");
    assert_eq!(verified.tenant.as_deref(), Some("acme"));
    assert_eq!(verified.roles, vec!["viewer", "index-admin"]);
}

#[test]
fn jwks_rejects_an_unknown_kid() {
    let token = rs256(good_claims(), Some("some-other-kid"));
    let err = jwks_authn().authenticate(Some(&bearer(&token))).unwrap_err();
    assert!(matches!(err, AuthnError::Invalid(_)));
}

#[test]
fn jwks_rejects_a_token_with_no_kid() {
    let token = rs256(good_claims(), None);
    let err = jwks_authn().authenticate(Some(&bearer(&token))).unwrap_err();
    assert!(matches!(err, AuthnError::Invalid(_)));
}

#[test]
fn jwks_still_checks_issuer_and_expiry() {
    let mut claims = good_claims();
    claims.insert("iss".into(), Value::from("https://evil.example"));
    let token = rs256(claims, Some(RSA_KID));
    let err = jwks_authn().authenticate(Some(&bearer(&token))).unwrap_err();
    assert!(matches!(err, AuthnError::Invalid(_)));
}

#[test]
fn build_key_map_rejects_a_keyless_set() {
    assert!(matches!(
        build_key_map(&jwks(None)),
        Err(AuthnError::Discovery(_))
    ));
}

#[test]
fn a_key_map_names_its_keys() {
    let keys = build_key_map(&jwks(Some(RSA_KID))).unwrap();
    assert_eq!(keys.len(), 1);
    assert_eq!(keys[0].0, RSA_KID);
    assert!(keys[0].1.contains("AQAB"));
}

#[test]
fn a_rotated_key_is_taken_over_on_install() {
    let token = rs256(good_claims(), Some("next"));
    let mut a = jwks_authn();
    assert!(a.authenticate(Some(&bearer(&token))).is_err());
    a.install(&jwks(Some("next"))).unwrap();
    assert_eq!(
        a.authenticate(Some(&bearer(&token))).unwrap().principal,
        "alice"
    );
    // A set without usable keys leaves the present ones.
    assert!(a.install(&jwks(None)).is_err());
    assert!(a.authenticate(Some(&bearer(&token))).is_ok());
}

#[test]
fn keys_are_found_by_discovery_or_at_a_fixed_address() {
    let a = JwksAuthenticator::for_issuer("https://idp.example/", AUDIENCE);
    assert!(matches!(
        a.refresh_request(),
        Ok(JwksRequest::Discovery(u))
            if u == "https://idp.example/.well-known/openid-configuration"
    ));
    let b = JwksAuthenticator::for_jwks_uri(ISSUER, AUDIENCE, "https://idp.example/keys");
    assert!(matches!(b.refresh_request(), Ok(JwksRequest::Keys(u)) if u == "https://idp.example/keys"));
    assert_eq!(
        discovered_uri(Some("https://idp.example/jwks".to_string()), "x").unwrap(),
        "https://idp.example/jwks"
    );
    assert_eq!(
        discovered_uri(None, "https://c").unwrap_err(),
        AuthnError::Discovery("OIDC config at https://c has no jwks_uri".to_string())
    );
}

#[test]
fn an_rs256_token_is_verified_by_a_pem_key() {
    let pem = format!(
        "-----BEGIN PUBLIC KEY-----\n{}\n-----END PUBLIC KEY-----\n",
        RSA_SPKI.join("\n")
    );
    let a = JwtAuthenticator::from_rs256_pem(pem.as_bytes(), ISSUER, AUDIENCE).unwrap();
    let token = rs256(good_claims(), None);
    assert_eq!(
        a.authenticate(Some(&bearer(&token))).unwrap().principal,
        "alice"
    );
    // A token signed with a shared secret is not one of this key.
    assert!(a.authenticate(Some(&bearer(&hs256(good_claims())))).is_err());
    assert!(JwtAuthenticator::from_rs256_pem(b"not a key", ISSUER, AUDIENCE).is_err());
}

#[test]
fn claims_are_mapped_without_a_token() {
    let mut claims = good_claims();
    claims.insert("name".into(), Value::from("Alice"));
    claims.insert("email".into(), Value::from("a@x.example"));
    claims.insert("iat".into(), Value::from(7u64));
    claims.insert("roles".into(), Value::from("a  b"));
    let v = claims_identity(&claims, &ClaimMapping::default()).unwrap();
    assert_eq!(v.display_name.as_deref(), Some("Alice"));
    assert_eq!(v.email.as_deref(), Some("a@x.example"));
    assert_eq!(v.issued_at, Some(7));
    assert_eq!(v.roles, vec!["a", "b"]);
}

// API keys.

fn identity(principal: &str, tenant: Option<&str>, roles: &[&str]) -> KeyIdentity {
    KeyIdentity {
        principal: principal.to_string(),
        tenant: tenant.map(str::to_string),
        roles: roles.iter().map(|r| r.to_string()).collect(),
        indexes: Vec::new(),
    }
}

#[test]
fn api_key_round_trip_issue_authenticate_revoke() {
    let mut store = ApiKeyStore::new();
    let key = store
        .issue(identity("svc-ingest", Some("acme"), &["service"]))
        .unwrap();

    let verified = store.authenticate(Some(&format!("ApiKey {key}"))).unwrap();
    assert_eq!(verified.principal, "svc-ingest");
    assert_eq!(verified.tenant.as_deref(), Some("acme"));
    assert_eq!(verified.roles, vec!["service"]);

    assert!(store.revoke(&key));
    let err = store
        .authenticate(Some(&format!("ApiKey {key}")))
        .unwrap_err();
    assert!(matches!(err, AuthnError::Invalid(_)));
    assert!(!store.revoke(&key));
}

#[test]
fn registry_token_authenticator_validates_then_rejects_a_revoked_token() {
    let (secret, hash) = mint_api_token().unwrap();
    assert!(secret.starts_with("gdb_live_"));
    let token = ApiToken {
        id: "t1".into(),
        label: "ci".into(),
        prefix: secret.chars().take(13).collect(),
        hash,
        roles: vec!["reader".into()],
        owner: "svc".into(),
        created_at_ms: 0,
        expires_at_ms: None,
    };
    let looked_up = presented_token_hash(Some(&format!("ApiKey {secret}"))).unwrap();
    assert_eq!(looked_up, token.hash);

    let v = token_identity(Some(token)).unwrap();
    assert_eq!(v.principal, "svc");
    assert_eq!(v.roles, vec!["reader".to_string()]);
    assert_eq!(v.display_name.as_deref(), Some("ci"));

    assert!(token_identity(None).is_err());
}

#[test]
fn api_key_unknown_or_wrong_scheme_is_rejected() {
    let store = ApiKeyStore::new();
    assert!(matches!(
        store.authenticate(Some("ApiKey never-issued")),
        Err(AuthnError::Invalid(_))
    ));
    assert_eq!(
        store.authenticate(Some("Bearer xyz")).unwrap_err(),
        AuthnError::Malformed
    );
    assert_eq!(store.authenticate(None).unwrap_err(), AuthnError::Missing);
}

#[test]
fn api_keys_are_stored_hashed_not_in_the_clear() {
    let mut store = ApiKeyStore::new();
    let key = store.issue(identity("svc", None, &[])).unwrap();
    assert_eq!(store.len(), 1);
    assert!(!store.holds(&key));
    assert!(store.holds(&digest(&key)));
}

#[test]
fn a_digest_is_the_base64url_sha256_of_the_secret() {
    assert_eq!(digest("abc"), "ungWv48Bz-pBQUDeXa4iI7ADYaOWF3qctBD_YfIAFa0");
    assert_eq!(hash_api_token("abc"), digest("abc"));
    assert_eq!(digest(""), "47DEQpj8HBSa-_TImW-5JCeuQeRkm5NMpJWZG3hSuFU");
}

#[test]
fn secrets_are_fresh_and_long() {
    let a = generate_secret().unwrap();
    let b = generate_secret().unwrap();
    assert_ne!(a, b);
    assert_eq!(URL_SAFE_NO_PAD.decode(&a).unwrap().len(), 32);
}

#[test]
fn metadata_with_too_many_keys_carries_no_identity() {
    let answer = |principal: &str| {
        let mut v = Anonymous.authenticate(None).unwrap();
        v.principal = principal.to_string();
        Ok(v)
    };
    let mut md = MetadataMap::new();
    for i in 0..6_550 {
        let key = MetadataKey::<Ascii>::from_bytes(format!("k{i}").as_bytes()).unwrap();
        md.insert(key, "v".parse().unwrap());
    }
    md.insert(PRINCIPAL_KEY, "attacker".parse().unwrap());
    admit_caller(answer("alice"), &mut md).unwrap();
    assert_eq!(md.get(PRINCIPAL_KEY).unwrap(), "alice");
    let one_more = MetadataKey::<Ascii>::from_bytes(b"one-more").unwrap();
    md.insert(one_more, "v".parse().unwrap());
    let err = admit_caller(answer("bob"), &mut md).unwrap_err();
    assert_eq!(err.code, Code::Unauthenticated);
    assert_eq!(err.message, "request metadata has too many keys");
    assert!(md.get(PRINCIPAL_KEY).is_none(), "no identity survives");
}

#[test]
fn random_bytes_make_a_secret_and_a_token() {
    assert_eq!(secret_from(Some(vec![0; 32])), Some("A".repeat(43)));
    let secret = secret_from(Some(vec![255; 32]));
    assert_eq!(secret, Some(format!("{}8", "_".repeat(42))));
    let (raw, hash) = api_token_from(secret.clone()).unwrap();
    assert_eq!(raw, format!("gdb_live_{}", secret.unwrap()));
    assert_eq!(hash, hash_api_token(&raw));
    assert_eq!(hash.len(), 43);
    assert_eq!(secret_from(None), None);
    assert_eq!(api_token_from(None), None);
}

#[test]
fn a_key_is_issued_for_a_secret_and_for_none_without() {
    let mut store = ApiKeyStore::new();
    assert_eq!(store.issue_secret(None, identity("svc", None, &[])), None);
    assert_eq!(store.len(), 0);
    let key = store.issue_secret(Some("s3cret".to_string()), identity("svc", None, &[]));
    assert_eq!(key.as_deref(), Some("s3cret"));
    assert_eq!(
        store.authenticate(Some("ApiKey s3cret")).unwrap().principal,
        "svc"
    );
}

#[test]
fn keys_do_not_disturb_one_another() {
    let mut store = ApiKeyStore::new();
    store.insert("one", identity("a", None, &[]));
    store.insert("two", identity("b", None, &[]));
    assert!(store.revoke("one"));
    assert_eq!(
        store.authenticate(Some("ApiKey two")).unwrap().principal,
        "b"
    );
}

// Chains.

#[test]
fn chain_routes_by_scheme() {
    let mut store = ApiKeyStore::new();
    let key = store
        .issue(identity("svc", Some("acme"), &["service"]))
        .unwrap();
    let chain = ChainAuthenticator::new()
        .with_bearer(shared(authn()))
        .with_api_keys(SharedAuthn { authn: Box::new(store) });

    let token = hs256(good_claims());
    assert_eq!(
        chain.authenticate(Some(&bearer(&token))).unwrap().principal,
        "alice"
    );
    assert_eq!(
        chain
            .authenticate(Some(&format!("ApiKey {key}")))
            .unwrap()
            .principal,
        "svc"
    );
    assert_eq!(
        chain.authenticate(Some("Basic abc")).unwrap_err(),
        AuthnError::Malformed
    );
}

#[test]
fn chain_rejects_a_scheme_with_no_configured_authenticator() {
    let chain = ChainAuthenticator::new().with_api_keys(SharedAuthn {
        authn: Box::new(ApiKeyStore::new()),
    });
    assert_eq!(
        chain.authenticate(Some("Bearer xyz")).unwrap_err(),
        AuthnError::Malformed
    );
}

#[test]
fn errors_say_what_is_wrong() {
    assert_eq!(AuthnError::Missing.message(), "missing bearer credential");
    assert_eq!(
        AuthnError::Malformed.message(),
        "malformed authorization header"
    );
    assert_eq!(
        AuthnError::Invalid("x".to_string()).message(),
        "invalid token: x"
    );
    assert_eq!(
        AuthnError::MissingClaim("sub").message(),
        "token is missing the `sub` claim"
    );
    assert_eq!(
        AuthnError::Discovery("x".to_string()).message(),
        "OIDC/JWKS error: x"
    );
}
