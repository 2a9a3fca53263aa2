//! API keys and tokens: random secrets of which only digests are kept.
use base64::Engine;
use sha2::Digest;
use vstd::hash_map::StringHashMap;
use vstd::prelude::*;
use vstd::string::*;
use vstd::utf8::encode_utf8;

use crate::authn::{
    api_key, key_credential, outcome, Authenticator, AuthnError, AuthnErrorView, Credential,
    Verified, VerifiedView,
};

verus! {

broadcast use vstd::hash_map::group_hash_map_axioms;

/// The character for a six-bit value in the URL-safe Base64 alphabet.
pub open spec fn base64url_char(v: int) -> char {
    if v < 26 {
        (65 + v) as u8 as char
    } else if v < 52 {
        (97 + (v - 26)) as u8 as char
    } else if v < 62 {
        (48 + (v - 52)) as u8 as char
    } else if v == 62 {
        '-'
    } else {
        '_'
    }
}

/// The `i`th six bits of `bytes`, which end in zero bits as far as needed.
pub open spec fn six_bits(bytes: Seq<u8>, i: int) -> int {
    let at = 6 * i / 8;
    let offset = 6 * i % 8;
    let high = bytes[at] as int;
    let low = if at + 1 < bytes.len() {
        bytes[at + 1] as int
    } else {
        0
    };
    let unit = if offset == 0 {
        1024int
    } else if offset == 2 {
        256
    } else if offset == 4 {
        64
    } else {
        16
    };
    ((high * 256 + low) / unit) % 64
}

/// `bytes` in URL-safe Base64 without padding.
pub open spec fn base64url(bytes: Seq<u8>) -> Seq<char> {
    Seq::new(((bytes.len() * 8 + 5) / 6) as nat, |i: int| base64url_char(six_bits(bytes, i)))
}

/// The SHA-256 digest of `bytes`.
pub uninterp spec fn sha256_of(bytes: Seq<u8>) -> Seq<u8>;

/// The form in which a secret is kept.
pub open spec fn kept_form(secret: Seq<char>) -> Seq<char> {
    base64url(sha256_of(encode_utf8(secret)))
}

/// `Engine::encode` of base64's `URL_SAFE_NO_PAD`: `bytes` in URL-safe Base64 without padding.
/// The length of the result must fit in a `usize`.
#[verifier::external_body]
fn encode_base64url(bytes: &[u8]) -> (s: String)
    requires
        bytes@.len() * 2 <= usize::MAX,
    ensures
        s@ == base64url(bytes@),
{
    base64::engine::general_purpose::URL_SAFE_NO_PAD.encode(bytes)
}

/// `Sha256::digest`: the SHA-256 digest of `bytes`, which has 32 bytes.
#[verifier::external_body]
fn sha256(bytes: &[u8]) -> (d: Vec<u8>)
    ensures
        d@ == sha256_of(bytes@),
        d@.len() == 32,
{
    sha2::Sha256::digest(bytes).to_vec()
}

/// `getrandom::getrandom` for 32 bytes: random bytes from the operating system, or none where it
/// has none to give. Which bytes come, and whether any do, is left
/// open.
#[verifier::external_body]
fn random_bytes() -> (b: Option<Vec<u8>>)
    ensures
        b matches Some(v) ==> v@.len() == 32,
{
    let mut bytes = [0u8; 32];
    match getrandom::getrandom(&mut bytes) {
        Ok(_) => Some(bytes.to_vec()),
        Err(_) => None,
    }
}

/// The form in which a secret is kept, of 43 characters whatever the secret.
pub fn digest(raw: &str) -> (d: String)
    ensures
        d@ == kept_form(raw@),
        d@.len() == 43,
{
    let hash = sha256(raw.as_bytes());
    encode_base64url(hash.as_slice())
}

/// Whether `s` is a secret: 32 bytes in URL-safe Base64.
pub open spec fn is_secret(s: Seq<char>) -> bool {
    exists|b: Seq<u8>| b.len() == 32 && s == #[trigger] base64url(b)
}

/// The secret that random bytes make; none where there are no bytes.
pub fn secret_from(bytes: Option<Vec<u8>>) -> (s: Option<String>)
    requires
        bytes matches Some(b) ==> b@.len() * 2 <= usize::MAX,
    ensures
        match bytes {
            Some(b) => s matches Some(t) && t@ == base64url(b@),
            None => s is None,
        },
{
    match bytes {
        Some(b) => Some(encode_base64url(b.as_slice())),
        None => None,
    }
}

/// A fresh secret, or none where the operating system has no random bytes to give.
/// [`secret_from`] says what comes of the bytes.
pub fn generate_secret() -> (s: Option<String>)
    ensures
        s matches Some(t) ==> is_secret(t@),
{
    let bytes = random_bytes();
    let ghost given = bytes;
    let s = secret_from(bytes);
    assert(given matches Some(b) ==> s->0@ == base64url(b@));
    s
}

/// The API token that a secret makes, and the form in which it is kept; none where there is no
/// secret.
pub fn api_token_from(secret: Option<String>) -> (t: Option<(String, String)>)
    ensures
        match secret {
            Some(s) => t matches Some(p) && p.0@ == "gdb_live_"@ + s@ && p.1@ == kept_form(p.0@)
                && p.1@.len() == 43,
            None => t is None,
        },
{
    match secret {
        Some(s) => {
            let mut raw = "gdb_live_".to_owned();
            raw.append(s.as_str());
            let hash = digest(raw.as_str());
            Some((raw, hash))
        },
        None => None,
    }
}

/// A fresh API token and the form in which it is kept, or none where the operating system has no
/// random bytes to give. [`api_token_from`] says what comes of the secret.
pub fn mint_api_token() -> (t: Option<(String, String)>)
    ensures
        t matches Some(p) ==> {
            &&& exists|s: Seq<char>| #[trigger] is_secret(s) && p.0@ == "gdb_live_"@ + s
            &&& p.1@ == kept_form(p.0@)
            &&& p.1@.len() == 43
        },
{
    let secret = generate_secret();
    let ghost given = secret;
    let t = api_token_from(secret);
    assert(given matches Some(s) ==> is_secret(s@));
    t
}

/// The form in which an API token is kept and looked up.
pub fn hash_api_token(raw: &str) -> (d: String)
    ensures
        d@ == kept_form(raw@),
        d@.len() == 43,
{
    digest(raw)
}

/// The caller that an API key stands for.
#[derive(Debug)]
pub struct KeyIdentity {
    /// The principal that the key authenticates as.
    pub principal: String,
    /// The tenant that the key is scoped to, if any.
    pub tenant: Option<String>,
    /// The roles that the key carries.
    pub roles: Vec<String>,
    /// The indexes that the key may use; none means no restriction.
    pub indexes: Vec<String>,
}

impl View for KeyIdentity {
    type V = VerifiedView;

    open spec fn view(&self) -> VerifiedView {
        VerifiedView {
            principal: self.principal@,
            tenant: self.tenant.deep_view(),
            roles: self.roles.deep_view(),
            indexes: self.indexes.deep_view(),
            display_name: None,
            email: None,
            issued_at: None,
        }
    }
}

fn copy_texts(texts: &Vec<String>) -> (out: Vec<String>)
    ensures
        out@ == texts@,
{
    let mut out: Vec<String> = Vec::new();
    let mut i: usize = 0;
    while i < texts.len()
        invariant
            i <= texts@.len(),
            out@ == texts@.take(i as int),
        decreases texts@.len() - i,
    {
        out.push(texts[i].clone());
        assert(texts@.take(i + 1) =~= texts@.take(i as int).push(texts@[i as int]));
        i = i + 1;
    }
    assert(texts@.take(i as int) =~= texts@);
    out
}

impl KeyIdentity {
    fn verified(&self) -> (v: Verified)
        ensures
            v@ == self@,
    {
        let tenant = match &self.tenant {
            Some(t) => Some(t.clone()),
            None => None,
        };
        let v = Verified {
            principal: self.principal.clone(),
            tenant,
            roles: copy_texts(&self.roles),
            indexes: copy_texts(&self.indexes),
            display_name: None,
            email: None,
            issued_at: None,
        };
        assert(v.roles.deep_view() =~= self.roles.deep_view());
        assert(v.indexes.deep_view() =~= self.indexes.deep_view());
        v
    }
}

/// The API keys that were issued, by the digests of their secrets.
pub struct ApiKeyStore {
    keys: StringHashMap<KeyIdentity>,
}

impl View for ApiKeyStore {
    type V = Map<Seq<char>, KeyIdentity>;

    closed spec fn view(&self) -> Map<Seq<char>, KeyIdentity> {
        self.keys@
    }
}

impl ApiKeyStore {
    /// An empty store.
    pub fn new() -> (s: ApiKeyStore)
        ensures
            s@ == Map::<Seq<char>, KeyIdentity>::empty(),
    {
        ApiKeyStore { keys: StringHashMap::new() }
    }

    /// Issues the key that `secret` is to `identity`; where there is no secret, no key is issued.
    pub fn issue_secret(&mut self, secret: Option<String>, identity: KeyIdentity) -> (raw: Option<
        String,
    >)
        ensures
            raw == secret,
            final(self)@ == match secret {
                Some(s) => old(self)@.insert(kept_form(s@), identity),
                None => old(self)@,
            },
    {
        match secret {
            Some(raw) => {
                self.keys.insert(digest(raw.as_str()), identity);
                Some(raw)
            },
            None => None,
        }
    }

    /// Issues a fresh key for `identity`. Its secret is told once; the store keeps the digest.
    /// Where the operating system has no random bytes to give, no key is issued.
    /// [`ApiKeyStore::issue_secret`] says what comes of the secret.
    pub fn issue(&mut self, identity: KeyIdentity) -> (raw: Option<String>)
        ensures
            match raw {
                Some(s) => is_secret(s@) && final(self)@ == old(self)@.insert(
                    kept_form(s@),
                    identity,
                ),
                None => final(self)@ == old(self)@,
            },
    {
        self.issue_secret(generate_secret(), identity)
    }

    /// Registers a key that was minted elsewhere.
    pub fn insert(&mut self, raw: &str, identity: KeyIdentity)
        ensures
            final(self)@ == old(self)@.insert(kept_form(raw@), identity),
    {
        self.keys.insert(digest(raw), identity);
    }

    /// Revokes a key by its secret; says whether there was one.
    pub fn revoke(&mut self, raw: &str) -> (had: bool)
        ensures
            had == old(self)@.contains_key(kept_form(raw@)),
            final(self)@ == old(self)@.remove(kept_form(raw@)),
    {
        let d = digest(raw);
        let had = self.keys.contains_key(d.as_str());
        self.keys.remove(d.as_str());
        had
    }

    /// Whether something is kept under this very text.
    pub fn holds(&self, text: &str) -> (b: bool)
        ensures
            b == self@.contains_key(text@),
    {
        self.keys.contains_key(text)
    }

    /// The number of keys.
    pub fn len(&self) -> (n: usize)
        ensures
            n == self@.len(),
    {
        self.keys.len()
    }
}

/// The answer to an unknown key.
pub open spec fn unknown_key() -> Result<VerifiedView, AuthnErrorView> {
    Err(AuthnErrorView::Invalid("unknown or revoked API key"@))
}

/// What a store with these keys answers to a header.
pub open spec fn key_answer(
    keys: Map<Seq<char>, KeyIdentity>,
    authorization: Option<Seq<char>>,
) -> Result<VerifiedView, AuthnErrorView> {
    match key_credential(authorization) {
        Credential::Missing => Err(AuthnErrorView::Missing),
        Credential::Malformed => Err(AuthnErrorView::Malformed),
        Credential::Token(t) => if keys.contains_key(kept_form(t)) {
            Ok(keys[kept_form(t)]@)
        } else {
            unknown_key()
        },
    }
}

impl Authenticator for ApiKeyStore {
    open spec fn may_yield(
        &self,
        authorization: Option<Seq<char>>,
        r: Result<VerifiedView, AuthnErrorView>,
    ) -> bool {
        r == key_answer(self@, authorization)
    }

    fn authenticate(&self, authorization: Option<&str>) -> (r: Result<Verified, AuthnError>) {
        let key = match api_key(authorization) {
            Ok(k) => k,
            Err(e) => {
                return Err(e);
            },
        };
        let d = digest(key);
        match self.keys.get(d.as_str()) {
            Some(identity) => Ok(identity.verified()),
            None => Err(AuthnError::Invalid("unknown or revoked API key".to_owned())),
        }
    }
}

/// A key that was inserted authenticates as its identity until it is revoked, and not after.
pub proof fn lemma_key_lives_until_revoked(
    keys: Map<Seq<char>, KeyIdentity>,
    raw: Seq<char>,
    identity: KeyIdentity,
    authorization: Option<Seq<char>>,
)
    requires
        key_credential(authorization) == Credential::Token(raw),
    ensures
        key_answer(keys.insert(kept_form(raw), identity), authorization) == Ok::<
            VerifiedView,
            AuthnErrorView,
        >(identity@),
        key_answer(keys.insert(kept_form(raw), identity).remove(kept_form(raw)), authorization)
            == unknown_key(),
        key_answer(keys.remove(kept_form(raw)), authorization) == unknown_key(),
{
}

/// Issuing, inserting or revoking one key leaves the answers to all keys of another digest.
pub proof fn lemma_keys_are_independent(
    keys: Map<Seq<char>, KeyIdentity>,
    raw: Seq<char>,
    identity: KeyIdentity,
    other: Seq<char>,
    authorization: Option<Seq<char>>,
)
    requires
        key_credential(authorization) == Credential::Token(other),
        kept_form(raw) != kept_form(other),
    ensures
        key_answer(keys.insert(kept_form(raw), identity), authorization) == key_answer(
            keys,
            authorization,
        ),
        key_answer(keys.remove(kept_form(raw)), authorization) == key_answer(keys, authorization),
{
}

/// A registered API token: the secret's digest and what it stands for.
#[derive(Debug)]
pub struct ApiToken {
    pub id: String,
    pub label: String,
    pub prefix: String,
    pub hash: String,
    pub roles: Vec<String>,
    pub owner: String,
    pub created_at_ms: i64,
    pub expires_at_ms: Option<i64>,
}

/// The digest to look a presented API token up by.
pub fn presented_token_hash(authorization: Option<&str>) -> (r: Result<String, AuthnError>)
    ensures
        match key_credential(authorization.deep_view()) {
            Credential::Missing => r matches Err(e) && e is Missing,
            Credential::Malformed => r matches Err(e) && e is Malformed,
            Credential::Token(t) => r matches Ok(h) && h@ == kept_form(t) && h@.len() == 43,
        },
{
    match api_key(authorization) {
        Ok(k) => Ok(digest(k)),
        Err(e) => Err(e),
    }
}

/// The caller that a registered API token stands for: its owner, with the token's roles.
pub open spec fn token_caller(t: ApiToken) -> VerifiedView {
    VerifiedView {
        principal: t.owner@,
        tenant: None,
        roles: t.roles.deep_view(),
        indexes: Seq::empty(),
        display_name: Some(t.label@),
        email: None,
        issued_at: None,
    }
}

/// The caller that a looked-up API token stands for; a token that was not found is unknown or
/// revoked.
pub fn token_identity(found: Option<ApiToken>) -> (r: Result<Verified, AuthnError>)
    ensures
        outcome(r) == match found {
            Some(t) => Ok::<VerifiedView, AuthnErrorView>(token_caller(t)),
            None => Err(AuthnErrorView::Invalid("unknown or revoked API token"@)),
        },
{
    match found {
        Some(t) => {
            let v = Verified {
                principal: t.owner,
                tenant: None,
                roles: t.roles,
                indexes: Vec::new(),
                display_name: Some(t.label),
                email: None,
                issued_at: None,
            };
            assert(v.indexes.deep_view() =~= Seq::empty());
            Ok(v)
        },
        None => Err(AuthnError::Invalid("unknown or revoked API token".to_owned())),
    }
}

} // verus!
