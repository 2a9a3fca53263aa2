//! Request metadata: the identity headers of a request and how they are read and written.
use tonic::metadata::MetadataMap;
use vstd::prelude::*;
use vstd::string::*;

verus! {

/// The metadata key of the authenticated principal.
pub const PRINCIPAL_KEY: &'static str = "x-growlerdb-principal";

/// The metadata key of the caller's tenant.
pub const TENANT_KEY: &'static str = "x-growlerdb-tenant";

/// The metadata key of the caller's roles, separated by commas.
pub const ROLES_KEY: &'static str = "x-growlerdb-roles";

/// The metadata key of the indexes that the caller may use, separated by commas; none means no
/// restriction.
pub const INDEXES_KEY: &'static str = "x-growlerdb-indexes";

/// The metadata key of the credential: the HTTP `Authorization` header.
pub const AUTHORIZATION_KEY: &'static str = "authorization";

/// tonic's map of request metadata.
#[verifier::external_type_specification]
#[verifier::external_body]
pub struct ExMetadataMap(MetadataMap);

/// What a metadata map holds: the bytes of the first value under each key.
pub uninterp spec fn contents(md: MetadataMap) -> Map<Seq<char>, Seq<u8>>;

/// Whether a byte may stand in a header value.
pub open spec fn valid_byte(b: u8) -> bool {
    (b >= 32 && b != 127) || b == 9
}

/// Whether a byte is visible ASCII, a space or a tab.
pub open spec fn visible_byte(b: u8) -> bool {
    (32 <= b < 127) || b == 9
}

/// Whether a text may be written as a header value.
pub open spec fn writable(text: Seq<char>) -> bool {
    forall|i: int|
        0 <= i < vstd::utf8::encode_utf8(text).len() ==> valid_byte(
            #[trigger] vstd::utf8::encode_utf8(text)[i],
        )
}

/// Whether a header value can be read as text.
pub open spec fn readable(bytes: Seq<u8>) -> bool {
    forall|i: int| 0 <= i < bytes.len() ==> visible_byte(#[trigger] bytes[i])
}

/// The text of a readable header value.
pub open spec fn text_of(bytes: Seq<u8>) -> Seq<char> {
    Seq::new(bytes.len(), |i: int| bytes[i] as char)
}

/// The text under `key`, where there is a readable one.
pub open spec fn header(md: Map<Seq<char>, Seq<u8>>, key: Seq<char>) -> Option<Seq<char>> {
    if md.contains_key(key) && readable(md[key]) {
        Some(text_of(md[key]))
    } else {
        None
    }
}

/// Whether `key` is one of the keys that this module names. All of them are lower-case header
/// names without the `-bin` suffix of binary keys.
pub open spec fn known_key(key: Seq<char>) -> bool {
    key == PRINCIPAL_KEY@ || key == TENANT_KEY@ || key == ROLES_KEY@ || key == INDEXES_KEY@ || key
        == AUTHORIZATION_KEY@
}

/// The most keys that a metadata map may have for one more to be written. The hash table behind
/// the map has at most 32768 slots; while it has fewer keys than a fifth of them, it can always
/// take another.
pub const MAX_KEYS: usize = 6_553;

/// Whether `md` has `n` keys.
pub open spec fn has_keys(md: Map<Seq<char>, Seq<u8>>, n: nat) -> bool {
    md.dom().finite() && md.len() == n
}

/// Whether another key can be written to `md`.
pub open spec fn has_room(md: Map<Seq<char>, Seq<u8>>) -> bool {
    md.dom().finite() && md.len() <= MAX_KEYS
}

/// The number of keys: `MetadataMap::keys_len`. Each key counts once, however many values it has.
#[verifier::external_body]
pub(crate) fn key_count(md: &MetadataMap) -> (n: usize)
    ensures
        has_keys(contents(*md), n as nat),
{
    md.keys_len()
}

/// The text under `key`: `MetadataMap::get` and then `MetadataValue::to_str`. `get` finds the
/// first value under the key; `to_str` gives its bytes as text where all are visible ASCII.
#[verifier::external_body]
pub(crate) fn header_text(md: &MetadataMap, key: &'static str) -> (r: Option<String>)
    requires
        known_key(key@),
    ensures
        match r {
            Some(s) => header(contents(*md), key@) == Some(s@),
            None => header(contents(*md), key@) is None,
        },
{
    md.get(key).and_then(|v| v.to_str().ok()).map(str::to_string)
}

/// Writes `value` under `key`, in place of all values there: `MetadataMap::insert` of the value
/// that `str::parse` makes. Parsing accepts exactly the texts whose UTF-8 bytes may all stand in a
/// header value; for any other nothing is written and the result is `false`. `insert` panics where
/// the map's hash table would have to grow past its limit, so a map with more keys than
/// [`MAX_KEYS`] is left out.
#[verifier::external_body]
pub(crate) fn put_header(md: &mut MetadataMap, key: &'static str, value: &str) -> (done: bool)
    requires
        known_key(key@),
        has_room(contents(*old(md))),
    ensures
        done == writable(value@),
        done ==> contents(*final(md)) == contents(*old(md)).insert(
            key@,
            vstd::utf8::encode_utf8(value@),
        ),
        !done ==> contents(*final(md)) == contents(*old(md)),
{
    match value.parse() {
        Ok(v) => {
            md.insert(key, v);
            true
        },
        Err(_) => false,
    }
}

/// Drops every value under `key`: `MetadataMap::remove`.
#[verifier::external_body]
pub(crate) fn drop_header(md: &mut MetadataMap, key: &'static str)
    requires
        known_key(key@),
    ensures
        contents(*final(md)) == contents(*old(md)).remove(key@),
{
    md.remove(key);
}

} // verus!
