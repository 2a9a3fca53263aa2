//! What can go wrong in the engine.
use vstd::prelude::*;
use vstd::string::*;

use crate::text::{append_signed, signed_decimal};

verus! {

/// Errors of indexing, search and hydration.
#[derive(Debug)]
pub enum EngineError {
    /// A key has no locator: it was never indexed, or the index is behind.
    MissingLocator(String),
    /// A key is not in the index.
    KeyNotFound(String),
    /// The index was not built.
    NotIndexed(String),
    /// No identifier field could be picked for an index without a definition.
    NoIdentifier,
    /// An incremental sync of an index whose source is read by changelog.
    NotAppendFastPath(String),
    /// A semantic search over a field that holds no vectors.
    NotVectorField(String),
    /// A semantic search of a tenant-scoped index without a tenant.
    SemanticTenantClaimRequired(String),
    /// The definition was invalid.
    Definition(String),
    /// The query could not be read.
    Query(String),
    /// The index could not be read or written.
    Store(String),
    /// The source could not be read.
    Source(String),
    /// A read brought no document out of a table that holds some.
    EmptyReadFromNonEmptySource { table: String, records: i64 },
    /// A windowed index was to be built by shard.
    ShardingWindowedUnsupported(String),
    /// A file could not be read or written.
    Io(String),
    /// A definition could not be encoded or decoded.
    Codec(String),
}

/// What an error says. An error that only passes another one on, or only names what it is
/// about, says that.
pub open spec fn message_of(e: EngineError) -> Seq<char> {
    match e {
        EngineError::MissingLocator(key) => "no locator for key: "@ + key@,
        EngineError::KeyNotFound(key) => key@,
        EngineError::NotIndexed(index) => "index `"@ + index@
            + "` does not exist — run `growlerdb index` first"@,
        EngineError::NoIdentifier =>
            "no identifier field: provide a definition with `key.identifier_fields`"@,
        EngineError::NotAppendFastPath(index) => "index `"@ + index@
            + "` is not APPEND_FAST_PATH — changelog sync is the connector's job"@,
        EngineError::NotVectorField(field) => field@,
        EngineError::SemanticTenantClaimRequired(index) => index@,
        EngineError::Definition(text) => text@,
        EngineError::Query(text) => text@,
        EngineError::Store(text) => text@,
        EngineError::Source(text) => text@,
        EngineError::EmptyReadFromNonEmptySource { table, records } =>
            "indexed 0 documents from `"@ + table@ + "`, but its current snapshot reports "@
            + signed_decimal(records as int)
            + " records — the source read is broken (e.g. a delete in the table's history); refusing to commit an empty index"@,
        EngineError::ShardingWindowedUnsupported(index) => "index `"@ + index@
            + "` is windowed — it shards by time window, not by `--shards`/`--shard-ordinal`"@,
        EngineError::Io(text) => "io: "@ + text@,
        EngineError::Codec(text) => "definition codec: "@ + text@,
    }
}

fn around(before: &str, name: &String, after: &str) -> (m: String)
    ensures
        m@ == before@ + name@ + after@,
{
    let mut m = before.to_owned();
    m.append(name.as_str());
    m.append(after);
    m
}

fn behind(before: &str, text: &String) -> (m: String)
    ensures
        m@ == before@ + text@,
{
    let mut m = before.to_owned();
    m.append(text.as_str());
    m
}

impl EngineError {
    /// What the error says.
    pub fn message(&self) -> (m: String)
        ensures
            m@ == message_of(*self),
    {
        match self {
            EngineError::MissingLocator(key) => behind("no locator for key: ", key),
            EngineError::NotIndexed(index) => around(
                "index `",
                index,
                "` does not exist — run `growlerdb index` first",
            ),
            EngineError::NoIdentifier =>
                "no identifier field: provide a definition with `key.identifier_fields`".to_owned(),
            EngineError::NotAppendFastPath(index) => around(
                "index `",
                index,
                "` is not APPEND_FAST_PATH — changelog sync is the connector's job",
            ),
            EngineError::EmptyReadFromNonEmptySource { table, records } => {
                let mut m = around(
                    "indexed 0 documents from `",
                    table,
                    "`, but its current snapshot reports ",
                );
                append_signed(&mut m, *records);
                m.append(
                    " records — the source read is broken (e.g. a delete in the table's history); refusing to commit an empty index",
                );
                m
            },
            EngineError::ShardingWindowedUnsupported(index) => around(
                "index `",
                index,
                "` is windowed — it shards by time window, not by `--shards`/`--shard-ordinal`",
            ),
            EngineError::Io(text) => behind("io: ", text),
            EngineError::Codec(text) => behind("definition codec: ", text),
            EngineError::KeyNotFound(text)
            | EngineError::NotVectorField(text)
            | EngineError::SemanticTenantClaimRequired(text)
            | EngineError::Definition(text)
            | EngineError::Query(text)
            | EngineError::Store(text)
            | EngineError::Source(text) => text.clone(),
        }
    }
}

} // verus!
