//! Building an index from its source: its default definition, what each shard keeps, the ids of
//! its commits, and when an empty build is refused.
use vstd::prelude::*;
use vstd::string::*;

use crate::error::EngineError;
use crate::query::is_one_of;
use crate::text::{
    append_decimal, append_signed, chars_of, copies, decimal, lemma_decimal_injective,
    signed_decimal,
};

verus! {

/// The fields of a source table.
#[derive(Debug, Clone)]
pub struct SourceSchema {
    pub fields: Vec<String>,
    pub partition_fields: Vec<String>,
    pub identifier_fields: Vec<String>,
}

/// The definition of an index, as far as a default one goes.
#[derive(Debug, Clone)]
pub struct IndexDefinition {
    pub name: String,
    pub catalog: String,
    pub table: String,
    pub partition_fields: Vec<String>,
    pub identifier_fields: Vec<String>,
    pub shard_count: u32,
    pub tenant_field: Option<String>,
    pub windowed: bool,
}

/// What follows the last `.` of `s`; all of `s` where it has none.
pub open spec fn last_segment(s: Seq<char>) -> Seq<char>
    decreases s.len(),
{
    if s.len() == 0 {
        s
    } else if s.last() == '.' {
        Seq::empty()
    } else {
        last_segment(s.drop_last()).push(s.last())
    }
}

fn segment_of(s: &str) -> (r: &str)
    ensures
        r@ == last_segment(s@),
{
    let cs = chars_of(s);
    let n: usize = cs.len();
    let mut start: usize = n;
    assert(cs@.subrange(n as int, n as int) =~= Seq::empty());
    assert(cs@.take(n as int) =~= cs@);
    while start > 0 && cs[start - 1] != '.'
        invariant
            n == cs@.len(),
            start <= n,
            last_segment(cs@) == last_segment(cs@.take(start as int)) + cs@.subrange(
                start as int,
                n as int,
            ),
        decreases start,
    {
        proof {
            let before = cs@.take(start as int);
            assert(before.drop_last() =~= cs@.take(start - 1));
            assert(before.last() == cs@[start - 1]);
            assert(last_segment(before) + cs@.subrange(start as int, n as int) =~= last_segment(
                cs@.take(start - 1),
            ) + cs@.subrange(start - 1, n as int));
        }
        start = start - 1;
    }
    proof {
        let before = cs@.take(start as int);
        if start > 0 {
            assert(before.last() == '.');
        }
        assert(last_segment(before) =~= Seq::empty());
        assert(Seq::<char>::empty() + cs@.subrange(start as int, n as int) =~= cs@.subrange(
            start as int,
            n as int,
        ));
    }
    s.substring_char(start, n)
}

/// The identifier fields of an index without a definition: those of the source, else `id`, else
/// the only field there is.
pub open spec fn default_identifier(source: SourceSchema) -> Option<Seq<Seq<char>>> {
    if source.identifier_fields@.len() > 0 {
        Some(source.identifier_fields.deep_view())
    } else if source.fields.deep_view().contains("id"@) {
        Some(seq!["id"@])
    } else if source.fields@.len() == 1 {
        Some(seq![source.fields@[0]@])
    } else {
        None
    }
}

/// The definition of an index over `table` that is given none: every field is mapped, and the
/// index is named after the table unless it is named.
pub fn default_definition(catalog: &str, table: &str, name: Option<&str>, source: &SourceSchema) -> (r:
    Result<IndexDefinition, EngineError>)
    ensures
        match default_identifier(*source) {
            None => r == Err::<IndexDefinition, EngineError>(EngineError::NoIdentifier),
            Some(id) => r matches Ok(d) && {
                &&& d.name@ == (match name {
                    Some(n) => n@,
                    None => last_segment(table@),
                })
                &&& d.catalog@ == catalog@
                &&& d.table@ == table@
                &&& d.partition_fields.deep_view() == source.partition_fields.deep_view()
                &&& d.identifier_fields.deep_view() == id
                &&& d.shard_count == 1
                &&& d.tenant_field is None
                &&& !d.windowed
            },
        },
{
    let identifier_fields = if source.identifier_fields.len() > 0 {
        copies(&source.identifier_fields)
    } else if is_one_of("id", &source.fields) {
        let mut one: Vec<String> = Vec::new();
        one.push("id".to_owned());
        assert(one.deep_view() =~= seq!["id"@]);
        one
    } else if source.fields.len() == 1 {
        let mut one: Vec<String> = Vec::new();
        one.push(source.fields[0].clone());
        assert(one.deep_view() =~= seq![source.fields@[0]@]);
        one
    } else {
        return Err(EngineError::NoIdentifier);
    };
    let name = match name {
        Some(n) => n.to_owned(),
        None => segment_of(table).to_owned(),
    };
    Ok(
        IndexDefinition {
            name,
            catalog: catalog.to_owned(),
            table: table.to_owned(),
            partition_fields: copies(&source.partition_fields),
            identifier_fields,
            shard_count: 1,
            tenant_field: None,
            windowed: false,
        },
    )
}

/// What shard `ordinal` of `shards` keeps when it is built: `(shards, ordinal)` for a router over
/// as many shards, or everything where there is one shard. A windowed index is not built by shard.
pub fn shard_build_filter(name: &str, windowed: bool, shards: u32, ordinal: u32) -> (r: Result<
    Option<(u32, u32)>,
    EngineError,
>)
    ensures
        match r {
            Ok(None) => shards <= 1,
            Ok(Some(f)) => shards > 1 && !windowed && f == (shards, ordinal),
            Err(e) => shards > 1 && windowed && (e matches EngineError::ShardingWindowedUnsupported(n)
                && n@ == name@),
        },
{
    if shards <= 1 {
        return Ok(None);
    }
    if windowed {
        return Err(EngineError::ShardingWindowedUnsupported(name.to_owned()));
    }
    Ok(Some((shards, ordinal)))
}

/// How the source of an index is read.
#[derive(Debug, Clone, Copy, PartialEq, Eq, Structural)]
pub enum ScanMode {
    Changelog,
    AppendFastPath,
}

/// Refuses an incremental sync of an index whose source is not append-only.
pub fn may_sync(index: &str, scan: ScanMode) -> (r: Result<(), EngineError>)
    ensures
        match r {
            Ok(_) => scan == ScanMode::AppendFastPath,
            Err(e) => scan != ScanMode::AppendFastPath && (e matches EngineError::NotAppendFastPath(n)
                && n@ == index@),
        },
{
    if scan != ScanMode::AppendFastPath {
        return Err(EngineError::NotAppendFastPath(index.to_owned()));
    }
    Ok(())
}

/// Whether an index that was built must be built anew: it was built with another schema.
pub fn needs_fresh_build(built: bool, same_schema: bool) -> (b: bool)
    ensures
        b == (built && !same_schema),
{
    built && !same_schema
}

/// The id of the commit of a whole snapshot.
pub open spec fn snapshot_id_text(snapshot: i64) -> Seq<char> {
    "snapshot-"@ + signed_decimal(snapshot as int)
}

/// The id of the commit of a chunk of a snapshot.
pub open spec fn chunk_id_text(snapshot: i64, chunk: u64) -> Seq<char> {
    snapshot_id_text(snapshot) + "-"@ + decimal(chunk as nat)
}

/// The id of the commit of a whole snapshot.
pub fn snapshot_batch_id(snapshot: i64) -> (id: String)
    ensures
        id@ == snapshot_id_text(snapshot),
{
    let mut id = "snapshot-".to_owned();
    append_signed(&mut id, snapshot);
    id
}

/// The id of the commit of the rows that were appended up to a snapshot.
pub fn append_batch_id(snapshot: i64) -> (id: String)
    ensures
        id@ == "append-"@ + signed_decimal(snapshot as int),
{
    let mut id = "append-".to_owned();
    append_signed(&mut id, snapshot);
    id
}

/// A streamed build: how many chunks of which snapshot were committed, and how many documents.
#[derive(Debug)]
pub struct StreamedBuild {
    pub snapshot: i64,
    pub chunks: u64,
    pub written: u64,
}

impl StreamedBuild {
    /// A build of `snapshot`, with nothing committed yet.
    pub fn new(snapshot: i64) -> (b: StreamedBuild)
        ensures
            b == (StreamedBuild { snapshot, chunks: 0, written: 0 }),
    {
        StreamedBuild { snapshot, chunks: 0, written: 0 }
    }

    /// Counts a chunk of which `kept` documents belong to the shard, and gives the id of its
    /// commit.
    pub fn chunk(&mut self, kept: u64) -> (id: String)
        requires
            old(self).chunks < u64::MAX,
            old(self).written + kept <= u64::MAX,
        ensures
            *final(self) == (StreamedBuild {
                snapshot: old(self).snapshot,
                chunks: (old(self).chunks + 1) as u64,
                written: (old(self).written + kept) as u64,
            }),
            id@ == chunk_id_text(old(self).snapshot, final(self).chunks),
    {
        self.written = self.written + kept;
        self.chunks = self.chunks + 1;
        let mut id = snapshot_batch_id(self.snapshot);
        id.append("-");
        append_decimal(&mut id, self.chunks);
        id
    }

    /// Ends the build: refuses one without documents of a table that reports some, and else gives
    /// the id of an empty commit that records which snapshot the shard reflects. There is one where
    /// no chunk recorded it and the source has a snapshot. A build that is refused commits nothing
    /// more.
    pub fn finish(&self, has_checkpoint: bool, filtered: bool, table: &str, records: Option<i64>) -> (r:
        Result<Option<String>, EngineError>)
        ensures
            match r {
                Ok(anchor) => {
                    &&& may_commit(self.written, filtered, records)
                    &&& match anchor {
                        Some(s) => self.snapshot != 0 && !has_checkpoint && s@
                            == snapshot_id_text(self.snapshot) + "-anchor"@,
                        None => self.snapshot == 0 || has_checkpoint,
                    }
                },
                Err(e) => !may_commit(self.written, filtered, records) && is_empty_read(
                    e,
                    table@,
                    records->0,
                ),
            },
    {
        if let Err(e) = checked_build(self.written, filtered, table, records) {
            return Err(e);
        }
        if self.snapshot != 0 && !has_checkpoint {
            let mut id = snapshot_batch_id(self.snapshot);
            id.append("-anchor");
            return Ok(Some(id));
        }
        Ok(None)
    }
}

/// Whether a build with `docs` documents may be committed: it has some, or is one shard's share, or
/// the source reports none.
pub open spec fn may_commit(docs: u64, filtered: bool, records: Option<i64>) -> bool {
    docs > 0 || filtered || records is None || records->0 <= 0
}

/// Whether `e` says that nothing was read of `table`, which reports `records`.
pub open spec fn is_empty_read(e: EngineError, table: Seq<char>, records: i64) -> bool {
    e matches EngineError::EmptyReadFromNonEmptySource { table: t, records: n } && t@ == table && n
        == records
}

/// Refuses a build without documents of a table that reports some. A shard of several may hold
/// none.
pub fn checked_build(doc_count: u64, filtered: bool, table: &str, records: Option<i64>) -> (r: Result<
    u64,
    EngineError,
>)
    ensures
        match r {
            Ok(n) => n == doc_count && may_commit(doc_count, filtered, records),
            Err(e) => !may_commit(doc_count, filtered, records) && is_empty_read(
                e,
                table@,
                records->0,
            ),
        },
{
    if doc_count == 0 && !filtered {
        if let Some(n) = records {
            if n > 0 {
                return Err(
                    EngineError::EmptyReadFromNonEmptySource { table: table.to_owned(), records: n },
                );
            }
        }
    }
    Ok(doc_count)
}

/// The window whose snapshot stands for a windowed build: the latest.
pub fn latest_window(windows: &Vec<i64>) -> (w: Option<i64>)
    ensures
        match w {
            Some(m) => windows@.contains(m) && forall|i: int|
                0 <= i < windows@.len() ==> #[trigger] windows@[i] <= m,
            None => windows@.len() == 0,
        },
{
    if windows.len() == 0 {
        return None;
    }
    let mut m: i64 = windows[0];
    assert(windows@[0] == m);
    let mut i: usize = 1;
    while i < windows.len()
        invariant
            1 <= i <= windows@.len(),
            windows@.contains(m),
            forall|k: int| 0 <= k < i ==> #[trigger] windows@[k] <= m,
        decreases windows@.len() - i,
    {
        if windows[i] > m {
            m = windows[i];
            assert(windows@[i as int] == m);
        }
        i = i + 1;
    }
    Some(m)
}

/// No two chunks of a build have the same commit id.
pub proof fn lemma_chunk_ids_differ(snapshot: i64, a: u64, b: u64)
    requires
        a != b,
    ensures
        chunk_id_text(snapshot, a) != chunk_id_text(snapshot, b),
{
    let head = snapshot_id_text(snapshot) + "-"@;
    if chunk_id_text(snapshot, a) == chunk_id_text(snapshot, b) {
        let x = chunk_id_text(snapshot, a);
        let y = chunk_id_text(snapshot, b);
        assert(x.skip(head.len() as int) =~= decimal(a as nat));
        assert(y.skip(head.len() as int) =~= decimal(b as nat));
        lemma_decimal_injective(a as nat, b as nat);
    }
}

} // verus!
