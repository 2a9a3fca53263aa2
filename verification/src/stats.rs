//! The statistics of an index: those of its shards, and what they come to.
use vstd::prelude::*;
use vstd::string::*;

use crate::fanout::{gathered, silence_text};
use crate::status::{plain, Code, Status};
use crate::text::copies;

verus! {

/// A field that holds vectors, and how many documents have one.
#[derive(Debug)]
pub struct VectorFieldStat {
    pub name: String,
    pub source_field: String,
    pub model: String,
    pub dims: u32,
    pub docs_with_vector: u64,
}

/// A field of the mapping.
#[derive(Debug)]
pub struct MappedFieldStat {
    pub name: String,
    pub kind: String,
    pub fast: bool,
    pub indexed: bool,
    pub cached: bool,
}

/// What one shard reports of its index.
#[derive(Debug)]
pub struct IndexStats {
    pub name: String,
    pub snapshot: u64,
    pub num_docs: u64,
    pub generation_count: u64,
    pub checkpoint: String,
    pub size_bytes: u64,
    pub time_fields: Vec<String>,
    pub sort_fields: Vec<String>,
    pub vector_fields: Vec<VectorFieldStat>,
    pub fields: Vec<MappedFieldStat>,
}

/// The statistics of an index, with those of each shard that reported some.
#[derive(Debug)]
pub struct DescribeIndexResponse {
    pub stats: IndexStats,
    pub failed_shards: u32,
    pub per_shard: Vec<IndexStats>,
}

/// The documents of the first `n` shards.
pub open spec fn docs(stats: Seq<IndexStats>, n: int) -> nat
    decreases n,
{
    if n <= 0 {
        0
    } else {
        docs(stats, n - 1) + stats[n - 1].num_docs as nat
    }
}

/// The generations of the first `n` shards.
pub open spec fn generations(stats: Seq<IndexStats>, n: int) -> nat
    decreases n,
{
    if n <= 0 {
        0
    } else {
        generations(stats, n - 1) + stats[n - 1].generation_count as nat
    }
}

/// The bytes of the first `n` shards.
pub open spec fn bytes(stats: Seq<IndexStats>, n: int) -> nat
    decreases n,
{
    if n <= 0 {
        0
    } else {
        bytes(stats, n - 1) + stats[n - 1].size_bytes as nat
    }
}

/// The latest snapshot of the first `n` shards.
pub open spec fn latest(stats: Seq<IndexStats>, n: int) -> nat
    decreases n,
{
    if n <= 0 {
        0
    } else if stats[n - 1].snapshot > latest(stats, n - 1) {
        stats[n - 1].snapshot as nat
    } else {
        latest(stats, n - 1)
    }
}

/// Whether the sums over all shards fit.
pub open spec fn sums_fit(stats: Seq<IndexStats>) -> bool {
    &&& docs(stats, stats.len() as int) <= u64::MAX
    &&& generations(stats, stats.len() as int) <= u64::MAX
    &&& bytes(stats, stats.len() as int) <= u64::MAX
}

/// Whether `all` is what the shards come to: sums, the latest snapshot, and the name, position and
/// time fields of the first one. The other fields are told shard by shard only.
pub open spec fn sums_up(all: IndexStats, stats: Seq<IndexStats>) -> bool {
    let n = stats.len() as int;
    &&& all.num_docs == docs(stats, n)
    &&& all.generation_count == generations(stats, n)
    &&& all.size_bytes == bytes(stats, n)
    &&& all.snapshot == latest(stats, n)
    &&& all.sort_fields@.len() == 0
    &&& all.vector_fields@.len() == 0
    &&& all.fields@.len() == 0
    &&& if n == 0 {
        all.name@.len() == 0 && all.checkpoint@.len() == 0 && all.time_fields@.len() == 0
    } else {
        all.name@ == stats[0].name@ && all.checkpoint@ == stats[0].checkpoint@
            && all.time_fields.deep_view() == stats[0].time_fields.deep_view()
    }
}

proof fn lemma_sums_grow(stats: Seq<IndexStats>, m: int, n: int)
    requires
        0 <= m <= n,
    ensures
        docs(stats, m) <= docs(stats, n),
        generations(stats, m) <= generations(stats, n),
        bytes(stats, m) <= bytes(stats, n),
    decreases n - m,
{
    if m < n {
        lemma_sums_grow(stats, m, n - 1);
    }
}

fn summed(stats: &Vec<IndexStats>) -> (all: IndexStats)
    requires
        sums_fit(stats@),
    ensures
        sums_up(all, stats@),
{
    let mut snapshot: u64 = 0;
    let mut num_docs: u64 = 0;
    let mut generation_count: u64 = 0;
    let mut size_bytes: u64 = 0;
    let n: usize = stats.len();
    let mut i: usize = 0;
    while i < n
        invariant
            n == stats@.len(),
            i <= n,
            sums_fit(stats@),
            num_docs == docs(stats@, i as int),
            generation_count == generations(stats@, i as int),
            size_bytes == bytes(stats@, i as int),
            snapshot == latest(stats@, i as int),
        decreases n - i,
    {
        proof {
            lemma_sums_grow(stats@, i + 1, n as int);
        }
        let s = &stats[i];
        num_docs = num_docs + s.num_docs;
        generation_count = generation_count + s.generation_count;
        size_bytes = size_bytes + s.size_bytes;
        if s.snapshot > snapshot {
            snapshot = s.snapshot;
        }
        i = i + 1;
    }
    let (name, checkpoint, time_fields) = if n == 0 {
        proof {
            reveal_strlit("");
        }
        ("".to_owned(), "".to_owned(), Vec::new())
    } else {
        (stats[0].name.clone(), stats[0].checkpoint.clone(), copies(&stats[0].time_fields))
    };
    IndexStats {
        name,
        snapshot,
        num_docs,
        generation_count,
        checkpoint,
        size_bytes,
        time_fields,
        sort_fields: Vec::new(),
        vector_fields: Vec::new(),
        fields: Vec::new(),
    }
}

/// Merges the statistics of the shards that reported some, where `answered` of the `asked` shards
/// answered.
pub fn merge_describe(per_shard: Vec<IndexStats>, answered: usize, asked: usize) -> (r: Result<
    DescribeIndexResponse,
    Status,
>)
    requires
        answered <= asked <= u32::MAX,
        sums_fit(per_shard@),
    ensures
        match r {
            Ok(out) => {
                &&& answered > 0
                &&& sums_up(out.stats, per_shard@)
                &&& out.failed_shards == asked - answered
                &&& out.per_shard == per_shard
            },
            Err(e) => answered == 0 && e@ == plain(Code::Unavailable, silence_text(asked as nat)),
        },
{
    let failed_shards: u32 = match gathered(asked, answered) {
        Ok(f) => f,
        Err(e) => return Err(e),
    };
    let stats = summed(&per_shard);
    Ok(DescribeIndexResponse { stats, failed_shards, per_shard })
}

} // verus!
