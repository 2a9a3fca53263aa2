//! Semantic and hybrid search: how deep each arm searches, whose documents it may see, and how
//! the ranked lists of the arms are fused into one.
use vstd::prelude::*;
use vstd::string::*;

use crate::error::EngineError;
use crate::keys::{
    byte_ranks, copied, first_occurrences, int_ranks, is_first, ordered_positions, rows_in_order,
    rows_of, same_bytes, ByteKey, OrderKey,
};
use crate::text::same;

verus! {

/// What dampens the weight of a rank: the hit at rank `r` of a list, counted from 0, counts
/// `1 / (RRF_K + r + 1)`.
pub const RRF_K: usize = 60;

/// A field of an index. One that holds vectors names the field that they are made from.
#[derive(Debug, Clone)]
pub struct FieldSpec {
    pub path: String,
    pub vector_source: Option<String>,
}

/// The first field at `path`.
pub open spec fn field_at(fields: Seq<FieldSpec>, path: Seq<char>) -> Option<FieldSpec>
    decreases fields.len(),
{
    if fields.len() == 0 {
        None
    } else if fields[0].path@ == path {
        Some(fields[0])
    } else {
        field_at(fields.drop_first(), path)
    }
}

/// The field that the vectors of the field `path` are made from.
pub fn vector_source(fields: &Vec<FieldSpec>, path: &str) -> (r: Result<String, EngineError>)
    ensures
        match field_at(fields@, path@) {
            Some(FieldSpec { path: _, vector_source: Some(source) }) => r matches Ok(s) && s@
                == source@,
            _ => r matches Err(EngineError::NotVectorField(p)) && p@ == path@,
        },
{
    let mut i: usize = 0;
    assert(fields@.skip(0) =~= fields@);
    while i < fields.len()
        invariant
            i <= fields@.len(),
            field_at(fields@, path@) == field_at(fields@.skip(i as int), path@),
        decreases fields@.len() - i,
    {
        let ghost rest = fields@.skip(i as int);
        assert(rest[0] == fields@[i as int]);
        assert(rest.drop_first() =~= fields@.skip(i + 1));
        if same(fields[i].path.as_str(), path) {
            return match &fields[i].vector_source {
                Some(s) => Ok(s.clone()),
                None => Err(EngineError::NotVectorField(path.to_owned())),
            };
        }
        i = i + 1;
    }
    Err(EngineError::NotVectorField(path.to_owned()))
}

/// The tenant that a search must stay in, as the field and value to filter by: on a tenant-scoped
/// index that of the caller, and a caller without one is refused.
pub fn tenant_filter(index: &str, tenant_field: Option<&str>, claim: Option<&str>) -> (r: Result<
    Option<(String, String)>,
    EngineError,
>)
    ensures
        match (tenant_field, claim) {
            (None, _) => r == Ok::<Option<(String, String)>, EngineError>(None),
            (Some(f), Some(c)) => r matches Ok(Some(t)) && t.0@ == f@ && t.1@ == c@,
            (Some(_), None) => r matches Err(EngineError::SemanticTenantClaimRequired(i)) && i@
                == index@,
        },
{
    match tenant_field {
        None => Ok(None),
        Some(f) => match claim {
            Some(c) => Ok(Some((f.to_owned(), c.to_owned()))),
            None => Err(EngineError::SemanticTenantClaimRequired(index.to_owned())),
        },
    }
}

/// How many hits a semantic search for `k` hits fetches: where they are reranked, all that are to
/// be reranked.
pub fn semantic_depth(k: usize, rerank: bool, rerank_top_k: usize) -> (n: usize)
    ensures
        n == (if rerank && rerank_top_k > k {
            rerank_top_k
        } else {
            k
        }),
{
    if rerank && rerank_top_k > k {
        rerank_top_k
    } else {
        k
    }
}

/// How many hits the lexical and the vector arm of a hybrid search for `k` hits fetch: more than
/// are asked for, so that a hit far down in one list can be lifted by the other.
pub fn hybrid_depths(k: usize, rerank: bool, rerank_top_k: usize) -> (d: (usize, usize))
    requires
        k * 2 <= usize::MAX,
    ensures
        d.0 == (if k > 10 {
            k * 2
        } else {
            20
        }),
        d.1 == (if rerank && rerank_top_k > d.0 {
            rerank_top_k
        } else {
            d.0
        }),
{
    let each: usize = if k > 10 {
        k * 2
    } else {
        20
    };
    let knn: usize = if rerank && rerank_top_k > each {
        rerank_top_k
    } else {
        each
    };
    (each, knn)
}

/// One arm of a search: how many hits it fetches, and the field and value of the tenant that it
/// must stay in, if any.
#[derive(Debug)]
pub struct Arm {
    pub depth: usize,
    pub tenant: Option<(String, String)>,
}

/// How a semantic search is carried out.
#[derive(Debug)]
pub struct SemanticPlan {
    pub vector: Arm,
    /// The field that the vectors are made from, by which hits are reranked.
    pub source_field: String,
}

/// How a hybrid search is carried out: by a lexical and a vector arm, whose hits are fused.
#[derive(Debug)]
pub struct HybridPlan {
    pub lexical: Arm,
    pub vector: Arm,
    pub source_field: String,
}

/// The tenant that a search of a tenant-scoped index must stay in.
pub open spec fn scope_of(tenant_field: Option<&str>, claim: Option<&str>) -> Option<
    (Seq<char>, Seq<char>),
> {
    match (tenant_field, claim) {
        (Some(f), Some(c)) => Some((f@, c@)),
        _ => None,
    }
}

/// Whether an arm stays in `scope`.
pub open spec fn stays_in(arm: Arm, scope: Option<(Seq<char>, Seq<char>)>) -> bool {
    match (arm.tenant, scope) {
        (Some(t), Some(s)) => t.0@ == s.0 && t.1@ == s.1,
        (None, None) => true,
        _ => false,
    }
}

/// Why a search by the vectors of the field `path` is refused: the field holds none, or the caller
/// has no tenant on a tenant-scoped index.
pub open spec fn is_refused(
    e: EngineError,
    index: Seq<char>,
    fields: Seq<FieldSpec>,
    path: Seq<char>,
    tenant_field: Option<&str>,
    claim: Option<&str>,
) -> bool {
    if source_of(fields, path) is None {
        e matches EngineError::NotVectorField(p) && p@ == path
    } else {
        tenant_field is Some && claim is None && (
        e matches EngineError::SemanticTenantClaimRequired(i) && i@ == index)
    }
}

/// The field that the vectors of the field `path` are made from, where it holds vectors.
pub open spec fn source_of(fields: Seq<FieldSpec>, path: Seq<char>) -> Option<Seq<char>> {
    match field_at(fields, path) {
        Some(FieldSpec { path: _, vector_source: Some(source) }) => Some(source@),
        _ => None,
    }
}

fn copied_scope(tenant: &Option<(String, String)>) -> (t: Option<(String, String)>)
    ensures
        t == *tenant,
{
    match tenant {
        Some(p) => Some((p.0.clone(), p.1.clone())),
        None => None,
    }
}

/// Plans a semantic search for `k` hits: it stays in the caller's tenant on a tenant-scoped index.
pub fn plan_semantic(
    index: &str,
    fields: &Vec<FieldSpec>,
    path: &str,
    tenant_field: Option<&str>,
    claim: Option<&str>,
    k: usize,
    rerank: bool,
    rerank_top_k: usize,
) -> (r: Result<SemanticPlan, EngineError>)
    ensures
        match r {
            Ok(p) => {
                &&& source_of(fields@, path@) == Some(p.source_field@)
                &&& tenant_field is Some ==> claim is Some
                &&& stays_in(p.vector, scope_of(tenant_field, claim))
                &&& p.vector.depth == (if rerank && rerank_top_k > k {
                    rerank_top_k
                } else {
                    k
                })
            },
            Err(e) => is_refused(e, index@, fields@, path@, tenant_field, claim),
        },
{
    let source_field = match vector_source(fields, path) {
        Ok(f) => f,
        Err(e) => return Err(e),
    };
    let tenant = match tenant_filter(index, tenant_field, claim) {
        Ok(t) => t,
        Err(e) => return Err(e),
    };
    let depth: usize = semantic_depth(k, rerank, rerank_top_k);
    Ok(SemanticPlan { vector: Arm { depth, tenant }, source_field })
}

/// Plans a hybrid search for `k` hits: on a tenant-scoped index both arms stay in the caller's
/// tenant.
pub fn plan_hybrid(
    index: &str,
    fields: &Vec<FieldSpec>,
    path: &str,
    tenant_field: Option<&str>,
    claim: Option<&str>,
    k: usize,
    rerank: bool,
    rerank_top_k: usize,
) -> (r: Result<HybridPlan, EngineError>)
    requires
        k * 2 <= usize::MAX,
    ensures
        match r {
            Ok(p) => {
                &&& source_of(fields@, path@) == Some(p.source_field@)
                &&& tenant_field is Some ==> claim is Some
                &&& stays_in(p.lexical, scope_of(tenant_field, claim))
                &&& stays_in(p.vector, scope_of(tenant_field, claim))
                &&& p.lexical.depth == (if k > 10 {
                    k * 2
                } else {
                    20
                })
                &&& p.vector.depth == (if rerank && rerank_top_k > p.lexical.depth {
                    rerank_top_k
                } else {
                    p.lexical.depth
                })
            },
            Err(e) => is_refused(e, index@, fields@, path@, tenant_field, claim),
        },
{
    let source_field = match vector_source(fields, path) {
        Ok(f) => f,
        Err(e) => return Err(e),
    };
    let tenant = match tenant_filter(index, tenant_field, claim) {
        Ok(t) => t,
        Err(e) => return Err(e),
    };
    let (lexical, vector): (usize, usize) = hybrid_depths(k, rerank, rerank_top_k);
    Ok(
        HybridPlan {
            lexical: Arm { depth: lexical, tenant: copied_scope(&tenant) },
            vector: Arm { depth: vector, tenant },
            source_field,
        },
    )
}

/// The keys whose rows are looked up: those of the hits where rows were asked for. Rows come back
/// exactly where there are keys to look up by.
pub fn keys_to_hydrate(hits: Vec<ByteKey>, hydrate: bool) -> (keys: Option<Vec<ByteKey>>)
    ensures
        keys == (if hydrate {
            Some(hits)
        } else {
            None
        }),
{
    if hydrate {
        Some(hits)
    } else {
        None
    }
}

/// A hit of a ranked list: its key, and whether it carries what is needed to show it.
#[derive(Debug)]
pub struct RankedHit {
    pub key: ByteKey,
    pub displays: bool,
}

/// Where a hit stands: in which list, and at which rank.
#[derive(Debug, Clone, Copy, PartialEq, Eq)]
pub struct Place {
    pub list: usize,
    pub rank: usize,
}

/// A document of the fused list: the ranks that it has, list by list, and the hit that shows it.
#[derive(Debug)]
pub struct FusedDoc {
    pub ranks: Vec<usize>,
    pub shown_by: Place,
}

/// The places of the first `n` lists, list by list.
pub open spec fn places(lists: Seq<Vec<RankedHit>>, n: int) -> Seq<Place>
    decreases n,
{
    if n <= 0 {
        Seq::empty()
    } else {
        places(lists, n - 1) + Seq::new(
            lists[n - 1]@.len(),
            |r: int| Place { list: (n - 1) as usize, rank: r as usize },
        )
    }
}

/// The hit at a place.
pub open spec fn hit_at(lists: Seq<Vec<RankedHit>>, p: Place) -> RankedHit {
    lists[p.list as int]@[p.rank as int]
}

/// Whether a place is one of the lists.
pub open spec fn is_place(lists: Seq<Vec<RankedHit>>, p: Place) -> bool {
    p.list < lists.len() && p.rank < lists[p.list as int]@.len()
}

/// Whether the hit at place `i` is the first of its document.
pub open spec fn opens(lists: Seq<Vec<RankedHit>>, at: Seq<Place>, i: int) -> bool {
    forall|k: int|
        0 <= k < i ==> hit_at(lists, #[trigger] at[k]).key.bytes@ != hit_at(
            lists,
            at[i],
        ).key.bytes@
}

/// The positions below `n` of the places where a document is first met.
pub open spec fn openings(lists: Seq<Vec<RankedHit>>, at: Seq<Place>, n: int) -> Seq<usize>
    decreases n,
{
    if n <= 0 {
        Seq::empty()
    } else if opens(lists, at, n - 1) {
        openings(lists, at, n - 1).push((n - 1) as usize)
    } else {
        openings(lists, at, n - 1)
    }
}

/// The ranks that the document `key` has at the first `n` places.
pub open spec fn ranks_of(
    lists: Seq<Vec<RankedHit>>,
    at: Seq<Place>,
    key: Seq<u8>,
    n: int,
) -> Seq<usize>
    decreases n,
{
    if n <= 0 {
        Seq::empty()
    } else if hit_at(lists, at[n - 1]).key.bytes@ == key {
        ranks_of(lists, at, key, n - 1).push(at[n - 1].rank)
    } else {
        ranks_of(lists, at, key, n - 1)
    }
}

/// The first place below `n` whose hit of the document `key` can show it.
pub open spec fn first_display(
    lists: Seq<Vec<RankedHit>>,
    at: Seq<Place>,
    key: Seq<u8>,
    n: int,
) -> Option<Place>
    decreases n,
{
    if n <= 0 {
        None
    } else {
        match first_display(lists, at, key, n - 1) {
            Some(p) => Some(p),
            None => {
                let hit = hit_at(lists, at[n - 1]);
                if hit.key.bytes@ == key && hit.displays {
                    Some(at[n - 1])
                } else {
                    None
                }
            },
        }
    }
}

/// Whether `doc` is the document first met at `open`: with all its ranks, and shown by its first
/// hit that can show it, or else by its first hit.
pub open spec fn is_fused(
    doc: FusedDoc,
    lists: Seq<Vec<RankedHit>>,
    at: Seq<Place>,
    open: Place,
) -> bool {
    let key = hit_at(lists, open).key.bytes@;
    &&& doc.ranks@ == ranks_of(lists, at, key, at.len() as int)
    &&& doc.shown_by == (match first_display(lists, at, key, at.len() as int) {
        Some(p) => p,
        None => open,
    })
}

fn all_places(lists: &Vec<Vec<RankedHit>>) -> (at: Vec<Place>)
    ensures
        at@ == places(lists@, lists@.len() as int),
        forall|k: int| 0 <= k < at@.len() ==> is_place(lists@, #[trigger] at@[k]),
{
    let mut at: Vec<Place> = Vec::new();
    let n: usize = lists.len();
    let mut i: usize = 0;
    while i < n
        invariant
            n == lists@.len(),
            i <= n,
            at@ == places(lists@, i as int),
            forall|k: int| 0 <= k < at@.len() ==> is_place(lists@, #[trigger] at@[k]),
        decreases n - i,
    {
        let m: usize = lists[i].len();
        let mut r: usize = 0;
        let ghost before = at@;
        while r < m
            invariant
                n == lists@.len(),
                i < n,
                m == lists@[i as int]@.len(),
                r <= m,
                before == places(lists@, i as int),
                forall|k: int| 0 <= k < before.len() ==> is_place(lists@, #[trigger] before[k]),
                at@ == before + Seq::new(r as nat, |r: int| Place { list: i, rank: r as usize }),
            decreases m - r,
        {
            at.push(Place { list: i, rank: r });
            assert(at@ =~= before + Seq::new(
                (r + 1) as nat,
                |r: int| Place { list: i, rank: r as usize },
            ));
            r = r + 1;
        }
        assert(at@ =~= places(lists@, i + 1));
        assert forall|k: int| 0 <= k < at@.len() implies is_place(lists@, #[trigger] at@[k]) by {
            if k < before.len() {
                assert(at@[k] == before[k]);
            }
        }
        i = i + 1;
    }
    at
}

fn fused_at(lists: &Vec<Vec<RankedHit>>, at: &Vec<Place>, open: Place) -> (doc: FusedDoc)
    requires
        is_place(lists@, open),
        forall|k: int| 0 <= k < at@.len() ==> is_place(lists@, #[trigger] at@[k]),
    ensures
        is_fused(doc, lists@, at@, open),
{
    let ghost key = hit_at(lists@, open).key.bytes@;
    let mut ranks: Vec<usize> = Vec::new();
    let mut shown: Option<Place> = None;
    let mut i: usize = 0;
    while i < at.len()
        invariant
            i <= at@.len(),
            is_place(lists@, open),
            forall|k: int| 0 <= k < at@.len() ==> is_place(lists@, #[trigger] at@[k]),
            key == hit_at(lists@, open).key.bytes@,
            ranks@ == ranks_of(lists@, at@, key, i as int),
            shown == first_display(lists@, at@, key, i as int),
        decreases at@.len() - i,
    {
        let p: Place = at[i];
        assert(is_place(lists@, at@[i as int]));
        let hit = &lists[p.list][p.rank];
        if same_bytes(&hit.key.bytes, &lists[open.list][open.rank].key.bytes) {
            ranks.push(p.rank);
            if shown.is_none() && hit.displays {
                shown = Some(p);
            }
        }
        i = i + 1;
    }
    FusedDoc {
        ranks,
        shown_by: match shown {
            Some(p) => p,
            None => open,
        },
    }
}

/// The documents of several ranked lists, each once, in the order in which they are first met.
pub fn fuse(lists: &Vec<Vec<RankedHit>>) -> (docs: Vec<FusedDoc>)
    ensures
        ({
            let at = places(lists@, lists@.len() as int);
            let first = openings(lists@, at, at.len() as int);
            &&& at.len() <= usize::MAX
            &&& docs@.len() == first.len()
            &&& forall|k: int|
                0 <= k < docs@.len() ==> is_fused(
                    #[trigger] docs@[k],
                    lists@,
                    at,
                    at[first[k] as int],
                )
        }),
{
    let at = all_places(lists);
    let n: usize = at.len();
    let mut keys: Vec<ByteKey> = Vec::new();
    let mut i: usize = 0;
    while i < n
        invariant
            n == at@.len(),
            i <= n,
            keys@.len() == i,
            forall|k: int| 0 <= k < at@.len() ==> is_place(lists@, #[trigger] at@[k]),
            forall|k: int|
                0 <= k < i ==> (#[trigger] keys@[k]).bytes@ == hit_at(lists@, at@[k]).key.bytes@,
        decreases n - i,
    {
        assert(is_place(lists@, at@[i as int]));
        keys.push(ByteKey { bytes: copied(&lists[at[i].list][at[i].rank].key.bytes) });
        i = i + 1;
    }
    let first = first_occurrences(&keys);
    let mut docs: Vec<FusedDoc> = Vec::new();
    let ghost mut met: Seq<usize> = Seq::empty();
    let mut j: usize = 0;
    while j < n
        invariant
            n == at@.len(),
            j <= n,
            keys@.len() == n,
            first@.len() == n,
            forall|k: int| 0 <= k < at@.len() ==> is_place(lists@, #[trigger] at@[k]),
            forall|k: int|
                0 <= k < n ==> (#[trigger] keys@[k]).bytes@ == hit_at(lists@, at@[k]).key.bytes@,
            forall|i: int| 0 <= i < n ==> #[trigger] first@[i] == is_first(keys@, i),
            met == openings(lists@, at@, j as int),
            docs@.len() == met.len(),
            forall|k: int|
                0 <= k < docs@.len() ==> is_fused(
                    #[trigger] docs@[k],
                    lists@,
                    at@,
                    at@[met[k] as int],
                ),
        decreases n - j,
    {
        assert(first@[j as int] == is_first(keys@, j as int));
        assert(is_first(keys@, j as int) == opens(lists@, at@, j as int)) by {
            if is_first(keys@, j as int) {
                assert forall|k: int| 0 <= k < j implies hit_at(
                    lists@,
                    #[trigger] at@[k],
                ).key.bytes@ != hit_at(lists@, at@[j as int]).key.bytes@ by {
                    assert(keys@[k].bytes@ != keys@[j as int].bytes@);
                }
            }
            if opens(lists@, at@, j as int) {
                assert forall|k: int| 0 <= k < j implies (#[trigger] keys@[k]).bytes@
                    != keys@[j as int].bytes@ by {
                    assert(hit_at(lists@, at@[k]).key.bytes@ != hit_at(
                        lists@,
                        at@[j as int],
                    ).key.bytes@);
                }
            }
        }
        if first[j] {
            assert(is_place(lists@, at@[j as int]));
            docs.push(fused_at(lists, &at, at[j]));
            proof {
                met = met.push(j);
            }
        }
        j = j + 1;
    }
    docs
}

/// What a fused document is ordered by: its falling score, given by its rank among the scores,
/// and then its key.
pub open spec fn fused_row(score: i64, key: Seq<u8>) -> Seq<int> {
    seq![-score] + byte_ranks(key)
}

/// What the fused documents are ordered by.
pub open spec fn fused_rows(scores: Seq<i64>, keys: Seq<ByteKey>) -> Seq<Seq<int>> {
    Seq::new(scores.len(), |i: int| fused_row(scores[i], keys[i].bytes@))
}

/// The positions of the best `limit` fused documents, the best first. The scores stand as
/// integers that order as they do.
pub fn best_fused(scores: &Vec<i64>, keys: &Vec<ByteKey>, limit: usize) -> (picks: Vec<usize>)
    requires
        scores@.len() == keys@.len(),
    ensures
        exists|at: Seq<usize>| #[trigger]
            rows_in_order(fused_rows(scores@, keys@), at) && picks@ == at.take(
                if limit < at.len() {
                    limit as int
                } else {
                    at.len() as int
                },
            ),
{
    let mut rows: Vec<OrderKey> = Vec::new();
    let mut i: usize = 0;
    while i < scores.len()
        invariant
            i <= scores@.len(),
            scores@.len() == keys@.len(),
            rows@.len() == i,
            forall|k: int|
                0 <= k < i ==> int_ranks((#[trigger] rows@[k]).ranks@) == fused_row(
                    scores@[k],
                    keys@[k].bytes@,
                ),
        decreases scores@.len() - i,
    {
        let mut ranks: Vec<i128> = Vec::new();
        ranks.push(-(scores[i] as i128));
        let bytes = &keys[i].bytes;
        let mut j: usize = 0;
        while j < bytes.len()
            invariant
                j <= bytes@.len(),
                ranks@.len() == 1 + j,
                ranks@[0] == -scores@[i as int],
                forall|l: int| 0 <= l < j ==> #[trigger] ranks@[1 + l] == bytes@[l],
            decreases bytes@.len() - j,
        {
            ranks.push(bytes[j] as i128);
            j = j + 1;
        }
        assert(int_ranks(ranks@) =~= fused_row(scores@[i as int], bytes@)) by {
            assert forall|l: int| 0 <= l < ranks@.len() implies int_ranks(ranks@)[l] == fused_row(
                scores@[i as int],
                bytes@,
            )[l] by {
                if l > 0 {
                    assert(ranks@[1 + (l - 1)] == bytes@[l - 1]);
                }
            }
        }
        rows.push(OrderKey { ranks });
        i = i + 1;
    }
    assert(rows_of(rows@) =~= fused_rows(scores@, keys@));
    let at = ordered_positions(&rows);
    let end: usize = if limit < at.len() {
        limit
    } else {
        at.len()
    };
    let mut picks: Vec<usize> = Vec::new();
    let mut k: usize = 0;
    while k < end
        invariant
            k <= end <= at@.len(),
            picks@ == at@.take(k as int),
        decreases end - k,
    {
        picks.push(at[k]);
        k = k + 1;
    }
    assert(rows_in_order(fused_rows(scores@, keys@), at@));
    picks
}

/// Every hit belongs to a fused document: a document that is in one list only is not lost.
pub proof fn lemma_no_hit_lost(lists: Seq<Vec<RankedHit>>, at: Seq<Place>, n: int, i: int) -> (o: int)
    requires
        0 <= i < n <= at.len() <= usize::MAX,
    ensures
        0 <= o < openings(lists, at, n).len(),
        hit_at(lists, at[openings(lists, at, n)[o] as int]).key.bytes@ == hit_at(
            lists,
            at[i],
        ).key.bytes@,
    decreases n,
{
    let key = hit_at(lists, at[i]).key.bytes@;
    let before = openings(lists, at, n - 1);
    let now = openings(lists, at, n);
    if i < n - 1 {
        let o = lemma_no_hit_lost(lists, at, n - 1, i);
        assert(now[o] == before[o]);
        o
    } else if opens(lists, at, i) {
        assert(now[before.len() as int] == i);
        before.len() as int
    } else {
        let k = choose|k: int|
            0 <= k < i && hit_at(lists, #[trigger] at[k]).key.bytes@ == hit_at(
                lists,
                at[i],
            ).key.bytes@;
        let o = lemma_no_hit_lost(lists, at, n - 1, k);
        assert(now[o] == before[o]);
        o
    }
}

/// No two fused documents have the same key.
pub proof fn lemma_fused_keys_differ(
    lists: Seq<Vec<RankedHit>>,
    at: Seq<Place>,
    n: int,
    a: int,
    b: int,
)
    requires
        0 <= n <= at.len() <= usize::MAX,
        0 <= a < b < openings(lists, at, n).len(),
    ensures
        openings(lists, at, n)[a] < openings(lists, at, n)[b] < n,
        hit_at(lists, at[openings(lists, at, n)[a] as int]).key.bytes@ != hit_at(
            lists,
            at[openings(lists, at, n)[b] as int],
        ).key.bytes@,
    decreases n,
{
    let before = openings(lists, at, n - 1);
    if b < before.len() {
        lemma_fused_keys_differ(lists, at, n - 1, a, b);
    } else {
        lemma_openings_bounded(lists, at, n - 1, a);
        assert(opens(lists, at, n - 1));
        assert(hit_at(lists, at[before[a] as int]).key.bytes@ != hit_at(
            lists,
            at[n - 1],
        ).key.bytes@);
    }
}

proof fn lemma_openings_bounded(lists: Seq<Vec<RankedHit>>, at: Seq<Place>, n: int, k: int)
    requires
        0 <= n <= at.len() <= usize::MAX,
        0 <= k < openings(lists, at, n).len(),
    ensures
        openings(lists, at, n)[k] < n,
    decreases n,
{
    if k < openings(lists, at, n - 1).len() {
        lemma_openings_bounded(lists, at, n - 1, k);
    }
}

} // verus!
