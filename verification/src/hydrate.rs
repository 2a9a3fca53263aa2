//! Fetching documents by key: which keys can be fetched, and what the source is pruned by.
use vstd::prelude::*;
use vstd::string::*;

use crate::error::EngineError;
use crate::query::is_one_of;
use crate::text::joined;

verus! {

/// The key of a document: its partition and its identifier, each value as the index writes it.
#[derive(Debug, Clone)]
pub struct CompositeKey {
    pub partition: Vec<(String, String)>,
    pub identifier: Vec<(String, String)>,
}

/// `name=value` for each of the fields.
pub open spec fn pairs(fields: Seq<(Seq<char>, Seq<char>)>) -> Seq<Seq<char>> {
    fields.map_values(|f: (Seq<char>, Seq<char>)| f.0 + "="@ + f.1)
}

/// A key, for a reader.
pub open spec fn described(key: CompositeKey) -> Seq<char> {
    "["@ + joined(pairs(key.partition.deep_view()), ","@) + "|"@ + joined(
        pairs(key.identifier.deep_view()),
        ","@,
    ) + "]"@
}

fn joined_pairs(fields: &Vec<(String, String)>) -> (out: String)
    ensures
        out@ == joined(pairs(fields.deep_view()), ","@),
{
    let mut parts: Vec<String> = Vec::new();
    let mut i: usize = 0;
    while i < fields.len()
        invariant
            i <= fields@.len(),
            parts@.len() == i,
            forall|k: int|
                0 <= k < i ==> (#[trigger] parts@[k])@ == fields@[k].0@ + "="@ + fields@[k].1@,
        decreases fields@.len() - i,
    {
        let mut p = fields[i].0.clone();
        p.append("=");
        p.append(fields[i].1.as_str());
        parts.push(p);
        i = i + 1;
    }
    assert(parts.deep_view() =~= pairs(fields.deep_view()));
    crate::text::join(&parts, ",")
}

/// A key, for a reader.
pub fn describe(key: &CompositeKey) -> (out: String)
    ensures
        out@ == described(*key),
{
    let partition = joined_pairs(&key.partition);
    let identifier = joined_pairs(&key.identifier);
    let mut out = "[".to_owned();
    out.append(partition.as_str());
    out.append("|");
    out.append(identifier.as_str());
    out.append("]");
    out
}

/// Whether the index holds a key, or why it could not be asked.
pub type Presence = Result<bool, String>;

/// The first key that cannot be fetched.
pub open spec fn first_unfetchable(found: Seq<Presence>) -> Option<int>
    decreases found.len(),
{
    if found.len() == 0 {
        None
    } else {
        match first_unfetchable(found.drop_last()) {
            Some(i) => Some(i),
            None => if found.last() == Ok::<bool, String>(true) {
                None
            } else {
                Some(found.len() - 1)
            },
        }
    }
}

/// Resolves keys into requests to the source, one per key and in their order, where `found` says
/// of each whether the index holds it. The first key that it does not hold is the error.
pub fn resolve_requests(keys: &Vec<CompositeKey>, found: &Vec<Presence>) -> (r: Result<
    Vec<usize>,
    EngineError,
>)
    requires
        keys@.len() == found@.len(),
    ensures
        match first_unfetchable(found@) {
            None => r matches Ok(at) && at@ == Seq::new(keys@.len(), |i: int| i as usize),
            Some(i) => match found@[i] {
                Ok(_) => r matches Err(EngineError::KeyNotFound(k)) && k@ == described(keys@[i]),
                Err(e) => r matches Err(EngineError::Store(s)) && s@ == e@,
            },
        },
{
    let mut at: Vec<usize> = Vec::new();
    let n: usize = keys.len();
    let mut i: usize = 0;
    assert(found@.take(0) =~= Seq::empty());
    while i < n
        invariant
            n == keys@.len(),
            keys@.len() == found@.len(),
            i <= n,
            at@ == Seq::new(i as nat, |i: int| i as usize),
            first_unfetchable(found@.take(i as int)) is None,
        decreases n - i,
    {
        let ghost next = found@.take(i + 1);
        assert(next.drop_last() =~= found@.take(i as int));
        assert(next.last() == found@[i as int]);
        match &found[i] {
            Ok(true) => {
                at.push(i);
                assert(at@ =~= Seq::new((i + 1) as nat, |i: int| i as usize));
            },
            Ok(false) => {
                proof {
                    lemma_first_stays(found@, i + 1);
                }
                return Err(EngineError::KeyNotFound(describe(&keys[i])));
            },
            Err(e) => {
                proof {
                    lemma_first_stays(found@, i + 1);
                }
                return Err(EngineError::Store(e.clone()));
            },
        }
        i = i + 1;
    }
    assert(found@.take(n as int) =~= found@);
    Ok(at)
}

proof fn lemma_first_stays(found: Seq<Presence>, n: int)
    requires
        0 <= n <= found.len(),
        first_unfetchable(found.take(n)) is Some,
    ensures
        first_unfetchable(found) == first_unfetchable(found.take(n)),
    decreases found.len() - n,
{
    if n < found.len() {
        assert(found.take(n + 1).drop_last() =~= found.take(n));
        lemma_first_stays(found, n + 1);
    } else {
        assert(found.take(n) =~= found);
    }
}

/// The fields among the first `n` sort fields that the index can read fast and that are not part
/// of the key.
pub open spec fn hints(
    sort: Seq<Seq<char>>,
    fast: Seq<Seq<char>>,
    key: Seq<Seq<char>>,
    n: int,
) -> Seq<Seq<char>>
    decreases n,
{
    if n <= 0 {
        Seq::empty()
    } else if fast.contains(sort[n - 1]) && !key.contains(sort[n - 1]) {
        hints(sort, fast, key, n - 1).push(sort[n - 1])
    } else {
        hints(sort, fast, key, n - 1)
    }
}

/// The names of the fields of a key.
pub open spec fn key_names(key: CompositeKey) -> Seq<Seq<char>> {
    key.partition.deep_view().map_values(|f: (Seq<char>, Seq<char>)| f.0)
        + key.identifier.deep_view().map_values(|f: (Seq<char>, Seq<char>)| f.0)
}

fn names_of(key: &CompositeKey) -> (out: Vec<String>)
    ensures
        out.deep_view() == key_names(*key),
{
    let mut out: Vec<String> = Vec::new();
    let mut i: usize = 0;
    while i < key.partition.len()
        invariant
            i <= key.partition@.len(),
            out@.len() == i,
            forall|k: int| 0 <= k < i ==> (#[trigger] out@[k])@ == key.partition@[k].0@,
        decreases key.partition@.len() - i,
    {
        out.push(key.partition[i].0.clone());
        i = i + 1;
    }
    let ghost m = out@.len();
    let mut j: usize = 0;
    while j < key.identifier.len()
        invariant
            j <= key.identifier@.len(),
            m == key.partition@.len(),
            out@.len() == m + j,
            forall|k: int| 0 <= k < m ==> (#[trigger] out@[k])@ == key.partition@[k].0@,
            forall|k: int| m <= k < m + j ==> (#[trigger] out@[k])@ == key.identifier@[k - m].0@,
        decreases key.identifier@.len() - j,
    {
        out.push(key.identifier[j].0.clone());
        j = j + 1;
    }
    assert(out.deep_view() =~= key_names(*key));
    out
}

/// The fields that the source is pruned by when `keys` are fetched: of the fields that the table
/// is sorted by, those that the index reads fast and that are not part of the key.
pub fn hint_fields(keys: &Vec<CompositeKey>, sort: &Vec<String>, fast: &Vec<String>) -> (out: Vec<
    String,
>)
    ensures
        out.deep_view() == (if keys@.len() == 0 {
            Seq::empty()
        } else {
            hints(
                sort.deep_view(),
                fast.deep_view(),
                key_names(keys@[0]),
                sort@.len() as int,
            )
        }),
{
    let mut out: Vec<String> = Vec::new();
    assert(out.deep_view() =~= Seq::empty());
    if keys.len() == 0 {
        return out;
    }
    let key = names_of(&keys[0]);
    let mut i: usize = 0;
    while i < sort.len()
        invariant
            i <= sort@.len(),
            keys@.len() > 0,
            key.deep_view() == key_names(keys@[0]),
            out.deep_view() == hints(
                sort.deep_view(),
                fast.deep_view(),
                key_names(keys@[0]),
                i as int,
            ),
        decreases sort@.len() - i,
    {
        assert(sort.deep_view()[i as int] == sort@[i as int]@);
        if is_one_of(sort[i].as_str(), fast) && !is_one_of(sort[i].as_str(), &key) {
            let ghost was = out.deep_view();
            out.push(sort[i].clone());
            assert(out.deep_view() =~= was.push(sort@[i as int]@));
        }
        i = i + 1;
    }
    out
}

} // verus!
