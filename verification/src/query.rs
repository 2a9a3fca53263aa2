//! What a query pins: the equalities that every match of it meets.
use vstd::prelude::*;
use vstd::string::*;

use crate::text::same;

verus! {

/// A query, as far as its pins go.
pub enum Query {
    /// A field, or the default one, holds a value.
    Term { field: Option<String>, value: String },
    Bool { must: Vec<Query>, should: Vec<Query>, must_not: Vec<Query>, filter: Vec<Query> },
    /// Any other query.
    Other,
}

/// The pins of `q` on `fields`, in the order in which they are met. A pin holds of every match,
/// so only clauses that a match must meet are looked at.
pub open spec fn pins(q: Query, fields: Seq<Seq<char>>) -> Seq<(Seq<char>, Seq<char>)>
    decreases q, 0nat,
{
    match q {
        Query::Term { field: Some(f), value } => if fields.contains(f@) {
            seq![(f@, value@)]
        } else {
            Seq::empty()
        },
        Query::Bool { must, should, must_not, filter } => pins_of(must@, must@.len(), fields)
            + pins_of(filter@, filter@.len(), fields),
        _ => Seq::empty(),
    }
}

/// The pins of the first `n` of `qs`.
pub open spec fn pins_of(qs: Seq<Query>, n: nat, fields: Seq<Seq<char>>) -> Seq<
    (Seq<char>, Seq<char>),
>
    decreases qs, n,
{
    if n == 0 || n > qs.len() {
        Seq::empty()
    } else {
        pins_of(qs, (n - 1) as nat, fields) + pins(qs[n - 1], fields)
    }
}

/// Whether `name` is one of `names`.
pub fn is_one_of(name: &str, names: &Vec<String>) -> (b: bool)
    ensures
        b == names.deep_view().contains(name@),
{
    let mut i: usize = 0;
    while i < names.len()
        invariant
            i <= names@.len(),
            forall|k: int| 0 <= k < i ==> (#[trigger] names.deep_view()[k]) != name@,
        decreases names@.len() - i,
    {
        if same(names[i].as_str(), name) {
            assert(names.deep_view()[i as int] == name@);
            return true;
        }
        assert(names.deep_view()[i as int] != name@);
        i = i + 1;
    }
    false
}

/// Adds the pins of `q` on `fields`.
pub fn collect_and_pins(q: &Query, fields: &Vec<String>, out: &mut Vec<(String, String)>)
    ensures
        final(out).deep_view() == old(out).deep_view() + pins(*q, fields.deep_view()),
    decreases q, 0nat,
{
    match q {
        Query::Term { field: Some(f), value } => {
            if is_one_of(f.as_str(), fields) {
                out.push((f.clone(), value.clone()));
                assert(out.deep_view() =~= old(out).deep_view() + seq![(f@, value@)]);
            } else {
                assert(out.deep_view() =~= old(out).deep_view() + Seq::empty());
            }
        },
        Query::Bool { must, should, must_not, filter } => {
            collect_all(must, must.len(), fields, out);
            collect_all(filter, filter.len(), fields, out);
            assert(out.deep_view() =~= old(out).deep_view() + (pins_of(
                must@,
                must@.len(),
                fields.deep_view(),
            ) + pins_of(filter@, filter@.len(), fields.deep_view())));
        },
        _ => {
            assert(out.deep_view() =~= old(out).deep_view() + Seq::empty());
        },
    }
}

fn collect_all(qs: &Vec<Query>, n: usize, fields: &Vec<String>, out: &mut Vec<(String, String)>)
    requires
        n <= qs@.len(),
    ensures
        final(out).deep_view() == old(out).deep_view() + pins_of(qs@, n as nat, fields.deep_view()),
    decreases qs, n as nat,
{
    if n == 0 {
        assert(out.deep_view() =~= old(out).deep_view() + Seq::empty());
    } else {
        collect_all(qs, n - 1, fields, out);
        collect_and_pins(&qs[n - 1], fields, out);
        assert(out.deep_view() =~= old(out).deep_view() + pins_of(
            qs@,
            n as nat,
            fields.deep_view(),
        ));
    }
}

/// The value that `field` is pinned to last.
pub open spec fn pinned_to(ps: Seq<(Seq<char>, Seq<char>)>, field: Seq<char>) -> Option<Seq<char>>
    decreases ps.len(),
{
    if ps.len() == 0 {
        None
    } else if ps.last().0 == field {
        Some(ps.last().1)
    } else {
        pinned_to(ps.drop_last(), field)
    }
}

/// The partition that a query with the pins `ps` stays in: a value for each field.
pub open spec fn partition_of(fields: Seq<Seq<char>>, ps: Seq<(Seq<char>, Seq<char>)>) -> Option<
    Seq<(Seq<char>, Seq<char>)>,
> {
    if fields.no_duplicates() && forall|i: int|
        0 <= i < fields.len() ==> pinned_to(ps, #[trigger] fields[i]) is Some {
        Some(Seq::new(fields.len(), |i: int| (fields[i], pinned_to(ps, fields[i])->0)))
    } else {
        None
    }
}

fn last_pin<'a>(ps: &'a Vec<(String, String)>, field: &str) -> (v: Option<&'a String>)
    ensures
        v.deep_view() == pinned_to(ps.deep_view(), field@),
{
    let ghost all = ps.deep_view();
    let mut n: usize = ps.len();
    assert(all.take(n as int) =~= all);
    while n > 0
        invariant
            all == ps.deep_view(),
            n <= ps@.len(),
            pinned_to(all, field@) == pinned_to(all.take(n as int), field@),
        decreases n,
    {
        assert(all.take(n as int).drop_last() =~= all.take(n - 1));
        assert(all.take(n as int).last() == (ps@[n - 1].0@, ps@[n - 1].1@));
        if same(ps[n - 1].0.as_str(), field) {
            return Some(&ps[n - 1].1);
        }
        n = n - 1;
    }
    None
}

/// The partition that a query with the pins `ps` stays in.
pub fn pinned_partition(fields: &Vec<String>, ps: &Vec<(String, String)>) -> (p: Option<
    Vec<(String, String)>,
>)
    ensures
        p.deep_view() == partition_of(fields.deep_view(), ps.deep_view()),
{
    let ghost names = fields.deep_view();
    let mut out: Vec<(String, String)> = Vec::new();
    let n: usize = fields.len();
    let mut i: usize = 0;
    while i < n
        invariant
            n == fields@.len(),
            names == fields.deep_view(),
            i <= n,
            out@.len() == i,
            forall|k: int, l: int|
                0 <= k < i && 0 <= l < i && k != l ==> #[trigger] names[k] != #[trigger] names[l],
            forall|k: int|
                0 <= k < i ==> pinned_to(ps.deep_view(), #[trigger] names[k]) is Some
                    && out.deep_view()[k] == (names[k], pinned_to(ps.deep_view(), names[k])->0),
        decreases n - i,
    {
        let mut j: usize = 0;
        while j < i
            invariant
                n == fields@.len(),
                names == fields.deep_view(),
                j <= i < n,
                forall|k: int| 0 <= k < j ==> #[trigger] names[k] != names[i as int],
            decreases i - j,
        {
            if same(fields[j].as_str(), fields[i].as_str()) {
                assert(names[j as int] == names[i as int]);
                return None;
            }
            assert(names[j as int] != names[i as int]);
            j = j + 1;
        }
        match last_pin(ps, fields[i].as_str()) {
            None => {
                assert(pinned_to(ps.deep_view(), names[i as int]) is None);
                return None;
            },
            Some(v) => {
                let ghost was = out.deep_view();
                out.push((fields[i].clone(), v.clone()));
                assert(out.deep_view() =~= was.push((names[i as int], v@)));
            },
        }
        i = i + 1;
    }
    assert(out.deep_view() =~= partition_of(names, ps.deep_view())->0);
    Some(out)
}

/// Whether `met` can say which queries some document meets, where `holds` says which values its
/// fields hold.
pub open spec fn is_match(
    met: spec_fn(Query) -> bool,
    holds: spec_fn(Seq<char>, Seq<char>) -> bool,
) -> bool {
    forall|q: Query| #[trigger]
        met(q) ==> match q {
            Query::Term { field: Some(f), value } => holds(f@, value@),
            Query::Bool { must, should, must_not, filter } => (forall|i: int|
                0 <= i < must@.len() ==> met(#[trigger] must@[i])) && (forall|i: int|
                0 <= i < filter@.len() ==> met(#[trigger] filter@[i])),
            _ => true,
        }
}

/// Every document that meets a query holds the values that the query pins.
pub proof fn lemma_pins_hold(
    q: Query,
    fields: Seq<Seq<char>>,
    met: spec_fn(Query) -> bool,
    holds: spec_fn(Seq<char>, Seq<char>) -> bool,
    k: int,
)
    requires
        met(q),
        is_match(met, holds),
        0 <= k < pins(q, fields).len(),
    ensures
        holds(pins(q, fields)[k].0, pins(q, fields)[k].1),
    decreases q, 0nat,
{
    match q {
        Query::Bool { must, should, must_not, filter } => {
            let m = pins_of(must@, must@.len(), fields);
            if k < m.len() {
                lemma_list_pins_hold(must@, must@.len(), fields, met, holds, k);
            } else {
                lemma_list_pins_hold(filter@, filter@.len(), fields, met, holds, k - m.len());
            }
        },
        _ => {},
    }
}

proof fn lemma_list_pins_hold(
    qs: Seq<Query>,
    n: nat,
    fields: Seq<Seq<char>>,
    met: spec_fn(Query) -> bool,
    holds: spec_fn(Seq<char>, Seq<char>) -> bool,
    k: int,
)
    requires
        forall|i: int| 0 <= i < qs.len() ==> met(#[trigger] qs[i]),
        is_match(met, holds),
        n <= qs.len(),
        0 <= k < pins_of(qs, n, fields).len(),
    ensures
        holds(pins_of(qs, n, fields)[k].0, pins_of(qs, n, fields)[k].1),
    decreases qs, n,
{
    if n > 0 {
        let before = pins_of(qs, (n - 1) as nat, fields);
        if k < before.len() {
            lemma_list_pins_hold(qs, (n - 1) as nat, fields, met, holds, k);
        } else {
            lemma_pins_hold(qs[n - 1], fields, met, holds, k - before.len());
        }
    }
}

} // verus!
