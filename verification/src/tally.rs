//! Counting by name: the totals of counted items, and the first item of each name.
use vstd::hash_map::StringHashMap;
use vstd::prelude::*;
use vstd::string::*;

verus! {

broadcast use vstd::hash_map::group_hash_map_axioms;

/// An item that counts towards a name, if it has one.
pub trait Counted: Sized {
    /// The name.
    spec fn name(&self) -> Option<Seq<char>>;

    /// The count.
    spec fn count(&self) -> u64;

    /// The name.
    fn own_name(&self) -> (n: Option<&str>)
        ensures
            n.deep_view() == self.name(),
    ;

    /// The count.
    fn own_count(&self) -> (c: u64)
        ensures
            c == self.count(),
    ;
}

/// The total count of `name`.
pub open spec fn total_of<T: Counted>(items: Seq<T>, name: Seq<char>) -> nat
    decreases items.len(),
{
    if items.len() == 0 {
        0
    } else {
        total_of(items.drop_last(), name) + (if items.last().name() == Some(name) {
            items.last().count() as nat
        } else {
            0
        })
    }
}

/// Whether an item has `name`.
pub open spec fn is_named<T: Counted>(items: Seq<T>, name: Seq<char>) -> bool {
    exists|i: int| 0 <= i < items.len() && (#[trigger] items[i]).name() == Some(name)
}

/// Whether every total fits.
pub open spec fn totals_fit<T: Counted>(items: Seq<T>) -> bool {
    forall|name: Seq<char>| #[trigger] total_of(items, name) <= u64::MAX
}

/// The items at the positions `at` that are the first of their names there.
pub open spec fn leaders<T: Counted>(items: Seq<T>, at: Seq<usize>) -> Seq<usize>
    decreases at.len(),
{
    if at.len() == 0 {
        Seq::empty()
    } else {
        let before = leaders(items, at.drop_last());
        let last = items[at.last() as int];
        if last.name() is None || exists|k: int|
            0 <= k < at.len() - 1 && items[(#[trigger] at[k]) as int].name() == last.name() {
            before
        } else {
            before.push(at.last())
        }
    }
}

proof fn lemma_total_grows<T: Counted>(items: Seq<T>, name: Seq<char>, n: int)
    requires
        0 <= n <= items.len(),
    ensures
        total_of(items.take(n), name) <= total_of(items, name),
    decreases items.len() - n,
{
    if n < items.len() {
        lemma_total_grows(items, name, n + 1);
        assert(items.take(n + 1).drop_last() =~= items.take(n));
    } else {
        assert(items.take(n) =~= items);
    }
}

proof fn lemma_named_next<T: Counted>(items: Seq<T>, n: int, name: Seq<char>)
    requires
        0 <= n < items.len(),
    ensures
        is_named(items.take(n + 1), name) <==> is_named(items.take(n), name) || items[n].name()
            == Some(name),
{
    let x = items.take(n);
    let y = items.take(n + 1);
    if is_named(x, name) {
        let i = choose|i: int| 0 <= i < x.len() && (#[trigger] x[i]).name() == Some(name);
        assert(y[i].name() == Some(name));
    }
    if items[n].name() == Some(name) {
        assert(y[n].name() == Some(name));
    }
    if is_named(y, name) {
        let i = choose|i: int| 0 <= i < y.len() && (#[trigger] y[i]).name() == Some(name);
        if i < n {
            assert(x[i].name() == Some(name));
        }
    }
}

/// The total counts, by name.
pub fn totals<T: Counted>(items: &Vec<T>) -> (m: StringHashMap<u64>)
    requires
        totals_fit(items@),
    ensures
        forall|name: Seq<char>| #[trigger] m@.contains_key(name) <==> is_named(items@, name),
        forall|name: Seq<char>|
            m@.contains_key(name) ==> #[trigger] m@[name] == total_of(items@, name),
{
    let mut m: StringHashMap<u64> = StringHashMap::new();
    let n: usize = items.len();
    let mut i: usize = 0;
    while i < n
        invariant
            n == items@.len(),
            i <= n,
            totals_fit(items@),
            forall|name: Seq<char>| #[trigger]
                m@.contains_key(name) <==> is_named(items@.take(i as int), name),
            forall|name: Seq<char>|
                m@.contains_key(name) ==> #[trigger] m@[name] == total_of(
                    items@.take(i as int),
                    name,
                ),
            forall|name: Seq<char>|
                !m@.contains_key(name) ==> #[trigger] total_of(items@.take(i as int), name) == 0,
        decreases n - i,
    {
        let ghost was = m@;
        let ghost next = items@.take(i + 1);
        assert(next.drop_last() =~= items@.take(i as int));
        assert(next.last() == items@[i as int]);
        match items[i].own_name() {
            Some(name) => {
                assert(items@[i as int].name() == Some(name@));
                proof {
                    lemma_total_grows(items@, name@, i + 1);
                    assert(total_of(items@, name@) <= u64::MAX);
                    assert(total_of(next, name@) == total_of(items@.take(i as int), name@)
                        + items@[i as int].count());
                }
                let so_far: u64 = match m.get(name) {
                    Some(c) => *c,
                    None => 0,
                };
                m.insert(name.to_owned(), so_far + items[i].own_count());
                assert forall|x: Seq<char>| #[trigger] m@.contains_key(x) <==> is_named(next, x) by {
                    lemma_named_next(items@, i as int, x);
                    assert(was.contains_key(x) <==> is_named(items@.take(i as int), x));
                }
                assert forall|x: Seq<char>| m@.contains_key(x) implies #[trigger] m@[x] == total_of(
                    next,
                    x,
                ) by {
                    if x != name@ {
                        assert(was.contains_key(x));
                        assert(was[x] == m@[x]);
                    }
                }
                assert forall|x: Seq<char>| !m@.contains_key(x) implies #[trigger] total_of(next, x)
                    == 0 by {
                    assert(!was.contains_key(x));
                    assert(total_of(items@.take(i as int), x) == 0);
                }
            },
            None => {
                assert(items@[i as int].name() is None);
                assert forall|x: Seq<char>| #[trigger] m@.contains_key(x) <==> is_named(next, x) by {
                    lemma_named_next(items@, i as int, x);
                }
                assert forall|x: Seq<char>| !m@.contains_key(x) implies #[trigger] total_of(next, x)
                    == 0 by {
                    assert(total_of(items@.take(i as int), x) == 0);
                }
            },
        }
        i = i + 1;
    }
    assert(items@.take(n as int) =~= items@);
    m
}

/// The items at the positions `at` that are the first of their names there.
pub fn first_of_each<T: Counted>(items: &Vec<T>, at: &Vec<usize>) -> (lead: Vec<usize>)
    requires
        forall|k: int| 0 <= k < at@.len() ==> (#[trigger] at@[k]) < items@.len(),
    ensures
        lead@ == leaders(items@, at@),
{
    let mut seen: StringHashMap<bool> = StringHashMap::new();
    let mut lead: Vec<usize> = Vec::new();
    let n: usize = at.len();
    let mut j: usize = 0;
    assert(at@.take(0) =~= Seq::empty());
    while j < n
        invariant
            n == at@.len(),
            j <= n,
            forall|k: int| 0 <= k < at@.len() ==> (#[trigger] at@[k]) < items@.len(),
            forall|name: Seq<char>| #[trigger]
                seen@.contains_key(name) <==> exists|k: int|
                    0 <= k < j && items@[(#[trigger] at@[k]) as int].name() == Some(name),
            lead@ == leaders(items@, at@.take(j as int)),
        decreases n - j,
    {
        let ghost was = seen@;
        let ghost next = at@.take(j + 1);
        let ghost item = items@[at@[j as int] as int];
        assert(next.drop_last() =~= at@.take(j as int));
        assert(next.last() == at@[j as int]);
        match items[at[j]].own_name() {
            Some(name) => {
                assert(item.name() == Some(name@));
                if seen.contains_key(name) {
                    let ghost k = choose|k: int|
                        0 <= k < j && items@[(#[trigger] at@[k]) as int].name() == Some(name@);
                    assert(items@[next[k] as int].name() == item.name());
                } else {
                    assert forall|k: int| 0 <= k < next.len() - 1 implies items@[(
                    #[trigger] next[k]) as int].name() != item.name() by {
                        assert(items@[at@[k] as int].name() != Some(name@));
                    }
                    lead.push(at[j]);
                    seen.insert(name.to_owned(), true);
                }
                assert forall|x: Seq<char>| #[trigger] seen@.contains_key(x) <==> exists|k: int|
                    0 <= k < j + 1 && items@[(#[trigger] at@[k]) as int].name() == Some(x) by {
                    if seen@.contains_key(x) {
                        if was.contains_key(x) {
                            let k = choose|k: int|
                                0 <= k < j && items@[(#[trigger] at@[k]) as int].name() == Some(x);
                            assert(items@[at@[k] as int].name() == Some(x));
                        } else {
                            assert(items@[at@[j as int] as int].name() == Some(x));
                        }
                    }
                    if exists|k: int|
                        0 <= k < j + 1 && items@[(#[trigger] at@[k]) as int].name() == Some(x) {
                        let k = choose|k: int|
                            0 <= k < j + 1 && items@[(#[trigger] at@[k]) as int].name() == Some(x);
                        if k < j {
                            assert(was.contains_key(x));
                        }
                    }
                }
            },
            None => {
                assert(item.name() is None);
                assert forall|x: Seq<char>| #[trigger] seen@.contains_key(x) <==> exists|k: int|
                    0 <= k < j + 1 && items@[(#[trigger] at@[k]) as int].name() == Some(x) by {
                    if seen@.contains_key(x) {
                        let k = choose|k: int|
                            0 <= k < j && items@[(#[trigger] at@[k]) as int].name() == Some(x);
                        assert(items@[at@[k] as int].name() == Some(x));
                    }
                }
            },
        }
        j = j + 1;
    }
    assert(at@.take(n as int) =~= at@);
    lead
}

/// The leaders are items with names.
pub proof fn lemma_leaders_named<T: Counted>(items: Seq<T>, at: Seq<usize>)
    requires
        forall|k: int| 0 <= k < at.len() ==> (#[trigger] at[k]) < items.len(),
    ensures
        forall|k: int|
            0 <= k < leaders(items, at).len() ==> (#[trigger] leaders(items, at)[k]) < items.len()
                && items[leaders(items, at)[k] as int].name() is Some,
        leaders(items, at).len() <= at.len(),
    decreases at.len(),
{
    if at.len() > 0 {
        let prior = at.drop_last();
        assert forall|k: int| 0 <= k < prior.len() implies (#[trigger] prior[k]) < items.len() by {
            assert(at[k] < items.len());
        }
        lemma_leaders_named(items, prior);
        assert(at[at.len() - 1] < items.len());
    }
}

/// A leader is one of the items listed.
pub proof fn lemma_leader_is_listed<T: Counted>(items: Seq<T>, at: Seq<usize>, k: int) -> (j: int)
    requires
        0 <= k < leaders(items, at).len(),
    ensures
        0 <= j < at.len(),
        at[j] == leaders(items, at)[k],
    decreases at.len(),
{
    let prior = at.drop_last();
    if k < leaders(items, prior).len() {
        let j = lemma_leader_is_listed(items, prior, k);
        assert(prior[j] == at[j]);
        j
    } else {
        at.len() - 1
    }
}

/// No two leaders have the same name: each group and each text stands for itself once.
pub proof fn lemma_leaders_differ<T: Counted>(items: Seq<T>, at: Seq<usize>, k: int, l: int)
    requires
        0 <= k < l < leaders(items, at).len(),
    ensures
        items[leaders(items, at)[k] as int].name() != items[leaders(items, at)[l] as int].name(),
    decreases at.len(),
{
    let prior = at.drop_last();
    if l < leaders(items, prior).len() {
        lemma_leaders_differ(items, prior, k, l);
    } else {
        let j = lemma_leader_is_listed(items, prior, k);
        assert(prior[j] == at[j]);
        assert(items[at[j] as int].name() != items[at.last() as int].name());
    }
}

/// Every item with a name has a leader of that name: no group and no text is lost.
pub proof fn lemma_no_name_lost<T: Counted>(items: Seq<T>, at: Seq<usize>, i: int) -> (k: int)
    requires
        0 <= i < at.len(),
        items[at[i] as int].name() is Some,
    ensures
        0 <= k < leaders(items, at).len(),
        items[leaders(items, at)[k] as int].name() == items[at[i] as int].name(),
    decreases at.len(),
{
    let prior = at.drop_last();
    if i < prior.len() {
        assert(prior[i] == at[i]);
        lemma_no_name_lost(items, prior, i)
    } else if exists|j: int|
        0 <= j < at.len() - 1 && items[(#[trigger] at[j]) as int].name()
            == items[at.last() as int].name() {
        let j = choose|j: int|
            0 <= j < at.len() - 1 && items[(#[trigger] at[j]) as int].name()
                == items[at.last() as int].name();
        assert(prior[j] == at[j]);
        lemma_no_name_lost(items, prior, j)
    } else {
        leaders(items, prior).len() as int
    }
}

} // verus!
