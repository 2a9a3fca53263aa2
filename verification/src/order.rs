//! Stable sorting: the positions of a list's items in the order in which the items rank.
use vstd::prelude::*;

verus! {

/// A type whose values rank before one another; values of which neither ranks before the
/// other are equivalent.
pub trait Ranked: Sized {
    /// Whether `self` ranks before `other`.
    spec fn before(&self, other: &Self) -> bool;

    /// Ranking is a strict weak order.
    proof fn lemma_strict_weak(a: &Self, b: &Self, c: &Self)
        ensures
            !a.before(a),
            a.before(b) && b.before(c) ==> a.before(c),
            !a.before(b) && !b.before(c) ==> !a.before(c),
    ;

    /// Whether `self` ranks before `other`.
    fn precedes(&self, other: &Self) -> (r: bool)
        ensures
            r == self.before(other),
    ;
}

/// Whether position `i` comes before position `j`: by rank, and by position among equivalents.
pub open spec fn comes_first<T: Ranked>(items: Seq<T>, i: int, j: int) -> bool {
    items[i].before(&items[j]) || (!items[j].before(&items[i]) && i < j)
}

/// Whether `at` holds positions from `lo` up to `hi`, in stable rank order.
pub open spec fn in_order<T: Ranked>(items: Seq<T>, at: Seq<usize>, lo: int, hi: int) -> bool {
    &&& forall|k: int| 0 <= k < at.len() ==> lo <= #[trigger] at[k] < hi
    &&& forall|k: int, l: int|
        0 <= k < l < at.len() ==> #[trigger] comes_first(items, at[k] as int, at[l] as int)
}

/// Whether `at` is the stable sort of all of `items`, given by positions.
pub open spec fn stable_order<T: Ranked>(items: Seq<T>, at: Seq<usize>) -> bool {
    &&& at.len() == items.len()
    &&& in_order(items, at, 0, items.len() as int)
}

/// Coming first is transitive.
pub proof fn lemma_comes_first_transitive<T: Ranked>(items: Seq<T>, i: int, j: int, k: int)
    requires
        comes_first(items, i, j),
        comes_first(items, j, k),
    ensures
        comes_first(items, i, k),
{
    T::lemma_strict_weak(&items[i], &items[j], &items[k]);
    T::lemma_strict_weak(&items[k], &items[j], &items[i]);
    T::lemma_strict_weak(&items[k], &items[i], &items[j]);
    T::lemma_strict_weak(&items[j], &items[k], &items[i]);
    T::lemma_strict_weak(&items[i], &items[k], &items[j]);
    T::lemma_strict_weak(&items[j], &items[i], &items[k]);
}

/// Of two positions exactly one comes first.
pub proof fn lemma_comes_first_total<T: Ranked>(items: Seq<T>, i: int, j: int)
    ensures
        !comes_first(items, i, i),
        i != j ==> (comes_first(items, i, j) != comes_first(items, j, i)),
{
    T::lemma_strict_weak(&items[i], &items[j], &items[i]);
    T::lemma_strict_weak(&items[j], &items[i], &items[j]);
}

/// A stable sort is a permutation: it names every position, and each once.
pub proof fn lemma_stable_order_permutes<T: Ranked>(items: Seq<T>, at: Seq<usize>)
    requires
        stable_order(items, at),
    ensures
        at.no_duplicates(),
        forall|p: usize| p < items.len() ==> #[trigger] at.contains(p),
{
    assert forall|k: int, l: int| 0 <= k < at.len() && 0 <= l < at.len() && k != l implies at[k]
        != at[l] by {
        lemma_comes_first_total(items, at[k] as int, at[l] as int);
        if k < l {
            assert(comes_first(items, at[k] as int, at[l] as int));
        } else {
            assert(comes_first(items, at[l] as int, at[k] as int));
        }
    }
    assert forall|k: int| 0 <= k < at.len() implies #[trigger] at[k] < items.len() by {}
    lemma_names_all(at, items.len());
}

/// A list of `n` different positions below `n` names every one of them.
pub proof fn lemma_names_all(at: Seq<usize>, n: nat)
    requires
        at.len() == n,
        at.no_duplicates(),
        forall|k: int| 0 <= k < at.len() ==> #[trigger] at[k] < n,
    ensures
        forall|p: usize| p < n ==> #[trigger] at.contains(p),
{
    let wide = at.map_values(|x: usize| x as int);
    assert(wide.no_duplicates());
    wide.unique_seq_to_set();
    vstd::set_lib::lemma_int_range(0, n as int);
    let full = vstd::set_lib::set_int_range(0, n as int);
    assert(wide.to_set().subset_of(full)) by {
        assert forall|x: int| wide.to_set().contains(x) implies full.contains(x) by {
            let k = choose|k: int| 0 <= k < wide.len() && wide[k] == x;
            assert(0 <= at[k] < n);
        }
    }
    vstd::set_lib::lemma_subset_equality(wide.to_set(), full);
    assert forall|p: usize| p < n implies #[trigger] at.contains(p) by {
        assert(full.contains(p as int));
        assert(wide.to_set().contains(p as int));
        let k = choose|k: int| 0 <= k < wide.len() && wide[k] == p;
        assert(at[k] == p);
    }
}

/// There is one stable sort.
pub proof fn lemma_stable_order_unique<T: Ranked>(items: Seq<T>, x: Seq<usize>, y: Seq<usize>)
    requires
        stable_order(items, x),
        stable_order(items, y),
    ensures
        x == y,
{
    lemma_stable_order_permutes(items, x);
    lemma_stable_order_permutes(items, y);
    assert forall|n: int| 0 <= n <= x.len() implies x.take(n) =~= y.take(n) by {
        lemma_same_prefix(items, x, y, n);
    }
    assert(x.take(x.len() as int) =~= x);
    assert(y.take(y.len() as int) =~= y);
}

proof fn lemma_same_prefix<T: Ranked>(items: Seq<T>, x: Seq<usize>, y: Seq<usize>, n: int)
    requires
        stable_order(items, x),
        stable_order(items, y),
        x.no_duplicates(),
        y.no_duplicates(),
        forall|p: usize| p < items.len() ==> #[trigger] x.contains(p),
        forall|p: usize| p < items.len() ==> #[trigger] y.contains(p),
        0 <= n <= x.len(),
    ensures
        x.take(n) =~= y.take(n),
    decreases n,
{
    if n > 0 {
        lemma_same_prefix(items, x, y, n - 1);
        let a = x[n - 1];
        let b = y[n - 1];
        assert forall|k: int| 0 <= k < n - 1 implies x[k] == y[k] by {
            assert(x.take(n - 1)[k] == y.take(n - 1)[k]);
        }
        if a != b {
            assert(y.contains(a));
            let ka = choose|k: int| 0 <= k < y.len() && y[k] == a;
            assert(x.contains(b));
            let kb = choose|k: int| 0 <= k < x.len() && x[k] == b;
            assert(ka > n - 1) by {
                if ka < n - 1 {
                    assert(x[ka] == x[n - 1]);
                }
            }
            assert(kb > n - 1) by {
                if kb < n - 1 {
                    assert(y[kb] == y[n - 1]);
                }
            }
            assert(comes_first(items, x[n - 1] as int, x[kb] as int));
            assert(comes_first(items, y[n - 1] as int, y[ka] as int));
            lemma_comes_first_total(items, a as int, b as int);
        }
    }
}

/// The positions of `items` in stable rank order.
pub fn sorted_positions<T: Ranked>(items: &Vec<T>) -> (at: Vec<usize>)
    ensures
        stable_order(items@, at@),
{
    sort_range(items, 0, items.len())
}

fn sort_range<T: Ranked>(items: &Vec<T>, lo: usize, hi: usize) -> (at: Vec<usize>)
    requires
        lo <= hi <= items@.len(),
    ensures
        at@.len() == hi - lo,
        in_order(items@, at@, lo as int, hi as int),
    decreases hi - lo,
{
    if hi - lo == 0 {
        return Vec::new();
    }
    if hi - lo == 1 {
        let mut one: Vec<usize> = Vec::new();
        one.push(lo);
        return one;
    }
    let mid: usize = lo + (hi - lo) / 2;
    let left = sort_range(items, lo, mid);
    let right = sort_range(items, mid, hi);
    merge(items, left, right, lo, mid, hi)
}

fn merge<T: Ranked>(
    items: &Vec<T>,
    left: Vec<usize>,
    right: Vec<usize>,
    lo: usize,
    mid: usize,
    hi: usize,
) -> (at: Vec<usize>)
    requires
        lo <= mid <= hi <= items@.len(),
        left@.len() == mid - lo,
        right@.len() == hi - mid,
        in_order(items@, left@, lo as int, mid as int),
        in_order(items@, right@, mid as int, hi as int),
    ensures
        at@.len() == hi - lo,
        in_order(items@, at@, lo as int, hi as int),
{
    let mut at: Vec<usize> = Vec::new();
    let mut i: usize = 0;
    let mut j: usize = 0;
    while i < left.len() || j < right.len()
        invariant
            lo <= mid <= hi <= items@.len(),
            left@.len() == mid - lo,
            right@.len() == hi - mid,
            in_order(items@, left@, lo as int, mid as int),
            in_order(items@, right@, mid as int, hi as int),
            i <= left@.len(),
            j <= right@.len(),
            at@.len() == i + j,
            in_order(items@, at@, lo as int, hi as int),
            forall|k: int, l: int|
                0 <= k < at@.len() && i <= l < left@.len() ==> #[trigger] comes_first(
                    items@,
                    at@[k] as int,
                    left@[l] as int,
                ),
            forall|k: int, l: int|
                0 <= k < at@.len() && j <= l < right@.len() ==> #[trigger] comes_first(
                    items@,
                    at@[k] as int,
                    right@[l] as int,
                ),
        decreases left@.len() - i + right@.len() - j,
    {
        let take_left: bool = if i == left.len() {
            false
        } else if j == right.len() {
            true
        } else {
            !items[right[j]].precedes(&items[left[i]])
        };
        let ghost was = at@;
        if take_left {
            proof {
                if j < right@.len() {
                    assert(comes_first(items@, left@[i as int] as int, right@[j as int] as int));
                }
                assert forall|l: int| j <= l < right@.len() implies comes_first(
                    items@,
                    left@[i as int] as int,
                    right@[l] as int,
                ) by {
                    if l > j {
                        lemma_comes_first_transitive(
                            items@,
                            left@[i as int] as int,
                            right@[j as int] as int,
                            right@[l] as int,
                        );
                    }
                }
            }
            at.push(left[i]);
            i = i + 1;
        } else {
            proof {
                if i < left@.len() {
                    assert(comes_first(items@, right@[j as int] as int, left@[i as int] as int));
                }
                assert forall|l: int| i <= l < left@.len() implies comes_first(
                    items@,
                    right@[j as int] as int,
                    left@[l] as int,
                ) by {
                    if l > i {
                        lemma_comes_first_transitive(
                            items@,
                            right@[j as int] as int,
                            left@[i as int] as int,
                            left@[l] as int,
                        );
                    }
                }
            }
            at.push(right[j]);
            j = j + 1;
        }
        assert(forall|k: int| 0 <= k < was.len() ==> at@[k] == was[k]);
    }
    at
}

} // verus!
