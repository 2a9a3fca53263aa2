//! Lexicographic order, on byte keys and on rows of ranks, and what follows from sorting by it.
use vstd::prelude::*;

use crate::order::{
    comes_first, lemma_comes_first_total, lemma_stable_order_permutes, sorted_positions,
    stable_order, Ranked,
};

verus! {

/// Whether `a` comes before `b` in lexicographic order; a proper prefix comes first.
pub open spec fn lex_before(a: Seq<int>, b: Seq<int>) -> bool
    decreases a.len(),
{
    if b.len() == 0 {
        false
    } else if a.len() == 0 {
        true
    } else if a[0] != b[0] {
        a[0] < b[0]
    } else {
        lex_before(a.drop_first(), b.drop_first())
    }
}

/// Lexicographic order is irreflexive, and of two different sequences one comes first.
pub proof fn lemma_lex_total(a: Seq<int>, b: Seq<int>)
    ensures
        !lex_before(a, a),
        a != b ==> lex_before(a, b) != lex_before(b, a),
    decreases a.len(),
{
    if a.len() > 0 && b.len() > 0 && a[0] == b[0] {
        lemma_lex_total(a.drop_first(), b.drop_first());
        if a.drop_first() =~= b.drop_first() {
            assert(a =~= seq![a[0]] + a.drop_first());
            assert(b =~= seq![b[0]] + b.drop_first());
        }
    } else if a.len() > 0 {
        lemma_lex_total(a.drop_first(), a.drop_first());
    } else {
        assert(b.len() == 0 ==> a =~= b);
    }
}

/// Lexicographic order is transitive.
pub proof fn lemma_lex_transitive(a: Seq<int>, b: Seq<int>, c: Seq<int>)
    requires
        lex_before(a, b),
        lex_before(b, c),
    ensures
        lex_before(a, c),
    decreases a.len(),
{
    if a.len() > 0 && a[0] == b[0] && b[0] == c[0] {
        lemma_lex_transitive(a.drop_first(), b.drop_first(), c.drop_first());
    }
}

proof fn lemma_lex_weak(a: Seq<int>, b: Seq<int>, c: Seq<int>)
    ensures
        !lex_before(a, a),
        lex_before(a, b) && lex_before(b, c) ==> lex_before(a, c),
        !lex_before(a, b) && !lex_before(b, c) ==> !lex_before(a, c),
{
    lemma_lex_total(a, b);
    lemma_lex_total(b, c);
    lemma_lex_total(a, c);
    if lex_before(a, b) && lex_before(b, c) {
        lemma_lex_transitive(a, b, c);
    }
    if !lex_before(a, b) && !lex_before(b, c) && lex_before(a, c) {
        if a != b && b != c {
            lemma_lex_transitive(c, b, a);
        }
    }
}

/// The first place where two sequences differ decides their order.
pub proof fn lemma_lex_at(a: Seq<int>, b: Seq<int>, i: int)
    requires
        0 <= i <= a.len(),
        i <= b.len(),
        forall|k: int| 0 <= k < i ==> a[k] == b[k],
    ensures
        i == b.len() ==> !lex_before(a, b),
        i < b.len() && i == a.len() ==> lex_before(a, b),
        i < b.len() && i < a.len() && a[i] != b[i] ==> lex_before(a, b) == (a[i] < b[i]),
    decreases i,
{
    if i > 0 {
        let x = a.drop_first();
        let y = b.drop_first();
        assert forall|k: int| 0 <= k < i - 1 implies x[k] == y[k] by {
            assert(a[k + 1] == b[k + 1]);
        }
        lemma_lex_at(x, y, i - 1);
    }
}

/// The values of `bytes` as integers.
pub open spec fn byte_ranks(bytes: Seq<u8>) -> Seq<int> {
    bytes.map_values(|b: u8| b as int)
}

/// The encoded key of a document; keys are ordered byte by byte.
#[derive(Debug)]
pub struct ByteKey {
    pub bytes: Vec<u8>,
}

impl Ranked for ByteKey {
    open spec fn before(&self, other: &Self) -> bool {
        lex_before(byte_ranks(self.bytes@), byte_ranks(other.bytes@))
    }

    proof fn lemma_strict_weak(a: &Self, b: &Self, c: &Self) {
        lemma_lex_weak(byte_ranks(a.bytes@), byte_ranks(b.bytes@), byte_ranks(c.bytes@));
    }

    fn precedes(&self, other: &Self) -> (r: bool) {
        let a = &self.bytes;
        let b = &other.bytes;
        let ghost x = byte_ranks(a@);
        let ghost y = byte_ranks(b@);
        let mut i: usize = 0;
        while i < a.len() && i < b.len() && a[i] == b[i]
            invariant
                x == byte_ranks(a@),
                y == byte_ranks(b@),
                i <= a@.len(),
                i <= b@.len(),
                forall|k: int| 0 <= k < i ==> x[k] == y[k],
            decreases a@.len() - i,
        {
            i = i + 1;
        }
        proof {
            lemma_lex_at(x, y, i as int);
        }
        if i == b.len() {
            false
        } else if i == a.len() {
            true
        } else {
            a[i] < b[i]
        }
    }
}

/// A row of ranks by which an item is ordered.
#[derive(Debug)]
pub struct OrderKey {
    pub ranks: Vec<i128>,
}

/// The ranks of a row as integers.
pub open spec fn int_ranks(ranks: Seq<i128>) -> Seq<int> {
    ranks.map_values(|r: i128| r as int)
}

impl Ranked for OrderKey {
    open spec fn before(&self, other: &Self) -> bool {
        lex_before(int_ranks(self.ranks@), int_ranks(other.ranks@))
    }

    proof fn lemma_strict_weak(a: &Self, b: &Self, c: &Self) {
        lemma_lex_weak(int_ranks(a.ranks@), int_ranks(b.ranks@), int_ranks(c.ranks@));
    }

    fn precedes(&self, other: &Self) -> (r: bool) {
        let a = &self.ranks;
        let b = &other.ranks;
        let ghost x = int_ranks(a@);
        let ghost y = int_ranks(b@);
        let mut i: usize = 0;
        while i < a.len() && i < b.len() && a[i] == b[i]
            invariant
                x == int_ranks(a@),
                y == int_ranks(b@),
                i <= a@.len(),
                i <= b@.len(),
                forall|k: int| 0 <= k < i ==> x[k] == y[k],
            decreases a@.len() - i,
        {
            i = i + 1;
        }
        proof {
            lemma_lex_at(x, y, i as int);
        }
        if i == b.len() {
            false
        } else if i == a.len() {
            true
        } else {
            a[i] < b[i]
        }
    }
}

/// Whether row `i` comes before row `j`: by its ranks, and by position among equal rows.
pub open spec fn row_first(rows: Seq<Seq<int>>, i: int, j: int) -> bool {
    lex_before(rows[i], rows[j]) || (rows[i] == rows[j] && i < j)
}

/// Whether `at` lists the positions of all rows in order.
pub open spec fn rows_in_order(rows: Seq<Seq<int>>, at: Seq<usize>) -> bool {
    &&& at.len() == rows.len()
    &&& forall|k: int| 0 <= k < at.len() ==> 0 <= #[trigger] at[k] < rows.len()
    &&& forall|k: int, l: int|
        0 <= k < l < at.len() ==> #[trigger] row_first(rows, at[k] as int, at[l] as int)
}

/// The rows of a list of order keys.
pub open spec fn rows_of(keys: Seq<OrderKey>) -> Seq<Seq<int>> {
    keys.map_values(|k: OrderKey| int_ranks(k.ranks@))
}

/// The positions of all rows in order.
pub fn ordered_positions(keys: &Vec<OrderKey>) -> (at: Vec<usize>)
    ensures
        rows_in_order(rows_of(keys@), at@),
        at@.no_duplicates(),
{
    let at = sorted_positions(keys);
    proof {
        let rows = rows_of(keys@);
        lemma_stable_order_permutes(keys@, at@);
        assert forall|k: int| 0 <= k < at@.len() implies 0 <= #[trigger] at@[k] < rows.len() by {}
        assert forall|k: int, l: int| 0 <= k < l < at@.len() implies #[trigger] row_first(
            rows,
            at@[k] as int,
            at@[l] as int,
        ) by {
            assert(comes_first(keys@, at@[k] as int, at@[l] as int));
            lemma_lex_total(rows[at@[k] as int], rows[at@[l] as int]);
        }
    }
    at
}

/// Whether each row comes before the next ones.
pub open spec fn strictly_ordered(rows: Seq<Seq<int>>) -> bool {
    forall|k: int, l: int| 0 <= k < l < rows.len() ==> lex_before(#[trigger] rows[k], #[trigger] rows[l])
}

/// Rows of which no two are the same can be put in order in one way only.
pub proof fn lemma_strict_order_unique(x: Seq<Seq<int>>, y: Seq<Seq<int>>)
    requires
        strictly_ordered(x),
        strictly_ordered(y),
        forall|r: Seq<int>| #[trigger] x.contains(r) <==> y.contains(r),
    ensures
        x == y,
    decreases x.len(),
{
    if x.len() == 0 {
        if y.len() > 0 {
            assert(y.contains(y[0]));
            assert(x.contains(y[0]));
        }
        assert(x =~= y);
    } else {
        assert(x.contains(x[0]));
        let j = choose|j: int| 0 <= j < y.len() && y[j] == x[0];
        assert(y.contains(y[0]));
        assert(x.contains(y[0]));
        let i = choose|i: int| 0 <= i < x.len() && x[i] == y[0];
        lemma_lex_total(x[0], y[0]);
        if x[0] != y[0] {
            assert(lex_before(x[0], x[i]));
            assert(lex_before(y[0], y[j]));
        }
        let xs = x.drop_first();
        let ys = y.drop_first();
        assert(strictly_ordered(xs)) by {
            assert forall|k: int, l: int| 0 <= k < l < xs.len() implies lex_before(
                #[trigger] xs[k],
                #[trigger] xs[l],
            ) by {
                assert(lex_before(x[k + 1], x[l + 1]));
            }
        }
        assert(strictly_ordered(ys)) by {
            assert forall|k: int, l: int| 0 <= k < l < ys.len() implies lex_before(
                #[trigger] ys[k],
                #[trigger] ys[l],
            ) by {
                assert(lex_before(y[k + 1], y[l + 1]));
            }
        }
        assert forall|r: Seq<int>| #[trigger] xs.contains(r) <==> ys.contains(r) by {
            lemma_rest_contains(x, r);
            lemma_rest_contains(y, r);
            assert(x.contains(r) <==> y.contains(r));
        }
        lemma_strict_order_unique(xs, ys);
        assert(x =~= seq![x[0]] + xs);
        assert(y =~= seq![y[0]] + ys);
    }
}

proof fn lemma_rest_contains(x: Seq<Seq<int>>, r: Seq<int>)
    requires
        strictly_ordered(x),
        x.len() > 0,
    ensures
        x.drop_first().contains(r) <==> x.contains(r) && r != x[0],
{
    let xs = x.drop_first();
    if xs.contains(r) {
        let k = choose|k: int| 0 <= k < xs.len() && xs[k] == r;
        assert(x[k + 1] == r);
        assert(lex_before(x[0], x[k + 1]));
        lemma_lex_total(r, r);
    }
    if x.contains(r) && r != x[0] {
        let k = choose|k: int| 0 <= k < x.len() && x[k] == r;
        assert(xs[k - 1] == r);
    }
}

/// Whether no item before `i` has the same key.
pub open spec fn is_first(keys: Seq<ByteKey>, i: int) -> bool {
    forall|k: int| 0 <= k < i ==> (#[trigger] keys[k]).bytes@ != keys[i].bytes@
}

proof fn lemma_equal_ranks(a: Seq<u8>, b: Seq<u8>)
    ensures
        byte_ranks(a) == byte_ranks(b) <==> a == b,
{
    if byte_ranks(a) == byte_ranks(b) {
        assert(a.len() == byte_ranks(a).len());
        assert(b.len() == byte_ranks(b).len());
        assert forall|i: int| 0 <= i < a.len() implies a[i] == b[i] by {
            assert(byte_ranks(a)[i] == a[i] as int);
            assert(byte_ranks(b)[i] == b[i] as int);
        }
        assert(a =~= b);
    }
}

/// A copy of `bytes`.
pub fn copied(bytes: &Vec<u8>) -> (out: Vec<u8>)
    ensures
        out@ == bytes@,
{
    let mut out: Vec<u8> = Vec::new();
    let mut i: usize = 0;
    while i < bytes.len()
        invariant
            i <= bytes@.len(),
            out@ == bytes@.take(i as int),
        decreases bytes@.len() - i,
    {
        out.push(bytes[i]);
        i = i + 1;
    }
    assert(bytes@.take(bytes@.len() as int) =~= bytes@);
    out
}

/// Whether the two keys are the same.
pub fn same_bytes(a: &Vec<u8>, b: &Vec<u8>) -> (r: bool)
    ensures
        r == (a@ == b@),
{
    if a.len() != b.len() {
        return false;
    }
    let mut i: usize = 0;
    while i < a.len()
        invariant
            a@.len() == b@.len(),
            i <= a@.len(),
            forall|k: int| 0 <= k < i ==> a@[k] == b@[k],
        decreases a@.len() - i,
    {
        if a[i] != b[i] {
            return false;
        }
        i = i + 1;
    }
    assert(a@ =~= b@);
    true
}

proof fn lemma_neighbours(keys: Seq<ByteKey>, at: Seq<usize>, j: int)
    requires
        stable_order(keys, at),
        0 <= j < at.len(),
    ensures
        j > 0 && keys[at[j - 1] as int].bytes@ == keys[at[j] as int].bytes@ ==> !is_first(
            keys,
            at[j] as int,
        ),
        j == 0 || keys[at[j - 1] as int].bytes@ != keys[at[j] as int].bytes@ ==> is_first(
            keys,
            at[j] as int,
        ),
{
    lemma_stable_order_permutes(keys, at);
    let here = at[j] as int;
    let x = byte_ranks(keys[here].bytes@);
    lemma_lex_total(x, x);
    if j > 0 && keys[at[j - 1] as int].bytes@ == keys[here].bytes@ {
        assert(comes_first(keys, at[j - 1] as int, here));
        assert(at[j - 1] < at[j]);
        assert(keys[at[j - 1] as int].bytes@ == keys[here].bytes@);
    }
    if j == 0 || keys[at[j - 1] as int].bytes@ != keys[here].bytes@ {
        assert forall|k: int| 0 <= k < here implies (#[trigger] keys[k]).bytes@
            != keys[here].bytes@ by {
            if keys[k].bytes@ == keys[here].bytes@ {
                assert(at.contains(k as usize));
                let l = choose|l: int| 0 <= l < at.len() && at[l] == k as usize;
                lemma_comes_first_total(keys, k, here);
                assert(comes_first(keys, k, here));
                if l > j {
                    assert(comes_first(keys, at[j] as int, at[l] as int));
                }
                assert(l < j);
                let y = byte_ranks(keys[at[j - 1] as int].bytes@);
                lemma_equal_ranks(keys[at[j - 1] as int].bytes@, keys[here].bytes@);
                lemma_lex_total(x, y);
                assert(comes_first(keys, at[j - 1] as int, at[j] as int));
                if l < j - 1 {
                    assert(comes_first(keys, at[l] as int, at[j - 1] as int));
                }
                assert(false);
            }
        }
    }
}

/// Which items are the first with their keys.
pub fn first_occurrences(keys: &Vec<ByteKey>) -> (first: Vec<bool>)
    ensures
        first@.len() == keys@.len(),
        forall|i: int| 0 <= i < first@.len() ==> #[trigger] first@[i] == is_first(keys@, i),
{
    let at = sorted_positions(keys);
    let n: usize = keys.len();
    let mut first: Vec<bool> = Vec::new();
    let mut i: usize = 0;
    while i < n
        invariant
            i <= n,
            n == keys@.len(),
            first@.len() == i,
        decreases n - i,
    {
        first.push(false);
        i = i + 1;
    }
    let mut j: usize = 0;
    while j < n
        invariant
            j <= n,
            n == keys@.len(),
            first@.len() == n,
            stable_order(keys@, at@),
            forall|l: int|
                0 <= l < j ==> first@[(#[trigger] at@[l]) as int] == is_first(keys@, at@[l] as int),
        decreases n - j,
    {
        proof {
            lemma_neighbours(keys@, at@, j as int);
            lemma_stable_order_permutes(keys@, at@);
        }
        let repeated = j > 0 && same_bytes(&keys[at[j - 1]].bytes, &keys[at[j]].bytes);
        let here: usize = at[j];
        let ghost was = first@;
        first.set(here, !repeated);
        assert forall|l: int| 0 <= l < j + 1 implies first@[(#[trigger] at@[l]) as int] == is_first(
            keys@,
            at@[l] as int,
        ) by {
            if l < j {
                assert(at@[l] != at@[j as int]);
                assert(was[at@[l] as int] == is_first(keys@, at@[l] as int));
            }
        }
        j = j + 1;
    }
    assert forall|i: int| 0 <= i < first@.len() implies #[trigger] first@[i] == is_first(
        keys@,
        i,
    ) by {
        lemma_stable_order_permutes(keys@, at@);
        assert(at@.contains(i as usize));
        let l = choose|l: int| 0 <= l < at@.len() && at@[l] == i as usize;
        assert(first@[at@[l] as int] == is_first(keys@, at@[l] as int));
    }
    first
}

/// Keys that can be looked up.
pub struct KeyIndex<'a> {
    pub keys: &'a Vec<ByteKey>,
    pub at: Vec<usize>,
}

impl<'a> KeyIndex<'a> {
    /// Whether the positions are in order.
    pub open spec fn wf(&self) -> bool {
        stable_order(self.keys@, self.at@)
    }

    /// Makes keys searchable.
    pub fn new(keys: &'a Vec<ByteKey>) -> (x: KeyIndex<'a>)
        ensures
            x.wf(),
            x.keys == keys,
    {
        KeyIndex { keys, at: sorted_positions(keys) }
    }

    /// Whether `key` is among the keys.
    pub fn contains(&self, key: &ByteKey) -> (b: bool)
        requires
            self.wf(),
        ensures
            b == exists|i: int| 0 <= i < self.keys@.len() && (#[trigger] self.keys@[i]).bytes@
                == key.bytes@,
    {
        let ghost keys = self.keys@;
        let ghost at = self.at@;
        let mut lo: usize = 0;
        let mut hi: usize = self.at.len();
        proof {
            lemma_stable_order_permutes(keys, at);
        }
        while lo < hi
            invariant
                keys == self.keys@,
                at == self.at@,
                stable_order(keys, at),
                lo <= hi <= at.len(),
                forall|l: int|
                    0 <= l < lo ==> keys[(#[trigger] at[l]) as int].bytes@ != key.bytes@,
                forall|l: int|
                    hi <= l < at.len() ==> keys[(#[trigger] at[l]) as int].bytes@ != key.bytes@,
            decreases hi - lo,
        {
            let mid: usize = lo + (hi - lo) / 2;
            let there = &self.keys[self.at[mid]];
            let ghost x = byte_ranks(there.bytes@);
            let ghost y = byte_ranks(key.bytes@);
            if there.precedes(key) {
                assert forall|l: int| 0 <= l < mid + 1 implies keys[(#[trigger] at[l]) as int].bytes@
                    != key.bytes@ by {
                    lemma_lex_total(y, y);
                    if keys[at[l] as int].bytes@ == key.bytes@ && l < mid {
                        assert(comes_first(keys, at[l] as int, at[mid as int] as int));
                        lemma_lex_total(x, y);
                        lemma_equal_ranks(there.bytes@, key.bytes@);
                    }
                }
                lo = mid + 1;
            } else if key.precedes(there) {
                assert forall|l: int| mid <= l < at.len() implies keys[(
                #[trigger] at[l]) as int].bytes@ != key.bytes@ by {
                    lemma_lex_total(y, y);
                    if keys[at[l] as int].bytes@ == key.bytes@ && l > mid {
                        assert(comes_first(keys, at[mid as int] as int, at[l] as int));
                        lemma_lex_total(x, y);
                        lemma_equal_ranks(there.bytes@, key.bytes@);
                    }
                }
                hi = mid;
            } else {
                proof {
                    lemma_lex_total(x, y);
                    lemma_equal_ranks(there.bytes@, key.bytes@);
                    assert(keys[at[mid as int] as int].bytes@ == key.bytes@);
                }
                return true;
            }
        }
        assert forall|i: int| 0 <= i < keys.len() implies (#[trigger] keys[i]).bytes@
            != key.bytes@ by {
            assert(at.contains(i as usize));
            let l = choose|l: int| 0 <= l < at.len() && at[l] == i as usize;
            assert(keys[at[l] as int].bytes@ != key.bytes@);
        }
        false
    }
}

} // verus!
