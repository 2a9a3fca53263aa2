//! What holds of trimmed, listed, joined and counted text, said of its characters.
use vstd::prelude::*;

use crate::text::{
    append_decimal, append_hex, append_signed, ascii_lower, decimal, digit, hex, hex_digit,
    is_whitespace, join, joined, kept_items, list_items, listed, lowered, pieces, same,
    same_lowered, trim, trim_end, trim_end_char, trim_start, trimmed, trimmed_end_char,
    without_prefix, Separator,
};

verus! {

proof fn lemma_trim_start(s: Seq<char>) -> (i: int)
    ensures
        0 <= i <= s.len(),
        trim_start(s) == s.skip(i),
        forall|k: int| 0 <= k < i ==> is_whitespace(#[trigger] s[k]),
        i < s.len() ==> !is_whitespace(s[i]),
    decreases s.len(),
{
    if s.len() > 0 && is_whitespace(s[0]) {
        let rest = s.drop_first();
        let i = lemma_trim_start(rest);
        assert(rest.skip(i) =~= s.skip(i + 1));
        assert forall|k: int| 0 <= k < i + 1 implies is_whitespace(#[trigger] s[k]) by {
            if k > 0 {
                assert(is_whitespace(rest[k - 1]));
            }
        }
        if i + 1 < s.len() {
            assert(rest[i] == s[i + 1]);
        }
        i + 1
    } else {
        assert(s.skip(0) =~= s);
        0
    }
}

proof fn lemma_trim_end(s: Seq<char>) -> (n: int)
    ensures
        0 <= n <= s.len(),
        trim_end(s) == s.take(n),
        forall|k: int| n <= k < s.len() ==> is_whitespace(#[trigger] s[k]),
        n > 0 ==> !is_whitespace(s[n - 1]),
    decreases s.len(),
{
    if s.len() > 0 && is_whitespace(s.last()) {
        let rest = s.drop_last();
        let n = lemma_trim_end(rest);
        assert(rest.take(n) =~= s.take(n));
        assert forall|k: int| n <= k < s.len() implies is_whitespace(#[trigger] s[k]) by {
            if k < rest.len() {
                assert(is_whitespace(rest[k]));
            }
        }
        n
    } else {
        assert(s.take(s.len() as int) =~= s);
        s.len() as int
    }
}

/// What trimming leaves is the part between white space on both sides: white space and nothing else
/// is cut off, and none is left at an end.
pub proof fn lemma_trim_cuts(s: Seq<char>) -> (cut: (int, int))
    ensures
        0 <= cut.0 <= cut.1 <= s.len(),
        trim(s) == s.subrange(cut.0, cut.1),
        forall|k: int|
            0 <= k < s.len() && !(cut.0 <= k < cut.1) ==> is_whitespace(#[trigger] s[k]),
        trim(s).len() > 0 ==> !is_whitespace(trim(s)[0]) && !is_whitespace(trim(s).last()),
{
    let i = lemma_trim_start(s);
    let t = s.skip(i);
    let n = lemma_trim_end(t);
    assert(t.take(n) =~= s.subrange(i, i + n));
    assert forall|k: int| 0 <= k < s.len() && !(i <= k < i + n) implies is_whitespace(
        #[trigger] s[k],
    ) by {
        if k >= i {
            assert(t[k - i] == s[k]);
        }
    }
    if n > 0 {
        assert(t[0] == s[i]);
    }
    (i, i + n)
}

/// A trimmed text is part of the text; what is cut off is white space.
pub proof fn lemma_trimmed(s: &str, r: &str) -> (cut: (int, int))
    requires
        call_ensures(trimmed, (s,), r),
    ensures
        0 <= cut.0 <= cut.1 <= s@.len(),
        r@ == s@.subrange(cut.0, cut.1),
        forall|k: int|
            0 <= k < s@.len() && !(cut.0 <= k < cut.1) ==> is_whitespace(#[trigger] s@[k]),
        r@.len() > 0 ==> !is_whitespace(r@[0]) && !is_whitespace(r@.last()),
{
    lemma_trim_cuts(s@)
}

/// Among the ASCII characters the space and those from the tab to the carriage return are white
/// space.
pub proof fn lemma_ascii_whitespace(c: char, b: bool)
    requires
        call_ensures(crate::text::char_is_whitespace, (c,), b),
        (c as u32) < 128,
    ensures
        b <==> c == ' ' || '\t' <= c <= '\r',
{
}

proof fn lemma_trim_end_char(s: Seq<char>, c: char) -> (n: int)
    ensures
        0 <= n <= s.len(),
        trim_end_char(s, c) == s.take(n),
        forall|k: int| n <= k < s.len() ==> #[trigger] s[k] == c,
        n > 0 ==> s[n - 1] != c,
    decreases s.len(),
{
    if s.len() > 0 && s.last() == c {
        let rest = s.drop_last();
        let n = lemma_trim_end_char(rest, c);
        assert(rest.take(n) =~= s.take(n));
        assert forall|k: int| n <= k < s.len() implies #[trigger] s[k] == c by {
            if k < rest.len() {
                assert(rest[k] == c);
            }
        }
        n
    } else {
        assert(s.take(s.len() as int) =~= s);
        s.len() as int
    }
}

/// A text without its trailing occurrences of a character ends in another, and only those were cut.
pub proof fn lemma_trimmed_of_a_char(s: &str, c: char, r: &str) -> (n: int)
    requires
        call_ensures(trimmed_end_char, (s, c), r),
    ensures
        0 <= n <= s@.len(),
        r@ == s@.take(n),
        forall|k: int| n <= k < s@.len() ==> #[trigger] s@[k] == c,
        n > 0 ==> s@[n - 1] != c,
{
    lemma_trim_end_char(s@, c)
}

/// Two texts are the same exactly where their characters are.
pub proof fn lemma_same_text(a: &str, b: &str, r: bool)
    requires
        call_ensures(same, (a, b), r),
    ensures
        r <==> a@.len() == b@.len() && forall|i: int| 0 <= i < a@.len() ==> a@[i] == b@[i],
{
    if a@.len() == b@.len() && forall|i: int| 0 <= i < a@.len() ==> a@[i] == b@[i] {
        assert(a@ =~= b@);
    }
}

/// What follows a prefix is the rest of the text behind it.
pub proof fn lemma_rest_behind_prefix(s: &str, prefix: &str, r: Option<&str>)
    requires
        call_ensures(without_prefix, (s, prefix), r),
    ensures
        r matches Some(t) ==> s@ == prefix@ + t@,
        r is None ==> forall|t: Seq<char>| s@ != #[trigger] (prefix@ + t),
{
    match r {
        Some(t) => {
            assert(r.deep_view() == Some(t@));
            assert(prefix@.is_prefix_of(s@));
            assert(s@ =~= prefix@ + t@);
        },
        None => {
            assert(r.deep_view() == None::<Seq<char>>);
            assert forall|t: Seq<char>| s@ != #[trigger] (prefix@ + t) by {
                if s@ == prefix@ + t {
                    assert(s@.subrange(0, prefix@.len() as int) =~= prefix@);
                    assert(prefix@.is_prefix_of(s@));
                }
            }
        },
    }
}

proof fn lemma_lower_char(c: char, d: char)
    requires
        !('A' <= d <= 'Z'),
    ensures
        ascii_lower(c) == d <==> (c == d || ('A' <= c <= 'Z' && c as u32 + 32 == d as u32)),
{
}

/// A text is another but for the case of ASCII letters exactly where each character is, as it is or
/// as the capital of an ASCII letter.
pub proof fn lemma_same_but_for_case(s: &str, lower: &str, r: bool)
    requires
        call_ensures(same_lowered, (s, lower), r),
        forall|i: int| 0 <= i < lower@.len() ==> !('A' <= #[trigger] lower@[i] <= 'Z'),
    ensures
        r <==> s@.len() == lower@.len() && forall|i: int|
            0 <= i < s@.len() ==> #[trigger] s@[i] == lower@[i] || ('A' <= s@[i] <= 'Z' && s@[i] as u32
                + 32 == lower@[i] as u32),
{
    let l = lowered(s@);
    assert(l.len() == s@.len());
    assert forall|i: int| 0 <= i < s@.len() && i < lower@.len() implies (l[i] == lower@[i] <==> (
    #[trigger] s@[i] == lower@[i] || ('A' <= s@[i] <= 'Z' && s@[i] as u32 + 32 == lower@[i] as u32))) by {
        lemma_lower_char(s@[i], lower@[i]);
    }
    if r {
        assert forall|i: int| 0 <= i < s@.len() implies #[trigger] s@[i] == lower@[i] || ('A'
            <= s@[i] <= 'Z' && s@[i] as u32 + 32 == lower@[i] as u32) by {
            assert(l[i] == lower@[i]);
        }
    } else if s@.len() == lower@.len() && forall|i: int|
        0 <= i < s@.len() ==> #[trigger] s@[i] == lower@[i] || ('A' <= s@[i] <= 'Z' && s@[i] as u32
            + 32 == lower@[i] as u32) {
        assert forall|i: int| 0 <= i < l.len() implies l[i] == lower@[i] by {
            assert(s@[i] == s@[i]);
        }
        assert(l =~= lower@);
    }
}

proof fn lemma_pieces_split(a: Seq<char>, c: char, b: Seq<char>, sep: Separator)
    requires
        sep.separates(c),
    ensures
        pieces(a.push(c) + b, sep) == pieces(a, sep) + pieces(b, sep),
        pieces(b, sep).len() > 0,
    decreases b.len(),
{
    let s = a.push(c) + b;
    if b.len() == 0 {
        assert(s =~= a.push(c));
        assert(s.drop_last() =~= a);
        assert(pieces(s, sep) =~= pieces(a, sep) + pieces(b, sep));
    } else {
        let rest = b.drop_last();
        lemma_pieces_split(a, c, rest, sep);
        assert(s.drop_last() =~= a.push(c) + rest);
        assert(s.last() == b.last());
        let x = pieces(a, sep);
        let y = pieces(rest, sep);
        assert((x + y).last() == y.last());
        assert((x + y).drop_last() =~= x + y.drop_last());
        assert(pieces(s, sep) =~= x + pieces(b, sep));
    }
}

proof fn lemma_one_piece(s: Seq<char>, sep: Separator)
    requires
        forall|i: int| 0 <= i < s.len() ==> !sep.separates(#[trigger] s[i]),
    ensures
        pieces(s, sep) == seq![s],
    decreases s.len(),
{
    if s.len() == 0 {
        assert(s =~= Seq::empty());
    } else {
        let rest = s.drop_last();
        assert forall|i: int| 0 <= i < rest.len() implies !sep.separates(#[trigger] rest[i]) by {
            assert(rest[i] == s[i]);
        }
        lemma_one_piece(rest, sep);
        assert(!sep.separates(s[s.len() - 1]));
        assert(seq![rest].drop_last() =~= Seq::<Seq<char>>::empty());
        assert(rest.push(s.last()) =~= s);
        assert(pieces(s, sep) =~= seq![s]);
    }
}

proof fn lemma_kept_split(a: Seq<Seq<char>>, b: Seq<Seq<char>>)
    ensures
        kept_items(a + b) == kept_items(a) + kept_items(b),
    decreases b.len(),
{
    if b.len() == 0 {
        assert(a + b =~= a);
        assert(kept_items(a) + kept_items(b) =~= kept_items(a));
    } else {
        lemma_kept_split(a, b.drop_last());
        assert((a + b).drop_last() =~= a + b.drop_last());
        assert((a + b).last() == b.last());
        assert(kept_items(a + b) =~= kept_items(a) + kept_items(b));
    }
}

/// What a text lists is what its parts on both sides of a separator list.
pub proof fn lemma_listed_splits(a: Seq<char>, c: char, b: Seq<char>, sep: Separator)
    requires
        match sep {
            Separator::Comma => c == ',',
            Separator::Whitespace => is_whitespace(c),
        },
    ensures
        listed(a.push(c) + b, sep) == listed(a, sep) + listed(b, sep),
{
    lemma_pieces_split(a, c, b, sep);
    lemma_kept_split(pieces(a, sep), pieces(b, sep));
}

/// A text without a separator lists itself, trimmed, and nothing where it is blank.
pub proof fn lemma_listed_one(s: Seq<char>, sep: Separator)
    requires
        match sep {
            Separator::Comma => forall|i: int| 0 <= i < s.len() ==> #[trigger] s[i] != ',',
            Separator::Whitespace => forall|i: int|
                0 <= i < s.len() ==> !is_whitespace(#[trigger] s[i]),
        },
    ensures
        trim(s).len() > 0 ==> listed(s, sep) == seq![trim(s)],
        trim(s).len() == 0 ==> listed(s, sep) == Seq::<Seq<char>>::empty(),
{
    assert forall|i: int| 0 <= i < s.len() implies !sep.separates(#[trigger] s[i]) by {}
    lemma_one_piece(s, sep);
    let one = seq![s];
    assert(one.drop_last() =~= Seq::<Seq<char>>::empty());
    assert(kept_items(Seq::<Seq<char>>::empty()) =~= Seq::<Seq<char>>::empty());
    assert(one.last() == s);
    if trim(s).len() > 0 {
        assert(listed(s, sep) =~= seq![trim(s)]);
    }
}

/// The items of a list are the characters between its separators, trimmed, without blank ones: those
/// of the part before a separator and then those of the part behind it.
pub proof fn lemma_list_items_split(
    s: &str,
    a: &str,
    b: &str,
    c: char,
    sep: Separator,
    all: Vec<String>,
    left: Vec<String>,
    right: Vec<String>,
)
    requires
        call_ensures(list_items, (s, sep), all),
        call_ensures(list_items, (a, sep), left),
        call_ensures(list_items, (b, sep), right),
        s@ == a@.push(c) + b@,
        match sep {
            Separator::Comma => c == ',',
            Separator::Whitespace => is_whitespace(c),
        },
    ensures
        all.deep_view() == left.deep_view() + right.deep_view(),
{
    lemma_listed_splits(a@, c, b@, sep);
}

/// A text without a separator is one item, trimmed, or none where it is blank.
pub proof fn lemma_list_of_one(s: &str, sep: Separator, items: Vec<String>)
    requires
        call_ensures(list_items, (s, sep), items),
        match sep {
            Separator::Comma => forall|i: int| 0 <= i < s@.len() ==> #[trigger] s@[i] != ',',
            Separator::Whitespace => forall|i: int|
                0 <= i < s@.len() ==> !is_whitespace(#[trigger] s@[i]),
        },
    ensures
        items@.len() <= 1,
        items@.len() == 0 <==> forall|i: int| 0 <= i < s@.len() ==> is_whitespace(#[trigger] s@[i]),
        items@.len() == 1 ==> items@[0]@ == trim(s@),
{
    lemma_listed_one(s@, sep);
    let cut = lemma_trim_cuts(s@);
    assert(items.deep_view().len() == items@.len());
    if items@.len() == 1 {
        assert(items.deep_view()[0] == items@[0]@);
    }
    if trim(s@).len() > 0 {
        assert(s@[cut.0] == trim(s@)[0]);
    }
}

/// Joined parts stand in their order with one glue between neighbours.
pub proof fn lemma_joined_splits(a: Seq<Seq<char>>, b: Seq<Seq<char>>, glue: Seq<char>)
    requires
        a.len() > 0,
        b.len() > 0,
    ensures
        joined(a + b, glue) == joined(a, glue) + glue + joined(b, glue),
    decreases b.len(),
{
    assert((a + b).last() == b.last());
    assert((a + b).drop_last() =~= a + b.drop_last());
    if b.len() == 1 {
        assert(a + b.drop_last() =~= a);
        assert(b.last() == b[0]);
    } else {
        lemma_joined_splits(a, b.drop_last(), glue);
        assert(joined(a + b, glue) =~= joined(a, glue) + glue + joined(b, glue));
    }
}

/// Joining puts the parts in their order with one glue between neighbours, and changes a single part
/// not at all.
pub proof fn lemma_join_splits(
    all: Vec<String>,
    a: Vec<String>,
    b: Vec<String>,
    glue: &str,
    x: String,
    y: String,
    z: String,
)
    requires
        call_ensures(join, (&all, glue), x),
        call_ensures(join, (&a, glue), y),
        call_ensures(join, (&b, glue), z),
        all.deep_view() == a.deep_view() + b.deep_view(),
        a@.len() > 0,
        b@.len() > 0,
    ensures
        x@ == y@ + glue@ + z@,
        a@.len() == 1 ==> y@ == a@[0]@,
{
    assert(a.deep_view().len() == a@.len() && b.deep_view().len() == b@.len());
    lemma_joined_splits(a.deep_view(), b.deep_view(), glue@);
    assert(a.deep_view()[0] == a@[0]@);
}

/// Whether an item can stand in a list that is separated by commas: it is not empty, holds no comma,
/// and has no white space at its ends.
pub open spec fn listable(item: Seq<char>) -> bool {
    &&& item.len() > 0
    &&& !is_whitespace(item[0])
    &&& !is_whitespace(item.last())
    &&& forall|i: int| 0 <= i < item.len() ==> #[trigger] item[i] != ','
}

/// A text that neither begins nor ends with white space is left as it is by trimming.
pub proof fn lemma_trim_keeps(item: Seq<char>)
    requires
        item.len() > 0,
        !is_whitespace(item[0]),
        !is_whitespace(item.last()),
    ensures
        trim(item) == item,
{
    let cut = lemma_trim_cuts(item);
    if cut.0 > 0 {
        assert(is_whitespace(item[0]));
    }
    if cut.1 < item.len() {
        assert(is_whitespace(item[item.len() - 1]));
    }
    assert(item.subrange(0, item.len() as int) =~= item);
}

/// Items that are joined by commas are listed again as they were.
pub proof fn lemma_joined_is_listed(items: Seq<Seq<char>>)
    requires
        forall|i: int| 0 <= i < items.len() ==> listable(#[trigger] items[i]),
    ensures
        listed(joined(items, ","@), Separator::Comma) == items,
    decreases items.len(),
{
    reveal_strlit(",");
    if items.len() == 0 {
        let none = Seq::<char>::empty();
        assert(trim(none).len() == 0) by {
            let cut = lemma_trim_cuts(none);
        }
        lemma_listed_one(none, Separator::Comma);
        assert(items =~= Seq::<Seq<char>>::empty());
    } else {
        let last = items.last();
        assert(listable(items[items.len() - 1]));
        lemma_trim_keeps(last);
        lemma_listed_one(last, Separator::Comma);
        if items.len() == 1 {
            assert(items[0] == last);
            assert(seq![last] =~= items);
        } else {
            let rest = items.drop_last();
            assert forall|i: int| 0 <= i < rest.len() implies listable(#[trigger] rest[i]) by {
                assert(rest[i] == items[i]);
            }
            lemma_joined_is_listed(rest);
            let before = joined(rest, ","@);
            assert(before + ","@ + last =~= before.push(',') + last);
            lemma_listed_splits(before, ',', last, Separator::Comma);
            assert(rest + seq![last] =~= items);
        }
    }
}

/// The number that a text of digits says, in this base.
pub open spec fn number_of(digits: Seq<char>, base: int) -> int {
    digits.fold_left(0int, |n: int, c: char| n * base + value_of(c))
}

/// The value of a digit.
pub open spec fn value_of(c: char) -> int {
    if '0' <= c <= '9' {
        c as u32 - '0' as u32
    } else {
        c as u32 - 'a' as u32 + 10
    }
}

/// The decimal digits of a number say that number, without leading zeros.
pub proof fn lemma_decimal_says(n: nat)
    ensures
        number_of(decimal(n), 10) == n,
        decimal(n).len() > 0,
        n > 0 ==> decimal(n)[0] != '0',
        forall|i: int| 0 <= i < decimal(n).len() ==> '0' <= #[trigger] decimal(n)[i] <= '9',
    decreases n,
{
    reveal(Seq::fold_left);
    let d = decimal(n);
    let step = |n: int, c: char| n * 10 + value_of(c);
    if n < 10 {
        assert(d.drop_last() =~= Seq::<char>::empty());
        assert(d.last() == digit(n));
        assert(d.drop_last().fold_left(0int, step) == 0);
    } else {
        lemma_decimal_says(n / 10);
        assert(d.drop_last() =~= decimal(n / 10));
        assert(d.last() == digit(n % 10));
        assert(value_of(digit(n % 10)) == n % 10);
        assert(d[0] == decimal(n / 10)[0]);
        assert forall|i: int| 0 <= i < d.len() implies '0' <= #[trigger] d[i] <= '9' by {
            if i < d.len() - 1 {
                assert(d[i] == decimal(n / 10)[i]);
            }
        }
    }
}

proof fn lemma_hex_says(n: nat)
    ensures
        number_of(hex(n), 16) == n,
        hex(n).len() > 0,
        n > 0 ==> hex(n)[0] != '0',
        forall|i: int|
            0 <= i < hex(n).len() ==> '0' <= #[trigger] hex(n)[i] <= '9' || 'a' <= hex(n)[i] <= 'f',
    decreases n,
{
    reveal(Seq::fold_left);
    let d = hex(n);
    let step = |n: int, c: char| n * 16 + value_of(c);
    if n < 16 {
        assert(d.drop_last() =~= Seq::<char>::empty());
        assert(d.last() == hex_digit(n));
        assert(d.drop_last().fold_left(0int, step) == 0);
    } else {
        lemma_hex_says(n / 16);
        assert(d.drop_last() =~= hex(n / 16));
        assert(d.last() == hex_digit(n % 16));
        assert(value_of(hex_digit(n % 16)) == n % 16);
        assert(d[0] == hex(n / 16)[0]);
        assert forall|i: int| 0 <= i < d.len() implies '0' <= #[trigger] d[i] <= '9' || 'a' <= d[i]
            <= 'f' by {
            if i < d.len() - 1 {
                assert(d[i] == hex(n / 16)[i]);
            }
        }
    }
}

/// A number is written by its decimal digits, without leading zeros, behind what was there.
pub proof fn lemma_decimal_is_appended(out: &mut String, n: u64) -> (digits: Seq<char>)
    requires
        call_ensures(append_decimal, (out, n), ()),
    ensures
        final(out)@ == old(out)@ + digits,
        number_of(digits, 10) == n,
        forall|i: int| 0 <= i < digits.len() ==> '0' <= #[trigger] digits[i] <= '9',
        digits.len() > 0,
        n > 0 ==> digits[0] != '0',
{
    lemma_decimal_says(n as nat);
    decimal(n as nat)
}

/// A signed number is written by its decimal digits, behind a minus sign where it is negative.
pub proof fn lemma_signed_is_appended(out: &mut String, n: i64) -> (digits: Seq<char>)
    requires
        call_ensures(append_signed, (out, n), ()),
    ensures
        n >= 0 ==> final(out)@ == old(out)@ + digits && number_of(digits, 10) == n,
        n < 0 ==> final(out)@ == old(out)@ + (seq!['-'] + digits) && number_of(digits, 10) == -n,
        forall|i: int| 0 <= i < digits.len() ==> '0' <= #[trigger] digits[i] <= '9',
        digits.len() > 0,
{
    let m: nat = if n < 0 {
        (-n) as nat
    } else {
        n as nat
    };
    lemma_decimal_says(m);
    reveal_strlit("-");
    assert("-"@ =~= seq!['-']);
    decimal(m)
}

/// A number is written by its hexadecimal digits in lower case, without leading zeros.
pub proof fn lemma_hex_is_appended(out: &mut String, n: u64) -> (digits: Seq<char>)
    requires
        call_ensures(append_hex, (out, n), ()),
    ensures
        final(out)@ == old(out)@ + digits,
        number_of(digits, 16) == n,
        forall|i: int|
            0 <= i < digits.len() ==> '0' <= #[trigger] digits[i] <= '9' || 'a' <= digits[i] <= 'f',
        digits.len() > 0,
        n > 0 ==> digits[0] != '0',
{
    lemma_hex_says(n as nat);
    hex(n as nat)
}

} // verus!
