//! What the vocabulary of texts means.
use crate::text::{
    all_digits, decimal_text, digit, digits_value, fold_char, folded, index_from, integer_text,
    lemma_index_from, occurs, occurs_at, parsed_signed, parsed_unsigned, pieces, text_before,
    trim_end, trim_start, trimmed, white,
};
use vstd::prelude::*;

verus! {

/// A text stands in another where the other is that text with something before it
/// and something behind it, and at a place where what is before it is that long.
pub proof fn what_occurs_can_be_cut_out(hay: Seq<char>, needle: Seq<char>, at: int)
    ensures
        occurs(hay, needle) <==> exists|before: Seq<char>, after: Seq<char>|
            hay == #[trigger] (before + needle + after),
        occurs_at(hay, needle, at) <==> exists|before: Seq<char>, after: Seq<char>|
            before.len() == at && hay == #[trigger] (before + needle + after),
{
    assert forall|i: int| #[trigger] occurs_at(hay, needle, i) implies exists|
        before: Seq<char>,
        after: Seq<char>,
    | before.len() == i && hay == #[trigger] (before + needle + after) by {
        let before = hay.take(i);
        let after = hay.skip(i + needle.len());
        assert(hay.subrange(i, i + needle.len()) == needle);
        assert(hay == before + needle + after) by {
            let joined = before + needle + after;
            assert forall|k: int| 0 <= k < hay.len() implies hay[k] == joined[k] by {
                if i <= k < i + needle.len() {
                    assert(hay.subrange(i, i + needle.len())[k - i] == hay[k]);
                }
            }
        }
    }
    assert forall|before: Seq<char>, after: Seq<char>|
        hay == #[trigger] (before + needle + after) implies occurs_at(
        hay,
        needle,
        before.len() as int,
    ) by {
        let i = before.len() as int;
        assert(hay.subrange(i, i + needle.len()) == needle);
    }
    if occurs(hay, needle) {
        let i = choose|i: int| occurs_at(hay, needle, i);
        let (before, after) = choose|before: Seq<char>, after: Seq<char>|
            before.len() == i && hay == #[trigger] (before + needle + after);
        assert(hay == before + needle + after);
    }
    if exists|before: Seq<char>, after: Seq<char>| hay == #[trigger] (before + needle + after) {
        let (before, after) = choose|before: Seq<char>, after: Seq<char>|
            hay == #[trigger] (before + needle + after);
        assert(occurs_at(hay, needle, before.len() as int));
    }
}

proof fn lemma_fold_char(c: char)
    ensures
        'A' <= c <= 'Z' ==> fold_char(c) as int == c as int + 32,
        !('A' <= c <= 'Z') ==> fold_char(c) == c,
        fold_char(fold_char(c)) == fold_char(c),
{
}

/// Folding moves each letter from A to Z to the small letter thirty-two places up
/// and leaves every other character in its place as it is; folding twice is folding
/// once, and folding a part is a part of folding.
pub proof fn folding_lowers_ascii_letters(a: Seq<char>, b: Seq<char>)
    ensures
        folded(a).len() == a.len(),
        forall|i: int|
            0 <= i < a.len() ==> (#[trigger] folded(a)[i]) as int == a[i] as int + if 'A' <= a[i]
                <= 'Z' {
                32int
            } else {
                0int
            },
        folded(folded(a)) == folded(a),
        folded(a + b) == folded(a) + folded(b),
{
    assert forall|i: int| 0 <= i < a.len() implies (#[trigger] folded(a)[i]) as int == a[i] as int
        + if 'A' <= a[i] <= 'Z' {
        32int
    } else {
        0int
    } by {
        lemma_fold_char(a[i]);
    }
    assert forall|i: int| 0 <= i < a.len() implies folded(folded(a))[i] == folded(a)[i] by {
        lemma_fold_char(a[i]);
    }
    assert(folded(folded(a)) == folded(a));
    assert(folded(a + b) == folded(a) + folded(b));
}

/// Of the ASCII characters the space and those from tab to carriage return are
/// white space, and no others.
pub proof fn ascii_white_space(c: char)
    requires
        c as int <= 0x7f,
    ensures
        white(c) <==> c == ' ' || '\t' <= c <= '\r',
{
}

proof fn lemma_trim_start(s: Seq<char>)
    ensures
        exists|n: int|
            0 <= n <= s.len() && trim_start(s) == s.skip(n) && (n < s.len() ==> !white(s[n])) && (
            forall|i: int| 0 <= i < n ==> white(#[trigger] s[i])),
    decreases s.len(),
{
    if s.len() > 0 && white(s[0]) {
        let rest = s.drop_first();
        lemma_trim_start(rest);
        let n = choose|n: int|
            0 <= n <= rest.len() && trim_start(rest) == rest.skip(n) && (n < rest.len() ==> !white(
                rest[n],
            )) && (forall|i: int| 0 <= i < n ==> white(#[trigger] rest[i]));
        assert(rest.skip(n) == s.skip(n + 1));
        assert forall|i: int| 0 <= i < n + 1 implies white(#[trigger] s[i]) by {
            if i > 0 {
                assert(rest[i - 1] == s[i]);
            }
        }
        assert(trim_start(s) == s.skip(n + 1));
    } else {
        assert(s.skip(0) == s);
    }
}

proof fn lemma_trim_end(s: Seq<char>)
    ensures
        exists|n: int|
            0 <= n <= s.len() && trim_end(s) == s.take(n) && (n > 0 ==> !white(s[n - 1])) && (
            forall|i: int| n <= i < s.len() ==> white(#[trigger] s[i])),
    decreases s.len(),
{
    if s.len() > 0 && white(s.last()) {
        let rest = s.drop_last();
        lemma_trim_end(rest);
        let n = choose|n: int|
            0 <= n <= rest.len() && trim_end(rest) == rest.take(n) && (n > 0 ==> !white(
                rest[n - 1],
            )) && (forall|i: int| n <= i < rest.len() ==> white(#[trigger] rest[i]));
        assert(rest.take(n) == s.take(n));
        assert forall|i: int| n <= i < s.len() implies white(#[trigger] s[i]) by {
            if i < rest.len() {
                assert(rest[i] == s[i]);
            }
        }
        assert(trim_end(s) == s.take(n));
    } else {
        assert(s.take(s.len() as int) == s);
    }
}

/// Trimming takes away white space in front and behind, and all of it: what is left
/// neither begins nor ends with any, and is the text without what was taken.
pub proof fn trimming_takes_the_white_space_around(s: Seq<char>)
    ensures
        exists|before: Seq<char>, after: Seq<char>|
            s == #[trigger] (before + trimmed(s) + after) && (forall|i: int|
                0 <= i < before.len() ==> white(#[trigger] before[i])) && (forall|i: int|
                0 <= i < after.len() ==> white(#[trigger] after[i])),
        trimmed(s).len() > 0 ==> !white(trimmed(s)[0]) && !white(trimmed(s).last()),
{
    lemma_trim_start(s);
    let n = choose|n: int|
        0 <= n <= s.len() && trim_start(s) == s.skip(n) && (n < s.len() ==> !white(s[n])) && (
        forall|i: int| 0 <= i < n ==> white(#[trigger] s[i]));
    let inner = s.skip(n);
    lemma_trim_end(inner);
    let m = choose|m: int|
        0 <= m <= inner.len() && trim_end(inner) == inner.take(m) && (m > 0 ==> !white(
            inner[m - 1],
        )) && (forall|i: int| m <= i < inner.len() ==> white(#[trigger] inner[i]));
    let before = s.take(n);
    let after = inner.skip(m);
    assert(s == before + trimmed(s) + after);
    assert forall|i: int| 0 <= i < after.len() implies white(#[trigger] after[i]) by {
        assert(after[i] == inner[m + i]);
    }
}

/// The pieces of a text, with the separator between them.
pub open spec fn joined(parts: Seq<Seq<char>>, c: char) -> Seq<char>
    decreases parts.len(),
{
    if parts.len() == 0 {
        seq![]
    } else if parts.len() == 1 {
        parts[0]
    } else {
        parts[0] + seq![c] + joined(parts.drop_first(), c)
    }
}

/// Splitting loses nothing and leaves no separator inside a piece: the pieces with
/// the separator between them are the text again.
pub proof fn pieces_join_to_the_text(s: Seq<char>, c: char)
    ensures
        joined(pieces(s, c), c) == s,
        pieces(s, c).len() >= 1,
        forall|i: int| 0 <= i < pieces(s, c).len() ==> !(#[trigger] pieces(s, c)[i]).contains(c),
    decreases s.len(),
{
    lemma_index_from(s, c, 0);
    let at = index_from(s, c, 0);
    let parts = pieces(s, c);
    if at < s.len() {
        let rest = s.skip(at + 1);
        pieces_join_to_the_text(rest, c);
        assert(parts.drop_first() == pieces(rest, c));
        assert(parts[0] == s.take(at));
        assert(s == s.take(at) + seq![c] + rest);
        assert forall|i: int| 0 <= i < parts.len() implies !(#[trigger] parts[i]).contains(c) by {
            if i > 0 {
                assert(parts[i] == pieces(rest, c)[i - 1]);
            }
        }
    } else {
        assert(parts[0] == s);
    }
}

proof fn lemma_digit(n: nat)
    requires
        n < 10,
    ensures
        '0' <= digit(n) <= '9',
        digit(n) as int == 48 + n,
        (digit(n) as u32 - 48) as nat == n,
{
}

/// A number written in decimal reads as that number, in digits alone, and without a
/// zero in front unless it is zero.
pub proof fn decimals_read_back(n: nat)
    ensures
        decimal_text(n).len() > 0,
        all_digits(decimal_text(n)),
        digits_value(decimal_text(n)) == n,
        n > 0 ==> decimal_text(n)[0] != '0',
    decreases n,
{
    lemma_digit(n % 10);
    if n >= 10 {
        decimals_read_back(n / 10);
        let front = decimal_text(n / 10);
        let all = decimal_text(n);
        assert(all.drop_last() == front);
        assert(all.last() == digit(n % 10));
        assert(all[0] == front[0]);
        assert forall|i: int| 0 <= i < all.len() implies '0' <= #[trigger] all[i] && all[i]
            <= '9' by {
            if i < front.len() {
                assert(all[i] == front[i]);
            }
        }
    } else {
        let all = decimal_text(n);
        assert(all.drop_last().len() == 0);
        assert(all.last() == digit(n));
        assert(digits_value(all.drop_last()) == 0);
    }
}

/// Numbers read back as they are written, where they are within the limit; and a
/// sign in front of a number is the sign of the number.
pub proof fn numbers_read_back(n: nat, limit: nat, k: int)
    ensures
        parsed_unsigned(decimal_text(n), limit) == if n <= limit {
            Some(n)
        } else {
            None
        },
        parsed_unsigned(seq!['+'] + decimal_text(n), limit) == parsed_unsigned(
            decimal_text(n),
            limit,
        ),
        i64::MIN <= k <= i64::MAX ==> parsed_signed(integer_text(k)) == Some(k),
        n > 0 ==> parsed_unsigned(seq!['-'] + decimal_text(n), limit) is None,
        parsed_unsigned(seq![], limit) is None,
{
    decimals_read_back(n);
    let s = decimal_text(n);
    assert(s[0] != '+') by {
        assert('0' <= s[0]);
    }
    let plus = seq!['+'] + s;
    assert(plus.drop_first() == s);
    let minus = seq!['-'] + s;
    assert(!all_digits(minus)) by {
        assert(minus[0] == '-');
    }
    if i64::MIN <= k <= i64::MAX {
        if k < 0 {
            decimals_read_back((-k) as nat);
            let t = integer_text(k);
            assert(t.drop_first() == decimal_text((-k) as nat));
        } else {
            decimals_read_back(k as nat);
            let t = integer_text(k);
            assert('0' <= t[0]);
        }
    }
}

/// A text comes before another where it is a true beginning of it, or has the
/// smaller character where the two first differ.
pub proof fn texts_order_by_their_first_difference(
    common: Seq<char>,
    a: Seq<char>,
    b: Seq<char>,
)
    ensures
        a.len() == 0 && b.len() > 0 ==> text_before(common + a, common + b),
        a.len() > 0 && b.len() > 0 && a[0] < b[0] ==> text_before(common + a, common + b)
            && !text_before(common + b, common + a),
        b.len() == 0 ==> !text_before(common + a, common + b),
    decreases common.len(),
{
    if common.len() > 0 {
        texts_order_by_their_first_difference(common.drop_first(), a, b);
        assert((common + a).drop_first() == common.drop_first() + a);
        assert((common + b).drop_first() == common.drop_first() + b);
        assert((common + a)[0] == common[0]);
        assert((common + b)[0] == common[0]);
    } else {
        assert(common + a == a);
        assert(common + b == b);
    }
}

} // verus!
