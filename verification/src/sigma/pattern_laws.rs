//! What patterns and ranges match.
use super::pattern::{
    glob, inside_range, lookup, network_text, range_parts, same_byte, same_prefix128,
    same_prefix32, Address, Readings,
};
use crate::text::{decimal_text, index_from, lemma_index_from, trim_end, trim_start, trimmed, white};
use crate::text_laws::{decimals_read_back, numbers_read_back};
use vstd::arithmetic::div_mod::lemma_div_denominator;
use vstd::arithmetic::power2::{lemma_pow2_adds, lemma_pow2_pos, pow2};
use vstd::bits::{lemma_u128_shr_is_div, lemma_u32_shr_is_div};
use vstd::prelude::*;

verus! {

/// What each single byte of a pattern matches: a star any run, a question mark any
/// one byte, and any other byte itself, or where case does not count its other case;
/// and a pattern matches a text where the text can be cut so that each part of the
/// pattern matches its part of the text.
pub proof fn patterns_match_part_by_part(p: Seq<u8>, q: Seq<u8>, text: Seq<u8>, cased: bool)
    ensures
        glob(seq![], text, cased) <==> text.len() == 0,
        glob(seq![42], text, cased),
        glob(seq![63], text, cased) <==> text.len() == 1,
        forall|b: u8|
            b != 42 && b != 63 ==> (#[trigger] glob(seq![b], text, cased) <==> text.len() == 1 && (
            text[0] == b || !cased && (97 <= b <= 122 && text[0] == b - 32 || 65 <= b <= 90
                && text[0] == b + 32))),
        glob(p + q, text, cased) <==> exists|k: int|
            0 <= k <= text.len() && glob(p, #[trigger] text.take(k), cased) && glob(
                q,
                text.skip(k),
                cased,
            ),
{
    lemma_cut(p, q, text, cased);
    let none = Seq::<u8>::empty();
    assert(seq![42u8].drop_first() == none);
    assert(glob(none, text.skip(text.len() as int), cased));
    assert(glob(seq![42u8].drop_first(), text.skip(text.len() as int), cased));
    assert(seq![63u8].drop_first() == none);
    if text.len() > 0 {
        assert(glob(none, text.drop_first(), cased) == (text.drop_first().len() == 0));
    }
    assert forall|b: u8| b != 42 && b != 63 implies (#[trigger] glob(seq![b], text, cased)
        <==> text.len() == 1 && (text[0] == b || !cased && (97 <= b <= 122 && text[0] == b - 32
        || 65 <= b <= 90 && text[0] == b + 32))) by {
        assert(seq![b].drop_first() == none);
        assert(seq![b][0] == b);
        if text.len() > 0 {
            lemma_same_byte(b, text[0]);
        }
    }
}

proof fn lemma_same_byte(a: u8, b: u8)
    ensures
        same_byte(a, b, true) <==> a == b,
        same_byte(a, b, false) <==> b == a || 97 <= a <= 122 && b == a - 32 || 65 <= a <= 90 && b
            == a + 32,
{
}

proof fn lemma_cut(p: Seq<u8>, q: Seq<u8>, text: Seq<u8>, cased: bool)
    ensures
        glob(p + q, text, cased) <==> exists|k: int|
            0 <= k <= text.len() && glob(p, #[trigger] text.take(k), cased) && glob(
                q,
                text.skip(k),
                cased,
            ),
    decreases p.len(),
{
    let all = p + q;
    if p.len() == 0 {
        assert(all == q);
        assert(text.skip(0) == text);
        assert(text.take(0).len() == 0);
        if glob(q, text, cased) {
            assert(glob(p, text.take(0), cased));
        }
    } else {
        let rest = p.drop_first();
        assert(all[0] == p[0]);
        assert(all.drop_first() == rest + q);
        if p[0] == 42 {
            if glob(all, text, cased) {
                let j = choose|j: int|
                    0 <= j <= text.len() && glob(
                        all.drop_first(),
                        #[trigger] text.skip(j),
                        cased,
                    );
                lemma_cut(rest, q, text.skip(j), cased);
                let k = choose|k: int|
                    0 <= k <= text.skip(j).len() && glob(
                        rest,
                        #[trigger] text.skip(j).take(k),
                        cased,
                    ) && glob(q, text.skip(j).skip(k), cased);
                let front = text.take(j + k);
                assert(front.skip(j) == text.skip(j).take(k));
                assert(glob(p.drop_first(), front.skip(j), cased));
                assert(text.skip(j).skip(k) == text.skip(j + k));
                assert(glob(p, text.take(j + k), cased));
            }
            if exists|k: int|
                0 <= k <= text.len() && glob(p, #[trigger] text.take(k), cased) && glob(
                    q,
                    text.skip(k),
                    cased,
                ) {
                let k = choose|k: int|
                    0 <= k <= text.len() && glob(p, #[trigger] text.take(k), cased) && glob(
                        q,
                        text.skip(k),
                        cased,
                    );
                let front = text.take(k);
                let j = choose|j: int|
                    0 <= j <= front.len() && glob(p.drop_first(), #[trigger] front.skip(j), cased);
                lemma_cut(rest, q, text.skip(j), cased);
                assert(text.skip(j).take(k - j) == front.skip(j));
                assert(text.skip(j).skip(k - j) == text.skip(k));
                assert(glob(all.drop_first(), text.skip(j), cased));
            }
        } else if text.len() > 0 {
            let tail = text.drop_first();
            lemma_cut(rest, q, tail, cased);
            if glob(all, text, cased) {
                let k = choose|k: int|
                    0 <= k <= tail.len() && glob(rest, #[trigger] tail.take(k), cased) && glob(
                        q,
                        tail.skip(k),
                        cased,
                    );
                assert(text.take(k + 1).drop_first() == tail.take(k));
                assert(text.skip(k + 1) == tail.skip(k));
                assert(glob(p, text.take(k + 1), cased));
            }
            if exists|k: int|
                0 <= k <= text.len() && glob(p, #[trigger] text.take(k), cased) && glob(
                    q,
                    text.skip(k),
                    cased,
                ) {
                let k = choose|k: int|
                    0 <= k <= text.len() && glob(p, #[trigger] text.take(k), cased) && glob(
                        q,
                        text.skip(k),
                        cased,
                    );
                assert(k > 0);
                assert(text.take(k).drop_first() == tail.take(k - 1));
                assert(text.skip(k) == tail.skip(k - 1));
                assert(glob(rest, tail.take(k - 1), cased));
            }
        }
    }
}

proof fn lemma_shift32(a: u32, b: u32, n: u32, m: u32)
    requires
        n <= m <= 32,
        n > 0,
    ensures
        a >> ((32 - m) as u32) == b >> ((32 - m) as u32) ==> a >> ((32 - n) as u32) == b >> ((32
            - n) as u32),
        a >> 0u32 == a,
{
    let s = (32 - m) as u32;
    let t = (32 - n) as u32;
    assert(a >> s == b >> s ==> a >> t == b >> t) by (bit_vector)
        requires
            s <= t < 32,
    ;
    assert(a >> 0u32 == a) by (bit_vector);
}

proof fn lemma_shift128(a: u128, b: u128, n: u128, m: u128)
    requires
        n <= m <= 128,
        n > 0,
    ensures
        a >> ((128 - m) as u128) == b >> ((128 - m) as u128) ==> a >> ((128 - n) as u128) == b >> ((
        128 - n) as u128),
        a >> 0u128 == a,
{
    let s = (128 - m) as u128;
    let t = (128 - n) as u128;
    lemma_u128_shr_is_div(a, s);
    lemma_u128_shr_is_div(b, s);
    lemma_u128_shr_is_div(a, t);
    lemma_u128_shr_is_div(b, t);
    let d = (t - s) as nat;
    lemma_pow2_adds(s as nat, d);
    lemma_pow2_pos(s as nat);
    lemma_pow2_pos(d);
    lemma_div_denominator(a as int, pow2(s as nat) as int, pow2(d) as int);
    lemma_div_denominator(b as int, pow2(s as nat) as int, pow2(d) as int);
    assert(a >> 0u128 == a) by (bit_vector);
}

/// A range with a longer prefix is inside one with a shorter prefix; without a prefix
/// to agree on everything is inside, and with all of it only the address itself.
pub proof fn longer_prefixes_are_narrower(a: u32, b: u32, x: u128, y: u128, n: nat, m: nat)
    requires
        n <= m,
    ensures
        m <= 32 && same_prefix32(a, b, m) ==> same_prefix32(a, b, n),
        same_prefix32(a, b, 0),
        same_prefix32(a, b, 32) <==> a == b,
        m <= 128 && same_prefix128(x, y, m) ==> same_prefix128(x, y, n),
        same_prefix128(x, y, 0),
        same_prefix128(x, y, 128) <==> x == y,
{
    lemma_shift32(a, b, 32, 32);
    lemma_shift32(b, a, 32, 32);
    lemma_shift128(x, y, 128, 128);
    lemma_shift128(y, x, 128, 128);
    if n > 0 && m <= 32 {
        lemma_shift32(a, b, n as u32, m as u32);
    }
    if n > 0 && m <= 128 {
        lemma_shift128(x, y, n as u128, m as u128);
    }
}

/// Two addresses share a prefix where they lie in one block of the addresses with
/// that prefix.
pub proof fn a_prefix_is_a_block_of_addresses(a: u32, b: u32, n: nat)
    requires
        0 < n <= 32,
    ensures
        same_prefix32(a, b, n) <==> a as nat / pow2((32 - n) as nat)
            == b as nat / pow2((32 - n) as nat),
{
    let s = (32 - n) as u32;
    lemma_u32_shr_is_div(a, s);
    lemma_u32_shr_is_div(b, s);
}

/// Whether a text has no white space at its ends and no slash in it.
pub open spec fn bare_address(text: Seq<char>) -> bool {
    trimmed(text) == text && !text.contains('/')
}

proof fn lemma_decimal_trimmed(n: nat)
    ensures
        trimmed(decimal_text(n)) == decimal_text(n),
{
    decimals_read_back(n);
    let s = decimal_text(n);
    lemma_no_white(s[0]);
    lemma_no_white(s.last());
    assert('0' <= s[0] && s[0] <= '9');
    assert('0' <= s[s.len() - 1] && s[s.len() - 1] <= '9');
    assert(trim_start(s) == s);
    assert(trim_end(s) == s);
}

proof fn lemma_no_white(c: char)
    ensures
        '0' <= c <= '9' ==> !white(c),
{
}

/// A range is an address and a prefix length: an address of the same family is
/// inside where it agrees with the range's on that many leading bits, and a length
/// that the family does not have matches nothing; without a length the range is the
/// one address. Addresses of different families, and what reads as no address, never
/// match.
pub proof fn ranges_match_by_their_prefix(
    net: Seq<char>,
    text: Seq<char>,
    n: nat,
    readings: Readings,
)
    requires
        bare_address(net),
        n <= 255,
    ensures
        ({
            let inside = inside_range(net + (seq!['/'] + decimal_text(n)), text, readings);
            let exact = inside_range(net, text, readings);
            match (readings.address_of(net), readings.address_of(trimmed(text))) {
                (Some(Address::V4(a)), Some(Address::V4(b))) => {
                    &&& inside <==> n <= 32 && same_prefix32(a, b, n)
                    &&& exact <==> a == b
                },
                (Some(Address::V6(a)), Some(Address::V6(b))) => {
                    &&& inside <==> n <= 128 && same_prefix128(a, b, n)
                    &&& exact <==> a == b
                },
                _ => !inside && !exact,
            }
        }),
{
    let range = net + (seq!['/'] + decimal_text(n));
    lemma_index_from(range, '/', 0);
    lemma_index_from(net, '/', 0);
    let at = index_from(range, '/', 0);
    assert(range[net.len() as int] == '/');
    if at < net.len() {
        assert(range[at] == net[at]);
        assert(net.contains(net[at]));
    }
    assert(at == net.len());
    let none = index_from(net, '/', 0);
    if none < net.len() {
        assert(net.contains(net[none]));
    }
    assert(range.skip(at + 1) == decimal_text(n));
    assert(range.take(at) == net);
    lemma_decimal_trimmed(n);
    numbers_read_back(n, 255, 0);
    assert(range_parts(range) == Some((net, Some(n))));
    match (readings.address_of(net), readings.address_of(trimmed(text))) {
        (Some(Address::V4(a)), Some(Address::V4(b))) => {
            longer_prefixes_are_narrower(a, b, 0, 0, 0, 0);
        },
        (Some(Address::V6(a)), Some(Address::V6(b))) => {
            longer_prefixes_are_narrower(0, 0, a, b, 0, 0);
        },
        _ => {},
    }
}

/// A text reads as what the first reading of it says, and as nothing where there is
/// none.
pub proof fn the_first_reading_counts(entries: Seq<(String, i64)>, key: Seq<char>)
    ensures
        match lookup(entries, key) {
            Some(value) => exists|i: int|
                0 <= i < entries.len() && (#[trigger] entries[i]).0@ == key && entries[i].1 == value
                    && forall|j: int| 0 <= j < i ==> (#[trigger] entries[j]).0@ != key,
            None => forall|i: int| 0 <= i < entries.len() ==> (#[trigger] entries[i]).0@ != key,
        },
    decreases entries.len(),
{
    if entries.len() > 0 && entries[0].0@ != key {
        let rest = entries.drop_first();
        the_first_reading_counts(rest, key);
        match lookup(rest, key) {
            Some(value) => {
                let i = choose|i: int|
                    0 <= i < rest.len() && (#[trigger] rest[i]).0@ == key && rest[i].1 == value
                        && forall|j: int| 0 <= j < i ==> (#[trigger] rest[j]).0@ != key;
                assert(entries[i + 1] == rest[i]);
                assert forall|j: int| 0 <= j < i + 1 implies (#[trigger] entries[j]).0@ != key by {
                    if j > 0 {
                        assert(rest[j - 1].0@ != key);
                    }
                }
            },
            None => {
                assert forall|i: int| 0 <= i < entries.len() implies (#[trigger] entries[i]).0@
                    != key by {
                    if i > 0 {
                        assert(rest[i - 1].0@ != key);
                    }
                }
            },
        }
    }
}

/// A range's network is what stands in front of its first slash, without the space
/// around it.
pub proof fn networks_stand_before_the_slash(net: Seq<char>, bits: Seq<char>)
    requires
        !net.contains('/'),
    ensures
        network_text(net + seq!['/'] + bits) == trimmed(net),
        network_text(net) == trimmed(net),
{
    let range = net + seq!['/'] + bits;
    lemma_index_from(range, '/', 0);
    lemma_index_from(net, '/', 0);
    assert(range[net.len() as int] == '/');
    let at = index_from(range, '/', 0);
    if at < net.len() {
        assert(range[at] == net[at]);
        assert(net.contains(net[at]));
    }
    assert(range.take(at) == net);
    let none = index_from(net, '/', 0);
    if none < net.len() {
        assert(net.contains(net[none]));
    }
    assert(net.take(none) == net);
}

} // verus!
