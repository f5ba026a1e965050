//! How one value is compared with one needle: wildcards, address ranges and
//! numbers.
use crate::text::{
    chars_of, copy_range, find_from, index_from, parse_unsigned, parsed_unsigned, same, text_of,
    trim, trimmed,
};
use vstd::prelude::*;
use vstd::utf8::encode_utf8;

verus! {

/// The wildcard for any run of bytes.
pub const STAR: u8 = 42;

/// The wildcard for exactly one byte.
pub const QUESTION: u8 = 63;

/// A byte with ASCII uppercase folded to lowercase.
pub open spec fn fold_byte(b: u8) -> u8 {
    if 65 <= b <= 90 {
        (b + 32) as u8
    } else {
        b
    }
}

/// Whether two bytes count as the same.
pub open spec fn same_byte(a: u8, b: u8, case_sensitive: bool) -> bool {
    if case_sensitive {
        a == b
    } else {
        fold_byte(a) == fold_byte(b)
    }
}

/// Whether a pattern matches the whole of a text: `*` stands for any run of
/// bytes, `?` for exactly one, and every other byte for itself.
pub open spec fn glob(pattern: Seq<u8>, text: Seq<u8>, case_sensitive: bool) -> bool
    decreases pattern.len(),
{
    if pattern.len() == 0 {
        text.len() == 0
    } else if pattern[0] == STAR {
        exists|k: int|
            0 <= k <= text.len() && glob(
                pattern.drop_first(),
                #[trigger] text.skip(k),
                case_sensitive,
            )
    } else {
        &&& text.len() > 0
        &&& pattern[0] == QUESTION || same_byte(pattern[0], text[0], case_sensitive)
        &&& glob(pattern.drop_first(), text.drop_first(), case_sensitive)
    }
}

/// Whether the pattern from `i` on matches the text from `j` on.
spec fn glob_from(p: Seq<u8>, t: Seq<u8>, cs: bool, i: int, j: int) -> bool {
    glob(p.skip(i), t.skip(j), cs)
}

proof fn lemma_step(p: Seq<u8>, t: Seq<u8>, cs: bool, i: int, j: int)
    requires
        0 <= i < p.len(),
        0 <= j <= t.len(),
        p[i] != STAR,
    ensures
        glob_from(p, t, cs, i, j) == (j < t.len() && (p[i] == QUESTION || same_byte(p[i], t[j], cs))
            && glob_from(p, t, cs, i + 1, j + 1)),
{
    assert(p.skip(i).drop_first() == p.skip(i + 1));
    if j < t.len() {
        assert(t.skip(j).drop_first() == t.skip(j + 1));
    }
}

proof fn lemma_star(p: Seq<u8>, t: Seq<u8>, cs: bool, i: int, j: int)
    requires
        0 <= i < p.len(),
        0 <= j <= t.len(),
        p[i] == STAR,
    ensures
        glob_from(p, t, cs, i, j) == (exists|k: int|
            j <= k <= t.len() && #[trigger] glob_from(p, t, cs, i + 1, k)),
{
    let tail = p.skip(i + 1);
    assert(p.skip(i).drop_first() == tail);
    if glob_from(p, t, cs, i, j) {
        assert(p.skip(i)[0] == STAR);
        let k = choose|k: int|
            0 <= k <= t.skip(j).len() && glob(
                p.skip(i).drop_first(),
                #[trigger] t.skip(j).skip(k),
                cs,
            );
        assert(t.skip(j).skip(k) == t.skip(j + k));
        assert(glob_from(p, t, cs, i + 1, j + k));
    }
    if exists|k: int| j <= k <= t.len() && #[trigger] glob_from(p, t, cs, i + 1, k) {
        let k = choose|k: int| j <= k <= t.len() && #[trigger] glob_from(p, t, cs, i + 1, k);
        assert(t.skip(j).skip(k - j) == t.skip(k));
        assert(glob(p.skip(i).drop_first(), t.skip(j).skip(k - j), cs));
    }
}

/// A run of pattern bytes without a star consumes exactly as many text bytes.
proof fn lemma_run(p: Seq<u8>, t: Seq<u8>, cs: bool, a: int, b: int, k: int)
    requires
        0 <= a <= b <= p.len(),
        0 <= k <= t.len(),
        forall|i: int| a <= i < b ==> p[i] != STAR,
        glob_from(p, t, cs, a, k),
    ensures
        k + (b - a) <= t.len(),
        glob_from(p, t, cs, b, k + (b - a)),
    decreases b - a,
{
    if a < b {
        lemma_step(p, t, cs, a, k);
        lemma_run(p, t, cs, a + 1, b, k + 1);
    }
}

/// At the end of the text only stars may be left.
proof fn lemma_tail(p: Seq<u8>, t: Seq<u8>, cs: bool, i: int)
    requires
        0 <= i <= p.len(),
    ensures
        glob_from(p, t, cs, i, t.len() as int) == (forall|j: int|
            i <= j < p.len() ==> p[j] == STAR),
    decreases p.len() - i,
{
    if i < p.len() {
        lemma_tail(p, t, cs, i + 1);
        if p[i] == STAR {
            lemma_star(p, t, cs, i, t.len() as int);
            assert(glob_from(p, t, cs, i, t.len() as int) == glob_from(
                p,
                t,
                cs,
                i + 1,
                t.len() as int,
            ));
        } else {
            lemma_step(p, t, cs, i, t.len() as int);
        }
    }
}

fn folded_byte(b: u8) -> (lower: u8)
    ensures
        lower == fold_byte(b),
{
    if 65 <= b && b <= 90 {
        b + 32
    } else {
        b
    }
}

fn bytes_agree(a: u8, b: u8, case_sensitive: bool) -> (yes: bool)
    ensures
        yes == same_byte(a, b, case_sensitive),
{
    if case_sensitive {
        a == b
    } else {
        folded_byte(a) == folded_byte(b)
    }
}

/// `*` and `?` against the whole of `text`, byte by byte, in time proportional
/// to the product of the lengths at worst: only the last star seen is ever
/// extended.
pub fn wildcard_bytes(pattern: &[u8], text: &[u8], case_sensitive: bool) -> (matched: bool)
    ensures
        matched == glob(pattern@, text@, case_sensitive),
{
    let ghost p = pattern@;
    let ghost t = text@;
    let ghost cs = case_sensitive;
    let mut pi: usize = 0;
    let mut ti: usize = 0;
    let mut starred = false;
    let mut star: usize = 0;
    let mut mark: usize = 0;
    proof {
        assert(p.skip(0) == p);
        assert(t.skip(0) == t);
    }
    while ti < text.len()
        invariant
            p == pattern@,
            t == text@,
            cs == case_sensitive,
            pi <= p.len(),
            ti <= t.len(),
            !starred ==> glob(p, t, cs) == glob_from(p, t, cs, pi as int, ti as int),
            starred ==> {
                &&& star < pi
                &&& p[star as int] == STAR
                &&& mark <= ti
                &&& ti - mark == pi - star - 1
                &&& forall|i: int| star < i < pi ==> p[i] != STAR
                &&& glob(p, t, cs) == glob_from(p, t, cs, star as int, mark as int)
                &&& glob_from(p, t, cs, star + 1, mark as int) == glob_from(
                    p,
                    t,
                    cs,
                    pi as int,
                    ti as int,
                )
            },
        decreases
            t.len() - (if starred {
                mark as int
            } else {
                -1
            }),
            t.len() - ti,
            p.len() - pi,
    {
        if pi < pattern.len() && pattern[pi] == STAR {
            proof {
                let here = glob_from(p, t, cs, pi as int, ti as int);
                lemma_star(p, t, cs, pi as int, ti as int);
                if starred {
                    lemma_star(p, t, cs, star as int, mark as int);
                    if glob_from(p, t, cs, star as int, mark as int) {
                        let k = choose|k: int|
                            mark <= k <= t.len() && #[trigger] glob_from(p, t, cs, star + 1, k);
                        lemma_run(p, t, cs, star + 1, pi as int, k);
                        let at = k + (pi - star - 1);
                        lemma_star(p, t, cs, pi as int, at);
                        let m = choose|m: int|
                            at <= m <= t.len() && #[trigger] glob_from(p, t, cs, pi + 1, m);
                        assert(ti <= m <= t.len() && glob_from(p, t, cs, pi + 1, m));
                        assert(here);
                    }
                    if here {
                        assert(glob_from(p, t, cs, star + 1, mark as int));
                    }
                }
                assert(glob(p, t, cs) == here);
            }
            starred = true;
            star = pi;
            mark = ti;
            pi += 1;
        } else if pi < pattern.len() && (pattern[pi] == QUESTION || bytes_agree(
            pattern[pi],
            text[ti],
            case_sensitive,
        )) {
            proof {
                lemma_step(p, t, cs, pi as int, ti as int);
            }
            pi += 1;
            ti += 1;
        } else if starred {
            proof {
                if pi < p.len() {
                    lemma_step(p, t, cs, pi as int, ti as int);
                } else {
                    assert(p.skip(pi as int).len() == 0);
                }
                assert(!glob_from(p, t, cs, star + 1, mark as int));
                lemma_star(p, t, cs, star as int, mark as int);
                lemma_star(p, t, cs, star as int, mark + 1);
                if glob_from(p, t, cs, star as int, mark as int) {
                    let k = choose|k: int|
                        mark <= k <= t.len() && #[trigger] glob_from(p, t, cs, star + 1, k);
                    assert(k != mark);
                    assert(mark + 1 <= k <= t.len() && glob_from(p, t, cs, star + 1, k));
                }
            }
            pi = star + 1;
            mark += 1;
            ti = mark;
        } else {
            proof {
                if pi < p.len() {
                    lemma_step(p, t, cs, pi as int, ti as int);
                } else {
                    assert(p.skip(pi as int).len() == 0);
                }
            }
            return false;
        }
    }
    proof {
        if starred {
            lemma_star(p, t, cs, star as int, mark as int);
            if glob_from(p, t, cs, star as int, mark as int) {
                let k = choose|k: int|
                    mark <= k <= t.len() && #[trigger] glob_from(p, t, cs, star + 1, k);
                lemma_run(p, t, cs, star + 1, pi as int, k);
                assert(k == mark);
            }
        }
        assert(glob(p, t, cs) == glob_from(p, t, cs, pi as int, t.len() as int));
        lemma_tail(p, t, cs, pi as int);
    }
    let ghost resume = pi as int;
    while pi < pattern.len() && pattern[pi] == STAR
        invariant
            p == pattern@,
            resume <= pi <= p.len(),
            forall|j: int| resume <= j < pi ==> p[j] == STAR,
        decreases p.len() - pi,
    {
        pi += 1;
    }
    pi == pattern.len()
}

/// `*` and `?` against the whole of `text`, byte by byte.
///
/// The anchors are the caller's: an equality passes the pattern through, a
/// containment wraps it in stars, and so on, so one matcher covers every string
/// modifier. Bytes outside ASCII are compared verbatim, and `?` consumes one
/// byte rather than one character.
pub fn wildcard(pattern: &str, text: &str, case_sensitive: bool) -> (matched: bool)
    ensures
        matched == glob(encode_utf8(pattern@), encode_utf8(text@), case_sensitive),
{
    wildcard_bytes(pattern.as_bytes(), text.as_bytes(), case_sensitive)
}

/// An address, as the number its bytes spell in network order.
#[derive(Debug, Clone, Copy, PartialEq, Eq, Structural)]
pub enum Address {
    V4(u32),
    V6(u128),
}

/// What the platform's parsers read out of the texts a comparison meets.
///
/// A number is given as a key that orders like the number: of two texts that
/// read as numbers, the smaller number has the smaller key and equal numbers
/// share one. A text that is not listed does not read as that kind of value.
#[derive(Debug, Clone)]
pub struct Readings {
    pub numbers: Vec<(String, i64)>,
    pub addresses: Vec<(String, Address)>,
}

/// The value of the first entry whose key is `key`.
pub open spec fn lookup<T>(entries: Seq<(String, T)>, key: Seq<char>) -> Option<T>
    decreases entries.len(),
{
    if entries.len() == 0 {
        None
    } else if entries[0].0@ == key {
        Some(entries[0].1)
    } else {
        lookup(entries.drop_first(), key)
    }
}

fn find<T: Copy>(entries: &[(String, T)], key: &str) -> (value: Option<T>)
    ensures
        value == lookup(entries@, key@),
{
    let mut i: usize = 0;
    assert(entries@.skip(0) == entries@);
    while i < entries.len()
        invariant
            i <= entries@.len(),
            lookup(entries@, key@) == lookup(entries@.skip(i as int), key@),
        decreases entries@.len() - i,
    {
        if same(entries[i].0.as_str(), key) {
            return Some(entries[i].1);
        }
        assert(entries@.skip(i as int).drop_first() == entries@.skip(i + 1));
        i += 1;
    }
    None
}

impl Readings {
    /// The ordering key of the number a text reads as.
    pub open spec fn number_of(&self, text: Seq<char>) -> Option<i64> {
        lookup(self.numbers@, text)
    }

    /// The address a text reads as.
    pub open spec fn address_of(&self, text: Seq<char>) -> Option<Address> {
        lookup(self.addresses@, text)
    }

    /// Readings in which no text reads as a number or an address.
    pub fn none() -> (readings: Readings)
        ensures
            readings.numbers@.len() == 0,
            readings.addresses@.len() == 0,
    {
        Readings { numbers: Vec::new(), addresses: Vec::new() }
    }

    /// The ordering key of the number a text reads as.
    pub fn number(&self, text: &str) -> (key: Option<i64>)
        ensures
            key == self.number_of(text@),
    {
        find(self.numbers.as_slice(), text)
    }

    /// The address a text reads as.
    pub fn address(&self, text: &str) -> (address: Option<Address>)
        ensures
            address == self.address_of(text@),
    {
        find(self.addresses.as_slice(), text)
    }
}

/// Whether the leading `bits` bits of two words agree.
pub open spec fn same_prefix32(a: u32, b: u32, bits: nat) -> bool {
    bits == 0 || a >> ((32 - bits) as u32) == b >> ((32 - bits) as u32)
}

/// Whether the leading `bits` bits of two double words agree.
pub open spec fn same_prefix128(a: u128, b: u128, bits: nat) -> bool {
    bits == 0 || a >> ((128 - bits) as u128) == b >> ((128 - bits) as u128)
}

/// The prefix length a range gives, and the text in front of it: `None` for a
/// range whose prefix does not read as a byte.
pub open spec fn range_parts(pattern: Seq<char>) -> Option<(Seq<char>, Option<nat>)> {
    let slash = index_from(pattern, '/', 0);
    if slash < pattern.len() {
        match parsed_unsigned(trimmed(pattern.skip(slash + 1)), 255) {
            Some(bits) => Some((pattern.take(slash), Some(bits))),
            None => None,
        }
    } else {
        Some((pattern, None))
    }
}

/// Whether `text` reads as an address inside the range `pattern`. A range
/// without a prefix length is the one address it names.
pub open spec fn inside_range(pattern: Seq<char>, text: Seq<char>, readings: Readings) -> bool {
    match range_parts(pattern) {
        None => false,
        Some((net, bits)) => match (
            readings.address_of(trimmed(net)),
            readings.address_of(trimmed(text)),
        ) {
            (Some(Address::V4(a)), Some(Address::V4(b))) => {
                let n = if bits is Some {
                    bits->0
                } else {
                    32
                };
                n <= 32 && same_prefix32(a, b, n)
            },
            (Some(Address::V6(a)), Some(Address::V6(b))) => {
                let n = if bits is Some {
                    bits->0
                } else {
                    128
                };
                n <= 128 && same_prefix128(a, b, n)
            },
            _ => false,
        },
    }
}

fn prefix32_agrees(a: u32, b: u32, bits: u8) -> (yes: bool)
    requires
        bits <= 32,
    ensures
        yes == same_prefix32(a, b, bits as nat),
{
    if bits == 0 {
        true
    } else {
        let shift: u32 = 32 - bits as u32;
        a >> shift == b >> shift
    }
}

fn prefix128_agrees(a: u128, b: u128, bits: u8) -> (yes: bool)
    requires
        bits <= 128,
    ensures
        yes == same_prefix128(a, b, bits as nat),
{
    if bits == 0 {
        true
    } else {
        let shift: u128 = 128 - bits as u128;
        a >> shift == b >> shift
    }
}

/// The text a range gives its network's address as.
pub open spec fn network_text(pattern: Seq<char>) -> Seq<char> {
    trimmed(pattern.take(index_from(pattern, '/', 0)))
}

/// The text a range gives its network's address as: what stands in front of the
/// prefix length, without the space around it.
pub fn network_of(pattern: &str) -> (net: String)
    ensures
        net@ == network_text(pattern@),
{
    let chars = chars_of(pattern);
    let slash: usize = find_from(chars.as_slice(), '/', 0);
    let net = copy_range(chars.as_slice(), 0, slash);
    assert(net@ == pattern@.take(slash as int));
    text_of(trim(net.as_slice()).as_slice())
}

/// Whether `text` is an address inside the range `pattern`.
pub fn cidr_match(pattern: &str, text: &str, readings: &Readings) -> (inside: bool)
    ensures
        inside == inside_range(pattern@, text@, *readings),
{
    let chars = chars_of(pattern);
    let slash: usize = find_from(chars.as_slice(), '/', 0);
    let mut bits: Option<u8> = None;
    if slash < chars.len() {
        let rest = copy_range(chars.as_slice(), slash + 1, chars.len());
        assert(rest@ == pattern@.skip(slash + 1));
        let inner = trim(rest.as_slice());
        match parse_unsigned(inner.as_slice(), 255) {
            Some(n) => {
                bits = Some(n as u8);
            },
            None => {
                return false;
            },
        }
    }
    assert(slash == chars@.len() ==> pattern@.take(slash as int) == pattern@);
    let net = network_of(pattern);
    let host = text_of(trim(chars_of(text).as_slice()).as_slice());
    match (readings.address(net.as_str()), readings.address(host.as_str())) {
        (Some(Address::V4(a)), Some(Address::V4(b))) => {
            let n: u8 = match bits {
                Some(n) => n,
                None => 32,
            };
            n <= 32 && prefix32_agrees(a, b, n)
        },
        (Some(Address::V6(a)), Some(Address::V6(b))) => {
            let n: u8 = match bits {
                Some(n) => n,
                None => 128,
            };
            n <= 128 && prefix128_agrees(a, b, n)
        },
        _ => false,
    }
}

} // verus!
