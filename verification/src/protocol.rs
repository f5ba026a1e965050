//! The wire contract between client and server.
//!
//! A client holds two credentials. An enrolment token is good for one thing:
//! exchanging itself for a host token. A host token is unique per host and the
//! only thing used from then on. It names its host, so the server looks up one
//! record and compares one secret, and stores only a hash of that secret.
use crate::model::alert::Alert;
use crate::model::event::TelemetryEvent;
use crate::model::time::Timestamp;
use crate::text::{
    chars_of, concat3, copy_range, find_from, fold, folded, index_from, lemma_index_from,
    text_of,
};
use vstd::prelude::*;

verus! {

/// Bumped when a change to these types is not backward compatible.
pub const API_VERSION: u16 = 1;

pub const HEALTH_PATH: &'static str = "/health";

pub const ENROLL_PATH: &'static str = "/v1/enroll";

pub const INGEST_PATH: &'static str = "/v1/ingest";

/// Carries the bootstrap secret: a request header rather than a body field, so
/// that it never lands in a log of bodies.
pub const ENROLLMENT_HEADER: &'static str = "x-enrollment-token";

pub const BEARER_SCHEME: &'static str = "Bearer";

/// Largest batch a client may submit.
pub const MAX_BATCH_EVENTS: usize = 5_000;

#[derive(Debug, Clone)]
pub struct EnrollRequest {
    pub hostname: String,
    pub os: String,
    pub agent_version: String,
}

#[derive(Debug, Clone)]
pub struct EnrollResponse {
    pub host_id: String,
    /// Returned exactly once. The server keeps only a hash of it.
    pub host_token: String,
    pub server_time: Timestamp,
}

#[derive(Debug, Clone)]
pub struct IngestRequest {
    /// Client-generated, unique per batch. Retries reuse it.
    pub batch_id: String,
    pub sent_at: Timestamp,
    pub events: Vec<TelemetryEvent>,
    pub alerts: Vec<Alert>,
}

#[derive(Debug, Clone)]
pub struct IngestResponse {
    pub accepted_events: usize,
    /// Alerts the server counted as new.
    pub accepted_alerts: usize,
    /// Set when the batch had already been seen.
    pub duplicate: bool,
    pub server_time: Timestamp,
}

#[derive(Debug, Clone)]
pub struct HealthResponse {
    pub status: &'static str,
    pub api_version: u16,
}

/// The only error shape the API returns. The detail is for the operator reading
/// a log, never for the caller.
#[derive(Debug, Clone)]
pub struct ApiError {
    pub error: String,
    pub detail: Option<String>,
}

impl ApiError {
    pub fn new(error: &str) -> (e: ApiError)
        ensures
            e.error@ == error@,
            e.detail is None,
    {
        ApiError { error: error.to_string(), detail: None }
    }

    pub fn with_detail(error: &str, detail: &str) -> (e: ApiError)
        ensures
            e.error@ == error@,
            e.detail matches Some(d) && d@ == detail@,
    {
        ApiError { error: error.to_string(), detail: Some(detail.to_string()) }
    }
}

/// Whether a character is a lowercase hexadecimal digit.
pub open spec fn hex_digit(c: char) -> bool {
    ('0' <= c && c <= '9') || ('a' <= c && c <= 'f')
}

/// Whether a text is exactly `n` lowercase hexadecimal digits.
pub open spec fn hex_of(s: Seq<char>, n: nat) -> bool {
    s.len() == n && forall|i: int| 0 <= i < s.len() ==> hex_digit(#[trigger] s[i])
}

fn is_hex_of(value: &str, n: usize) -> (yes: bool)
    ensures
        yes == hex_of(value@, n as nat),
{
    let chars = chars_of(value);
    if chars.len() != n {
        return false;
    }
    let mut i: usize = 0;
    while i < chars.len()
        invariant
            i <= chars@.len(),
            chars@ == value@,
            forall|k: int| 0 <= k < i ==> hex_digit(#[trigger] value@[k]),
        decreases chars@.len() - i,
    {
        let c: char = chars[i];
        if !(('0' <= c && c <= '9') || ('a' <= c && c <= 'f')) {
            assert(!hex_digit(value@[i as int]));
            return false;
        }
        i += 1;
    }
    true
}

/// Sixteen lowercase hexadecimal digits: the public half of a token.
pub fn is_host_id(value: &str) -> (yes: bool)
    ensures
        yes == hex_of(value@, 16),
{
    is_hex_of(value, 16)
}

/// Sixty-four lowercase hexadecimal digits: the secret half of a token.
pub fn is_secret(value: &str) -> (yes: bool)
    ensures
        yes == hex_of(value@, 64),
{
    is_hex_of(value, 64)
}

/// A parsed credential: a host id, a dot, and a secret.
#[derive(Debug, Clone, PartialEq, Eq)]
pub struct HostToken {
    pub host_id: String,
    secret: String,
}

/// The two halves of a credential, where it has the right shape.
pub open spec fn halves(raw: Seq<char>) -> Option<(Seq<char>, Seq<char>)> {
    let dot = index_from(raw, '.', 0);
    if dot < raw.len() && hex_of(raw.take(dot), 16) && hex_of(raw.skip(dot + 1), 64) {
        Some((raw.take(dot), raw.skip(dot + 1)))
    } else {
        None
    }
}

/// The credential in an authorization value: a scheme in any case, one space,
/// and the token exactly as it stands.
pub open spec fn authorized(value: Seq<char>) -> Option<(Seq<char>, Seq<char>)> {
    let space = index_from(value, ' ', 0);
    if space < value.len() && folded(value.take(space)) == folded(BEARER_SCHEME@) {
        halves(value.skip(space + 1))
    } else {
        None
    }
}

/// A credential as it is sent.
pub open spec fn encoded(host_id: Seq<char>, secret: Seq<char>) -> Seq<char> {
    host_id + "."@ + secret
}

/// What is sent parses back to the same halves.
pub proof fn tokens_round_trip(host_id: Seq<char>, secret: Seq<char>)
    requires
        hex_of(host_id, 16),
        hex_of(secret, 64),
    ensures
        halves(encoded(host_id, secret)) == Some((host_id, secret)),
{
    reveal_strlit(".");
    let raw = encoded(host_id, secret);
    lemma_index_from(raw, '.', 0);
    let dot = index_from(raw, '.', 0);
    assert(raw[16] == '.');
    if dot < 16 {
        assert(raw[dot] == host_id[dot]);
        assert(hex_digit(host_id[dot]));
    }
    assert(dot == 16);
    assert(raw.take(16) == host_id);
    assert(raw.skip(17) == secret);
}

/// Only what is sent for some credential parses: two different texts never mean
/// the same credential.
pub proof fn tokens_have_one_form(raw: Seq<char>)
    requires
        halves(raw) is Some,
    ensures
        raw == encoded((halves(raw)->0).0, (halves(raw)->0).1),
{
    reveal_strlit(".");
    lemma_index_from(raw, '.', 0);
    let dot = index_from(raw, '.', 0);
    assert(raw == encoded(raw.take(dot), raw.skip(dot + 1)));
}

impl HostToken {
    /// Both halves have the shape of their kind.
    pub open spec fn wf(&self) -> bool {
        hex_of(self.id_text(), 16) && hex_of(self.secret_text(), 64)
    }

    /// The public half.
    pub closed spec fn id_text(&self) -> Seq<char> {
        self.host_id@
    }

    /// The secret half.
    pub closed spec fn secret_text(&self) -> Seq<char> {
        self.secret@
    }

    /// Parses without validating the secret. Only the shape is checked, so a
    /// malformed token is rejected before any lookup. The first dot separates.
    pub fn parse(raw: &str) -> (token: Option<HostToken>)
        ensures
            match token {
                Some(t) => t.wf() && halves(raw@) == Some((t.id_text(), t.secret_text())),
                None => halves(raw@) is None,
            },
    {
        HostToken::parse_chars(chars_of(raw).as_slice())
    }

    fn parse_chars(raw: &[char]) -> (token: Option<HostToken>)
        ensures
            match token {
                Some(t) => t.wf() && halves(raw@) == Some((t.id_text(), t.secret_text())),
                None => halves(raw@) is None,
            },
    {
        let dot: usize = find_from(raw, '.', 0);
        if dot >= raw.len() {
            return None;
        }
        let host_id = text_of(copy_range(raw, 0, dot).as_slice());
        let secret = text_of(copy_range(raw, dot + 1, raw.len()).as_slice());
        assert(host_id@ == raw@.take(dot as int));
        assert(secret@ == raw@.skip(dot + 1));
        if !is_host_id(host_id.as_str()) || !is_secret(secret.as_str()) {
            return None;
        }
        Some(HostToken { host_id, secret })
    }

    /// A credential from its halves, where both have the right shape.
    pub fn new(host_id: String, secret: String) -> (token: Option<HostToken>)
        ensures
            match token {
                Some(t) => t.wf() && t.id_text() == host_id@ && t.secret_text() == secret@,
                None => !(hex_of(host_id@, 16) && hex_of(secret@, 64)),
            },
    {
        if is_host_id(host_id.as_str()) && is_secret(secret.as_str()) {
            Some(HostToken { host_id, secret })
        } else {
            None
        }
    }

    /// The credential as it is sent.
    pub fn encode(&self) -> (raw: String)
        ensures
            raw@ == encoded(self.id_text(), self.secret_text()),
    {
        concat3(self.host_id.as_str(), ".", self.secret.as_str())
    }

    /// The public half, by which the server finds the host.
    pub fn host_id(&self) -> (host_id: &str)
        ensures
            host_id@ == self.id_text(),
    {
        self.host_id.as_str()
    }

    /// The secret half, the only part the server need not store.
    pub fn secret(&self) -> (secret: &str)
        ensures
            secret@ == self.secret_text(),
    {
        self.secret.as_str()
    }

    /// Extracts the token from an authorization value.
    ///
    /// The scheme is compared in any case, but the token is neither trimmed nor
    /// normalised beyond the single separating space: accepting variants of
    /// white space is how one ends up with two tokens that mean the same thing.
    pub fn from_authorization(value: &str) -> (token: Option<HostToken>)
        ensures
            match token {
                Some(t) => t.wf() && authorized(value@) == Some((t.id_text(), t.secret_text())),
                None => authorized(value@) is None,
            },
    {
        let chars = chars_of(value);
        let space: usize = find_from(chars.as_slice(), ' ', 0);
        if space >= chars.len() {
            return None;
        }
        let scheme = copy_range(chars.as_slice(), 0, space);
        assert(scheme@ == value@.take(space as int));
        if !same_folded(scheme.as_slice(), chars_of(BEARER_SCHEME).as_slice()) {
            return None;
        }
        let rest = copy_range(chars.as_slice(), space + 1, chars.len());
        assert(rest@ == value@.skip(space + 1));
        HostToken::parse_chars(rest.as_slice())
    }
}

fn same_folded(a: &[char], b: &[char]) -> (equal: bool)
    ensures
        equal == (folded(a@) == folded(b@)),
{
    if a.len() != b.len() {
        assert(folded(a@).len() != folded(b@).len());
        return false;
    }
    let mut i: usize = 0;
    while i < a.len()
        invariant
            i <= a@.len(),
            a@.len() == b@.len(),
            forall|k: int| 0 <= k < i ==> folded(a@)[k] == folded(b@)[k],
        decreases a@.len() - i,
    {
        if fold(a[i]) != fold(b[i]) {
            assert(folded(a@)[i as int] != folded(b@)[i as int]);
            return false;
        }
        i += 1;
    }
    assert(folded(a@) == folded(b@));
    true
}

/// A difference is kept once it is found, and is there where two bytes differ.
proof fn lemma_gathers(d: u8, x: u8, y: u8)
    by (bit_vector)
    ensures
        (d | (x ^ y) == 0) <==> (d == 0 && x == y),
{
}

/// Byte comparison whose running time depends on the lengths alone: the contents
/// decide no branch.
pub fn constant_time_eq(a: &[u8], b: &[u8]) -> (equal: bool)
    ensures
        equal == (a@ == b@),
{
    if a.len() != b.len() {
        return false;
    }
    let mut difference: u8 = 0;
    let mut i: usize = 0;
    assert(a@.take(0) == b@.take(0));
    while i < a.len()
        invariant
            i <= a@.len(),
            a@.len() == b@.len(),
            (difference == 0) == (a@.take(i as int) == b@.take(i as int)),
        decreases a@.len() - i,
    {
        let x: u8 = a[i];
        let y: u8 = b[i];
        proof {
            lemma_gathers(difference, x, y);
            let p = a@.take(i + 1);
            let q = b@.take(i + 1);
            assert(p == a@.take(i as int).push(x));
            assert(q == b@.take(i as int).push(y));
            if p == q {
                assert(p[i as int] == q[i as int]);
                assert(p.take(i as int) == a@.take(i as int));
                assert(q.take(i as int) == b@.take(i as int));
            }
        }
        difference = difference | (x ^ y);
        i += 1;
    }
    assert(a@.take(i as int) == a@);
    assert(b@.take(i as int) == b@);
    difference == 0
}

/// The lowercase hexadecimal digit of a value below sixteen.
pub open spec fn hex_char(n: int) -> char {
    if n < 10 {
        ((48 + n) as u8) as char
    } else {
        ((87 + n) as u8) as char
    }
}

/// The value of a lowercase hexadecimal digit.
pub open spec fn hex_value(c: char) -> int {
    if c <= '9' {
        c as u8 - 48
    } else {
        c as u8 - 87
    }
}

/// Bytes in lowercase hexadecimal, two digits each, the high one first.
pub open spec fn hex_text(bytes: Seq<u8>) -> Seq<char> {
    Seq::new(
        2 * bytes.len(),
        |i: int|
            if i % 2 == 0 {
                hex_char((bytes[i / 2] / 16) as int)
            } else {
                hex_char((bytes[i / 2] % 16) as int)
            },
    )
}

fn hex_nibble(n: u8) -> (c: char)
    requires
        n < 16,
    ensures
        c == hex_char(n as int),
{
    if n < 10 {
        (48 + n) as char
    } else {
        (87 + n) as char
    }
}

/// Lowercase hexadecimal encoding.
pub fn to_hex(bytes: &[u8]) -> (text: String)
    ensures
        text@ == hex_text(bytes@),
{
    let mut out = String::new();
    let ghost whole = hex_text(bytes@);
    let mut i: usize = 0;
    while i < bytes.len()
        invariant
            i <= bytes@.len(),
            whole == hex_text(bytes@),
            out@ == whole.take(2 * i),
        decreases bytes@.len() - i,
    {
        let byte: u8 = bytes[i];
        out.push(hex_nibble(byte / 16));
        out.push(hex_nibble(byte % 16));
        proof {
            let n = 2 * i as int;
            assert(n / 2 == i && (n + 1) / 2 == i);
            assert(whole[n] == hex_char((byte / 16) as int));
            assert(whole[n + 1] == hex_char((byte % 16) as int));
            assert(whole.take(n + 2) == whole.take(n).push(whole[n]).push(whole[n + 1]));
        }
        i += 1;
    }
    assert(whole.take(2 * i) == whole);
    out
}

/// Hexadecimal has two digits per byte, all of them lowercase hexadecimal, and
/// the bytes can be read back from them.
pub proof fn hex_round_trips(bytes: Seq<u8>, i: int)
    requires
        0 <= i < bytes.len(),
    ensures
        hex_text(bytes).len() == 2 * bytes.len(),
        hex_digit(hex_text(bytes)[2 * i]),
        hex_digit(hex_text(bytes)[2 * i + 1]),
        hex_value(hex_text(bytes)[2 * i]) * 16 + hex_value(hex_text(bytes)[2 * i + 1]) == bytes[i],
{
    assert((2 * i) / 2 == i && (2 * i + 1) / 2 == i);
    assert((2 * i) % 2 == 0 && (2 * i + 1) % 2 == 1);
}

/// The digits are the sixteen of hexadecimal in lower case, each the digit of its
/// value.
pub proof fn digits_are_lowercase_hexadecimal(c: char, n: int)
    requires
        0 <= n < 16,
    ensures
        hex_digit(c) <==> "0123456789abcdef"@.contains(c),
        hex_char(n) == "0123456789abcdef"@[n],
{
    reveal_strlit("0123456789abcdef");
    let all = "0123456789abcdef"@;
    assert forall|i: int| 0 <= i < 16 implies hex_digit(#[trigger] all[i]) by {}
    if hex_digit(c) {
        let value = hex_value(c);
        assert(all[value] == c);
    }
}

/// Bytes are written with the high digit first.
pub proof fn bytes_are_written_high_digit_first(bytes: Seq<u8>, i: int)
    requires
        0 <= i < bytes.len(),
    ensures
        hex_text(bytes)[2 * i] == "0123456789abcdef"@[bytes[i] as int / 16],
        hex_text(bytes)[2 * i + 1] == "0123456789abcdef"@[bytes[i] as int % 16],
{
    assert((2 * i) / 2 == i && (2 * i + 1) / 2 == i);
    assert((2 * i) % 2 == 0 && (2 * i + 1) % 2 == 1);
    digits_are_lowercase_hexadecimal('0', bytes[i] as int / 16);
    digits_are_lowercase_hexadecimal('0', bytes[i] as int % 16);
}

proof fn lemma_bearer()
    ensures
        folded(BEARER_SCHEME@) == "bearer"@,
        !"bearer"@.contains(' '),
{
    reveal_strlit("Bearer");
    reveal_strlit("bearer");
    assert(folded("Bearer"@) == "bearer"@);
}

/// An authorization is the scheme in any case, one space, and a credential of
/// sixteen digits, a dot and sixty-four digits: each such value is read as its
/// credential.
pub proof fn bearers_are_read(scheme: Seq<char>, host_id: Seq<char>, secret: Seq<char>)
    requires
        folded(scheme) == "bearer"@,
        hex_of(host_id, 16),
        hex_of(secret, 64),
    ensures
        authorized(scheme + seq![' '] + (host_id + seq!['.'] + secret)) == Some((host_id, secret)),
{
    lemma_bearer();
    reveal_strlit(".");
    let token = host_id + seq!['.'] + secret;
    assert("."@ == seq!['.']);
    tokens_round_trip(host_id, secret);
    let value = scheme + seq![' '] + token;
    lemma_index_from(value, ' ', 0);
    assert(value[scheme.len() as int] == ' ');
    let space = index_from(value, ' ', 0);
    if space < scheme.len() {
        assert(value[space] == scheme[space]);
        assert(folded(scheme)[space] == ' ');
        assert("bearer"@.contains(' '));
    }
    assert(value.take(space) == scheme);
    assert(value.skip(space + 1) == token);
}

/// Nothing else is read as a credential.
pub proof fn only_bearers_are_read(value: Seq<char>)
    requires
        authorized(value) is Some,
    ensures
        ({
            let (host_id, secret) = authorized(value)->0;
            &&& hex_of(host_id, 16)
            &&& hex_of(secret, 64)
            &&& exists|scheme: Seq<char>|
                #![trigger folded(scheme)]
                folded(scheme) == "bearer"@ && value == scheme + seq![' '] + (host_id + seq!['.']
                    + secret)
        }),
{
    lemma_bearer();
    reveal_strlit(".");
    assert("."@ == seq!['.']);
    lemma_index_from(value, ' ', 0);
    let space = index_from(value, ' ', 0);
    let (host_id, secret) = authorized(value)->0;
    let scheme = value.take(space);
    tokens_have_one_form(value.skip(space + 1));
    assert(folded(scheme) == "bearer"@);
    assert(value == scheme + seq![' '] + value.skip(space + 1));
}

} // verus!
