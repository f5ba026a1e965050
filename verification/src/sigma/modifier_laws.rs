//! What a key and its modifiers ask of a field's value.
use super::detect::{
    adjust, adjustments, anchored, needle_matches, needles_of, refers, scalars_of, test_holds,
    test_of, unadjusted, Adjusted, Op, Test,
};
use super::pattern::{glob, inside_range, same_byte, Readings, QUESTION, STAR};
use super::view::{field_datum, Datum, Fields};
use super::yaml::Node;
use crate::text::{all_ascii, fold_char, folded, index_from, lemma_index_from, pieces, trimmed};
use vstd::prelude::*;
use vstd::utf8::{encode_utf8, is_ascii_chars_encode_utf8};

verus! {

/// Whether a needle stands for itself: it is ASCII and holds no wildcard.
pub open spec fn literal(needle: Seq<char>) -> bool {
    all_ascii(needle) && !needle.contains('*') && !needle.contains('?')
}

/// Whether a key names a field and nothing else.
pub open spec fn plain_field(field: Seq<char>) -> bool {
    field.len() > 0 && !field.contains('|')
}

/// Whether one text stands at the start of another.
pub open spec fn begins(text: Seq<char>, part: Seq<char>) -> bool {
    part.len() <= text.len() && text.take(part.len() as int) == part
}

/// Whether one text stands at the end of another.
pub open spec fn ends(text: Seq<char>, part: Seq<char>) -> bool {
    part.len() <= text.len() && text.skip(text.len() - part.len()) == part
}

/// Whether one text stands somewhere in another.
pub open spec fn holds_part(text: Seq<char>, part: Seq<char>) -> bool {
    exists|before: Seq<char>, after: Seq<char>| text == #[trigger] (before + part + after)
}

/// Whether the test that a key and a value make holds of an event's fields; a key
/// and a value that make no test hold of nothing.
pub open spec fn key_holds(
    key: Seq<char>,
    value: Node,
    fields: Fields,
    readings: Readings,
) -> bool {
    match test_of(seq![], key, value) {
        Ok(test) => test_holds(test, fields, readings),
        Err(_) => false,
    }
}

proof fn lemma_pieces_split(a: Seq<char>, b: Seq<char>)
    requires
        !a.contains('|'),
    ensures
        pieces(a + seq!['|'] + b, '|') == seq![a] + pieces(b, '|'),
        pieces(a, '|') == seq![a],
{
    let whole = a + seq!['|'] + b;
    lemma_index_from(whole, '|', 0);
    lemma_index_from(a, '|', 0);
    let at = index_from(whole, '|', 0);
    assert(whole[a.len() as int] == '|');
    if at < a.len() {
        assert(whole[at] == a[at]);
        assert(a.contains(a[at]));
    }
    assert(at == a.len());
    assert(whole.take(at) == a);
    assert(whole.skip(at + 1) == b);
    let none = index_from(a, '|', 0);
    if none < a.len() {
        assert(a.contains(a[none]));
    }
}

proof fn lemma_words()
    ensures
        !"contains"@.contains('|'),
        !"startswith"@.contains('|'),
        !"endswith"@.contains('|'),
        !"cidr"@.contains('|'),
        !"gt"@.contains('|'),
        !"gte"@.contains('|'),
        !"lt"@.contains('|'),
        !"lte"@.contains('|'),
        !"fieldref"@.contains('|'),
        !"all"@.contains('|'),
        !"cased"@.contains('|'),
        "|contains"@ == seq!['|'] + "contains"@,
        "|startswith"@ == seq!['|'] + "startswith"@,
        "|endswith"@ == seq!['|'] + "endswith"@,
        "|cidr"@ == seq!['|'] + "cidr"@,
        "|gt"@ == seq!['|'] + "gt"@,
        "|gte"@ == seq!['|'] + "gte"@,
        "|lt"@ == seq!['|'] + "lt"@,
        "|lte"@ == seq!['|'] + "lte"@,
        "|fieldref"@ == seq!['|'] + "fieldref"@,
        "|all"@ == seq!['|'] + "all"@,
        "|cased"@ == seq!['|'] + "cased"@,
{
    reveal_strlit("contains");
    reveal_strlit("startswith");
    reveal_strlit("endswith");
    reveal_strlit("cidr");
    reveal_strlit("gt");
    reveal_strlit("gte");
    reveal_strlit("lt");
    reveal_strlit("lte");
    reveal_strlit("fieldref");
    reveal_strlit("all");
    reveal_strlit("cased");
    reveal_strlit("|contains");
    reveal_strlit("|startswith");
    reveal_strlit("|endswith");
    reveal_strlit("|cidr");
    reveal_strlit("|gt");
    reveal_strlit("|gte");
    reveal_strlit("|lt");
    reveal_strlit("|lte");
    reveal_strlit("|fieldref");
    reveal_strlit("|all");
    reveal_strlit("|cased");
}

proof fn lemma_words_differ()
    ensures
        "contains"@ != "startswith"@,
        "contains"@ != "endswith"@,
        "contains"@ != "cidr"@,
        "contains"@ != "gt"@,
        "contains"@ != "gte"@,
        "contains"@ != "lt"@,
        "contains"@ != "lte"@,
        "contains"@ != "fieldref"@,
        "contains"@ != "all"@,
        "contains"@ != "cased"@,
        "contains"@ != "case_sensitive"@,
        "startswith"@ != "endswith"@,
        "startswith"@ != "cidr"@,
        "startswith"@ != "gt"@,
        "startswith"@ != "gte"@,
        "startswith"@ != "lt"@,
        "startswith"@ != "lte"@,
        "startswith"@ != "fieldref"@,
        "startswith"@ != "all"@,
        "startswith"@ != "cased"@,
        "startswith"@ != "case_sensitive"@,
        "endswith"@ != "cidr"@,
        "endswith"@ != "gt"@,
        "endswith"@ != "gte"@,
        "endswith"@ != "lt"@,
        "endswith"@ != "lte"@,
        "endswith"@ != "fieldref"@,
        "endswith"@ != "all"@,
        "endswith"@ != "cased"@,
        "endswith"@ != "case_sensitive"@,
        "cidr"@ != "gt"@,
        "cidr"@ != "gte"@,
        "cidr"@ != "lt"@,
        "cidr"@ != "lte"@,
        "cidr"@ != "fieldref"@,
        "cidr"@ != "all"@,
        "cidr"@ != "cased"@,
        "cidr"@ != "case_sensitive"@,
        "gt"@ != "gte"@,
        "gt"@ != "lt"@,
        "gt"@ != "lte"@,
        "gt"@ != "fieldref"@,
        "gt"@ != "all"@,
        "gt"@ != "cased"@,
        "gt"@ != "case_sensitive"@,
        "gte"@ != "lt"@,
        "gte"@ != "lte"@,
        "gte"@ != "fieldref"@,
        "gte"@ != "all"@,
        "gte"@ != "cased"@,
        "gte"@ != "case_sensitive"@,
        "lt"@ != "lte"@,
        "lt"@ != "fieldref"@,
        "lt"@ != "all"@,
        "lt"@ != "cased"@,
        "lt"@ != "case_sensitive"@,
        "lte"@ != "fieldref"@,
        "lte"@ != "all"@,
        "lte"@ != "cased"@,
        "lte"@ != "case_sensitive"@,
        "fieldref"@ != "all"@,
        "fieldref"@ != "cased"@,
        "fieldref"@ != "case_sensitive"@,
        "all"@ != "cased"@,
        "all"@ != "case_sensitive"@,
        "cased"@ != "case_sensitive"@,
{
    reveal_strlit("contains");
    reveal_strlit("startswith");
    reveal_strlit("endswith");
    reveal_strlit("cidr");
    reveal_strlit("gt");
    reveal_strlit("gte");
    reveal_strlit("lt");
    reveal_strlit("lte");
    reveal_strlit("fieldref");
    reveal_strlit("all");
    reveal_strlit("cased");
    reveal_strlit("case_sensitive");
    assert("contains"@.len() != "startswith"@.len());
    assert("contains"@[0] != "endswith"@[0]);
    assert("contains"@.len() != "cidr"@.len());
    assert("contains"@.len() != "gt"@.len());
    assert("contains"@.len() != "gte"@.len());
    assert("contains"@.len() != "lt"@.len());
    assert("contains"@.len() != "lte"@.len());
    assert("contains"@[0] != "fieldref"@[0]);
    assert("contains"@.len() != "all"@.len());
    assert("contains"@.len() != "cased"@.len());
    assert("contains"@.len() != "case_sensitive"@.len());
    assert("startswith"@.len() != "endswith"@.len());
    assert("startswith"@.len() != "cidr"@.len());
    assert("startswith"@.len() != "gt"@.len());
    assert("startswith"@.len() != "gte"@.len());
    assert("startswith"@.len() != "lt"@.len());
    assert("startswith"@.len() != "lte"@.len());
    assert("startswith"@.len() != "fieldref"@.len());
    assert("startswith"@.len() != "all"@.len());
    assert("startswith"@.len() != "cased"@.len());
    assert("startswith"@.len() != "case_sensitive"@.len());
    assert("endswith"@.len() != "cidr"@.len());
    assert("endswith"@.len() != "gt"@.len());
    assert("endswith"@.len() != "gte"@.len());
    assert("endswith"@.len() != "lt"@.len());
    assert("endswith"@.len() != "lte"@.len());
    assert("endswith"@[0] != "fieldref"@[0]);
    assert("endswith"@.len() != "all"@.len());
    assert("endswith"@.len() != "cased"@.len());
    assert("endswith"@.len() != "case_sensitive"@.len());
    assert("cidr"@.len() != "gt"@.len());
    assert("cidr"@.len() != "gte"@.len());
    assert("cidr"@.len() != "lt"@.len());
    assert("cidr"@.len() != "lte"@.len());
    assert("cidr"@.len() != "fieldref"@.len());
    assert("cidr"@.len() != "all"@.len());
    assert("cidr"@.len() != "cased"@.len());
    assert("cidr"@.len() != "case_sensitive"@.len());
    assert("gt"@.len() != "gte"@.len());
    assert("gt"@[0] != "lt"@[0]);
    assert("gt"@.len() != "lte"@.len());
    assert("gt"@.len() != "fieldref"@.len());
    assert("gt"@.len() != "all"@.len());
    assert("gt"@.len() != "cased"@.len());
    assert("gt"@.len() != "case_sensitive"@.len());
    assert("gte"@.len() != "lt"@.len());
    assert("gte"@[0] != "lte"@[0]);
    assert("gte"@.len() != "fieldref"@.len());
    assert("gte"@[0] != "all"@[0]);
    assert("gte"@.len() != "cased"@.len());
    assert("gte"@.len() != "case_sensitive"@.len());
    assert("lt"@.len() != "lte"@.len());
    assert("lt"@.len() != "fieldref"@.len());
    assert("lt"@.len() != "all"@.len());
    assert("lt"@.len() != "cased"@.len());
    assert("lt"@.len() != "case_sensitive"@.len());
    assert("lte"@.len() != "fieldref"@.len());
    assert("lte"@[0] != "all"@[0]);
    assert("lte"@.len() != "cased"@.len());
    assert("lte"@.len() != "case_sensitive"@.len());
    assert("fieldref"@.len() != "all"@.len());
    assert("fieldref"@.len() != "cased"@.len());
    assert("fieldref"@.len() != "case_sensitive"@.len());
    assert("all"@.len() != "cased"@.len());
    assert("all"@.len() != "case_sensitive"@.len());
    assert("cased"@.len() != "case_sensitive"@.len());
}

/// The pieces of a key with one modifier, and of a key with two.
proof fn lemma_key(field: Seq<char>, word: Seq<char>, second: Seq<char>)
    requires
        plain_field(field),
        !word.contains('|'),
        !second.contains('|'),
    ensures
        pieces(field, '|') == seq![field],
        pieces(field + (seq!['|'] + word), '|') == seq![field, word],
        pieces(field + (seq!['|'] + word) + (seq!['|'] + second), '|') == seq![
            field,
            word,
            second,
        ],
{
    lemma_pieces_split(word, second);
    lemma_pieces_split(second, second);
    lemma_pieces_split(field, word);
    assert(field + (seq!['|'] + word) == field + seq!['|'] + word);
    assert(seq![field] + seq![word] == seq![field, word]);
    let tail = word + seq!['|'] + second;
    lemma_pieces_split(field, tail);
    assert(field + (seq!['|'] + word) + (seq!['|'] + second) == field + seq!['|'] + tail);
    assert(seq![word] + seq![second] == seq![word, second]);
    assert(seq![field] + seq![word, second] == seq![field, word, second]);
}

/// What a key with at most two modifiers and a text make.
proof fn lemma_test(
    field: Seq<char>,
    word: Seq<char>,
    second: Seq<char>,
    value: Node,
)
    requires
        plain_field(field),
        !word.contains('|'),
        !second.contains('|'),
        !(value is Null),
        needles_of(seq![], field, value) is Ok,
    ensures
        ({
            let needles = needles_of(seq![], field, value)->Ok_0;
            &&& test_of(seq![], field, value) == Ok::<Test, Seq<char>>(
                Test { field, op: Op::Equals, needles, all: false, cased: false },
            )
            &&& match adjust(unadjusted(), word) {
                Some(one) => {
                    &&& test_of(seq![], field + (seq!['|'] + word), value) == Ok::<
                        Test,
                        Seq<char>,
                    >(Test { field, op: one.op, needles, all: one.all, cased: one.cased })
                    &&& match adjust(one, second) {
                        Some(two) => test_of(
                            seq![],
                            field + (seq!['|'] + word) + (seq!['|'] + second),
                            value,
                        ) == Ok::<Test, Seq<char>>(
                            Test { field, op: two.op, needles, all: two.all, cased: two.cased },
                        ),
                        None => test_of(
                            seq![],
                            field + (seq!['|'] + word) + (seq!['|'] + second),
                            value,
                        ) is Err,
                    }
                },
                None => test_of(seq![], field + (seq!['|'] + word), value) is Err,
            }
        }),
{
    lemma_key(field, word, second);
    let one = seq![field];
    let two = seq![field, word];
    let three = seq![field, word, second];
    assert(adjustments(one, 1) == Ok::<Adjusted, Seq<char>>(unadjusted()));
    assert(adjustments(two, 1) == Ok::<Adjusted, Seq<char>>(unadjusted()));
    assert(adjustments(three, 1) == Ok::<Adjusted, Seq<char>>(unadjusted()));
    assert(two[1] == word);
    assert(three[1] == word);
    assert(three[2] == second);
    reveal_with_fuel(adjustments, 3);
}

/// Whether two byte strings agree byte by byte.
spec fn agree(a: Seq<u8>, b: Seq<u8>, cased: bool) -> bool {
    a.len() == b.len() && forall|i: int|
        0 <= i < a.len() ==> same_byte(#[trigger] a[i], b[i], cased)
}

spec fn no_wildcard(bytes: Seq<u8>) -> bool {
    forall|i: int| 0 <= i < bytes.len() ==> #[trigger] bytes[i] != STAR && bytes[i] != QUESTION
}

proof fn lemma_glob_run(run: Seq<u8>, rest: Seq<u8>, text: Seq<u8>, cased: bool)
    requires
        no_wildcard(run),
    ensures
        glob(run + rest, text, cased) == (run.len() <= text.len() && agree(
            run,
            text.take(run.len() as int),
            cased,
        ) && glob(rest, text.skip(run.len() as int), cased)),
    decreases run.len(),
{
    if run.len() == 0 {
        assert(run + rest == rest);
        assert(text.skip(0) == text);
    } else {
        let all = run + rest;
        let tail = run.drop_first();
        assert(all[0] == run[0]);
        assert(all.drop_first() == tail + rest);
        if text.len() > 0 {
            assert forall|i: int| 0 <= i < tail.len() implies #[trigger] tail[i] != STAR && tail[i]
                != QUESTION by {
                assert(tail[i] == run[i + 1]);
            }
            let after = text.drop_first();
            lemma_glob_run(tail, rest, after, cased);
            if run.len() <= text.len() {
                assert(after.skip(tail.len() as int) == text.skip(run.len() as int));
                let front = text.take(run.len() as int);
                let inner = after.take(tail.len() as int);
                if agree(run, front, cased) {
                    assert(same_byte(run[0], front[0], cased));
                    assert forall|i: int| 0 <= i < tail.len() implies same_byte(
                        #[trigger] tail[i],
                        inner[i],
                        cased,
                    ) by {
                        assert(same_byte(run[i + 1], front[i + 1], cased));
                    }
                }
                if same_byte(run[0], text[0], cased) && agree(tail, inner, cased) {
                    assert forall|i: int| 0 <= i < run.len() implies same_byte(
                        #[trigger] run[i],
                        front[i],
                        cased,
                    ) by {
                        if i > 0 {
                            assert(same_byte(tail[i - 1], inner[i - 1], cased));
                        }
                    }
                }
            }
        }
    }
}

proof fn lemma_glob_star(text: Seq<u8>, cased: bool)
    ensures
        glob(seq![STAR], text, cased),
{
    let none = seq![STAR].drop_first();
    assert(none.len() == 0);
    assert(text.skip(text.len() as int).len() == 0);
    assert(glob(none, text.skip(text.len() as int), cased));
}

proof fn lemma_glob_exact(run: Seq<u8>, text: Seq<u8>, cased: bool)
    requires
        no_wildcard(run),
    ensures
        glob(run, text, cased) == agree(run, text, cased),
{
    lemma_glob_run(run, seq![], text, cased);
    assert(run + Seq::<u8>::empty() == run);
    if run.len() <= text.len() {
        if text.skip(run.len() as int).len() == 0 {
            assert(text.take(run.len() as int) == text);
        }
    }
}

proof fn lemma_glob_anchored(run: Seq<u8>, text: Seq<u8>, cased: bool)
    requires
        no_wildcard(run),
    ensures
        glob(run.push(STAR), text, cased) == (run.len() <= text.len() && agree(
            run,
            text.take(run.len() as int),
            cased,
        )),
        glob(seq![STAR] + run, text, cased) == (run.len() <= text.len() && agree(
            run,
            text.skip(text.len() - run.len()),
            cased,
        )),
        glob((seq![STAR] + run).push(STAR), text, cased) == (exists|k: int|
            0 <= k <= text.len() - run.len() && agree(
                run,
                #[trigger] text.subrange(k, k + run.len()),
                cased,
            )),
{
    assert(run.push(STAR) == run + seq![STAR]);
    lemma_glob_run(run, seq![STAR], text, cased);
    lemma_glob_star(text.skip(run.len() as int), cased);
    let back = seq![STAR] + run;
    assert(back[0] == STAR);
    assert(back.drop_first() == run);
    if glob(back, text, cased) {
        let k = choose|k: int|
            0 <= k <= text.len() && glob(back.drop_first(), #[trigger] text.skip(k), cased);
        lemma_glob_exact(run, text.skip(k), cased);
        assert(k == text.len() - run.len());
    }
    if run.len() <= text.len() && agree(run, text.skip(text.len() - run.len()), cased) {
        lemma_glob_exact(run, text.skip(text.len() - run.len()), cased);
        assert(glob(back.drop_first(), text.skip(text.len() - run.len()), cased));
    }
    let both = back.push(STAR);
    assert(both[0] == STAR);
    assert(both.drop_first() == run + seq![STAR]);
    if glob(both, text, cased) {
        let k = choose|k: int|
            0 <= k <= text.len() && glob(both.drop_first(), #[trigger] text.skip(k), cased);
        lemma_glob_run(run, seq![STAR], text.skip(k), cased);
        assert(text.skip(k).take(run.len() as int) == text.subrange(k, k + run.len()));
    }
    if exists|k: int|
        0 <= k <= text.len() - run.len() && agree(
            run,
            #[trigger] text.subrange(k, k + run.len()),
            cased,
        ) {
        let k = choose|k: int|
            0 <= k <= text.len() - run.len() && agree(
                run,
                #[trigger] text.subrange(k, k + run.len()),
                cased,
            );
        lemma_glob_run(run, seq![STAR], text.skip(k), cased);
        lemma_glob_star(text.skip(k).skip(run.len() as int), cased);
        assert(text.skip(k).take(run.len() as int) == text.subrange(k, k + run.len()));
        assert(glob(both.drop_first(), text.skip(k), cased));
    }
}

proof fn lemma_char(c: char)
    ensures
        c as u32 <= 0x7f ==> '\0' <= c <= '\u{7f}',
        c as u32 <= 0x7f && c as u8 == 42 ==> c == '*',
        c as u32 <= 0x7f && c as u8 == 63 ==> c == '?',
{
}

proof fn lemma_ascii(s: Seq<char>)
    requires
        all_ascii(s),
    ensures
        encode_utf8(s).len() == s.len(),
        forall|i: int| 0 <= i < s.len() ==> #[trigger] encode_utf8(s)[i] == s[i] as u8,
        forall|i: int| 0 <= i < s.len() ==> s[i] as u32 <= 0x7f,
{
    assert forall|i: int| 0 <= i < s.len() implies '\0' <= #[trigger] s[i] <= '\u{7f}' by {
        assert(s[i] as u32 <= 0x7f);
        lemma_char(s[i]);
    }
    is_ascii_chars_encode_utf8(s);
}

proof fn lemma_same_char(a: char, b: char)
    requires
        a as u32 <= 0x7f,
        b as u32 <= 0x7f,
    ensures
        same_byte(a as u8, b as u8, true) == (a == b),
        same_byte(a as u8, b as u8, false) == (fold_char(a) == fold_char(b)),
{
}

spec fn cased_text(s: Seq<char>, cased: bool) -> Seq<char> {
    if cased {
        s
    } else {
        folded(s)
    }
}

proof fn lemma_agree(a: Seq<char>, b: Seq<char>, k: int, cased: bool)
    requires
        all_ascii(a),
        all_ascii(b),
        0 <= k <= b.len() - a.len(),
    ensures
        agree(encode_utf8(a), encode_utf8(b).subrange(k, k + a.len()), cased) == (cased_text(
            b,
            cased,
        ).subrange(k, k + a.len()) == cased_text(a, cased)),
{
    lemma_ascii(a);
    lemma_ascii(b);
    let x = encode_utf8(a);
    let y = encode_utf8(b).subrange(k, k + a.len());
    let p = cased_text(a, cased);
    let q = cased_text(b, cased).subrange(k, k + a.len());
    assert forall|i: int| 0 <= i < a.len() implies same_byte(#[trigger] x[i], y[i], cased) == (
    q[i] == p[i]) by {
        lemma_same_char(a[i], b[k + i]);
    }
    if agree(x, y, cased) {
        assert forall|i: int| 0 <= i < a.len() implies q[i] == p[i] by {
            assert(same_byte(x[i], y[i], cased));
        }
        assert(q == p);
    }
}

proof fn lemma_literal(needle: Seq<char>)
    requires
        literal(needle),
    ensures
        no_wildcard(encode_utf8(needle)),
{
    lemma_ascii(needle);
    let bytes = encode_utf8(needle);
    assert forall|i: int| 0 <= i < bytes.len() implies #[trigger] bytes[i] != STAR && bytes[i]
        != QUESTION by {
        assert(needle.contains(needle[i]));
        let c = needle[i];
        assert(bytes[i] == c as u8);
        assert(c as u32 <= 0x7f);
        lemma_char(c);
    }
}

proof fn lemma_anchors(op: Op, needle: Seq<char>, value: Seq<char>, cased: bool)
    requires
        literal(needle),
        all_ascii(value),
    ensures
        ({
            let text = cased_text(value, cased);
            let part = cased_text(needle, cased);
            let bytes = encode_utf8(value);
            &&& glob(anchored(Op::StartsWith, needle), bytes, cased) == begins(text, part)
            &&& glob(anchored(Op::EndsWith, needle), bytes, cased) == ends(text, part)
            &&& glob(anchored(Op::Contains, needle), bytes, cased) == holds_part(text, part)
            &&& glob(anchored(Op::Equals, needle), bytes, cased) == (text == part)
        }),
{
    let text = cased_text(value, cased);
    let part = cased_text(needle, cased);
    let bytes = encode_utf8(value);
    let run = encode_utf8(needle);
    lemma_literal(needle);
    lemma_ascii(needle);
    lemma_ascii(value);
    lemma_glob_anchored(run, bytes, cased);
    lemma_glob_exact(run, bytes, cased);
    assert(text.len() == value.len());
    assert(part.len() == needle.len());
    if needle.len() <= value.len() {
        lemma_agree(needle, value, 0, cased);
        lemma_agree(needle, value, value.len() - needle.len(), cased);
        assert(bytes.take(run.len() as int) == bytes.subrange(0, run.len() as int));
        assert(text.take(part.len() as int) == text.subrange(0, part.len() as int));
        assert(bytes.skip(bytes.len() - run.len()) == bytes.subrange(
            bytes.len() - run.len(),
            bytes.len() - run.len() + run.len(),
        ));
        assert(text.skip(text.len() - part.len()) == text.subrange(
            text.len() - part.len(),
            text.len() - part.len() + part.len(),
        ));
        if needle.len() == value.len() {
            assert(bytes.subrange(0, run.len() as int) == bytes);
            assert(text.subrange(0, part.len() as int) == text);
        }
    }
    if holds_part(text, part) {
        let (before, after) = choose|before: Seq<char>, after: Seq<char>|
            text == #[trigger] (before + part + after);
        let k = before.len() as int;
        assert(text.len() == k + part.len() + after.len());
        assert(text.subrange(k, k + part.len()) == part);
        lemma_agree(needle, value, k, cased);
        assert(agree(run, bytes.subrange(k, k + run.len()), cased));
    }
    if glob(anchored(Op::Contains, needle), bytes, cased) {
        let k = choose|k: int|
            0 <= k <= bytes.len() - run.len() && agree(
                run,
                #[trigger] bytes.subrange(k, k + run.len()),
                cased,
            );
        lemma_agree(needle, value, k, cased);
        let before = text.take(k);
        let after = text.skip(k + part.len());
        assert(text == before + part + after);
    }
}

proof fn lemma_single(
    field: Seq<char>,
    test: Test,
    needle: Seq<char>,
    value: Seq<char>,
    fields: Fields,
    readings: Readings,
)
    requires
        test.field == field,
        test.needles == seq![needle],
        test.op != Op::Absent,
        test.op != Op::FieldRef,
        field_datum(fields, field) == Some(Datum::Text(value)),
    ensures
        test_holds(test, fields, readings) == needle_matches(
            test,
            Datum::Text(value),
            needle,
            readings,
        ),
{
    assert(test.needles[0] == needle);
}

/// A key with a string modifier and a needle without wildcards, on a field that
/// holds ASCII text, in any case: `startswith` holds where the needle begins the
/// value, `endswith` where it ends it, `contains` where it stands somewhere in it,
/// and a key without a modifier where it is the whole of it.
pub proof fn string_modifiers_place_the_needle(
    field: Seq<char>,
    needle: Seq<char>,
    value: Seq<char>,
    fields: Fields,
    readings: Readings,
)
    requires
        plain_field(field),
        literal(needle),
        all_ascii(value),
        field_datum(fields, field) == Some(Datum::Text(value)),
    ensures
        key_holds(field + "|startswith"@, Node::Text(needle), fields, readings) == begins(
            folded(value),
            folded(needle),
        ),
        key_holds(field + "|endswith"@, Node::Text(needle), fields, readings) == ends(
            folded(value),
            folded(needle),
        ),
        key_holds(field + "|contains"@, Node::Text(needle), fields, readings) == holds_part(
            folded(value),
            folded(needle),
        ),
        key_holds(field, Node::Text(needle), fields, readings) == (folded(value) == folded(
            needle,
        )),
{
    lemma_words();
    lemma_words_differ();
    let node = Node::Text(needle);
    lemma_test(field, "startswith"@, "cased"@, node);
    lemma_test(field, "endswith"@, "cased"@, node);
    lemma_test(field, "contains"@, "cased"@, node);
    lemma_anchors(Op::Equals, needle, value, false);
    lemma_single(
        field,
        test_of(seq![], field + "|startswith"@, node)->Ok_0,
        needle,
        value,
        fields,
        readings,
    );
    lemma_single(
        field,
        test_of(seq![], field + "|endswith"@, node)->Ok_0,
        needle,
        value,
        fields,
        readings,
    );
    lemma_single(
        field,
        test_of(seq![], field + "|contains"@, node)->Ok_0,
        needle,
        value,
        fields,
        readings,
    );
    lemma_single(field, test_of(seq![], field, node)->Ok_0, needle, value, fields, readings);
}

/// Under `cased` the case counts: the same places, with nothing folded.
pub proof fn cased_modifiers_place_the_needle_exactly(
    field: Seq<char>,
    needle: Seq<char>,
    value: Seq<char>,
    fields: Fields,
    readings: Readings,
)
    requires
        plain_field(field),
        literal(needle),
        all_ascii(value),
        field_datum(fields, field) == Some(Datum::Text(value)),
    ensures
        key_holds(field + "|startswith"@ + "|cased"@, Node::Text(needle), fields, readings)
            == begins(value, needle),
        key_holds(field + "|endswith"@ + "|cased"@, Node::Text(needle), fields, readings) == ends(
            value,
            needle,
        ),
        key_holds(field + "|contains"@ + "|cased"@, Node::Text(needle), fields, readings)
            == holds_part(value, needle),
        key_holds(field + "|cased"@, Node::Text(needle), fields, readings) == (value == needle),
{
    lemma_words();
    lemma_words_differ();
    let node = Node::Text(needle);
    lemma_test(field, "startswith"@, "cased"@, node);
    lemma_test(field, "endswith"@, "cased"@, node);
    lemma_test(field, "contains"@, "cased"@, node);
    lemma_test(field, "cased"@, "cased"@, node);
    lemma_anchors(Op::Equals, needle, value, true);
    lemma_single(
        field,
        test_of(seq![], field + "|startswith"@ + "|cased"@, node)->Ok_0,
        needle,
        value,
        fields,
        readings,
    );
    lemma_single(
        field,
        test_of(seq![], field + "|endswith"@ + "|cased"@, node)->Ok_0,
        needle,
        value,
        fields,
        readings,
    );
    lemma_single(
        field,
        test_of(seq![], field + "|contains"@ + "|cased"@, node)->Ok_0,
        needle,
        value,
        fields,
        readings,
    );
    lemma_single(
        field,
        test_of(seq![], field + "|cased"@, node)->Ok_0,
        needle,
        value,
        fields,
        readings,
    );
}

/// A comparison holds where both sides read as numbers in the order it names, the
/// field's value on the left; where either reads as none it does not hold.
pub proof fn number_modifiers_compare(
    field: Seq<char>,
    needle: Seq<char>,
    value: Seq<char>,
    fields: Fields,
    readings: Readings,
)
    requires
        plain_field(field),
        field_datum(fields, field) == Some(Datum::Text(value)),
    ensures
        match (readings.number_of(trimmed(value)), readings.number_of(trimmed(needle))) {
            (Some(x), Some(y)) => {
                &&& key_holds(field + "|gt"@, Node::Text(needle), fields, readings) == (x > y)
                &&& key_holds(field + "|gte"@, Node::Text(needle), fields, readings) == (x >= y)
                &&& key_holds(field + "|lt"@, Node::Text(needle), fields, readings) == (x < y)
                &&& key_holds(field + "|lte"@, Node::Text(needle), fields, readings) == (x <= y)
            },
            _ => {
                &&& !key_holds(field + "|gt"@, Node::Text(needle), fields, readings)
                &&& !key_holds(field + "|gte"@, Node::Text(needle), fields, readings)
                &&& !key_holds(field + "|lt"@, Node::Text(needle), fields, readings)
                &&& !key_holds(field + "|lte"@, Node::Text(needle), fields, readings)
            },
        },
        key_holds(field + "|cidr"@, Node::Text(needle), fields, readings) == inside_range(
            needle,
            value,
            readings,
        ),
{
    lemma_words();
    lemma_words_differ();
    let node = Node::Text(needle);
    lemma_test(field, "gt"@, "cased"@, node);
    lemma_test(field, "gte"@, "cased"@, node);
    lemma_test(field, "lt"@, "cased"@, node);
    lemma_test(field, "lte"@, "cased"@, node);
    lemma_test(field, "cidr"@, "cased"@, node);
    lemma_single(
        field,
        test_of(seq![], field + "|gt"@, node)->Ok_0,
        needle,
        value,
        fields,
        readings,
    );
    lemma_single(
        field,
        test_of(seq![], field + "|gte"@, node)->Ok_0,
        needle,
        value,
        fields,
        readings,
    );
    lemma_single(
        field,
        test_of(seq![], field + "|lt"@, node)->Ok_0,
        needle,
        value,
        fields,
        readings,
    );
    lemma_single(
        field,
        test_of(seq![], field + "|lte"@, node)->Ok_0,
        needle,
        value,
        fields,
        readings,
    );
    lemma_single(
        field,
        test_of(seq![], field + "|cidr"@, node)->Ok_0,
        needle,
        value,
        fields,
        readings,
    );
}

/// A reference to another field holds where that field is there with the same
/// text, in any case unless the case counts.
pub proof fn references_compare_two_fields(
    field: Seq<char>,
    other: Seq<char>,
    value: Seq<char>,
    held: Seq<char>,
    fields: Fields,
    readings: Readings,
)
    requires
        plain_field(field),
        all_ascii(value),
        all_ascii(held),
        field_datum(fields, field) == Some(Datum::Text(value)),
    ensures
        field_datum(fields, other) is None ==> !key_holds(
            field + "|fieldref"@,
            Node::Text(other),
            fields,
            readings,
        ),
        field_datum(fields, other) == Some(Datum::Text(held)) ==> {
            &&& key_holds(field + "|fieldref"@, Node::Text(other), fields, readings) == (folded(
                value,
            ) == folded(held))
            &&& key_holds(field + "|fieldref"@ + "|cased"@, Node::Text(other), fields, readings)
                == (value == held)
        },
{
    lemma_words();
    lemma_words_differ();
    let node = Node::Text(other);
    lemma_test(field, "fieldref"@, "cased"@, node);
    let test = test_of(seq![], field + "|fieldref"@, node)->Ok_0;
    let cased = test_of(seq![], field + "|fieldref"@ + "|cased"@, node)->Ok_0;
    assert(test.needles[0] == other);
    assert(cased.needles[0] == other);
}

/// A value that is null asks that the field is not there.
pub proof fn null_asks_for_absence(field: Seq<char>, fields: Fields, readings: Readings)
    requires
        plain_field(field),
    ensures
        key_holds(field, Node::Null, fields, readings) == (field_datum(fields, field) is None),
{
    lemma_words();
    lemma_key(field, "all"@, "all"@);
}

/// Only the twelve modifiers are taken: a key with any other makes no test, and so
/// does a key without a field.
pub proof fn other_modifiers_are_refused(field: Seq<char>, word: Seq<char>, value: Node)
    requires
        plain_field(field),
        !word.contains('|'),
        word != "contains"@,
        word != "startswith"@,
        word != "endswith"@,
        word != "cidr"@,
        word != "gt"@,
        word != "gte"@,
        word != "lt"@,
        word != "lte"@,
        word != "fieldref"@,
        word != "all"@,
        word != "cased"@,
        word != "case_sensitive"@,
    ensures
        test_of(seq![], field + seq!['|'] + word, value) is Err,
        test_of(seq![], seq!['|'] + word, value) is Err,
{
    lemma_key(field, word, word);
    assert(field + (seq!['|'] + word) == field + seq!['|'] + word);
    let two = seq![field, word];
    assert(two[1] == word);
    reveal_with_fuel(adjustments, 2);
    let none = Seq::<char>::empty();
    lemma_pieces_split(none, word);
    assert(none + seq!['|'] + word == seq!['|'] + word);
}

/// The texts a list of nodes holds.
pub open spec fn texts_in(items: Seq<Node>) -> bool {
    items.len() > 0 && forall|i: int| 0 <= i < items.len() ==> (#[trigger] items[i]) is Text
}

proof fn lemma_scalars(field: Seq<char>, items: Seq<Node>, n: nat)
    requires
        texts_in(items),
        n <= items.len(),
    ensures
        scalars_of(seq![], field, items, n) is Ok,
        scalars_of(seq![], field, items, n)->Ok_0.len() == n,
        forall|i: int|
            0 <= i < n ==> #[trigger] scalars_of(seq![], field, items, n)->Ok_0[i]
                == items[i]->Text_0,
    decreases n,
{
    if n > 0 {
        lemma_scalars(field, items, (n - 1) as nat);
        assert(items[n - 1] is Text);
    }
}

proof fn lemma_one_needle(test: Test, needle: Seq<char>, fields: Fields, readings: Readings)
    requires
        test.op != Op::Absent,
        test.needles == seq![needle],
        field_datum(fields, test.field) is Some,
    ensures
        test_holds(test, fields, readings) == if test.op == Op::FieldRef {
            refers(field_datum(fields, test.field)->0, needle, test.cased, fields)
        } else {
            needle_matches(test, field_datum(fields, test.field)->0, needle, readings)
        },
{
    assert(test.needles[0] == needle);
}

/// A list of values is a list of alternatives, and under `all` a list of demands:
/// the key holds with the list where it does with some one of the values, or with
/// every one.
#[verifier::spinoff_prover]
pub proof fn a_list_of_values_is_alternatives_or_demands(
    field: Seq<char>,
    word: Seq<char>,
    items: Seq<Node>,
    fields: Fields,
    readings: Readings,
)
    requires
        plain_field(field),
        !word.contains('|'),
        word != "all"@,
        texts_in(items),
    ensures
        key_holds(field + (seq!['|'] + word), Node::Sequence(items), fields, readings)
            <==> exists|i: int|
            0 <= i < items.len() && key_holds(
                field + (seq!['|'] + word),
                #[trigger] items[i],
                fields,
                readings,
            ),
        key_holds(field + (seq!['|'] + word) + "|all"@, Node::Sequence(items), fields, readings)
            <==> forall|i: int|
            0 <= i < items.len() ==> key_holds(
                field + (seq!['|'] + word),
                #[trigger] items[i],
                fields,
                readings,
            ),
{
    lemma_words();
    lemma_words_differ();
    lemma_scalars(field, items, items.len());
    let key = field + (seq!['|'] + word);
    let list = Node::Sequence(items);
    lemma_test(field, word, "all"@, list);
    assert(items[0] is Text);
    let needles = needles_of(seq![], field, list)->Ok_0;
    assert forall|i: int| 0 <= i < items.len() implies match adjust(unadjusted(), word) {
        Some(one) => test_of(seq![], key, #[trigger] items[i]) == Ok::<Test, Seq<char>>(
            Test { field, op: one.op, needles: seq![needles[i]], all: one.all, cased: one.cased },
        ),
        None => test_of(seq![], key, items[i]) is Err,
    } by {
        lemma_test(field, word, "all"@, items[i]);
    }
    match adjust(unadjusted(), word) {
        None => {
            assert(forall|i: int|
                0 <= i < items.len() ==> !key_holds(key, #[trigger] items[i], fields, readings));
            assert(!key_holds(key, items[0], fields, readings));
            assert(!key_holds(key, list, fields, readings));
            lemma_key(field, word, "all"@);
            let three = seq![field, word, "all"@];
            assert(three[1] == word);
            reveal_with_fuel(adjustments, 3);
            assert(adjustments(three, 3) is Err);
        },
        Some(one) => {
            assert(!one.all);
            let any = Test { field, op: one.op, needles, all: false, cased: one.cased };
            let all = Test { field, op: one.op, needles, all: true, cased: one.cased };
            assert(test_of(seq![], key, list) == Ok::<Test, Seq<char>>(any));
            assert(test_of(seq![], key + "|all"@, list) == Ok::<Test, Seq<char>>(all));
            if field_datum(fields, field) is None {
                assert(forall|i: int|
                    0 <= i < items.len() ==> !key_holds(key, #[trigger] items[i], fields, readings));
                assert(!key_holds(key, items[0], fields, readings));
                assert(!key_holds(key, list, fields, readings));
            } else {
                let datum = field_datum(fields, field)->0;
                assert forall|i: int| 0 <= i < items.len() implies #[trigger] key_holds(
                    key,
                    items[i],
                    fields,
                    readings,
                ) == (if one.op == Op::FieldRef {
                    refers(datum, needles[i], one.cased, fields)
                } else {
                    needle_matches(any, datum, needles[i], readings)
                }) by {
                    let single = Test {
                        field,
                        op: one.op,
                        needles: seq![needles[i]],
                        all: false,
                        cased: one.cased,
                    };
                    lemma_one_needle(single, needles[i], fields, readings);
                    assert(needle_matches(single, datum, needles[i], readings) == needle_matches(
                        any,
                        datum,
                        needles[i],
                        readings,
                    ));
                }
                assert(forall|i: int|
                    0 <= i < items.len() ==> needle_matches(any, datum, #[trigger] needles[i], readings)
                        == needle_matches(all, datum, needles[i], readings));
                if test_holds(any, fields, readings) {
                    let i = choose|i: int|
                        0 <= i < needles.len() && if one.op == Op::FieldRef {
                            refers(datum, #[trigger] needles[i], one.cased, fields)
                        } else {
                            needle_matches(any, datum, needles[i], readings)
                        };
                    assert(key_holds(key, items[i], fields, readings));
                }
                if exists|i: int|
                    0 <= i < items.len() && key_holds(key, #[trigger] items[i], fields, readings) {
                    let i = choose|i: int|
                        0 <= i < items.len() && key_holds(
                            key,
                            #[trigger] items[i],
                            fields,
                            readings,
                        );
                    assert(any.needles[i] == needles[i]);
                    assert(test_holds(any, fields, readings));
                }
                assert(key_holds(key, list, fields, readings) == test_holds(any, fields, readings));
                if test_holds(all, fields, readings) {
                    assert forall|i: int| 0 <= i < items.len() implies key_holds(
                        key,
                        #[trigger] items[i],
                        fields,
                        readings,
                    ) by {
                        assert(all.needles[i] == needles[i]);
                        assert(key_holds(key, items[i], fields, readings) == (if one.op
                            == Op::FieldRef {
                            refers(datum, all.needles[i], one.cased, fields)
                        } else {
                            needle_matches(all, datum, all.needles[i], readings)
                        }));
                    }
                }
                if forall|i: int|
                    0 <= i < items.len() ==> key_holds(key, #[trigger] items[i], fields, readings) {
                    assert forall|i: int| 0 <= i < needles.len() implies if one.op == Op::FieldRef {
                        refers(datum, #[trigger] needles[i], one.cased, fields)
                    } else {
                        needle_matches(all, datum, needles[i], readings)
                    } by {
                        assert(key_holds(key, items[i], fields, readings));
                    }
                }
            }
        },
    }
}

/// A scalar that is no text is compared as the text it is written as, and what is
/// no scalar makes no test.
pub proof fn scalars_are_compared_as_text(selection: Seq<char>, key: Seq<char>, value: Node)
    ensures
        value matches Node::Integer(i) ==> test_of(selection, key, value) == test_of(
            selection,
            key,
            Node::Text(crate::text::integer_text(i)),
        ),
        value matches Node::Real(s) ==> test_of(selection, key, value) == test_of(
            selection,
            key,
            Node::Text(s),
        ),
        value == Node::Boolean(true) ==> test_of(selection, key, value) == test_of(
            selection,
            key,
            Node::Text("true"@),
        ),
        value == Node::Boolean(false) ==> test_of(selection, key, value) == test_of(
            selection,
            key,
            Node::Text("false"@),
        ),
        value is Mapping ==> test_of(selection, key, value) is Err,
        value == Node::Sequence(seq![]) ==> test_of(selection, key, value) is Err,
{
}

} // verus!
