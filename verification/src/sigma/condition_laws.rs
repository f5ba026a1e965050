//! How a condition reads.
use super::condition::{
    amount_of, atom, condition_of, conjunction, disjunction, flushed, is_word, more_and, more_or,
    needed, negation, scan, targets, with_prefix, word_at, Amount, Formula, Lexeme,
};
use crate::text::{all_digits, decimal_text, white};
use crate::text_laws::decimals_read_back;
use vstd::prelude::*;

verus! {

/// Whether a character can stand in a word of a condition.
pub open spec fn word_char(c: char) -> bool {
    c != '(' && c != ')' && !white(c)
}

/// Whether a text is one word.
pub open spec fn one_word(text: Seq<char>) -> bool {
    text.len() > 0 && forall|i: int| 0 <= i < text.len() ==> word_char(#[trigger] text[i])
}

/// Whether a name can only mean a selection: it is one word, none that the grammar
/// gives a meaning, and does not begin with a digit.
pub open spec fn ordinary(name: Seq<char>) -> bool {
    &&& one_word(name)
    &&& !('0' <= name[0] <= '9')
    &&& name != "not"@
    &&& name != "and"@
    &&& name != "or"@
    &&& name != "all"@
    &&& name != "any"@
}

/// Whether a formula speaks of defined selections by names that can only mean them,
/// and counts only over all of them.
pub open spec fn speaks_of(formula: Formula, names: Seq<Seq<char>>) -> bool
    decreases formula,
{
    match formula {
        Formula::Selection(name) => names.contains(name) && ordinary(name),
        Formula::Not(a) => speaks_of(*a, names),
        Formula::And(a, b) => speaks_of(*a, names) && speaks_of(*b, names),
        Formula::Or(a, b) => speaks_of(*a, names) && speaks_of(*b, names),
        Formula::AtLeast(n, found) => found == names && n <= found.len() && n <= usize::MAX,
    }
}

/// A formula written out, with parentheses round everything that is put together.
pub open spec fn written(formula: Formula) -> Seq<char>
    decreases formula,
{
    match formula {
        Formula::Selection(name) => name,
        Formula::Not(a) => seq!['('] + ("not"@ + (seq![' '] + (written(*a) + seq![')']))),
        Formula::And(a, b) => seq!['('] + (written(*a) + (seq![' '] + ("and"@ + (seq![' '] + (
        written(*b) + seq![')']))))),
        Formula::Or(a, b) => seq!['('] + (written(*a) + (seq![' '] + ("or"@ + (seq![' '] + (
        written(*b) + seq![')']))))),
        Formula::AtLeast(n, _) => decimal_text(n) + (seq![' '] + ("of"@ + (seq![' '] + "them"@))),
    }
}

/// The tokens of a formula written out.
spec fn token_list(formula: Formula) -> Seq<Lexeme>
    decreases formula,
{
    match formula {
        Formula::Selection(name) => seq![Lexeme::Word(name)],
        Formula::Not(a) => seq![Lexeme::Open, Lexeme::Word("not"@)] + token_list(*a) + seq![
            Lexeme::Close,
        ],
        Formula::And(a, b) => seq![Lexeme::Open] + token_list(*a) + seq![Lexeme::Word("and"@)]
            + token_list(*b) + seq![Lexeme::Close],
        Formula::Or(a, b) => seq![Lexeme::Open] + token_list(*a) + seq![Lexeme::Word("or"@)]
            + token_list(*b) + seq![Lexeme::Close],
        Formula::AtLeast(n, _) => seq![
            Lexeme::Word(decimal_text(n)),
            Lexeme::Word("of"@),
            Lexeme::Word("them"@),
        ],
    }
}

/// Whether a word ends where a text begins.
spec fn boundary(rest: Seq<char>) -> bool {
    rest.len() == 0 || !word_char(rest[0])
}

proof fn lemma_scan_word(word: Seq<char>, rest: Seq<char>, so_far: Seq<char>)
    requires
        forall|i: int| 0 <= i < word.len() ==> word_char(#[trigger] word[i]),
    ensures
        scan(word + rest, so_far) == scan(rest, so_far + word),
    decreases word.len(),
{
    if word.len() == 0 {
        assert(word + rest == rest);
        assert(so_far + word == so_far);
    } else {
        let all = word + rest;
        let tail = word.drop_first();
        assert(all[0] == word[0]);
        assert(all.drop_first() == tail + rest);
        assert(word_char(word[0]));
        assert forall|i: int| 0 <= i < tail.len() implies word_char(#[trigger] tail[i]) by {
            assert(tail[i] == word[i + 1]);
        }
        lemma_scan_word(tail, rest, so_far.push(word[0]));
        assert(so_far.push(word[0]) + tail == so_far + word);
    }
}

proof fn lemma_scan_one(word: Seq<char>, rest: Seq<char>)
    requires
        one_word(word),
        boundary(rest),
    ensures
        scan(word + rest, seq![]) == seq![Lexeme::Word(word)] + scan(rest, seq![]),
{
    lemma_scan_word(word, rest, seq![]);
    assert(Seq::<char>::empty() + word == word);
    let none = Seq::<char>::empty();
    assert(flushed(none) == Seq::<Lexeme>::empty());
    if rest.len() == 0 {
        assert(scan(rest, word) == flushed(word));
        assert(scan(rest, none) == flushed(none));
        assert(seq![Lexeme::Word(word)] + Seq::<Lexeme>::empty() == seq![Lexeme::Word(word)]);
    } else {
        let tail = rest.drop_first();
        assert(scan(rest, word) =~= seq![Lexeme::Word(word)] + scan(rest, none));
    }
}

proof fn lemma_scan_mark(c: char, rest: Seq<char>)
    ensures
        c == '(' ==> scan(seq![c] + rest, seq![]) == seq![Lexeme::Open] + scan(rest, seq![]),
        c == ')' ==> scan(seq![c] + rest, seq![]) == seq![Lexeme::Close] + scan(rest, seq![]),
        c == ' ' ==> scan(seq![c] + rest, seq![]) == scan(rest, seq![]),
{
    let all = seq![c] + rest;
    assert(all[0] == c);
    assert(all.drop_first() == rest);
    let none = Seq::<char>::empty();
    assert(flushed(none) == Seq::<Lexeme>::empty());
    assert(Seq::<Lexeme>::empty() + scan(rest, none) == scan(rest, none));
    assert(Seq::<Lexeme>::empty() + seq![Lexeme::Open] == seq![Lexeme::Open]);
    assert(Seq::<Lexeme>::empty() + seq![Lexeme::Close] == seq![Lexeme::Close]);
}

proof fn lemma_decimal_word(n: nat)
    ensures
        one_word(decimal_text(n)),
{
    decimals_read_back(n);
    let s = decimal_text(n);
    assert forall|i: int| 0 <= i < s.len() implies word_char(#[trigger] s[i]) by {
        lemma_digit_char(s[i]);
    }
}

proof fn lemma_digit_char(c: char)
    ensures
        '0' <= c <= '9' ==> word_char(c),
{
}

proof fn lemma_keywords()
    ensures
        one_word("not"@),
        one_word("and"@),
        one_word("or"@),
        one_word("of"@),
        one_word("them"@),
        one_word("all"@),
        one_word("any"@),
        "not"@ != "and"@,
        "not"@ != "or"@,
        "and"@ != "or"@,
        "not"@ != "all"@,
        "not"@ != "any"@,
        "all"@ != "any"@,
        !all_digits("not"@),
        !('0' <= "not"@[0] <= '9'),
        !('0' <= "all"@[0] <= '9'),
        !('0' <= "any"@[0] <= '9'),
        "them"@.last() != '*',
{
    reveal_strlit("not");
    reveal_strlit("and");
    reveal_strlit("or");
    reveal_strlit("of");
    reveal_strlit("them");
    reveal_strlit("all");
    reveal_strlit("any");
    assert("not"@[0] == 'n' && "and"@[0] == 'a' && "all"@[1] == 'l' && "any"@[1] == 'n');
    assert("or"@.len() == 2 && "not"@.len() == 3 && "and"@.len() == 3);
}

/// A formula written out scans to its tokens.
proof fn lemma_scan_written(formula: Formula, names: Seq<Seq<char>>, rest: Seq<char>)
    requires
        speaks_of(formula, names),
        boundary(rest),
    ensures
        scan(written(formula) + rest, seq![]) == token_list(formula) + scan(rest, seq![]),
    decreases formula, 1nat,
{
    lemma_keywords();
    let space = seq![' '];
    match formula {
        Formula::Selection(name) => {
            lemma_scan_one(name, rest);
        },
        Formula::Not(a) => {
            let r2 = seq![')'] + rest;
            let r1 = written(*a) + r2;
            let r0 = space + r1;
            assert(written(formula) + rest == seq!['('] + ("not"@ + r0));
            lemma_scan_mark('(', "not"@ + r0);
            lemma_scan_one("not"@, r0);
            lemma_scan_mark(' ', r1);
            lemma_scan_written(*a, names, r2);
            lemma_scan_mark(')', rest);
            assert(token_list(formula) + scan(rest, seq![]) =~= seq![Lexeme::Open] + (seq![
                Lexeme::Word("not"@),
            ] + (token_list(*a) + (seq![Lexeme::Close] + scan(rest, seq![])))));
        },
        Formula::And(a, b) => {
            lemma_scan_pair(formula, *a, *b, "and"@, names, rest);
        },
        Formula::Or(a, b) => {
            lemma_scan_pair(formula, *a, *b, "or"@, names, rest);
        },
        Formula::AtLeast(n, _) => {
            lemma_decimal_word(n);
            let r1 = "them"@ + rest;
            let r0 = "of"@ + (space + r1);
            assert(written(formula) + rest == decimal_text(n) + (space + r0));
            lemma_scan_one(decimal_text(n), space + r0);
            lemma_scan_mark(' ', r0);
            lemma_scan_one("of"@, space + r1);
            lemma_scan_mark(' ', r1);
            lemma_scan_one("them"@, rest);
            assert(token_list(formula) + scan(rest, seq![]) =~= seq![
                Lexeme::Word(decimal_text(n)),
            ] + (seq![Lexeme::Word("of"@)] + (seq![Lexeme::Word("them"@)] + scan(rest, seq![]))));
        },
    }
}

proof fn lemma_scan_pair(
    formula: Formula,
    a: Formula,
    b: Formula,
    word: Seq<char>,
    names: Seq<Seq<char>>,
    rest: Seq<char>,
)
    requires
        speaks_of(a, names),
        speaks_of(b, names),
        boundary(rest),
        one_word(word),
        formula == Formula::And(Box::new(a), Box::new(b)) && word == "and"@ || formula
            == Formula::Or(Box::new(a), Box::new(b)) && word == "or"@,
    ensures
        scan(written(formula) + rest, seq![]) == token_list(formula) + scan(rest, seq![]),
    decreases formula, 0nat,
{
    let space = seq![' '];
    let r4 = seq![')'] + rest;
    let r3 = written(b) + r4;
    let r2 = word + (space + r3);
    let r1 = space + r2;
    assert(written(formula) + rest == seq!['('] + (written(a) + r1));
    lemma_scan_mark('(', written(a) + r1);
    lemma_scan_written(a, names, r1);
    lemma_scan_mark(' ', r2);
    lemma_scan_one(word, space + r3);
    lemma_scan_mark(' ', r3);
    lemma_scan_written(b, names, r4);
    lemma_scan_mark(')', rest);
    assert(token_list(formula) + scan(rest, seq![]) =~= seq![Lexeme::Open] + (token_list(a) + (
    seq![Lexeme::Word(word)] + (token_list(b) + (seq![Lexeme::Close] + scan(rest, seq![]))))));
}

/// Whether the tokens of a formula stand in a list from a place on.
spec fn stand_at(tokens: Seq<Lexeme>, formula: Formula, at: int) -> bool {
    0 <= at && at + token_list(formula).len() <= tokens.len() && tokens.subrange(
        at,
        at + token_list(formula).len(),
    ) == token_list(formula)
}

proof fn lemma_tokens(formula: Formula, names: Seq<Seq<char>>)
    requires
        speaks_of(formula, names),
    ensures
        token_list(formula).len() > 0,
        !is_word(token_list(formula), 0, "not"@),
    decreases formula,
{
    lemma_keywords();
    match formula {
        Formula::AtLeast(n, _) => {
            decimals_read_back(n);
        },
        _ => {},
    }
}

proof fn lemma_part(
    tokens: Seq<Lexeme>,
    whole: Seq<Lexeme>,
    at: int,
    before: Seq<Lexeme>,
    part: Seq<Lexeme>,
    after: Seq<Lexeme>,
)
    requires
        0 <= at,
        at + whole.len() <= tokens.len(),
        tokens.subrange(at, at + whole.len()) == whole,
        whole == before + part + after,
    ensures
        tokens.subrange(at + before.len(), at + before.len() + part.len()) == part,
{
    let got = tokens.subrange(at + before.len(), at + before.len() + part.len());
    assert forall|i: int| 0 <= i < part.len() implies got[i] == part[i] by {
        assert(whole[before.len() + i] == part[i]);
        assert(tokens.subrange(at, at + whole.len())[before.len() + i] == tokens[at + before.len()
            + i]);
    }
    assert(got == part);
}

/// Where the tokens of a formula stand, it is read, whatever follows.
#[verifier::rlimit(60)]
proof fn lemma_atom(tokens: Seq<Lexeme>, names: Seq<Seq<char>>, formula: Formula, at: int)
    requires
        speaks_of(formula, names),
        stand_at(tokens, formula, at),
    ensures
        atom(tokens, names, at) == Ok::<(Formula, int), Seq<char>>(
            (formula, at + token_list(formula).len()),
        ),
    decreases formula,
{
    lemma_keywords();
    let whole = token_list(formula);
    match formula {
        Formula::Selection(name) => {
            assert(tokens.subrange(at, at + 1)[0] == tokens[at]);
            assert(whole[0] == Lexeme::Word(name));
            assert(!all_digits(name)) by {
                assert(!('0' <= name[0] && name[0] <= '9'));
            }
        },
        Formula::Not(a) => {
            lemma_tokens(*a, names);
            let before = seq![Lexeme::Open, Lexeme::Word("not"@)];
            let after = seq![Lexeme::Close];
            let part = token_list(*a);
            lemma_part(tokens, whole, at, before, part, after);
            assert(whole == Seq::empty() + before + (part + after));
            lemma_part(tokens, whole, at, Seq::empty(), before, part + after);
            assert(whole == (before + part) + after + Seq::empty());
            lemma_part(tokens, whole, at, before + part, after, Seq::empty());
            assert(tokens[at] == tokens.subrange(at, at + 2)[0]);
            assert(tokens[at + 1] == tokens.subrange(at, at + 2)[1]);
            let next = at + 2 + part.len();
            assert(tokens[next] == tokens.subrange(next, next + 1)[0]);
            lemma_atom(tokens, names, *a, at + 2);
            lemma_first(tokens, names, *a, at + 2);
            assert(negation(tokens, names, at + 2) == atom(tokens, names, at + 2));
            assert(negation(tokens, names, at + 1) == Ok::<(Formula, int), Seq<char>>(
                (formula, next),
            ));
            assert(more_and(tokens, names, formula, next) == Ok::<(Formula, int), Seq<char>>(
                (formula, next),
            ));
            assert(conjunction(tokens, names, at + 1) == Ok::<(Formula, int), Seq<char>>(
                (formula, next),
            ));
            assert(more_or(tokens, names, formula, next) == Ok::<(Formula, int), Seq<char>>(
                (formula, next),
            ));
            assert(disjunction(tokens, names, at + 1) == Ok::<(Formula, int), Seq<char>>(
                (formula, next),
            ));
        },
        Formula::And(a, b) => {
            lemma_pair_parts(tokens, formula, *a, *b, "and"@, at);
            lemma_atom(tokens, names, *a, at + 1);
            lemma_first(tokens, names, *a, at + 1);
            let n1 = at + 1 + token_list(*a).len();
            lemma_atom(tokens, names, *b, n1 + 1);
            lemma_first(tokens, names, *b, n1 + 1);
            let n2 = n1 + 1 + token_list(*b).len();
            assert(more_and(tokens, names, formula, n2) == Ok::<(Formula, int), Seq<char>>(
                (formula, n2),
            ));
            assert(more_and(tokens, names, *a, n1) == Ok::<(Formula, int), Seq<char>>(
                (formula, n2),
            ));
            assert(conjunction(tokens, names, at + 1) == Ok::<(Formula, int), Seq<char>>(
                (formula, n2),
            ));
            assert(more_or(tokens, names, formula, n2) == Ok::<(Formula, int), Seq<char>>(
                (formula, n2),
            ));
            assert(disjunction(tokens, names, at + 1) == Ok::<(Formula, int), Seq<char>>(
                (formula, n2),
            ));
        },
        Formula::Or(a, b) => {
            lemma_pair_parts(tokens, formula, *a, *b, "or"@, at);
            lemma_atom(tokens, names, *a, at + 1);
            lemma_first(tokens, names, *a, at + 1);
            let n1 = at + 1 + token_list(*a).len();
            lemma_atom(tokens, names, *b, n1 + 1);
            lemma_first(tokens, names, *b, n1 + 1);
            let n2 = n1 + 1 + token_list(*b).len();
            assert(more_and(tokens, names, *a, n1) == Ok::<(Formula, int), Seq<char>>((*a, n1)));
            assert(conjunction(tokens, names, at + 1) == Ok::<(Formula, int), Seq<char>>(
                (*a, n1),
            ));
            assert(more_and(tokens, names, *b, n2) == Ok::<(Formula, int), Seq<char>>((*b, n2)));
            assert(conjunction(tokens, names, n1 + 1) == Ok::<(Formula, int), Seq<char>>(
                (*b, n2),
            ));
            assert(more_or(tokens, names, formula, n2) == Ok::<(Formula, int), Seq<char>>(
                (formula, n2),
            ));
            assert(more_or(tokens, names, *a, n1) == Ok::<(Formula, int), Seq<char>>(
                (formula, n2),
            ));
            assert(disjunction(tokens, names, at + 1) == Ok::<(Formula, int), Seq<char>>(
                (formula, n2),
            ));
        },
        Formula::AtLeast(n, found) => {
            decimals_read_back(n);
            let got = tokens.subrange(at, at + 3);
            assert(got[0] == tokens[at] && got[1] == tokens[at + 1] && got[2] == tokens[at + 2]);
            assert(whole[0] == Lexeme::Word(decimal_text(n)));
            assert(decimal_text(n)[0] != "all"@[0] && decimal_text(n)[0] != "any"@[0]) by {
                assert('0' <= decimal_text(n)[0] && decimal_text(n)[0] <= '9');
            }
            assert(amount_of(decimal_text(n)) == Some(Amount::Count(n)));
        },
    }
}

proof fn lemma_pair_parts(
    tokens: Seq<Lexeme>,
    formula: Formula,
    a: Formula,
    b: Formula,
    word: Seq<char>,
    at: int,
)
    requires
        stand_at(tokens, formula, at),
        formula == Formula::And(Box::new(a), Box::new(b)) && word == "and"@ || formula
            == Formula::Or(Box::new(a), Box::new(b)) && word == "or"@,
    ensures
        tokens[at] is Open,
        stand_at(tokens, a, at + 1),
        tokens[at + 1 + token_list(a).len()] == Lexeme::Word(word),
        stand_at(tokens, b, at + 2 + token_list(a).len()),
        tokens[at + 2 + token_list(a).len() + token_list(b).len()] is Close,
        token_list(formula).len() == 3 + token_list(a).len() + token_list(b).len(),
{
    let whole = token_list(formula);
    let ta = token_list(a);
    let tb = token_list(b);
    let open = seq![Lexeme::Open];
    let mid = seq![Lexeme::Word(word)];
    let close = seq![Lexeme::Close];
    assert(whole == open + ta + mid + tb + close);
    assert(whole == Seq::empty() + open + (ta + mid + tb + close));
    lemma_part(tokens, whole, at, Seq::empty(), open, ta + mid + tb + close);
    assert(whole == open + ta + (mid + tb + close));
    lemma_part(tokens, whole, at, open, ta, mid + tb + close);
    assert(whole == (open + ta) + mid + (tb + close));
    lemma_part(tokens, whole, at, open + ta, mid, tb + close);
    assert(whole == (open + ta + mid) + tb + close);
    lemma_part(tokens, whole, at, open + ta + mid, tb, close);
    assert(whole == (open + ta + mid + tb) + close + Seq::empty());
    lemma_part(tokens, whole, at, open + ta + mid + tb, close, Seq::empty());
    assert(tokens[at] == tokens.subrange(at, at + 1)[0]);
    let m = at + 1 + ta.len();
    assert(tokens[m] == tokens.subrange(m, m + 1)[0]);
    let e = m + 1 + tb.len();
    assert(tokens[e] == tokens.subrange(e, e + 1)[0]);
}

/// What is read from where a formula's tokens stand is no negation beside it.
proof fn lemma_first(tokens: Seq<Lexeme>, names: Seq<Seq<char>>, formula: Formula, at: int)
    requires
        speaks_of(formula, names),
        stand_at(tokens, formula, at),
    ensures
        !is_word(tokens, at, "not"@),
        negation(tokens, names, at) == atom(tokens, names, at),
{
    lemma_tokens(formula, names);
    assert(tokens[at] == tokens.subrange(at, at + token_list(formula).len())[0]);
}

/// A formula written out reads as that formula: `not`, `and`, `or`, parentheses,
/// names and counts mean what they say, however they are put together.
pub proof fn conditions_read_as_they_are_written(formula: Formula, names: Seq<Seq<char>>)
    requires
        speaks_of(formula, names),
    ensures
        condition_of(written(formula), names) == Ok::<Formula, Seq<char>>(formula),
{
    let none = Seq::<char>::empty();
    lemma_scan_written(formula, names, none);
    assert(written(formula) + none == written(formula));
    assert(scan(none, none) == flushed(none));
    let tokens = scan(written(formula), none);
    assert(tokens == token_list(formula));
    let n = tokens.len() as int;
    assert(tokens.subrange(0, n) == tokens);
    lemma_tokens(formula, names);
    lemma_atom(tokens, names, formula, 0);
    lemma_first(tokens, names, formula, 0);
    assert(more_and(tokens, names, formula, n) == Ok::<(Formula, int), Seq<char>>((formula, n)));
    assert(conjunction(tokens, names, 0) == Ok::<(Formula, int), Seq<char>>((formula, n)));
    assert(more_or(tokens, names, formula, n) == Ok::<(Formula, int), Seq<char>>((formula, n)));
}

/// The tokens of three formulas with words between them.
proof fn lemma_scan_three(
    a: Formula,
    x: Seq<char>,
    b: Formula,
    y: Seq<char>,
    c: Formula,
    names: Seq<Seq<char>>,
)
    requires
        speaks_of(a, names),
        speaks_of(b, names),
        speaks_of(c, names),
        one_word(x),
        one_word(y),
    ensures
        scan(
            written(a) + (seq![' '] + (x + (seq![' '] + (written(b) + (seq![' '] + (y + (seq![' ']
                + written(c)))))))),
            seq![],
        ) == token_list(a) + seq![Lexeme::Word(x)] + token_list(b) + seq![Lexeme::Word(y)]
            + token_list(c),
        scan(
            seq!['n', 'o', 't', ' '] + (written(a) + (seq![' '] + (x + (seq![' '] + written(b))))),
            seq![],
        ) == seq![Lexeme::Word("not"@)] + token_list(a) + seq![Lexeme::Word(x)] + token_list(b),
{
    lemma_keywords();
    let none = Seq::<char>::empty();
    let space = seq![' '];
    assert(scan(none, none) == flushed(none));
    lemma_scan_written(c, names, none);
    assert(written(c) + none == written(c));
    assert(token_list(c) + Seq::<Lexeme>::empty() == token_list(c));
    let r3 = y + (space + written(c));
    lemma_scan_mark(' ', written(c));
    lemma_scan_one(y, space + written(c));
    let r2 = written(b) + (space + r3);
    lemma_scan_mark(' ', r3);
    lemma_scan_written(b, names, space + r3);
    let r1 = x + (space + r2);
    lemma_scan_mark(' ', r2);
    lemma_scan_one(x, space + r2);
    lemma_scan_mark(' ', r1);
    lemma_scan_written(a, names, space + r1);
    assert(token_list(a) + (seq![Lexeme::Word(x)] + (token_list(b) + (seq![Lexeme::Word(y)]
        + token_list(c)))) =~= token_list(a) + seq![Lexeme::Word(x)] + token_list(b) + seq![
        Lexeme::Word(y),
    ] + token_list(c));
    lemma_scan_written(b, names, none);
    assert(written(b) + none == written(b));
    assert(token_list(b) + Seq::<Lexeme>::empty() == token_list(b));
    let q1 = x + (space + written(b));
    lemma_scan_mark(' ', written(b));
    lemma_scan_one(x, space + written(b));
    let q0 = written(a) + (space + q1);
    lemma_scan_mark(' ', q1);
    lemma_scan_written(a, names, space + q1);
    reveal_strlit("not");
    assert(seq!['n', 'o', 't', ' '] + q0 == "not"@ + (space + q0));
    lemma_scan_mark(' ', q0);
    lemma_scan_one("not"@, space + q0);
    assert(seq![Lexeme::Word("not"@)] + (token_list(a) + (seq![Lexeme::Word(x)] + token_list(b)))
        =~= seq![Lexeme::Word("not"@)] + token_list(a) + seq![Lexeme::Word(x)] + token_list(b));
}

proof fn lemma_three_stand(
    tokens: Seq<Lexeme>,
    a: Formula,
    x: Seq<char>,
    b: Formula,
    y: Seq<char>,
    c: Formula,
)
    requires
        tokens == token_list(a) + seq![Lexeme::Word(x)] + token_list(b) + seq![Lexeme::Word(y)]
            + token_list(c),
    ensures
        stand_at(tokens, a, 0),
        tokens[token_list(a).len() as int] == Lexeme::Word(x),
        stand_at(tokens, b, 1 + token_list(a).len() as int),
        tokens[1 + token_list(a).len() as int + token_list(b).len()] == Lexeme::Word(y),
        stand_at(tokens, c, 2 + token_list(a).len() as int + token_list(b).len()),
        tokens.len() == token_list(a).len() + 2 + token_list(b).len() + token_list(c).len(),
{
    let na = token_list(a).len() as int;
    let nb = token_list(b).len() as int;
    let nc = token_list(c).len() as int;
    assert(tokens.subrange(0, na) == token_list(a));
    assert(tokens.subrange(na + 1, na + 1 + nb) == token_list(b));
    assert(tokens.subrange(na + 2 + nb, na + 2 + nb + nc) == token_list(c));
}

/// Three parts with words between them, written without parentheses.
pub open spec fn chained(
    a: Formula,
    x: Seq<char>,
    b: Formula,
    y: Seq<char>,
    c: Formula,
) -> Seq<char> {
    written(a) + (seq![' '] + (x + (seq![' '] + (written(b) + (seq![' '] + (y + (seq![' ']
        + written(c))))))))
}

/// Without parentheses `and` binds tighter than `or` on either side of it, and both
/// group to the left.
#[verifier::rlimit(60)]
pub proof fn conjunctions_bind_tighter_than_disjunctions(
    a: Formula,
    b: Formula,
    c: Formula,
    names: Seq<Seq<char>>,
)
    requires
        speaks_of(a, names),
        speaks_of(b, names),
        speaks_of(c, names),
    ensures
        condition_of(chained(a, "or"@, b, "and"@, c), names) == Ok::<Formula, Seq<char>>(
            Formula::Or(Box::new(a), Box::new(Formula::And(Box::new(b), Box::new(c)))),
        ),
        condition_of(chained(a, "and"@, b, "or"@, c), names) == Ok::<Formula, Seq<char>>(
            Formula::Or(Box::new(Formula::And(Box::new(a), Box::new(b))), Box::new(c)),
        ),
        condition_of(chained(a, "and"@, b, "and"@, c), names) == Ok::<Formula, Seq<char>>(
            Formula::And(Box::new(Formula::And(Box::new(a), Box::new(b))), Box::new(c)),
        ),
        condition_of(chained(a, "or"@, b, "or"@, c), names) == Ok::<Formula, Seq<char>>(
            Formula::Or(Box::new(Formula::Or(Box::new(a), Box::new(b))), Box::new(c)),
        ),
{
    lemma_keywords();
    lemma_three(a, "or"@, b, "and"@, c, names);
    lemma_three(a, "and"@, b, "or"@, c, names);
    lemma_three(a, "and"@, b, "and"@, c, names);
    lemma_three(a, "or"@, b, "or"@, c, names);
}

spec fn combined(x: Seq<char>, a: Formula, b: Formula) -> Formula {
    if x == "and"@ {
        Formula::And(Box::new(a), Box::new(b))
    } else {
        Formula::Or(Box::new(a), Box::new(b))
    }
}

#[verifier::rlimit(60)]
proof fn lemma_three(
    a: Formula,
    x: Seq<char>,
    b: Formula,
    y: Seq<char>,
    c: Formula,
    names: Seq<Seq<char>>,
)
    requires
        speaks_of(a, names),
        speaks_of(b, names),
        speaks_of(c, names),
        x == "and"@ || x == "or"@,
        y == "and"@ || y == "or"@,
    ensures
        condition_of(chained(a, x, b, y, c), names) == Ok::<Formula, Seq<char>>(
            if x == "or"@ && y == "and"@ {
                Formula::Or(Box::new(a), Box::new(Formula::And(Box::new(b), Box::new(c))))
            } else {
                combined(y, combined(x, a, b), c)
            },
        ),
{
    lemma_keywords();
    lemma_scan_three(a, x, b, y, c, names);
    let tokens = scan(chained(a, x, b, y, c), seq![]);
    lemma_three_stand(tokens, a, x, b, y, c);
    lemma_atom(tokens, names, a, 0);
    lemma_first(tokens, names, a, 0);
    let n1 = token_list(a).len() as int;
    lemma_atom(tokens, names, b, n1 + 1);
    lemma_first(tokens, names, b, n1 + 1);
    let n2 = n1 + 1 + token_list(b).len();
    lemma_atom(tokens, names, c, n2 + 1);
    lemma_first(tokens, names, c, n2 + 1);
    let n3 = tokens.len() as int;
    lemma_tokens(a, names);
    lemma_tokens(b, names);
    lemma_tokens(c, names);
    let ab = combined(x, a, b);
    let bc = combined(y, b, c);
    let end = combined(y, ab, c);
    if x == "and"@ {
        if y == "and"@ {
            assert(more_and(tokens, names, end, n3) == Ok::<(Formula, int), Seq<char>>((end, n3)));
            assert(more_and(tokens, names, ab, n2) == Ok::<(Formula, int), Seq<char>>((end, n3)));
            assert(more_and(tokens, names, a, n1) == Ok::<(Formula, int), Seq<char>>((end, n3)));
            assert(conjunction(tokens, names, 0) == Ok::<(Formula, int), Seq<char>>((end, n3)));
            assert(more_or(tokens, names, end, n3) == Ok::<(Formula, int), Seq<char>>((end, n3)));
        } else {
            assert(more_and(tokens, names, ab, n2) == Ok::<(Formula, int), Seq<char>>((ab, n2)));
            assert(more_and(tokens, names, a, n1) == Ok::<(Formula, int), Seq<char>>((ab, n2)));
            assert(conjunction(tokens, names, 0) == Ok::<(Formula, int), Seq<char>>((ab, n2)));
            assert(more_and(tokens, names, c, n3) == Ok::<(Formula, int), Seq<char>>((c, n3)));
            assert(conjunction(tokens, names, n2 + 1) == Ok::<(Formula, int), Seq<char>>((c, n3)));
            assert(more_or(tokens, names, end, n3) == Ok::<(Formula, int), Seq<char>>((end, n3)));
            assert(more_or(tokens, names, ab, n2) == Ok::<(Formula, int), Seq<char>>((end, n3)));
        }
    } else {
        assert(more_and(tokens, names, a, n1) == Ok::<(Formula, int), Seq<char>>((a, n1)));
        assert(conjunction(tokens, names, 0) == Ok::<(Formula, int), Seq<char>>((a, n1)));
        if y == "and"@ {
            let all = Formula::Or(Box::new(a), Box::new(bc));
            assert(more_and(tokens, names, bc, n3) == Ok::<(Formula, int), Seq<char>>((bc, n3)));
            assert(more_and(tokens, names, b, n2) == Ok::<(Formula, int), Seq<char>>((bc, n3)));
            assert(conjunction(tokens, names, n1 + 1) == Ok::<(Formula, int), Seq<char>>(
                (bc, n3),
            ));
            assert(more_or(tokens, names, all, n3) == Ok::<(Formula, int), Seq<char>>((all, n3)));
            assert(more_or(tokens, names, a, n1) == Ok::<(Formula, int), Seq<char>>((all, n3)));
        } else {
            assert(more_and(tokens, names, b, n2) == Ok::<(Formula, int), Seq<char>>((b, n2)));
            assert(conjunction(tokens, names, n1 + 1) == Ok::<(Formula, int), Seq<char>>((b, n2)));
            assert(more_and(tokens, names, c, n3) == Ok::<(Formula, int), Seq<char>>((c, n3)));
            assert(conjunction(tokens, names, n2 + 1) == Ok::<(Formula, int), Seq<char>>((c, n3)));
            assert(more_or(tokens, names, end, n3) == Ok::<(Formula, int), Seq<char>>((end, n3)));
            assert(more_or(tokens, names, ab, n2) == Ok::<(Formula, int), Seq<char>>((end, n3)));
            assert(more_or(tokens, names, a, n1) == Ok::<(Formula, int), Seq<char>>((end, n3)));
        }
    }
}

/// `not` takes what is next to it and no more: before `a and b` it negates `a`.
#[verifier::rlimit(60)]
pub proof fn negations_bind_tightest(a: Formula, b: Formula, names: Seq<Seq<char>>)
    requires
        speaks_of(a, names),
        speaks_of(b, names),
    ensures
        condition_of(
            seq!['n', 'o', 't', ' '] + (written(a) + (seq![' '] + ("and"@ + (seq![' '] + written(
                b,
            ))))),
            names,
        ) == Ok::<Formula, Seq<char>>(
            Formula::And(Box::new(Formula::Not(Box::new(a))), Box::new(b)),
        ),
{
    lemma_keywords();
    lemma_scan_three(a, "and"@, b, "and"@, b, names);
    let tokens = seq![Lexeme::Word("not"@)] + token_list(a) + seq![Lexeme::Word("and"@)]
        + token_list(b);
    let na = token_list(a).len() as int;
    let nb = token_list(b).len() as int;
    assert(tokens.subrange(1, 1 + na) == token_list(a));
    assert(tokens.subrange(na + 2, na + 2 + nb) == token_list(b));
    assert(tokens[0] == Lexeme::Word("not"@));
    assert(tokens[1 + na] == Lexeme::Word("and"@));
    lemma_tokens(a, names);
    lemma_tokens(b, names);
    lemma_atom(tokens, names, a, 1);
    lemma_first(tokens, names, a, 1);
    lemma_atom(tokens, names, b, na + 2);
    lemma_first(tokens, names, b, na + 2);
    let no = Formula::Not(Box::new(a));
    let all = Formula::And(Box::new(no), Box::new(b));
    let n1 = na + 1;
    let n2 = na + 2 + nb;
    assert(negation(tokens, names, 0) == Ok::<(Formula, int), Seq<char>>((no, n1)));
    assert(more_and(tokens, names, all, n2) == Ok::<(Formula, int), Seq<char>>((all, n2)));
    assert(more_and(tokens, names, no, n1) == Ok::<(Formula, int), Seq<char>>((all, n2)));
    assert(conjunction(tokens, names, 0) == Ok::<(Formula, int), Seq<char>>((all, n2)));
    assert(more_or(tokens, names, all, n2) == Ok::<(Formula, int), Seq<char>>((all, n2)));
}

proof fn lemma_with_prefix(names: Seq<Seq<char>>, prefix: Seq<char>)
    ensures
        with_prefix(names, prefix) == names.filter(
            |n: Seq<char>| prefix.len() <= n.len() && n.take(prefix.len() as int) == prefix,
        ),
    decreases names.len(),
{
    reveal(Seq::filter);
    if names.len() > 0 {
        lemma_with_prefix(names.drop_last(), prefix);
        let n = names.last();
        if prefix.len() <= n.len() {
            assert(n.take(prefix.len() as int) == n.subrange(0, prefix.len() as int));
        }
    }
}

/// A quantifier counts over all selections, over those whose names begin as the
/// pattern does, in their order, or over the one it names; a pattern that no name
/// begins with, or a name that is not defined, is refused.
pub proof fn quantifiers_take_the_names_they_match(names: Seq<Seq<char>>, target: Seq<char>)
    ensures
        targets(names, "them"@) == Ok::<Seq<Seq<char>>, Seq<char>>(names),
        ({
            let matching = names.filter(
                |n: Seq<char>| target.len() <= n.len() && n.take(target.len() as int) == target,
            );
            match targets(names, target.push('*')) {
                Ok(found) => found == matching && matching.len() > 0,
                Err(_) => matching.len() == 0,
            }
        }),
        target != "them"@ && (target.len() == 0 || target.last() != '*') ==> match targets(
            names,
            target,
        ) {
            Ok(found) => names.contains(target) && found == seq![target],
            Err(_) => !names.contains(target),
        },
{
    lemma_keywords();
    lemma_with_prefix(names, target);
    let star = target.push('*');
    assert(star.drop_last() == target);
    assert(star.last() == '*');
}

/// `all`, `any` and a number before `of` ask for every selection, for one, and for
/// that many; for more than there are is refused.
#[verifier::rlimit(40)]
pub proof fn quantifiers_ask_for_their_amount(
    names: Seq<Seq<char>>,
    target: Seq<char>,
    n: nat,
)
    requires
        one_word(target),
        targets(names, target) is Ok,
        n <= usize::MAX,
    ensures
        ({
            let found = targets(names, target)->Ok_0;
            let rest = seq![' '] + ("of"@ + (seq![' '] + target));
            &&& condition_of("all"@ + rest, names) == Ok::<Formula, Seq<char>>(
                Formula::AtLeast(found.len(), found),
            )
            &&& match condition_of("any"@ + rest, names) {
                Ok(formula) => formula == Formula::AtLeast(1, found) && found.len() >= 1,
                Err(_) => found.len() == 0,
            }
            &&& match condition_of(decimal_text(n) + rest, names) {
                Ok(formula) => formula == Formula::AtLeast(n, found) && n <= found.len(),
                Err(_) => n > found.len(),
            }
        }),
{
    lemma_keywords();
    decimals_read_back(n);
    lemma_decimal_word(n);
    assert(decimal_text(n)[0] != "all"@[0] && decimal_text(n)[0] != "any"@[0]) by {
        assert('0' <= decimal_text(n)[0] && decimal_text(n)[0] <= '9');
    }
    lemma_one_quantifier(names, target, "all"@, Amount::All);
    lemma_one_quantifier(names, target, "any"@, Amount::Any);
    assert(decimal_text(n) != "not"@) by {
        assert('0' <= decimal_text(n)[0] && decimal_text(n)[0] <= '9');
    }
    lemma_one_quantifier(names, target, decimal_text(n), Amount::Count(n));
}

proof fn lemma_one_quantifier(
    names: Seq<Seq<char>>,
    target: Seq<char>,
    word: Seq<char>,
    amount: Amount,
)
    requires
        one_word(target),
        one_word(word),
        word != "not"@,
        targets(names, target) is Ok,
        amount_of(word) == Some(amount),
    ensures
        ({
            let found = targets(names, target)->Ok_0;
            let want = needed(amount, found.len());
            match condition_of(word + (seq![' '] + ("of"@ + (seq![' '] + target))), names) {
                Ok(formula) => formula == Formula::AtLeast(want, found) && want <= found.len(),
                Err(_) => want > found.len(),
            }
        }),
{
    lemma_keywords();
    let none = Seq::<char>::empty();
    let space = seq![' '];
    let source = word + (space + ("of"@ + (space + target)));
    assert(target + none == target);
    assert(scan(none, none) == flushed(none));
    lemma_scan_one(target, none);
    lemma_scan_mark(' ', target);
    lemma_scan_one("of"@, space + target);
    lemma_scan_mark(' ', "of"@ + (space + target));
    lemma_scan_one(word, space + ("of"@ + (space + target)));
    let tokens = scan(source, none);
    assert(tokens =~= seq![Lexeme::Word(word), Lexeme::Word("of"@), Lexeme::Word(target)]);
    let found = targets(names, target)->Ok_0;
    let want = needed(amount, found.len());
    assert(word_at(tokens, 0) == Some(word));
    assert(word_at(tokens, 2) == Some(target));
    assert(negation(tokens, names, 0) == atom(tokens, names, 0));
    if want <= found.len() {
        let all = Formula::AtLeast(want, found);
        assert(atom(tokens, names, 0) == Ok::<(Formula, int), Seq<char>>((all, 3)));
        assert(more_and(tokens, names, all, 3) == Ok::<(Formula, int), Seq<char>>((all, 3)));
        assert(conjunction(tokens, names, 0) == Ok::<(Formula, int), Seq<char>>((all, 3)));
        assert(more_or(tokens, names, all, 3) == Ok::<(Formula, int), Seq<char>>((all, 3)));
    } else {
        assert(atom(tokens, names, 0) is Err);
        assert(conjunction(tokens, names, 0) is Err);
    }
}

/// A condition is read to its end and must be whole: nothing at all, an open
/// parenthesis that is not closed, one that closes nothing, a word with nothing to
/// join it, a connective with nothing behind it and a name that is no selection are
/// refused.
#[verifier::rlimit(40)]
pub proof fn incomplete_conditions_are_refused(
    a: Formula,
    word: Seq<char>,
    name: Seq<char>,
    names: Seq<Seq<char>>,
)
    requires
        speaks_of(a, names),
        one_word(word),
        ordinary(name),
        !names.contains(name),
    ensures
        condition_of(seq![], names) is Err,
        condition_of(seq!['('] + written(a), names) is Err,
        condition_of(written(a) + seq![')'], names) is Err,
        condition_of(written(a) + (seq![' '] + word), names) is Err,
        condition_of("not"@, names) is Err,
        condition_of(name, names) is Err,
{
    lemma_keywords();
    let none = Seq::<char>::empty();
    assert(scan(none, none) == flushed(none));
    assert(flushed(none) == Seq::<Lexeme>::empty());
    assert(word_at(Seq::<Lexeme>::empty(), 0) is None);
    reveal_with_fuel(disjunction, 2);
    reveal_with_fuel(conjunction, 2);
    reveal_with_fuel(negation, 3);
    lemma_tokens(a, names);
    let ta = token_list(a);
    let n = ta.len() as int;
    assert(condition_of(none, names) is Err);
    assert(condition_of(seq!['('] + written(a), names) is Err) by {
        lemma_scan_written(a, names, none);
        assert(written(a) + none == written(a));
        lemma_scan_mark('(', written(a));
        let tokens = seq![Lexeme::Open] + ta;
        assert(scan(seq!['('] + written(a), none) == tokens);
        assert(tokens.subrange(1, 1 + n) == ta);
        lemma_atom(tokens, names, a, 1);
        lemma_first(tokens, names, a, 1);
        assert(more_and(tokens, names, a, n + 1) == Ok::<(Formula, int), Seq<char>>((a, n + 1)));
        assert(conjunction(tokens, names, 1) == Ok::<(Formula, int), Seq<char>>((a, n + 1)));
        assert(more_or(tokens, names, a, n + 1) == Ok::<(Formula, int), Seq<char>>((a, n + 1)));
        assert(disjunction(tokens, names, 1) == Ok::<(Formula, int), Seq<char>>((a, n + 1)));
        assert(tokens[0] is Open);
        assert(atom(tokens, names, 0) is Err);
    }
    assert(condition_of(written(a) + seq![')'], names) is Err) by {
        lemma_scan_written(a, names, seq![')']);
        lemma_scan_mark(')', none);
        assert(seq![')'] + none == seq![')']);
        let tokens = ta + seq![Lexeme::Close];
        assert(scan(written(a) + seq![')'], none) == tokens);
        assert(tokens.subrange(0, n) == ta);
        assert(tokens[n] is Close);
        lemma_atom(tokens, names, a, 0);
        lemma_first(tokens, names, a, 0);
        assert(more_and(tokens, names, a, n) == Ok::<(Formula, int), Seq<char>>((a, n)));
        assert(more_or(tokens, names, a, n) == Ok::<(Formula, int), Seq<char>>((a, n)));
    }
    assert(condition_of(written(a) + (seq![' '] + word), names) is Err) by {
        lemma_scan_written(a, names, seq![' '] + word);
        lemma_scan_mark(' ', word);
        lemma_scan_one(word, none);
        assert(word + none == word);
        let tokens = ta + seq![Lexeme::Word(word)];
        assert(scan(written(a) + (seq![' '] + word), none) == tokens);
        assert(tokens.subrange(0, n) == ta);
        assert(tokens[n] == Lexeme::Word(word));
        lemma_atom(tokens, names, a, 0);
        lemma_first(tokens, names, a, 0);
        assert(atom(tokens, names, n + 1) is Err);
        assert(negation(tokens, names, n + 1) is Err);
        assert(conjunction(tokens, names, n + 1) is Err);
        if word == "and"@ {
            assert(more_and(tokens, names, a, n) is Err);
        } else {
            assert(more_and(tokens, names, a, n) == Ok::<(Formula, int), Seq<char>>((a, n)));
            if word == "or"@ {
                assert(more_or(tokens, names, a, n) is Err);
            } else {
                assert(more_or(tokens, names, a, n) == Ok::<(Formula, int), Seq<char>>((a, n)));
            }
        }
    }
    assert(condition_of("not"@, names) is Err) by {
        lemma_scan_one("not"@, none);
        assert("not"@ + none == "not"@);
        let tokens = seq![Lexeme::Word("not"@)];
        assert(scan("not"@, none) == tokens);
        assert(atom(tokens, names, 1) is Err);
        assert(negation(tokens, names, 1) is Err);
    }
    assert(condition_of(name, names) is Err) by {
        lemma_scan_one(name, none);
        assert(name + none == name);
        let tokens = seq![Lexeme::Word(name)];
        assert(scan(name, none) == tokens);
        assert(!all_digits(name)) by {
            assert(!('0' <= name[0] && name[0] <= '9'));
        }
        assert(atom(tokens, names, 0) is Err);
    }
}

} // verus!
