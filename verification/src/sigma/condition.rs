//! The boolean condition over a detection's selections, and its parser.
use crate::text::{
    all_digits, chars_of, concat3, concat5, copy_range, decimal, decimal_text, digits_value,
    is_white, occurs_at, parse_digits, same, starts_with, text_of, white,
};
use vstd::prelude::*;

verus! {

/// What went wrong with one rule's `detection` block.
#[derive(Debug, Clone, PartialEq, Eq)]
pub struct CompileError(pub String);

/// The boolean condition over selection names.
#[derive(Debug, PartialEq, Eq)]
pub enum Condition {
    /// One named selection.
    Selection(String),
    And(Box<Condition>, Box<Condition>),
    Or(Box<Condition>, Box<Condition>),
    Not(Box<Condition>),
    /// `N of pattern*`, `all of them`, `1 of them`: at least that many of the
    /// named selections must match.
    AtLeast(usize, Vec<String>),
}

/// A condition, as mathematics.
pub enum Formula {
    Selection(Seq<char>),
    And(Box<Formula>, Box<Formula>),
    Or(Box<Formula>, Box<Formula>),
    Not(Box<Formula>),
    AtLeast(nat, Seq<Seq<char>>),
}

/// The characters of each text.
pub open spec fn views(texts: Seq<String>) -> Seq<Seq<char>> {
    texts.map_values(|s: String| s@)
}

impl Condition {
    /// The formula this condition stands for.
    pub open spec fn formula(&self) -> Formula
        decreases self,
    {
        match self {
            Condition::Selection(name) => Formula::Selection(name@),
            Condition::And(a, b) => Formula::And(Box::new(a.formula()), Box::new(b.formula())),
            Condition::Or(a, b) => Formula::Or(Box::new(a.formula()), Box::new(b.formula())),
            Condition::Not(a) => Formula::Not(Box::new(a.formula())),
            Condition::AtLeast(n, names) => Formula::AtLeast(*n as nat, views(names@)),
        }
    }
}

impl Clone for Condition {
    fn clone(&self) -> (copy: Condition)
        ensures
            copy.formula() == self.formula(),
        decreases self,
    {
        match self {
            Condition::Selection(name) => Condition::Selection(name.clone()),
            Condition::And(a, b) => Condition::And(
                Box::new((&**a).clone()),
                Box::new((&**b).clone()),
            ),
            Condition::Or(a, b) => Condition::Or(
                Box::new((&**a).clone()),
                Box::new((&**b).clone()),
            ),
            Condition::Not(a) => Condition::Not(Box::new((&**a).clone())),
            Condition::AtLeast(n, names) => Condition::AtLeast(*n, copy_texts(names)),
        }
    }
}

/// One token of a condition.
pub enum Token {
    Word(String),
    Open,
    Close,
}

/// One token of a condition, as mathematics.
pub enum Lexeme {
    Word(Seq<char>),
    Open,
    Close,
}

impl Token {
    pub open spec fn lexeme(&self) -> Lexeme {
        match self {
            Token::Word(w) => Lexeme::Word(w@),
            Token::Open => Lexeme::Open,
            Token::Close => Lexeme::Close,
        }
    }
}

/// The lexemes a list of tokens stands for.
pub open spec fn lexemes(tokens: Seq<Token>) -> Seq<Lexeme> {
    tokens.map_values(|t: Token| t.lexeme())
}

/// The word read so far, if there is one.
pub open spec fn flushed(word: Seq<char>) -> Seq<Lexeme> {
    if word.len() > 0 {
        seq![Lexeme::Word(word)]
    } else {
        seq![]
    }
}

/// The tokens left to read, with `word` already begun: parentheses stand alone
/// and white space separates words.
pub open spec fn scan(source: Seq<char>, word: Seq<char>) -> Seq<Lexeme>
    decreases source.len(),
{
    if source.len() == 0 {
        flushed(word)
    } else {
        let rest = source.drop_first();
        if source[0] == '(' {
            flushed(word) + seq![Lexeme::Open] + scan(rest, seq![])
        } else if source[0] == ')' {
            flushed(word) + seq![Lexeme::Close] + scan(rest, seq![])
        } else if white(source[0]) {
            flushed(word) + scan(rest, seq![])
        } else {
            scan(rest, word.push(source[0]))
        }
    }
}

fn flush(tokens: &mut Vec<Token>, word: &mut Vec<char>)
    ensures
        lexemes(final(tokens)@) == lexemes(old(tokens)@) + flushed(old(word)@),
        final(word)@.len() == 0,
{
    if word.len() > 0 {
        let ghost before = lexemes(tokens@);
        tokens.push(Token::Word(text_of(word.as_slice())));
        assert(lexemes(tokens@) == before + flushed(word@));
    } else {
        assert(lexemes(tokens@) == lexemes(tokens@) + flushed(word@));
    }
    word.clear();
}

/// Splits a condition into words and parentheses.
pub fn tokenize(source: &str) -> (tokens: Vec<Token>)
    ensures
        lexemes(tokens@) == scan(source@, seq![]),
{
    let chars = chars_of(source);
    let mut tokens: Vec<Token> = Vec::new();
    let mut word: Vec<char> = Vec::new();
    let mut i: usize = 0;
    assert(chars@.skip(0) == chars@);
    assert(lexemes(tokens@) + scan(chars@, word@) == scan(chars@, seq![]));
    while i < chars.len()
        invariant
            i <= chars@.len(),
            lexemes(tokens@) + scan(chars@.skip(i as int), word@) == scan(chars@, seq![]),
        decreases chars@.len() - i,
    {
        let c: char = chars[i];
        let ghost rest = chars@.skip(i as int);
        let ghost before = lexemes(tokens@);
        let ghost was = word@;
        assert(rest[0] == c);
        assert(rest.drop_first() == chars@.skip(i + 1));
        if c == '(' {
            flush(&mut tokens, &mut word);
            let ghost mid = lexemes(tokens@);
            tokens.push(Token::Open);
            assert(lexemes(tokens@) == mid + seq![Lexeme::Open]);
            assert(word@ == Seq::<char>::empty());
        } else if c == ')' {
            flush(&mut tokens, &mut word);
            let ghost mid = lexemes(tokens@);
            tokens.push(Token::Close);
            assert(lexemes(tokens@) == mid + seq![Lexeme::Close]);
            assert(word@ == Seq::<char>::empty());
        } else if is_white(c) {
            flush(&mut tokens, &mut word);
            assert(word@ == Seq::<char>::empty());
        } else {
            word.push(c);
        }
        assert(lexemes(tokens@) + scan(chars@.skip(i + 1), word@) == before + scan(rest, was));
        i += 1;
    }
    flush(&mut tokens, &mut word);
    tokens
}

/// How many selections a quantifier asks for.
pub enum Quantifier {
    All,
    Any,
    Count(usize),
}

/// How many selections a quantifier asks for, as mathematics.
pub enum Amount {
    All,
    Any,
    Count(nat),
}

/// The outcome of reading part of a condition: the formula and where reading
/// goes on, or why there is none.
pub type Outcome = Result<(Formula, int), Seq<char>>;

/// Whether the token at `at` is the word `want`.
pub open spec fn is_word(tokens: Seq<Lexeme>, at: int, want: Seq<char>) -> bool {
    0 <= at < tokens.len() && tokens[at] == Lexeme::Word(want)
}

/// The word at `at`.
pub open spec fn word_at(tokens: Seq<Lexeme>, at: int) -> Option<Seq<char>> {
    if 0 <= at < tokens.len() && tokens[at] is Word {
        Some(tokens[at]->Word_0)
    } else {
        None
    }
}

/// What an error message calls the token at `at`.
pub open spec fn described(tokens: Seq<Lexeme>, at: int) -> Seq<char> {
    if 0 <= at < tokens.len() {
        match tokens[at] {
            Lexeme::Word(w) => w,
            Lexeme::Open => "("@,
            Lexeme::Close => ")"@,
        }
    } else {
        "<end>"@
    }
}

/// The amount a word asks for, if it is a quantifier.
pub open spec fn amount_of(word: Seq<char>) -> Option<Amount> {
    if word == "all"@ {
        Some(Amount::All)
    } else if word == "any"@ {
        Some(Amount::Any)
    } else if word.len() > 0 && all_digits(word) && digits_value(word) <= usize::MAX {
        Some(Amount::Count(digits_value(word)))
    } else {
        None
    }
}

/// Names that begin with a prefix, in order.
pub open spec fn with_prefix(names: Seq<Seq<char>>, prefix: Seq<char>) -> Seq<Seq<char>>
    decreases names.len(),
{
    if names.len() == 0 {
        seq![]
    } else {
        let front = with_prefix(names.drop_last(), prefix);
        if occurs_at(names.last(), prefix, 0) {
            front.push(names.last())
        } else {
            front
        }
    }
}

/// Why a name that is not a selection is refused.
pub open spec fn undefined(name: Seq<char>) -> Seq<char> {
    "`condition` names the selection `"@ + name + "`, which the detection does not define"@
}

/// The selections a quantifier's target stands for.
pub open spec fn targets(names: Seq<Seq<char>>, target: Seq<char>) -> Result<
    Seq<Seq<char>>,
    Seq<char>,
> {
    if target == "them"@ {
        Ok(names)
    } else if target.len() > 0 && target.last() == '*' {
        let found = with_prefix(names, target.drop_last());
        if found.len() == 0 {
            Err("`"@ + target + "` matches no selection"@)
        } else {
            Ok(found)
        }
    } else if names.contains(target) {
        Ok(seq![target])
    } else {
        Err(undefined(target))
    }
}

/// How many of `count` selections an amount asks for.
pub open spec fn needed(amount: Amount, count: nat) -> nat {
    match amount {
        Amount::All => count,
        Amount::Any => 1,
        Amount::Count(n) => n,
    }
}

/// A quantifier at `at`, then `of`, then its target.
pub open spec fn quantified(
    tokens: Seq<Lexeme>,
    names: Seq<Seq<char>>,
    amount: Amount,
    at: int,
) -> Outcome {
    if !is_word(tokens, at + 1, "of"@) {
        Err("a quantifier must be followed by `of`"@)
    } else {
        match word_at(tokens, at + 2) {
            None => Err("`of` must be followed by a selection name, a pattern, or `them`"@),
            Some(target) => match targets(names, target) {
                Err(reason) => Err(reason),
                Ok(found) => if needed(amount, found.len()) > found.len() {
                    Err(
                        "`"@ + target + "` quantifies over "@ + decimal_text(found.len())
                            + " selection(s), which cannot satisfy `"@ + decimal_text(
                            needed(amount, found.len()),
                        ) + " of`"@,
                    )
                } else {
                    Ok((Formula::AtLeast(needed(amount, found.len()), found), at + 3))
                },
            },
        }
    }
}

/// `or` binds loosest and groups to the left.
pub open spec fn disjunction(tokens: Seq<Lexeme>, names: Seq<Seq<char>>, at: int) -> Outcome
    decreases tokens.len() - at, 5nat,
{
    match conjunction(tokens, names, at) {
        Err(reason) => Err(reason),
        Ok((left, next)) => if at <= next <= tokens.len() {
            more_or(tokens, names, left, next)
        } else {
            Ok((left, next))
        },
    }
}

/// Further alternatives to `left`.
pub open spec fn more_or(
    tokens: Seq<Lexeme>,
    names: Seq<Seq<char>>,
    left: Formula,
    at: int,
) -> Outcome
    decreases tokens.len() - at, 4nat,
{
    if is_word(tokens, at, "or"@) {
        match conjunction(tokens, names, at + 1) {
            Err(reason) => Err(reason),
            Ok((right, next)) => if at < next <= tokens.len() {
                more_or(tokens, names, Formula::Or(Box::new(left), Box::new(right)), next)
            } else {
                Ok((right, next))
            },
        }
    } else {
        Ok((left, at))
    }
}

proof fn lemma_or_refused(tokens: Seq<Lexeme>, names: Seq<Seq<char>>, left: Formula, at: int)
    requires
        is_word(tokens, at, "or"@),
        conjunction(tokens, names, at + 1) is Err,
    ensures
        more_or(tokens, names, left, at) == conjunction(tokens, names, at + 1),
{
}

/// `and` binds tighter than `or` and groups to the left.
pub open spec fn conjunction(tokens: Seq<Lexeme>, names: Seq<Seq<char>>, at: int) -> Outcome
    decreases tokens.len() - at, 3nat,
{
    match negation(tokens, names, at) {
        Err(reason) => Err(reason),
        Ok((left, next)) => if at <= next <= tokens.len() {
            more_and(tokens, names, left, next)
        } else {
            Ok((left, next))
        },
    }
}

/// Further conjuncts of `left`.
pub open spec fn more_and(
    tokens: Seq<Lexeme>,
    names: Seq<Seq<char>>,
    left: Formula,
    at: int,
) -> Outcome
    decreases tokens.len() - at, 2nat,
{
    if is_word(tokens, at, "and"@) {
        match negation(tokens, names, at + 1) {
            Err(reason) => Err(reason),
            Ok((right, next)) => if at < next <= tokens.len() {
                more_and(tokens, names, Formula::And(Box::new(left), Box::new(right)), next)
            } else {
                Ok((right, next))
            },
        }
    } else {
        Ok((left, at))
    }
}

proof fn lemma_and_refused(tokens: Seq<Lexeme>, names: Seq<Seq<char>>, left: Formula, at: int)
    requires
        is_word(tokens, at, "and"@),
        negation(tokens, names, at + 1) is Err,
    ensures
        more_and(tokens, names, left, at) == negation(tokens, names, at + 1),
{
}

/// `not` binds tighter than `and`.
pub open spec fn negation(tokens: Seq<Lexeme>, names: Seq<Seq<char>>, at: int) -> Outcome
    decreases tokens.len() - at, 1nat,
{
    if is_word(tokens, at, "not"@) {
        match negation(tokens, names, at + 1) {
            Err(reason) => Err(reason),
            Ok((inner, next)) => Ok((Formula::Not(Box::new(inner)), next)),
        }
    } else {
        atom(tokens, names, at)
    }
}

/// A parenthesised condition, a quantifier, or one selection.
pub open spec fn atom(tokens: Seq<Lexeme>, names: Seq<Seq<char>>, at: int) -> Outcome
    decreases tokens.len() - at, 0nat,
{
    if 0 <= at < tokens.len() && tokens[at] is Open {
        match disjunction(tokens, names, at + 1) {
            Err(reason) => Err(reason),
            Ok((inner, next)) => if 0 <= next < tokens.len() && tokens[next] is Close {
                Ok((inner, next + 1))
            } else {
                Err("unbalanced `(` in `condition`"@)
            },
        }
    } else {
        match word_at(tokens, at) {
            Some(word) => match amount_of(word) {
                Some(amount) => quantified(tokens, names, amount, at),
                None => if names.contains(word) {
                    Ok((Formula::Selection(word), at + 1))
                } else {
                    Err(undefined(word))
                },
            },
            None => Err(
                "`condition` expected a selection name, found `"@ + described(tokens, at) + "`"@,
            ),
        }
    }
}

/// The formula a whole condition stands for: every token is read.
pub open spec fn condition_of(source: Seq<char>, names: Seq<Seq<char>>) -> Result<
    Formula,
    Seq<char>,
> {
    let tokens = scan(source, seq![]);
    if tokens.len() == 0 {
        Err("`condition` is empty"@)
    } else {
        match disjunction(tokens, names, 0) {
            Err(reason) => Err(reason),
            Ok((formula, next)) => if next != tokens.len() {
                Err("`condition` has trailing tokens starting at `"@ + described(tokens, next) + "`"@)
            } else {
                Ok(formula)
            },
        }
    }
}

/// Whether every selection a formula names is defined, and no quantifier asks for
/// more selections than it names.
pub open spec fn well_named(formula: Formula, names: Seq<Seq<char>>) -> bool
    decreases formula,
{
    match formula {
        Formula::Selection(name) => names.contains(name),
        Formula::And(a, b) => well_named(*a, names) && well_named(*b, names),
        Formula::Or(a, b) => well_named(*a, names) && well_named(*b, names),
        Formula::Not(a) => well_named(*a, names),
        Formula::AtLeast(n, found) => n <= found.len() && forall|i: int|
            0 <= i < found.len() ==> names.contains(#[trigger] found[i]),
    }
}

spec fn outcome_named(outcome: Outcome, names: Seq<Seq<char>>) -> bool {
    match outcome {
        Ok((formula, _)) => well_named(formula, names),
        Err(_) => true,
    }
}

proof fn lemma_prefixed(all: Seq<Seq<char>>, names: Seq<Seq<char>>, prefix: Seq<char>)
    requires
        forall|i: int| 0 <= i < names.len() ==> all.contains(#[trigger] names[i]),
    ensures
        forall|i: int|
            0 <= i < with_prefix(names, prefix).len() ==> all.contains(
                #[trigger] with_prefix(names, prefix)[i],
            ),
    decreases names.len(),
{
    if names.len() > 0 {
        let front = names.drop_last();
        assert forall|i: int| 0 <= i < front.len() implies all.contains(#[trigger] front[i]) by {
            assert(front[i] == names[i]);
        }
        lemma_prefixed(all, front, prefix);
        assert(all.contains(names[names.len() - 1]));
        let found = with_prefix(names, prefix);
        let earlier = with_prefix(front, prefix);
        assert forall|i: int| 0 <= i < found.len() implies all.contains(#[trigger] found[i]) by {
            if i < earlier.len() {
                assert(found[i] == earlier[i]);
            }
        }
    }
}

proof fn lemma_disjunction_named(tokens: Seq<Lexeme>, names: Seq<Seq<char>>, at: int)
    ensures
        outcome_named(disjunction(tokens, names, at), names),
    decreases tokens.len() - at, 5nat,
{
    lemma_conjunction_named(tokens, names, at);
    match conjunction(tokens, names, at) {
        Ok((left, next)) => {
            if at <= next <= tokens.len() {
                lemma_more_or_named(tokens, names, left, next);
            }
        },
        Err(_) => {},
    }
}

proof fn lemma_more_or_named(tokens: Seq<Lexeme>, names: Seq<Seq<char>>, left: Formula, at: int)
    requires
        well_named(left, names),
    ensures
        outcome_named(more_or(tokens, names, left, at), names),
    decreases tokens.len() - at, 4nat,
{
    if is_word(tokens, at, "or"@) {
        lemma_conjunction_named(tokens, names, at + 1);
        match conjunction(tokens, names, at + 1) {
            Ok((right, next)) => {
                if at < next <= tokens.len() {
                    lemma_more_or_named(
                        tokens,
                        names,
                        Formula::Or(Box::new(left), Box::new(right)),
                        next,
                    );
                }
            },
            Err(_) => {},
        }
    }
}

proof fn lemma_conjunction_named(tokens: Seq<Lexeme>, names: Seq<Seq<char>>, at: int)
    ensures
        outcome_named(conjunction(tokens, names, at), names),
    decreases tokens.len() - at, 3nat,
{
    lemma_negation_named(tokens, names, at);
    match negation(tokens, names, at) {
        Ok((left, next)) => {
            if at <= next <= tokens.len() {
                lemma_more_and_named(tokens, names, left, next);
            }
        },
        Err(_) => {},
    }
}

proof fn lemma_more_and_named(tokens: Seq<Lexeme>, names: Seq<Seq<char>>, left: Formula, at: int)
    requires
        well_named(left, names),
    ensures
        outcome_named(more_and(tokens, names, left, at), names),
    decreases tokens.len() - at, 2nat,
{
    if is_word(tokens, at, "and"@) {
        lemma_negation_named(tokens, names, at + 1);
        match negation(tokens, names, at + 1) {
            Ok((right, next)) => {
                if at < next <= tokens.len() {
                    lemma_more_and_named(
                        tokens,
                        names,
                        Formula::And(Box::new(left), Box::new(right)),
                        next,
                    );
                }
            },
            Err(_) => {},
        }
    }
}

proof fn lemma_negation_named(tokens: Seq<Lexeme>, names: Seq<Seq<char>>, at: int)
    ensures
        outcome_named(negation(tokens, names, at), names),
    decreases tokens.len() - at, 1nat,
{
    if is_word(tokens, at, "not"@) {
        lemma_negation_named(tokens, names, at + 1);
    } else {
        lemma_atom_named(tokens, names, at);
    }
}

proof fn lemma_atom_named(tokens: Seq<Lexeme>, names: Seq<Seq<char>>, at: int)
    ensures
        outcome_named(atom(tokens, names, at), names),
    decreases tokens.len() - at, 0nat,
{
    if 0 <= at < tokens.len() && tokens[at] is Open {
        lemma_disjunction_named(tokens, names, at + 1);
    } else if word_at(tokens, at) is Some && amount_of(word_at(tokens, at)->0) is Some {
        match word_at(tokens, at + 2) {
            Some(target) => {
                assert forall|i: int| 0 <= i < names.len() implies names.contains(
                    #[trigger] names[i],
                ) by {}
                if target.len() > 0 && target.last() == '*' {
                    lemma_prefixed(names, names, target.drop_last());
                }
            },
            None => {},
        }
    }
}

/// A condition that parses names only selections that are defined, and asks for
/// no more of them than there are.
pub proof fn parsed_conditions_are_well_named(source: Seq<char>, names: Seq<Seq<char>>)
    ensures
        condition_of(source, names) matches Ok(formula) ==> well_named(formula, names),
{
    lemma_disjunction_named(scan(source, seq![]), names, 0);
}

/// Whether an executable outcome is the given one, further along than `at`.
spec fn agrees(
    got: Result<(Condition, usize), CompileError>,
    want: Outcome,
    at: int,
    len: int,
) -> bool {
    match got {
        Ok((condition, next)) => at < next <= len && want == Ok::<(Formula, int), Seq<char>>(
            (condition.formula(), next as int),
        ),
        Err(CompileError(reason)) => want == Err::<(Formula, int), Seq<char>>(reason@),
    }
}

struct Parser<'a> {
    tokens: Vec<Token>,
    names: &'a Vec<String>,
}

impl<'a> Parser<'a> {
    spec fn toks(&self) -> Seq<Lexeme> {
        lexemes(self.tokens@)
    }

    spec fn known(&self) -> Seq<Seq<char>> {
        views(self.names@)
    }

    fn describe(&self, at: usize) -> (text: String)
        ensures
            text@ == described(self.toks(), at as int),
    {
        if at < self.tokens.len() {
            match &self.tokens[at] {
                Token::Word(w) => w.clone(),
                Token::Open => "(".to_string(),
                Token::Close => ")".to_string(),
            }
        } else {
            "<end>".to_string()
        }
    }

    fn word(&self, at: usize) -> (word: Option<&String>)
        ensures
            match word {
                Some(w) => word_at(self.toks(), at as int) == Some(w@) && at < self.tokens@.len()
                    <= usize::MAX,
                None => word_at(self.toks(), at as int) is None,
            },
    {
        if at < self.tokens.len() {
            match &self.tokens[at] {
                Token::Word(w) => Some(w),
                _ => None,
            }
        } else {
            None
        }
    }

    fn at_word(&self, at: usize, want: &str) -> (yes: bool)
        ensures
            yes == is_word(self.toks(), at as int, want@),
            yes ==> at < self.tokens@.len() <= usize::MAX,
    {
        match self.word(at) {
            Some(w) => same(w.as_str(), want),
            None => false,
        }
    }

    fn knows(&self, name: &str) -> (yes: bool)
        ensures
            yes == self.known().contains(name@),
    {
        let mut i: usize = 0;
        while i < self.names.len()
            invariant
                i <= self.names@.len(),
                forall|j: int| 0 <= j < i ==> self.known()[j] != name@,
            decreases self.names@.len() - i,
        {
            if same(self.names[i].as_str(), name) {
                assert(self.known()[i as int] == name@);
                return true;
            }
            i += 1;
        }
        false
    }

    fn or(&self, at: usize) -> (outcome: Result<(Condition, usize), CompileError>)
        requires
            at <= self.tokens@.len(),
        ensures
            agrees(
                outcome,
                disjunction(self.toks(), self.known(), at as int),
                at as int,
                self.tokens@.len() as int,
            ),
        decreases self.tokens@.len() - at, 5nat,
    {
        let mut left: Condition;
        let mut next: usize;
        match self.and(at) {
            Ok((first, after)) => {
                left = first;
                next = after;
            },
            Err(reason) => {
                return Err(reason);
            },
        }
        while self.at_word(next, "or")
            invariant
                at < next <= self.tokens@.len(),
                disjunction(self.toks(), self.known(), at as int) == more_or(
                    self.toks(),
                    self.known(),
                    left.formula(),
                    next as int,
                ),
            decreases self.tokens@.len() - next,
        {
            match self.and(next + 1) {
                Ok((right, after)) => {
                    left = Condition::Or(Box::new(left), Box::new(right));
                    next = after;
                },
                Err(reason) => {
                    proof {
                        lemma_or_refused(self.toks(), self.known(), left.formula(), next as int);
                    }
                    return Err(reason);
                },
            }
        }
        Ok((left, next))
    }

    fn and(&self, at: usize) -> (outcome: Result<(Condition, usize), CompileError>)
        requires
            at <= self.tokens@.len(),
        ensures
            agrees(
                outcome,
                conjunction(self.toks(), self.known(), at as int),
                at as int,
                self.tokens@.len() as int,
            ),
        decreases self.tokens@.len() - at, 3nat,
    {
        let mut left: Condition;
        let mut next: usize;
        match self.not(at) {
            Ok((first, after)) => {
                left = first;
                next = after;
            },
            Err(reason) => {
                return Err(reason);
            },
        }
        while self.at_word(next, "and")
            invariant
                at < next <= self.tokens@.len(),
                conjunction(self.toks(), self.known(), at as int) == more_and(
                    self.toks(),
                    self.known(),
                    left.formula(),
                    next as int,
                ),
            decreases self.tokens@.len() - next,
        {
            match self.not(next + 1) {
                Ok((right, after)) => {
                    left = Condition::And(Box::new(left), Box::new(right));
                    next = after;
                },
                Err(reason) => {
                    proof {
                        lemma_and_refused(self.toks(), self.known(), left.formula(), next as int);
                    }
                    return Err(reason);
                },
            }
        }
        Ok((left, next))
    }

    fn not(&self, at: usize) -> (outcome: Result<(Condition, usize), CompileError>)
        requires
            at <= self.tokens@.len(),
        ensures
            agrees(
                outcome,
                negation(self.toks(), self.known(), at as int),
                at as int,
                self.tokens@.len() as int,
            ),
        decreases self.tokens@.len() - at, 1nat,
    {
        if self.at_word(at, "not") {
            match self.not(at + 1) {
                Ok((inner, next)) => Ok((Condition::Not(Box::new(inner)), next)),
                Err(reason) => Err(reason),
            }
        } else {
            self.primary(at)
        }
    }

    fn primary(&self, at: usize) -> (outcome: Result<(Condition, usize), CompileError>)
        requires
            at <= self.tokens@.len(),
        ensures
            agrees(
                outcome,
                atom(self.toks(), self.known(), at as int),
                at as int,
                self.tokens@.len() as int,
            ),
        decreases self.tokens@.len() - at, 0nat,
    {
        if at < self.tokens.len() && matches!(&self.tokens[at], Token::Open) {
            match self.or(at + 1) {
                Ok((inner, next)) => {
                    if next < self.tokens.len() && matches!(&self.tokens[next], Token::Close) {
                        Ok((inner, next + 1))
                    } else {
                        Err(CompileError("unbalanced `(` in `condition`".to_string()))
                    }
                },
                Err(reason) => Err(reason),
            }
        } else {
            match self.word(at) {
                Some(word) => match quantifier(word.as_str()) {
                    Some(amount) => self.quantified(amount, at),
                    None => {
                        if self.knows(word.as_str()) {
                            Ok((Condition::Selection(word.clone()), at + 1))
                        } else {
                            Err(no_such_selection(word.as_str()))
                        }
                    },
                },
                None => Err(
                    CompileError(
                        concat3(
                            "`condition` expected a selection name, found `",
                            self.describe(at).as_str(),
                            "`",
                        ),
                    ),
                ),
            }
        }
    }

    fn quantified(&self, amount: Quantifier, at: usize) -> (outcome: Result<
        (Condition, usize),
        CompileError,
    >)
        requires
            at < self.tokens@.len() <= usize::MAX,
        ensures
            agrees(
                outcome,
                quantified(self.toks(), self.known(), amount.amount(), at as int),
                at as int,
                self.tokens@.len() as int,
            ),
    {
        if !self.at_word(at + 1, "of") {
            return Err(CompileError("a quantifier must be followed by `of`".to_string()));
        }
        match self.word(at + 2) {
            None => Err(
                CompileError(
                    "`of` must be followed by a selection name, a pattern, or `them`".to_string(),
                ),
            ),
            Some(target) => match self.select(target.as_str()) {
                Err(reason) => Err(reason),
                Ok(found) => {
                    let want: usize = match amount {
                        Quantifier::All => found.len(),
                        Quantifier::Any => 1,
                        Quantifier::Count(n) => n,
                    };
                    assert(want == needed(amount.amount(), views(found@).len()));
                    if want > found.len() {
                        let mut reason = concat5(
                            "`",
                            target.as_str(),
                            "` quantifies over ",
                            decimal(found.len() as u64).as_str(),
                            " selection(s), which cannot satisfy `",
                        );
                        reason.push_str(decimal(want as u64).as_str());
                        reason.push_str(" of`");
                        Err(CompileError(reason))
                    } else {
                        Ok((Condition::AtLeast(want, found), at + 3))
                    }
                },
            },
        }
    }

    /// Resolves a quantifier's target to concrete selection names.
    fn select(&self, target: &str) -> (found: Result<Vec<String>, CompileError>)
        ensures
            match found {
                Ok(names) => targets(self.known(), target@) == Ok::<Seq<Seq<char>>, Seq<char>>(
                    views(names@),
                ),
                Err(CompileError(reason)) => targets(self.known(), target@) == Err::<
                    Seq<Seq<char>>,
                    Seq<char>,
                >(reason@),
            },
    {
        if same(target, "them") {
            return Ok(copy_texts(self.names));
        }
        let chars = chars_of(target);
        if chars.len() > 0 && chars[chars.len() - 1] == '*' {
            let prefix = copy_range(chars.as_slice(), 0, chars.len() - 1);
            assert(prefix@ == target@.drop_last());
            let mut found: Vec<String> = Vec::new();
            let mut i: usize = 0;
            assert(views(found@) == Seq::<Seq<char>>::empty());
            while i < self.names.len()
                invariant
                    i <= self.names@.len(),
                    views(found@) == with_prefix(self.known().take(i as int), prefix@),
                decreases self.names@.len() - i,
            {
                let ghost so_far = self.known().take(i + 1);
                assert(so_far.drop_last() == self.known().take(i as int));
                assert(so_far.last() == self.names@[i as int]@);
                let ghost before = found@;
                if starts_with(chars_of(self.names[i].as_str()).as_slice(), prefix.as_slice()) {
                    found.push(self.names[i].clone());
                    assert(views(found@) == views(before).push(self.names@[i as int]@));
                }
                i += 1;
            }
            assert(self.known().take(i as int) == self.known());
            if found.len() == 0 {
                return Err(CompileError(concat3("`", target, "` matches no selection")));
            }
            return Ok(found);
        }
        if self.knows(target) {
            let mut one: Vec<String> = Vec::new();
            one.push(target.to_string());
            assert(views(one@) == seq![target@]);
            Ok(one)
        } else {
            Err(no_such_selection(target))
        }
    }
}

fn copy_texts(texts: &Vec<String>) -> (copy: Vec<String>)
    ensures
        views(copy@) == views(texts@),
{
    let mut out: Vec<String> = Vec::new();
    let mut i: usize = 0;
    while i < texts.len()
        invariant
            i <= texts@.len(),
            views(out@) == views(texts@).take(i as int),
        decreases texts@.len() - i,
    {
        let ghost before = out@;
        out.push(texts[i].clone());
        assert(views(out@) == views(before).push(texts@[i as int]@));
        i += 1;
    }
    out
}

fn no_such_selection(name: &str) -> (error: CompileError)
    ensures
        error.0@ == undefined(name@),
{
    CompileError(
        concat3(
            "`condition` names the selection `",
            name,
            "`, which the detection does not define",
        ),
    )
}

impl Quantifier {
    pub open spec fn amount(&self) -> Amount {
        match self {
            Quantifier::All => Amount::All,
            Quantifier::Any => Amount::Any,
            Quantifier::Count(n) => Amount::Count(*n as nat),
        }
    }
}

/// The count a quantifier word asks for, or `None` if the word is not one.
pub fn quantifier(word: &str) -> (amount: Option<Quantifier>)
    ensures
        match amount {
            Some(q) => amount_of(word@) == Some(q.amount()),
            None => amount_of(word@) is None,
        },
{
    if same(word, "all") {
        Some(Quantifier::All)
    } else if same(word, "any") {
        Some(Quantifier::Any)
    } else {
        match parse_digits(chars_of(word).as_slice(), usize::MAX as u64) {
            Some(n) => Some(Quantifier::Count(n as usize)),
            None => None,
        }
    }
}

/// Parses `and`/`or`/`not`, parentheses, and the quantifier forms.
///
/// Quantifiers (`all of them`, `1 of selection*`, `2 of filter*`) are resolved
/// here into [`Condition::AtLeast`] over concrete selection names, so evaluation
/// never has to resolve a pattern.
pub fn parse_condition(source: &str, names: &Vec<String>) -> (condition: Result<
    Condition,
    CompileError,
>)
    ensures
        match condition {
            Ok(c) => condition_of(source@, views(names@)) == Ok::<Formula, Seq<char>>(c.formula()),
            Err(CompileError(reason)) => condition_of(source@, views(names@)) == Err::<
                Formula,
                Seq<char>,
            >(reason@),
        },
{
    let tokens = tokenize(source);
    if tokens.len() == 0 {
        return Err(CompileError("`condition` is empty".to_string()));
    }
    let parser = Parser { tokens, names };
    match parser.or(0) {
        Err(reason) => Err(reason),
        Ok((condition, next)) => {
            if next != parser.tokens.len() {
                Err(
                    CompileError(
                        concat3(
                            "`condition` has trailing tokens starting at `",
                            parser.describe(next).as_str(),
                            "`",
                        ),
                    ),
                )
            } else {
                Ok(condition)
            }
        },
    }
}

} // verus!
