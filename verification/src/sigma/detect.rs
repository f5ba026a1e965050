//! SIGMA's `detection` block: selections, the condition that combines them, and
//! the field modifiers.
//!
//! A detection is a set of named selections plus a boolean `condition` over
//! their names. A selection is either a map of field tests, all of which must
//! match, or a list of such maps, any of which may; a field test is a
//! `field|modifiers: value` whose value is a scalar or a list.
//!
//! `re`, `base64`, `windash`, the UTF-16 variants and the aggregation grammar
//! are recognised and rejected at load rather than silently ignored.
use super::condition::{condition_of, parse_condition, views, CompileError, Condition, Formula};
use super::pattern::{cidr_match, glob, inside_range, wildcard_bytes, Readings, STAR};
use super::view::{datum_text, field_datum, Datum, EventView, Fields, Value};
use super::yaml::{Node, Yaml};
use crate::text::{
    all_ascii, chars_of, concat3, concat5, folded, integer, integer_text, pieces, same, split,
    text_of, trim, trimmed, unicode_lowercase,
};
use vstd::prelude::*;
use vstd::utf8::encode_utf8;

verus! {

/// How a field's value is compared.
#[derive(Debug, Clone, Copy, PartialEq, Eq, Structural)]
pub enum Op {
    /// Whole-value match, wildcards allowed.
    Equals,
    Contains,
    StartsWith,
    EndsWith,
    /// The value is an address inside a CIDR range.
    Cidr,
    Greater,
    GreaterEq,
    Less,
    LessEq,
    /// The value equals another field's value.
    FieldRef,
    /// The field is absent: a SIGMA `field: null`.
    Absent,
}

/// One `field|modifiers: value` test.
#[derive(Debug, Clone, PartialEq, Eq)]
pub struct FieldTest {
    pub field: String,
    pub op: Op,
    pub needles: Vec<String>,
    /// `|all`: every needle must match rather than any one of them.
    pub all: bool,
    /// `|cased`: match case-sensitively.
    pub case_sensitive: bool,
}

/// A list of field tests that must all match.
pub type Group = Vec<FieldTest>;

/// A selection: alternatives, of which any one may match.
pub type Selection = Vec<Group>;

/// A compiled `detection` block.
#[derive(Debug, Clone)]
pub struct Detection {
    pub selections: Vec<(String, Selection)>,
    pub condition: Condition,
}

/// A field test, as mathematics.
pub struct Test {
    pub field: Seq<char>,
    pub op: Op,
    pub needles: Seq<Seq<char>>,
    pub all: bool,
    pub cased: bool,
}

/// A selection, as mathematics: any group, of which every test.
pub type Choice = Seq<Seq<Test>>;

/// A detection, as mathematics.
pub struct Plan {
    pub selections: Seq<(Seq<char>, Choice)>,
    pub condition: Formula,
}

impl FieldTest {
    pub open spec fn test(&self) -> Test {
        Test {
            field: self.field@,
            op: self.op,
            needles: views(self.needles@),
            all: self.all,
            cased: self.case_sensitive,
        }
    }
}

/// The tests a group stands for.
pub open spec fn group_tests(group: Seq<FieldTest>) -> Seq<Test> {
    group.map_values(|t: FieldTest| t.test())
}

/// The groups a selection stands for.
pub open spec fn choice_of(selection: Seq<Group>) -> Choice {
    selection.map_values(|g: Group| group_tests(g@))
}

/// The named choices a list of selections stands for.
pub open spec fn choices_of(selections: Seq<(String, Selection)>) -> Seq<(Seq<char>, Choice)> {
    selections.map_values(|s: (String, Selection)| (s.0@, choice_of(s.1@)))
}

impl Detection {
    pub open spec fn plan(&self) -> Plan {
        Plan { selections: choices_of(self.selections@), condition: self.condition.formula() }
    }
}

/// The ordering key of the number a datum reads as.
pub open spec fn datum_number(datum: Datum, readings: Readings) -> Option<i64> {
    match datum {
        Datum::Int(i) => readings.number_of(integer_text(i)),
        Datum::Text(s) => readings.number_of(trimmed(s)),
        Datum::Bool(_) => None,
    }
}

/// Whether both sides read as numbers that stand in the relation an operator
/// names.
pub open spec fn numbers_relate(
    op: Op,
    datum: Datum,
    needle: Seq<char>,
    readings: Readings,
) -> bool {
    match (datum_number(datum, readings), readings.number_of(trimmed(needle))) {
        (Some(left), Some(right)) => match op {
            Op::Greater => left > right,
            Op::GreaterEq => left >= right,
            Op::Less => left < right,
            Op::LessEq => left <= right,
            _ => false,
        },
        _ => false,
    }
}

/// The byte pattern a string operator makes of a needle.
pub open spec fn anchored(op: Op, needle: Seq<char>) -> Seq<u8> {
    let bytes = encode_utf8(needle);
    match op {
        Op::StartsWith => bytes.push(STAR),
        Op::EndsWith => seq![STAR] + bytes,
        Op::Contains => (seq![STAR] + bytes).push(STAR),
        _ => bytes,
    }
}

/// Whether one datum satisfies a test against one needle.
pub open spec fn needle_matches(
    test: Test,
    datum: Datum,
    needle: Seq<char>,
    readings: Readings,
) -> bool {
    match test.op {
        Op::FieldRef | Op::Absent => false,
        Op::Cidr => inside_range(needle, datum_text(datum), readings),
        Op::Greater | Op::GreaterEq | Op::Less | Op::LessEq => numbers_relate(
            test.op,
            datum,
            needle,
            readings,
        ),
        Op::Equals | Op::Contains | Op::StartsWith | Op::EndsWith => glob(
            anchored(test.op, needle),
            encode_utf8(datum_text(datum)),
            test.cased,
        ),
    }
}

/// Whether two texts are equal, in any case unless the test is cased.
pub open spec fn texts_agree(left: Seq<char>, right: Seq<char>, cased: bool) -> bool {
    if cased {
        left == right
    } else if all_ascii(left) && all_ascii(right) {
        folded(left) == folded(right)
    } else {
        unicode_lowercase(left) == unicode_lowercase(right)
    }
}

/// Whether the field `other` is present with the same text as `datum`.
pub open spec fn refers(datum: Datum, other: Seq<char>, cased: bool, fields: Fields) -> bool {
    match field_datum(fields, other) {
        Some(right) => texts_agree(datum_text(datum), datum_text(right), cased),
        None => false,
    }
}

/// Whether a test holds of an event's fields. A field the event does not carry
/// satisfies only the test that it is absent.
pub open spec fn test_holds(test: Test, fields: Fields, readings: Readings) -> bool {
    match field_datum(fields, test.field) {
        None => test.op == Op::Absent,
        Some(datum) => if test.op == Op::Absent {
            false
        } else if test.op == Op::FieldRef {
            if test.all {
                forall|i: int|
                    0 <= i < test.needles.len() ==> refers(
                        datum,
                        #[trigger] test.needles[i],
                        test.cased,
                        fields,
                    )
            } else {
                exists|i: int|
                    0 <= i < test.needles.len() && refers(
                        datum,
                        #[trigger] test.needles[i],
                        test.cased,
                        fields,
                    )
            }
        } else if test.all {
            forall|i: int|
                0 <= i < test.needles.len() ==> needle_matches(
                    test,
                    datum,
                    #[trigger] test.needles[i],
                    readings,
                )
        } else {
            exists|i: int|
                0 <= i < test.needles.len() && needle_matches(
                    test,
                    datum,
                    #[trigger] test.needles[i],
                    readings,
                )
        },
    }
}

/// Whether every test of a group holds.
pub open spec fn group_holds(group: Seq<Test>, fields: Fields, readings: Readings) -> bool {
    forall|i: int| 0 <= i < group.len() ==> test_holds(#[trigger] group[i], fields, readings)
}

/// Whether some group of a selection holds.
pub open spec fn choice_holds(choice: Choice, fields: Fields, readings: Readings) -> bool {
    exists|i: int| 0 <= i < choice.len() && group_holds(#[trigger] choice[i], fields, readings)
}

/// The first selection of a name.
pub open spec fn named(selections: Seq<(Seq<char>, Choice)>, name: Seq<char>) -> Option<Choice>
    decreases selections.len(),
{
    if selections.len() == 0 {
        None
    } else if selections[0].0 == name {
        Some(selections[0].1)
    } else {
        named(selections.drop_first(), name)
    }
}

/// Whether the selection of a name is defined and holds.
pub open spec fn name_holds(
    selections: Seq<(Seq<char>, Choice)>,
    name: Seq<char>,
    fields: Fields,
    readings: Readings,
) -> bool {
    match named(selections, name) {
        Some(choice) => choice_holds(choice, fields, readings),
        None => false,
    }
}

/// How many of the named selections hold.
pub open spec fn holding(
    selections: Seq<(Seq<char>, Choice)>,
    names: Seq<Seq<char>>,
    fields: Fields,
    readings: Readings,
) -> nat
    decreases names.len(),
{
    if names.len() == 0 {
        0
    } else {
        holding(selections, names.drop_last(), fields, readings) + if name_holds(
            selections,
            names.last(),
            fields,
            readings,
        ) {
            1nat
        } else {
            0nat
        }
    }
}

/// Whether a condition holds of an event's fields.
pub open spec fn formula_holds(
    selections: Seq<(Seq<char>, Choice)>,
    formula: Formula,
    fields: Fields,
    readings: Readings,
) -> bool
    decreases formula,
{
    match formula {
        Formula::Selection(name) => name_holds(selections, name, fields, readings),
        Formula::And(a, b) => formula_holds(selections, *a, fields, readings) && formula_holds(
            selections,
            *b,
            fields,
            readings,
        ),
        Formula::Or(a, b) => formula_holds(selections, *a, fields, readings) || formula_holds(
            selections,
            *b,
            fields,
            readings,
        ),
        Formula::Not(a) => !formula_holds(selections, *a, fields, readings),
        Formula::AtLeast(n, names) => holding(selections, names, fields, readings) >= n,
    }
}

fn number_of_value(value: &Value, readings: &Readings) -> (key: Option<i64>)
    ensures
        key == datum_number(value.datum(), *readings),
{
    match value {
        Value::Int(i) => readings.number(integer(*i).as_str()),
        Value::Text(s) => {
            let inner = trim(chars_of(s.as_str()).as_slice());
            readings.number(text_of(inner.as_slice()).as_str())
        },
        Value::Bool(_) => None,
    }
}

/// Whether a value and a needle read as numbers in the relation `op` names.
pub fn numeric(value: &Value, needle: &str, op: Op, readings: &Readings) -> (yes: bool)
    ensures
        yes == numbers_relate(op, value.datum(), needle@, *readings),
{
    let inner = trim(chars_of(needle).as_slice());
    let right = readings.number(text_of(inner.as_slice()).as_str());
    match (number_of_value(value, readings), right) {
        (Some(left), Some(right)) => match op {
            Op::Greater => left > right,
            Op::GreaterEq => left >= right,
            Op::Less => left < right,
            Op::LessEq => left <= right,
            _ => false,
        },
        _ => false,
    }
}

fn pattern_of(op: Op, needle: &str) -> (pattern: Vec<u8>)
    ensures
        pattern@ == anchored(op, needle@),
{
    let bytes = needle.as_bytes();
    let mut out: Vec<u8> = Vec::new();
    if op == Op::EndsWith || op == Op::Contains {
        out.push(STAR);
    }
    let ghost head = out@;
    let mut i: usize = 0;
    while i < bytes.len()
        invariant
            i <= bytes@.len(),
            out@ == head + bytes@.take(i as int),
        decreases bytes@.len() - i,
    {
        out.push(bytes[i]);
        i += 1;
    }
    assert(bytes@.take(i as int) == bytes@);
    if op == Op::StartsWith || op == Op::Contains {
        out.push(STAR);
    }
    assert(head.len() == 0 ==> head + bytes@ == bytes@);
    assert(head.len() == 1 ==> head == seq![STAR]);
    out
}

fn test_one(test: &FieldTest, value: &Value, needle: &str, readings: &Readings) -> (yes: bool)
    ensures
        yes == needle_matches(test.test(), value.datum(), needle@, *readings),
{
    match test.op {
        Op::FieldRef | Op::Absent => false,
        Op::Cidr => cidr_match(needle, value.as_text().as_str(), readings),
        Op::Greater | Op::GreaterEq | Op::Less | Op::LessEq => numeric(
            value,
            needle,
            test.op,
            readings,
        ),
        Op::Equals | Op::Contains | Op::StartsWith | Op::EndsWith => {
            let text = value.as_text();
            let pattern = pattern_of(test.op, needle);
            wildcard_bytes(pattern.as_slice(), text.as_str().as_bytes(), test.case_sensitive)
        },
    }
}

fn same_field(value: &Value, other: &str, cased: bool, view: &EventView) -> (yes: bool)
    ensures
        yes == refers(value.datum(), other@, cased, view.data()),
{
    match view.get(other) {
        Some(right) => {
            let left = value.as_text();
            let right = right.as_text();
            if cased {
                same(left.as_str(), right.as_str())
            } else {
                let left = left.as_str().to_lowercase();
                let right = right.as_str().to_lowercase();
                same(left.as_str(), right.as_str())
            }
        },
        None => false,
    }
}

/// One field test against one view.
#[verifier::loop_isolation(false)]
pub fn test_matches(test: &FieldTest, view: &EventView, readings: &Readings) -> (yes: bool)
    ensures
        yes == test_holds(test.test(), view.data(), *readings),
{
    let ghost t = test.test();
    if test.op == Op::Absent {
        return view.get(test.field.as_str()).is_none();
    }
    let value = match view.get(test.field.as_str()) {
        Some(value) => value,
        None => {
            return false;
        },
    };
    let mut i: usize = 0;
    if test.op == Op::FieldRef {
        while i < test.needles.len()
            invariant
                i <= test.needles@.len(),
                t == test.test(),
                forall|k: int|
                    0 <= k < i ==> t.all == refers(
                        value.datum(),
                        #[trigger] t.needles[k],
                        t.cased,
                        view.data(),
                    ),
            decreases test.needles@.len() - i,
        {
            assert(t.needles[i as int] == test.needles@[i as int]@);
            let agrees = same_field(value, test.needles[i].as_str(), test.case_sensitive, view);
            if agrees != test.all {
                return agrees;
            }
            i += 1;
        }
        return test.all;
    }
    if test.all {
        while i < test.needles.len()
            invariant
                i <= test.needles@.len(),
                t == test.test(),
                forall|k: int|
                    0 <= k < i ==> needle_matches(
                        t,
                        value.datum(),
                        #[trigger] t.needles[k],
                        *readings,
                    ),
            decreases test.needles@.len() - i,
        {
            assert(t.needles[i as int] == test.needles@[i as int]@);
            if !test_one(test, value, test.needles[i].as_str(), readings) {
                return false;
            }
            i += 1;
        }
        return true;
    }
    while i < test.needles.len()
        invariant
            i <= test.needles@.len(),
            t == test.test(),
            forall|k: int|
                0 <= k < i ==> !needle_matches(
                    t,
                    value.datum(),
                    #[trigger] t.needles[k],
                    *readings,
                ),
        decreases test.needles@.len() - i,
    {
        assert(t.needles[i as int] == test.needles@[i as int]@);
        if test_one(test, value, test.needles[i].as_str(), readings) {
            return true;
        }
        i += 1;
    }
    false
}

fn group_matches(group: &Group, view: &EventView, readings: &Readings) -> (yes: bool)
    ensures
        yes == group_holds(group_tests(group@), view.data(), *readings),
{
    let mut i: usize = 0;
    while i < group.len()
        invariant
            i <= group@.len(),
            forall|k: int|
                0 <= k < i ==> test_holds(
                    #[trigger] group_tests(group@)[k],
                    view.data(),
                    *readings,
                ),
        decreases group@.len() - i,
    {
        assert(group_tests(group@)[i as int] == group@[i as int].test());
        if !test_matches(&group[i], view, readings) {
            return false;
        }
        i += 1;
    }
    true
}

/// Whether some group of a selection holds of a view.
pub fn selection_matches(selection: &Selection, view: &EventView, readings: &Readings) -> (yes:
    bool)
    ensures
        yes == choice_holds(choice_of(selection@), view.data(), *readings),
{
    let mut i: usize = 0;
    while i < selection.len()
        invariant
            i <= selection@.len(),
            forall|k: int|
                0 <= k < i ==> !group_holds(
                    #[trigger] choice_of(selection@)[k],
                    view.data(),
                    *readings,
                ),
        decreases selection@.len() - i,
    {
        assert(choice_of(selection@)[i as int] == group_tests(selection@[i as int]@));
        if group_matches(&selection[i], view, readings) {
            return true;
        }
        i += 1;
    }
    false
}

impl Detection {
    /// Whether an event's view satisfies this detection.
    pub fn matches(&self, view: &EventView, readings: &Readings) -> (yes: bool)
        ensures
            yes == formula_holds(
                self.plan().selections,
                self.plan().condition,
                view.data(),
                *readings,
            ),
    {
        self.eval(&self.condition, view, readings)
    }

    fn eval(&self, condition: &Condition, view: &EventView, readings: &Readings) -> (yes: bool)
        ensures
            yes == formula_holds(
                self.plan().selections,
                condition.formula(),
                view.data(),
                *readings,
            ),
        decreases condition,
    {
        match condition {
            Condition::Selection(name) => self.name_matches(name.as_str(), view, readings),
            Condition::And(a, b) => self.eval(a, view, readings) && self.eval(b, view, readings),
            Condition::Or(a, b) => self.eval(a, view, readings) || self.eval(b, view, readings),
            Condition::Not(inner) => !self.eval(inner, view, readings),
            Condition::AtLeast(n, names) => {
                let mut matched: usize = 0;
                let mut i: usize = 0;
                let ghost texts = views(names@);
                while i < names.len()
                    invariant
                        i <= names@.len(),
                        texts == views(names@),
                        matched <= i,
                        matched == holding(
                            self.plan().selections,
                            texts.take(i as int),
                            view.data(),
                            *readings,
                        ),
                    decreases names@.len() - i,
                {
                    assert(texts.take(i + 1).drop_last() == texts.take(i as int));
                    assert(texts.take(i + 1).last() == names@[i as int]@);
                    if self.name_matches(names[i].as_str(), view, readings) {
                        matched += 1;
                    }
                    i += 1;
                }
                assert(texts.take(i as int) == texts);
                matched >= *n
            },
        }
    }

    fn name_matches(&self, name: &str, view: &EventView, readings: &Readings) -> (yes: bool)
        ensures
            yes == name_holds(self.plan().selections, name@, view.data(), *readings),
    {
        match self.selection(name) {
            Some(selection) => selection_matches(selection, view, readings),
            None => false,
        }
    }

    /// The selection of a name.
    pub fn selection(&self, name: &str) -> (selection: Option<&Selection>)
        ensures
            match selection {
                Some(s) => named(self.plan().selections, name@) == Some(choice_of(s@)),
                None => named(self.plan().selections, name@) is None,
            },
    {
        let ghost all = self.plan().selections;
        let mut i: usize = 0;
        assert(all.skip(0) == all);
        while i < self.selections.len()
            invariant
                i <= self.selections@.len(),
                all == choices_of(self.selections@),
                named(all, name@) == named(all.skip(i as int), name@),
            decreases self.selections@.len() - i,
        {
            assert(all.skip(i as int)[0] == all[i as int]);
            assert(all.skip(i as int).drop_first() == all.skip(i + 1));
            if same(self.selections[i].0.as_str(), name) {
                return Some(&self.selections[i].1);
            }
            i += 1;
        }
        None
    }

    /// Every selection name, in document order.
    pub fn selection_names(&self) -> (names: Vec<&str>)
        ensures
            names@.len() == self.selections@.len(),
            forall|i: int|
                0 <= i < names@.len() ==> (#[trigger] names@[i])@ == self.selections@[i].0@,
    {
        let mut names: Vec<&str> = Vec::new();
        let mut i: usize = 0;
        while i < self.selections.len()
            invariant
                i <= self.selections@.len(),
                names@.len() == i,
                forall|k: int|
                    0 <= k < i ==> (#[trigger] names@[k])@ == self.selections@[k].0@,
            decreases self.selections@.len() - i,
        {
            names.push(self.selections[i].0.as_str());
            i += 1;
        }
        names
    }
}

/// The field names a test reads.
pub open spec fn test_reads(test: Test) -> Seq<Seq<char>> {
    if test.op == Op::FieldRef {
        seq![test.field] + test.needles
    } else {
        seq![test.field]
    }
}

/// The field names the first `n` tests of a group read.
pub open spec fn group_reads(group: Seq<Test>, n: nat) -> Seq<Seq<char>>
    decreases n,
{
    if n == 0 {
        seq![]
    } else {
        group_reads(group, (n - 1) as nat) + test_reads(group[n - 1])
    }
}

/// The field names the first `n` groups of a selection read.
pub open spec fn choice_reads(choice: Choice, n: nat) -> Seq<Seq<char>>
    decreases n,
{
    if n == 0 {
        seq![]
    } else {
        choice_reads(choice, (n - 1) as nat) + group_reads(choice[n - 1], choice[n - 1].len())
    }
}

/// The field names the first `n` selections read.
pub open spec fn plan_reads(selections: Seq<(Seq<char>, Choice)>, n: nat) -> Seq<Seq<char>>
    decreases n,
{
    if n == 0 {
        seq![]
    } else {
        plan_reads(selections, (n - 1) as nat) + choice_reads(
            selections[n - 1].1,
            selections[n - 1].1.len(),
        )
    }
}

/// The characters of each borrowed text.
pub open spec fn str_views(texts: Seq<&str>) -> Seq<Seq<char>> {
    texts.map_values(|s: &str| s@)
}

impl Detection {
    /// Every field name the detection reads, in document order.
    #[verifier::loop_isolation(false)]
    pub fn fields(&self) -> (names: Vec<&str>)
        ensures
            str_views(names@) == plan_reads(self.plan().selections, self.plan().selections.len()),
    {
        let ghost all = self.plan().selections;
        let mut out: Vec<&str> = Vec::new();
        let mut i: usize = 0;
        assert(str_views(out@) == plan_reads(all, 0));
        while i < self.selections.len()
            invariant
                i <= self.selections@.len(),
                str_views(out@) == plan_reads(all, i as nat),
            decreases self.selections@.len() - i,
        {
            let selection = &self.selections[i].1;
            let ghost choice = all[i as int].1;
            let ghost start = str_views(out@);
            assert(choice == choice_of(selection@));
            let mut g: usize = 0;
            assert(start + choice_reads(choice, 0) == start);
            while g < selection.len()
                invariant
                    g <= selection@.len(),
                    choice == choice_of(selection@),
                    str_views(out@) == start + choice_reads(choice, g as nat),
                decreases selection@.len() - g,
            {
                let group = &selection[g];
                let ghost tests = choice[g as int];
                let ghost inner = str_views(out@);
                assert(tests == group_tests(group@));
                let mut t: usize = 0;
                assert(inner + group_reads(tests, 0) == inner);
                while t < group.len()
                    invariant
                        t <= group@.len(),
                        tests == group_tests(group@),
                        str_views(out@) == inner + group_reads(tests, t as nat),
                    decreases group@.len() - t,
                {
                    let ghost before = str_views(out@);
                    let ghost one = tests[t as int];
                    assert(one == group@[t as int].test());
                    out.push(group[t].field.as_str());
                    assert(str_views(out@) == before.push(one.field));
                    if group[t].op == Op::FieldRef {
                        let needles = &group[t].needles;
                        let mut k: usize = 0;
                        assert(one.needles.take(0) == Seq::<Seq<char>>::empty());
                        while k < needles.len()
                            invariant
                                k <= needles@.len(),
                                one.needles == views(needles@),
                                str_views(out@) == before.push(one.field) + one.needles.take(
                                    k as int,
                                ),
                            decreases needles@.len() - k,
                        {
                            let ghost so_far = str_views(out@);
                            out.push(needles[k].as_str());
                            assert(str_views(out@) == so_far.push(one.needles[k as int]));
                            assert(one.needles.take(k + 1) == one.needles.take(k as int).push(
                                one.needles[k as int],
                            ));
                            k += 1;
                        }
                        assert(one.needles.take(k as int) == one.needles);
                    }
                    assert(str_views(out@) == before + test_reads(one));
                    assert(before + test_reads(one) == inner + (group_reads(tests, t as nat)
                        + test_reads(one)));
                    t += 1;
                }
                assert(inner + group_reads(tests, tests.len()) == start + (choice_reads(
                    choice,
                    g as nat,
                ) + group_reads(tests, tests.len())));
                g += 1;
            }
            i += 1;
        }
        out
    }
}

/// Whether some event could satisfy a test, given the names that events can
/// carry. The absence of a field is satisfied by an event that does not carry
/// it. A reference to other fields needs every one of them under `|all`, and
/// any one of them otherwise.
pub open spec fn test_possible(test: Test, available: Seq<Seq<char>>) -> bool {
    if test.op == Op::Absent {
        true
    } else if test.op == Op::FieldRef {
        available.contains(test.field) && if test.all {
            forall|i: int|
                0 <= i < test.needles.len() ==> available.contains(#[trigger] test.needles[i])
        } else {
            exists|i: int|
                0 <= i < test.needles.len() && available.contains(#[trigger] test.needles[i])
        }
    } else {
        available.contains(test.field)
    }
}

pub open spec fn group_possible(group: Seq<Test>, available: Seq<Seq<char>>) -> bool {
    forall|i: int| 0 <= i < group.len() ==> test_possible(#[trigger] group[i], available)
}

pub open spec fn choice_possible(choice: Choice, available: Seq<Seq<char>>) -> bool {
    exists|i: int| 0 <= i < choice.len() && group_possible(#[trigger] choice[i], available)
}

pub open spec fn name_possible(
    selections: Seq<(Seq<char>, Choice)>,
    name: Seq<char>,
    available: Seq<Seq<char>>,
) -> bool {
    match named(selections, name) {
        Some(choice) => choice_possible(choice, available),
        None => false,
    }
}

/// How many of the named selections could hold.
pub open spec fn possible(
    selections: Seq<(Seq<char>, Choice)>,
    names: Seq<Seq<char>>,
    available: Seq<Seq<char>>,
) -> nat
    decreases names.len(),
{
    if names.len() == 0 {
        0
    } else {
        possible(selections, names.drop_last(), available) + if name_possible(
            selections,
            names.last(),
            available,
        ) {
            1nat
        } else {
            0nat
        }
    }
}

/// Whether some event could satisfy a condition. A negation counts as possible:
/// eroding toward "can fire" never hides a working rule.
pub open spec fn formula_possible(
    selections: Seq<(Seq<char>, Choice)>,
    formula: Formula,
    available: Seq<Seq<char>>,
) -> bool
    decreases formula,
{
    match formula {
        Formula::Selection(name) => name_possible(selections, name, available),
        Formula::And(a, b) => formula_possible(selections, *a, available) && formula_possible(
            selections,
            *b,
            available,
        ),
        Formula::Or(a, b) => formula_possible(selections, *a, available) || formula_possible(
            selections,
            *b,
            available,
        ),
        Formula::Not(_) => true,
        Formula::AtLeast(n, names) => possible(selections, names, available) >= n,
    }
}

/// Whether every field present is one that events can carry.
pub open spec fn within(fields: Fields, available: Seq<Seq<char>>) -> bool {
    forall|name: Seq<char>|
        (#[trigger] field_datum(fields, name)) is Some ==> available.contains(name)
}

proof fn lemma_choice_possible(
    choice: Choice,
    fields: Fields,
    readings: Readings,
    available: Seq<Seq<char>>,
)
    requires
        within(fields, available),
        choice_holds(choice, fields, readings),
    ensures
        choice_possible(choice, available),
{
    let i = choose|i: int|
        0 <= i < choice.len() && group_holds(#[trigger] choice[i], fields, readings);
    assert forall|k: int| 0 <= k < choice[i].len() implies test_possible(
        #[trigger] choice[i][k],
        available,
    ) by {
        let test = choice[i][k];
        assert(test_holds(test, fields, readings));
        if test.op == Op::FieldRef {
            let datum = field_datum(fields, test.field)->0;
            if !test.all {
                let n = choose|n: int|
                    0 <= n < test.needles.len() && refers(
                        datum,
                        #[trigger] test.needles[n],
                        test.cased,
                        fields,
                    );
                assert(available.contains(test.needles[n]));
            }
        }
    }
    assert(group_possible(choice[i], available));
}

proof fn lemma_holding_possible(
    selections: Seq<(Seq<char>, Choice)>,
    names: Seq<Seq<char>>,
    fields: Fields,
    readings: Readings,
    available: Seq<Seq<char>>,
)
    requires
        within(fields, available),
    ensures
        holding(selections, names, fields, readings) <= possible(selections, names, available),
    decreases names.len(),
{
    if names.len() > 0 {
        lemma_holding_possible(selections, names.drop_last(), fields, readings, available);
        if name_holds(selections, names.last(), fields, readings) {
            lemma_choice_possible(
                named(selections, names.last())->0,
                fields,
                readings,
                available,
            );
        }
    }
}

/// A detection that holds of some event is never called unsatisfiable: with
/// every field present among the available ones, holding implies possible.
pub proof fn what_holds_is_possible(
    selections: Seq<(Seq<char>, Choice)>,
    formula: Formula,
    fields: Fields,
    readings: Readings,
    available: Seq<Seq<char>>,
)
    requires
        within(fields, available),
        formula_holds(selections, formula, fields, readings),
    ensures
        formula_possible(selections, formula, available),
    decreases formula,
{
    match formula {
        Formula::Selection(name) => {
            lemma_choice_possible(named(selections, name)->0, fields, readings, available);
        },
        Formula::And(a, b) => {
            what_holds_is_possible(selections, *a, fields, readings, available);
            what_holds_is_possible(selections, *b, fields, readings, available);
        },
        Formula::Or(a, b) => {
            if formula_holds(selections, *a, fields, readings) {
                what_holds_is_possible(selections, *a, fields, readings, available);
            } else {
                what_holds_is_possible(selections, *b, fields, readings, available);
            }
        },
        Formula::Not(_) => {},
        Formula::AtLeast(n, names) => {
            lemma_holding_possible(selections, names, fields, readings, available);
        },
    }
}

fn is_available(available: &[&str], name: &str) -> (yes: bool)
    ensures
        yes == str_views(available@).contains(name@),
{
    let mut i: usize = 0;
    while i < available.len()
        invariant
            i <= available@.len(),
            forall|k: int| 0 <= k < i ==> str_views(available@)[k] != name@,
        decreases available@.len() - i,
    {
        if same(available[i], name) {
            assert(str_views(available@)[i as int] == name@);
            return true;
        }
        i += 1;
    }
    false
}

fn test_satisfiable(test: &FieldTest, available: &[&str]) -> (yes: bool)
    ensures
        yes == test_possible(test.test(), str_views(available@)),
{
    if test.op == Op::Absent {
        return true;
    }
    if !is_available(available, test.field.as_str()) {
        return false;
    }
    if test.op == Op::FieldRef {
        let ghost needles = test.test().needles;
        let mut i: usize = 0;
        while i < test.needles.len()
            invariant
                i <= test.needles@.len(),
                needles == views(test.needles@),
                needles == test.test().needles,
                test.op == Op::FieldRef,
                str_views(available@).contains(test.field@),
                forall|k: int|
                    0 <= k < i ==> test.all == str_views(available@).contains(
                        #[trigger] needles[k],
                    ),
            decreases test.needles@.len() - i,
        {
            assert(needles[i as int] == test.needles@[i as int]@);
            let found = is_available(available, test.needles[i].as_str());
            if found != test.all {
                assert(found == str_views(available@).contains(test.test().needles[i as int]));
                return found;
            }
            i += 1;
        }
        return test.all;
    }
    true
}

fn group_satisfiable(group: &Group, available: &[&str]) -> (yes: bool)
    ensures
        yes == group_possible(group_tests(group@), str_views(available@)),
{
    let mut i: usize = 0;
    while i < group.len()
        invariant
            i <= group@.len(),
            forall|k: int|
                0 <= k < i ==> test_possible(
                    #[trigger] group_tests(group@)[k],
                    str_views(available@),
                ),
        decreases group@.len() - i,
    {
        assert(group_tests(group@)[i as int] == group@[i as int].test());
        if !test_satisfiable(&group[i], available) {
            return false;
        }
        i += 1;
    }
    true
}

impl Detection {
    /// Whether any event could satisfy this detection, given the field names
    /// that can appear at all.
    ///
    /// The shape of the condition decides: a field a sensor cannot produce makes
    /// a rule unable to fire inside a conjunction, and only kills one
    /// alternative inside a disjunction.
    pub fn satisfiable(&self, available: &[&str]) -> (yes: bool)
        ensures
            yes == formula_possible(
                self.plan().selections,
                self.plan().condition,
                str_views(available@),
            ),
    {
        self.condition_satisfiable(&self.condition, available)
    }

    fn condition_satisfiable(&self, condition: &Condition, available: &[&str]) -> (yes: bool)
        ensures
            yes == formula_possible(
                self.plan().selections,
                condition.formula(),
                str_views(available@),
            ),
        decreases condition,
    {
        match condition {
            Condition::Selection(name) => self.selection_satisfiable(name.as_str(), available),
            Condition::And(a, b) => self.condition_satisfiable(a, available)
                && self.condition_satisfiable(b, available),
            Condition::Or(a, b) => self.condition_satisfiable(a, available)
                || self.condition_satisfiable(b, available),
            Condition::Not(_) => true,
            Condition::AtLeast(n, names) => {
                let mut count: usize = 0;
                let mut i: usize = 0;
                let ghost texts = views(names@);
                while i < names.len()
                    invariant
                        i <= names@.len(),
                        texts == views(names@),
                        count <= i,
                        count == possible(
                            self.plan().selections,
                            texts.take(i as int),
                            str_views(available@),
                        ),
                    decreases names@.len() - i,
                {
                    assert(texts.take(i + 1).drop_last() == texts.take(i as int));
                    assert(texts.take(i + 1).last() == names@[i as int]@);
                    if self.selection_satisfiable(names[i].as_str(), available) {
                        count += 1;
                    }
                    i += 1;
                }
                assert(texts.take(i as int) == texts);
                count >= *n
            },
        }
    }

    fn selection_satisfiable(&self, name: &str, available: &[&str]) -> (yes: bool)
        ensures
            yes == name_possible(self.plan().selections, name@, str_views(available@)),
    {
        match self.selection(name) {
            None => false,
            Some(selection) => {
                let mut i: usize = 0;
                while i < selection.len()
                    invariant
                        i <= selection@.len(),
                        named(self.plan().selections, name@) == Some(choice_of(selection@)),
                        forall|k: int|
                            0 <= k < i ==> !group_possible(
                                #[trigger] choice_of(selection@)[k],
                                str_views(available@),
                            ),
                    decreases selection@.len() - i,
                {
                    assert(choice_of(selection@)[i as int] == group_tests(
                        selection@[i as int]@,
                    ));
                    if group_satisfiable(&selection[i], available) {
                        return true;
                    }
                    i += 1;
                }
                false
            },
        }
    }
}

/// What the modifiers read so far make of a test.
#[derive(Clone, Copy)]
pub struct Adjusted {
    pub op: Op,
    pub all: bool,
    pub cased: bool,
}

/// A test without modifiers.
pub open spec fn unadjusted() -> Adjusted {
    Adjusted { op: Op::Equals, all: false, cased: false }
}

/// What one more modifier makes of a test; `None` for a word that is not a
/// modifier this engine implements.
pub open spec fn adjust(so_far: Adjusted, word: Seq<char>) -> Option<Adjusted> {
    if word == "contains"@ {
        Some(Adjusted { op: Op::Contains, ..so_far })
    } else if word == "startswith"@ {
        Some(Adjusted { op: Op::StartsWith, ..so_far })
    } else if word == "endswith"@ {
        Some(Adjusted { op: Op::EndsWith, ..so_far })
    } else if word == "cidr"@ {
        Some(Adjusted { op: Op::Cidr, ..so_far })
    } else if word == "gt"@ {
        Some(Adjusted { op: Op::Greater, ..so_far })
    } else if word == "gte"@ {
        Some(Adjusted { op: Op::GreaterEq, ..so_far })
    } else if word == "lt"@ {
        Some(Adjusted { op: Op::Less, ..so_far })
    } else if word == "lte"@ {
        Some(Adjusted { op: Op::LessEq, ..so_far })
    } else if word == "fieldref"@ {
        Some(Adjusted { op: Op::FieldRef, ..so_far })
    } else if word == "all"@ {
        Some(Adjusted { all: true, ..so_far })
    } else if word == "cased"@ || word == "case_sensitive"@ {
        Some(Adjusted { cased: true, ..so_far })
    } else {
        None
    }
}

/// What the modifiers of a key's pieces before `n` make of a test.
pub open spec fn adjustments(parts: Seq<Seq<char>>, n: nat) -> Result<Adjusted, Seq<char>>
    decreases n,
{
    if n <= 1 {
        Ok(unadjusted())
    } else {
        match adjustments(parts, (n - 1) as nat) {
            Err(reason) => Err(reason),
            Ok(so_far) => match adjust(so_far, parts[n - 1]) {
                Some(next) => Ok(next),
                None => Err(
                    "field `"@ + parts[0] + "` uses the `|"@ + parts[n - 1]
                        + "` modifier, which this engine does not implement"@,
                ),
            },
        }
    }
}

/// A scalar as the text a comparison works on.
pub open spec fn scalar_of(selection: Seq<char>, field: Seq<char>, node: Node) -> Result<
    Seq<char>,
    Seq<char>,
> {
    match node {
        Node::Text(s) => Ok(s),
        Node::Integer(i) => Ok(integer_text(i)),
        Node::Real(s) => Ok(s),
        Node::Boolean(b) => Ok(
            if b {
                "true"@
            } else {
                "false"@
            },
        ),
        _ => Err(
            "selection `"@ + selection + "` gives field `"@ + field
                + "` a value that is not a scalar"@,
        ),
    }
}

/// The first `n` items of a list, as texts.
pub open spec fn scalars_of(
    selection: Seq<char>,
    field: Seq<char>,
    items: Seq<Node>,
    n: nat,
) -> Result<Seq<Seq<char>>, Seq<char>>
    decreases n,
{
    if n == 0 {
        Ok(seq![])
    } else {
        match scalars_of(selection, field, items, (n - 1) as nat) {
            Err(reason) => Err(reason),
            Ok(front) => match scalar_of(selection, field, items[n - 1]) {
                Err(reason) => Err(reason),
                Ok(text) => Ok(front.push(text)),
            },
        }
    }
}

/// The needles a value gives a field.
pub open spec fn needles_of(selection: Seq<char>, field: Seq<char>, value: Node) -> Result<
    Seq<Seq<char>>,
    Seq<char>,
> {
    match value {
        Node::Sequence(items) => if items.len() == 0 {
            Err("selection `"@ + selection + "` gives field `"@ + field + "` an empty list"@)
        } else {
            scalars_of(selection, field, items, items.len())
        },
        _ => match scalar_of(selection, field, value) {
            Err(reason) => Err(reason),
            Ok(text) => Ok(seq![text]),
        },
    }
}

/// The test a key and its value make.
pub open spec fn test_of(selection: Seq<char>, key: Seq<char>, value: Node) -> Result<
    Test,
    Seq<char>,
> {
    let parts = pieces(key, '|');
    let field = parts[0];
    if field.len() == 0 {
        Err("selection `"@ + selection + "` has a test with no field name"@)
    } else {
        match adjustments(parts, parts.len()) {
            Err(reason) => Err(reason),
            Ok(adjusted) => if value is Null {
                Ok(
                    Test {
                        field,
                        op: Op::Absent,
                        needles: seq![],
                        all: adjusted.all,
                        cased: adjusted.cased,
                    },
                )
            } else {
                match needles_of(selection, field, value) {
                    Err(reason) => Err(reason),
                    Ok(needles) => Ok(
                        Test {
                            field,
                            op: adjusted.op,
                            needles,
                            all: adjusted.all,
                            cased: adjusted.cased,
                        },
                    ),
                }
            },
        }
    }
}

/// The tests the first `n` pairs of a mapping make.
pub open spec fn tests_of(name: Seq<char>, pairs: Seq<(Node, Node)>, n: nat) -> Result<
    Seq<Test>,
    Seq<char>,
>
    decreases n,
{
    if n == 0 {
        Ok(seq![])
    } else {
        match tests_of(name, pairs, (n - 1) as nat) {
            Err(reason) => Err(reason),
            Ok(front) => match pairs[n - 1].0 {
                Node::Text(key) => match test_of(name, key, pairs[n - 1].1) {
                    Err(reason) => Err(reason),
                    Ok(test) => Ok(front.push(test)),
                },
                _ => Err("selection `"@ + name + "` has a field key that is not a string"@),
            },
        }
    }
}

/// The group a mapping makes.
pub open spec fn group_of(name: Seq<char>, pairs: Seq<(Node, Node)>) -> Result<
    Seq<Test>,
    Seq<char>,
> {
    match tests_of(name, pairs, pairs.len()) {
        Err(reason) => Err(reason),
        Ok(tests) => if tests.len() == 0 {
            Err("selection `"@ + name + "` has no fields"@)
        } else {
            Ok(tests)
        },
    }
}

/// The groups the first `n` items of a list make.
pub open spec fn groups_of(name: Seq<char>, items: Seq<Node>, n: nat) -> Result<Choice, Seq<char>>
    decreases n,
{
    if n == 0 {
        Ok(seq![])
    } else {
        match groups_of(name, items, (n - 1) as nat) {
            Err(reason) => Err(reason),
            Ok(front) => match items[n - 1] {
                Node::Mapping(pairs) => match group_of(name, pairs) {
                    Err(reason) => Err(reason),
                    Ok(group) => Ok(front.push(group)),
                },
                _ => Err(
                    "selection `"@ + name
                        + "` is a list containing something that is not a mapping"@,
                ),
            },
        }
    }
}

/// The selection a node makes.
pub open spec fn selection_of(name: Seq<char>, value: Node) -> Result<Choice, Seq<char>> {
    match value {
        Node::Sequence(items) => match groups_of(name, items, items.len()) {
            Err(reason) => Err(reason),
            Ok(groups) => if groups.len() == 0 {
                Err("selection `"@ + name + "` is empty"@)
            } else {
                Ok(groups)
            },
        },
        Node::Mapping(pairs) => match group_of(name, pairs) {
            Err(reason) => Err(reason),
            Ok(group) => Ok(seq![group]),
        },
        _ => Err("selection `"@ + name + "` is neither a mapping nor a list of mappings"@),
    }
}

/// The selections, and the source of the condition, in the first `n` pairs of a
/// detection.
pub open spec fn gathered(pairs: Seq<(Node, Node)>, n: nat) -> Result<
    (Seq<(Seq<char>, Choice)>, Option<Seq<char>>),
    Seq<char>,
>
    decreases n,
{
    if n == 0 {
        Ok((seq![], None))
    } else {
        match gathered(pairs, (n - 1) as nat) {
            Err(reason) => Err(reason),
            Ok((selections, condition)) => match pairs[n - 1].0 {
                Node::Text(name) => if name == "condition"@ {
                    match pairs[n - 1].1 {
                        Node::Text(source) => Ok((selections, Some(source))),
                        _ => Err("`condition` is not a string"@),
                    }
                } else if name == "timeframe"@ {
                    Err("`timeframe` needs aggregation, which this engine does not implement"@)
                } else {
                    match selection_of(name, pairs[n - 1].1) {
                        Err(reason) => Err(reason),
                        Ok(choice) => Ok((selections.push((name, choice)), condition)),
                    }
                },
                _ => Err("a detection key is not a string"@),
            },
        }
    }
}

/// The names of a list of selections.
pub open spec fn names_of(selections: Seq<(Seq<char>, Choice)>) -> Seq<Seq<char>> {
    selections.map_values(|s: (Seq<char>, Choice)| s.0)
}

/// The plan a `detection` node compiles to, or why it does not.
pub open spec fn compiled(node: Node) -> Result<Plan, Seq<char>> {
    match node {
        Node::Mapping(pairs) => match gathered(pairs, pairs.len()) {
            Err(reason) => Err(reason),
            Ok((selections, condition)) => if selections.len() == 0 {
                Err("no selections"@)
            } else {
                match condition {
                    None => Err("no `condition`"@),
                    Some(source) => match condition_of(source, names_of(selections)) {
                        Err(reason) => Err(reason),
                        Ok(formula) => Ok(Plan { selections, condition: formula }),
                    },
                }
            },
        },
        _ => Err("`detection` is not a mapping"@),
    }
}

fn modifier(so_far: Adjusted, word: &str) -> (next: Option<Adjusted>)
    ensures
        next == adjust(so_far, word@),
{
    if same(word, "contains") {
        Some(Adjusted { op: Op::Contains, ..so_far })
    } else if same(word, "startswith") {
        Some(Adjusted { op: Op::StartsWith, ..so_far })
    } else if same(word, "endswith") {
        Some(Adjusted { op: Op::EndsWith, ..so_far })
    } else if same(word, "cidr") {
        Some(Adjusted { op: Op::Cidr, ..so_far })
    } else if same(word, "gt") {
        Some(Adjusted { op: Op::Greater, ..so_far })
    } else if same(word, "gte") {
        Some(Adjusted { op: Op::GreaterEq, ..so_far })
    } else if same(word, "lt") {
        Some(Adjusted { op: Op::Less, ..so_far })
    } else if same(word, "lte") {
        Some(Adjusted { op: Op::LessEq, ..so_far })
    } else if same(word, "fieldref") {
        Some(Adjusted { op: Op::FieldRef, ..so_far })
    } else if same(word, "all") {
        Some(Adjusted { all: true, ..so_far })
    } else if same(word, "cased") || same(word, "case_sensitive") {
        Some(Adjusted { cased: true, ..so_far })
    } else {
        None
    }
}

fn scalar(selection: &str, field: &str, value: &Yaml) -> (text: Result<String, CompileError>)
    ensures
        match text {
            Ok(s) => scalar_of(selection@, field@, value.node()) == Ok::<Seq<char>, Seq<char>>(s@),
            Err(CompileError(reason)) => scalar_of(selection@, field@, value.node()) == Err::<
                Seq<char>,
                Seq<char>,
            >(reason@),
        },
{
    match value {
        Yaml::Text(s) => Ok(s.clone()),
        Yaml::Integer(i) => Ok(integer(*i)),
        Yaml::Real(s) => Ok(s.clone()),
        Yaml::Boolean(b) => Ok(
            if *b {
                "true".to_string()
            } else {
                "false".to_string()
            },
        ),
        _ => Err(
            CompileError(
                concat5(
                    "selection `",
                    selection,
                    "` gives field `",
                    field,
                    "` a value that is not a scalar",
                ),
            ),
        ),
    }
}

fn needles(selection: &str, field: &str, value: &Yaml) -> (texts: Result<Vec<String>, CompileError>)
    ensures
        match texts {
            Ok(all) => needles_of(selection@, field@, value.node()) == Ok::<
                Seq<Seq<char>>,
                Seq<char>,
            >(views(all@)),
            Err(CompileError(reason)) => needles_of(selection@, field@, value.node()) == Err::<
                Seq<Seq<char>>,
                Seq<char>,
            >(reason@),
        },
{
    let mut out: Vec<String> = Vec::new();
    match value {
        Yaml::Sequence(items) => {
            if items.len() == 0 {
                return Err(
                    CompileError(
                        concat5(
                            "selection `",
                            selection,
                            "` gives field `",
                            field,
                            "` an empty list",
                        ),
                    ),
                );
            }
            let ghost all = value.node()->Sequence_0;
            let mut i: usize = 0;
            assert(views(out@) == Seq::<Seq<char>>::empty());
            while i < items.len()
                invariant
                    i <= items@.len(),
                    value matches Yaml::Sequence(held) && *items == held,
                    value.node() == Node::Sequence(all),
                    all.len() == items@.len(),
                    all.len() > 0,
                    scalars_of(selection@, field@, all, i as nat) == Ok::<
                        Seq<Seq<char>>,
                        Seq<char>,
                    >(views(out@)),
                decreases items@.len() - i,
            {
                assert(all[i as int] == items@[i as int].node());
                match scalar(selection, field, &items[i]) {
                    Ok(text) => {
                        let ghost before = out@;
                        out.push(text);
                        assert(views(out@) == views(before).push(text@));
                    },
                    Err(reason) => {
                        proof {
                            lemma_scalars_refused(selection@, field@, all, (i + 1) as nat, all.len());
                        }
                        return Err(reason);
                    },
                }
                i += 1;
            }
            Ok(out)
        },
        _ => match scalar(selection, field, value) {
            Ok(text) => {
                out.push(text);
                assert(views(out@) == seq![text@]);
                Ok(out)
            },
            Err(reason) => Err(reason),
        },
    }
}

proof fn lemma_scalars_refused(
    selection: Seq<char>,
    field: Seq<char>,
    items: Seq<Node>,
    n: nat,
    m: nat,
)
    requires
        n <= m,
        scalars_of(selection, field, items, n) is Err,
    ensures
        scalars_of(selection, field, items, m) == scalars_of(selection, field, items, n),
    decreases m - n,
{
    if n < m {
        lemma_scalars_refused(selection, field, items, n, (m - 1) as nat);
    }
}

proof fn lemma_adjustments_refused(parts: Seq<Seq<char>>, n: nat, m: nat)
    requires
        n <= m,
        adjustments(parts, n) is Err,
    ensures
        adjustments(parts, m) == adjustments(parts, n),
    decreases m - n,
{
    if n < m {
        lemma_adjustments_refused(parts, n, (m - 1) as nat);
    }
}

proof fn lemma_tests_refused(name: Seq<char>, pairs: Seq<(Node, Node)>, n: nat, m: nat)
    requires
        n <= m,
        tests_of(name, pairs, n) is Err,
    ensures
        tests_of(name, pairs, m) == tests_of(name, pairs, n),
    decreases m - n,
{
    if n < m {
        lemma_tests_refused(name, pairs, n, (m - 1) as nat);
    }
}

proof fn lemma_groups_refused(name: Seq<char>, items: Seq<Node>, n: nat, m: nat)
    requires
        n <= m,
        groups_of(name, items, n) is Err,
    ensures
        groups_of(name, items, m) == groups_of(name, items, n),
    decreases m - n,
{
    if n < m {
        lemma_groups_refused(name, items, n, (m - 1) as nat);
    }
}

proof fn lemma_gathered_refused(pairs: Seq<(Node, Node)>, n: nat, m: nat)
    requires
        n <= m,
        gathered(pairs, n) is Err,
    ensures
        gathered(pairs, m) == gathered(pairs, n),
    decreases m - n,
{
    if n < m {
        lemma_gathered_refused(pairs, n, (m - 1) as nat);
    }
}

fn compile_test(selection: &str, key: &str, value: &Yaml) -> (test: Result<FieldTest, CompileError>)
    ensures
        match test {
            Ok(t) => test_of(selection@, key@, value.node()) == Ok::<Test, Seq<char>>(t.test()),
            Err(CompileError(reason)) => test_of(selection@, key@, value.node()) == Err::<
                Test,
                Seq<char>,
            >(reason@),
        },
{
    let parts = split(chars_of(key).as_slice(), '|');
    let ghost pieces_of = pieces(key@, '|');
    let field = text_of(parts[0].as_slice());
    assert(field@ == pieces_of[0]);
    if field.as_str().is_empty() {
        return Err(
            CompileError(concat3("selection `", selection, "` has a test with no field name")),
        );
    }
    let mut adjusted = Adjusted { op: Op::Equals, all: false, cased: false };
    let mut i: usize = 1;
    while i < parts.len()
        invariant
            1 <= i <= parts@.len(),
            parts@.len() == pieces_of.len(),
            pieces_of == pieces(key@, '|'),
            forall|k: int| 0 <= k < parts@.len() ==> (#[trigger] parts@[k])@ == pieces_of[k],
            field@ == pieces_of[0],
            field@.len() > 0,
            adjustments(pieces_of, i as nat) == Ok::<Adjusted, Seq<char>>(adjusted),
        decreases parts@.len() - i,
    {
        let word = text_of(parts[i].as_slice());
        assert(word@ == pieces_of[i as int]);
        match modifier(adjusted, word.as_str()) {
            Some(next) => {
                adjusted = next;
            },
            None => {
                let reason = concat5(
                    "field `",
                    field.as_str(),
                    "` uses the `|",
                    word.as_str(),
                    "` modifier, which this engine does not implement",
                );
                proof {
                    lemma_adjustments_refused(pieces_of, (i + 1) as nat, pieces_of.len());
                }
                return Err(CompileError(reason));
            },
        }
        i += 1;
    }
    if matches!(value, Yaml::Null) {
        let none: Vec<String> = Vec::new();
        assert(views(none@) == Seq::<Seq<char>>::empty());
        return Ok(
            FieldTest {
                field,
                op: Op::Absent,
                needles: none,
                all: adjusted.all,
                case_sensitive: adjusted.cased,
            },
        );
    }
    match needles(selection, field.as_str(), value) {
        Err(reason) => Err(reason),
        Ok(needles) => Ok(
            FieldTest {
                field,
                op: adjusted.op,
                needles,
                all: adjusted.all,
                case_sensitive: adjusted.cased,
            },
        ),
    }
}

fn compile_group(name: &str, map: &Yaml) -> (group: Result<Group, CompileError>)
    requires
        map is Mapping,
    ensures
        match group {
            Ok(g) => group_of(name@, map.node()->Mapping_0) == Ok::<Seq<Test>, Seq<char>>(
                group_tests(g@),
            ),
            Err(CompileError(reason)) => group_of(name@, map.node()->Mapping_0) == Err::<
                Seq<Test>,
                Seq<char>,
            >(reason@),
        },
{
    let mut out: Vec<FieldTest> = Vec::new();
    match map {
        Yaml::Mapping(pairs) => {
            let ghost all = map.node()->Mapping_0;
            let mut i: usize = 0;
            assert(group_tests(out@) == Seq::<Test>::empty());
            while i < pairs.len()
                invariant
                    i <= pairs@.len(),
                    map matches Yaml::Mapping(held) && *pairs == held,
                    map.node() == Node::Mapping(all),
                    all.len() == pairs@.len(),
                    tests_of(name@, all, i as nat) == Ok::<Seq<Test>, Seq<char>>(
                        group_tests(out@),
                    ),
                decreases pairs@.len() - i,
            {
                assert(all[i as int] == (pairs@[i as int].0.node(), pairs@[i as int].1.node()));
                match &pairs[i].0 {
                    Yaml::Text(key) => match compile_test(name, key.as_str(), &pairs[i].1) {
                        Ok(test) => {
                            let ghost before = out@;
                            out.push(test);
                            assert(group_tests(out@) == group_tests(before).push(test.test()));
                        },
                        Err(reason) => {
                            proof {
                                lemma_tests_refused(name@, all, (i + 1) as nat, all.len());
                            }
                            return Err(reason);
                        },
                    },
                    _ => {
                        proof {
                            lemma_tests_refused(name@, all, (i + 1) as nat, all.len());
                        }
                        return Err(
                            CompileError(
                                concat3(
                                    "selection `",
                                    name,
                                    "` has a field key that is not a string",
                                ),
                            ),
                        );
                    },
                }
                i += 1;
            }
            if out.len() == 0 {
                return Err(CompileError(concat3("selection `", name, "` has no fields")));
            }
        },
        _ => {},
    }
    Ok(out)
}

/// Compiles one selection.
pub fn compile_selection(name: &str, value: &Yaml) -> (selection: Result<Selection, CompileError>)
    ensures
        match selection {
            Ok(s) => selection_of(name@, value.node()) == Ok::<Choice, Seq<char>>(choice_of(s@)),
            Err(CompileError(reason)) => selection_of(name@, value.node()) == Err::<
                Choice,
                Seq<char>,
            >(reason@),
        },
{
    let mut out: Vec<Group> = Vec::new();
    match value {
        Yaml::Sequence(items) => {
            let ghost all = value.node()->Sequence_0;
            let mut i: usize = 0;
            assert(choice_of(out@) == Seq::<Seq<Test>>::empty());
            while i < items.len()
                invariant
                    i <= items@.len(),
                    value matches Yaml::Sequence(held) && *items == held,
                    value.node() == Node::Sequence(all),
                    all.len() == items@.len(),
                    groups_of(name@, all, i as nat) == Ok::<Choice, Seq<char>>(choice_of(out@)),
                decreases items@.len() - i,
            {
                assert(all[i as int] == items@[i as int].node());
                if !matches!(&items[i], Yaml::Mapping(_)) {
                    proof {
                        lemma_groups_refused(name@, all, (i + 1) as nat, all.len());
                    }
                    return Err(
                        CompileError(
                            concat3(
                                "selection `",
                                name,
                                "` is a list containing something that is not a mapping",
                            ),
                        ),
                    );
                }
                match compile_group(name, &items[i]) {
                    Ok(group) => {
                        let ghost before = out@;
                        out.push(group);
                        assert(choice_of(out@) == choice_of(before).push(group_tests(group@)));
                    },
                    Err(reason) => {
                        proof {
                            lemma_groups_refused(name@, all, (i + 1) as nat, all.len());
                        }
                        return Err(reason);
                    },
                }
                i += 1;
            }
            if out.len() == 0 {
                return Err(CompileError(concat3("selection `", name, "` is empty")));
            }
            Ok(out)
        },
        Yaml::Mapping(_) => match compile_group(name, value) {
            Ok(group) => {
                out.push(group);
                assert(choice_of(out@) == seq![group_tests(group@)]);
                Ok(out)
            },
            Err(reason) => Err(reason),
        },
        _ => Err(
            CompileError(
                concat3(
                    "selection `",
                    name,
                    "` is neither a mapping nor a list of mappings",
                ),
            ),
        ),
    }
}

/// Compiles a SIGMA `detection` mapping.
pub fn compile(detection: &Yaml) -> (plan: Result<Detection, CompileError>)
    ensures
        match plan {
            Ok(d) => compiled(detection.node()) == Ok::<Plan, Seq<char>>(d.plan()),
            Err(CompileError(reason)) => compiled(detection.node()) == Err::<Plan, Seq<char>>(
                reason@,
            ),
        },
{
    match detection {
        Yaml::Mapping(pairs) => {
            let ghost all = detection.node()->Mapping_0;
            let mut selections: Vec<(String, Selection)> = Vec::new();
            let mut condition: Option<&String> = None;
            let mut i: usize = 0;
            assert(choices_of(selections@) == Seq::<(Seq<char>, Choice)>::empty());
            while i < pairs.len()
                invariant
                    i <= pairs@.len(),
                    detection matches Yaml::Mapping(held) && *pairs == held,
                    detection.node() == Node::Mapping(all),
                    all.len() == pairs@.len(),
                    gathered(all, i as nat) == Ok::<
                        (Seq<(Seq<char>, Choice)>, Option<Seq<char>>),
                        Seq<char>,
                    >(
                        (
                            choices_of(selections@),
                            match condition {
                                Some(source) => Some(source@),
                                None => None,
                            },
                        ),
                    ),
                decreases pairs@.len() - i,
            {
                assert(all[i as int] == (pairs@[i as int].0.node(), pairs@[i as int].1.node()));
                match &pairs[i].0 {
                    Yaml::Text(name) => {
                        if same(name.as_str(), "condition") {
                            match &pairs[i].1 {
                                Yaml::Text(source) => {
                                    condition = Some(source);
                                },
                                _ => {
                                    proof {
                                        lemma_gathered_refused(all, (i + 1) as nat, all.len());
                                    }
                                    return Err(
                                        CompileError("`condition` is not a string".to_string()),
                                    );
                                },
                            }
                        } else if same(name.as_str(), "timeframe") {
                            proof {
                                lemma_gathered_refused(all, (i + 1) as nat, all.len());
                            }
                            return Err(
                                CompileError(
                                    "`timeframe` needs aggregation, which this engine does not implement".to_string(),
                                ),
                            );
                        } else {
                            match compile_selection(name.as_str(), &pairs[i].1) {
                                Ok(selection) => {
                                    let ghost before = selections@;
                                    let ghost choice = choice_of(selection@);
                                    selections.push((name.clone(), selection));
                                    assert(choices_of(selections@) == choices_of(before).push(
                                        (name@, choice),
                                    ));
                                },
                                Err(reason) => {
                                    proof {
                                        lemma_gathered_refused(all, (i + 1) as nat, all.len());
                                    }
                                    return Err(reason);
                                },
                            }
                        }
                    },
                    _ => {
                        proof {
                            lemma_gathered_refused(all, (i + 1) as nat, all.len());
                        }
                        return Err(CompileError("a detection key is not a string".to_string()));
                    },
                }
                i += 1;
            }
            if selections.len() == 0 {
                return Err(CompileError("no selections".to_string()));
            }
            match condition {
                None => Err(CompileError("no `condition`".to_string())),
                Some(source) => {
                    let mut names: Vec<String> = Vec::new();
                    let mut k: usize = 0;
                    while k < selections.len()
                        invariant
                            k <= selections@.len(),
                            views(names@) == names_of(choices_of(selections@)).take(k as int),
                        decreases selections@.len() - k,
                    {
                        let ghost before = names@;
                        names.push(selections[k].0.clone());
                        assert(views(names@) == views(before).push(selections@[k as int].0@));
                        k += 1;
                    }
                    assert(views(names@) == names_of(choices_of(selections@)));
                    match parse_condition(source.as_str(), &names) {
                        Err(reason) => Err(reason),
                        Ok(condition) => Ok(Detection { selections, condition }),
                    }
                },
            }
        },
        _ => Err(CompileError("`detection` is not a mapping".to_string())),
    }
}

} // verus!
