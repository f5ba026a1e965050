//! What a detection means: how conditions, selections and tests combine, and what
//! each modifier asks of a field.
use super::condition::{Condition, Formula};
use super::detect::{
    choice_holds, choice_possible, choice_reads, formula_holds, formula_possible, group_holds,
    group_possible, group_reads, holding, name_holds, named, needle_matches, numbers_relate,
    plan_reads, refers, test_holds, test_possible, Choice, Detection, FieldTest, Op, Test,
};
use super::pattern::Readings;
use super::view::{field_datum, Datum, Fields};
use crate::text::{integer_text, trimmed};
use vstd::prelude::*;

verus! {

/// A negation holds exactly where what it negates does not, a conjunction where
/// both its sides do, and a disjunction where at least one does.
pub proof fn conditions_are_boolean(
    selections: Seq<(Seq<char>, Choice)>,
    a: Formula,
    b: Formula,
    fields: Fields,
    readings: Readings,
)
    ensures
        formula_holds(selections, Formula::Not(Box::new(a)), fields, readings) != formula_holds(
            selections,
            a,
            fields,
            readings,
        ),
        formula_holds(selections, Formula::And(Box::new(a), Box::new(b)), fields, readings) <==> (
        formula_holds(selections, a, fields, readings) && formula_holds(
            selections,
            b,
            fields,
            readings,
        )),
        formula_holds(selections, Formula::Or(Box::new(a), Box::new(b)), fields, readings) <==> (
        formula_holds(selections, a, fields, readings) || formula_holds(
            selections,
            b,
            fields,
            readings,
        )),
{
}

proof fn lemma_holding(
    selections: Seq<(Seq<char>, Choice)>,
    names: Seq<Seq<char>>,
    fields: Fields,
    readings: Readings,
)
    ensures
        holding(selections, names, fields, readings) <= names.len(),
        holding(selections, names, fields, readings) == names.len() <==> forall|i: int|
            0 <= i < names.len() ==> name_holds(
                selections,
                #[trigger] names[i],
                fields,
                readings,
            ),
        holding(selections, names, fields, readings) >= 1 <==> exists|i: int|
            0 <= i < names.len() && name_holds(selections, #[trigger] names[i], fields, readings),
    decreases names.len(),
{
    if names.len() > 0 {
        let front = names.drop_last();
        lemma_holding(selections, front, fields, readings);
        assert(forall|i: int| 0 <= i < front.len() ==> front[i] == #[trigger] names[i]);
        assert(names[names.len() - 1] == names.last());
        if exists|i: int|
            0 <= i < front.len() && name_holds(selections, #[trigger] front[i], fields, readings) {
            let i = choose|i: int|
                0 <= i < front.len() && name_holds(
                    selections,
                    #[trigger] front[i],
                    fields,
                    readings,
                );
            assert(name_holds(selections, names[i], fields, readings));
        }
        if forall|i: int|
            0 <= i < names.len() ==> name_holds(
                selections,
                #[trigger] names[i],
                fields,
                readings,
            ) {
            assert forall|i: int| 0 <= i < front.len() implies name_holds(
                selections,
                #[trigger] front[i],
                fields,
                readings,
            ) by {
                assert(name_holds(selections, names[i], fields, readings));
            }
        }
    }
}

/// A quantifier counts selections: asked for all it holds where every one of them
/// does, asked for one where some one does, asked for none always, and asked for
/// more than there are never.
pub proof fn quantifiers_count_selections(
    selections: Seq<(Seq<char>, Choice)>,
    names: Seq<Seq<char>>,
    fields: Fields,
    readings: Readings,
)
    ensures
        formula_holds(selections, Formula::AtLeast(names.len(), names), fields, readings)
            <==> forall|i: int|
            0 <= i < names.len() ==> formula_holds(
                selections,
                Formula::Selection(#[trigger] names[i]),
                fields,
                readings,
            ),
        formula_holds(selections, Formula::AtLeast(1, names), fields, readings) <==> exists|i: int|
            0 <= i < names.len() && formula_holds(
                selections,
                Formula::Selection(#[trigger] names[i]),
                fields,
                readings,
            ),
        formula_holds(selections, Formula::AtLeast(0, names), fields, readings),
        !formula_holds(selections, Formula::AtLeast(names.len() + 1, names), fields, readings),
{
    lemma_holding(selections, names, fields, readings);
    assert forall|i: int| 0 <= i < names.len() implies formula_holds(
        selections,
        Formula::Selection(#[trigger] names[i]),
        fields,
        readings,
    ) == name_holds(selections, names[i], fields, readings) by {}
    if exists|i: int|
        0 <= i < names.len() && name_holds(selections, #[trigger] names[i], fields, readings) {
        let i = choose|i: int|
            0 <= i < names.len() && name_holds(selections, #[trigger] names[i], fields, readings);
        assert(formula_holds(selections, Formula::Selection(names[i]), fields, readings));
    }
    if forall|i: int|
        0 <= i < names.len() ==> formula_holds(
            selections,
            Formula::Selection(#[trigger] names[i]),
            fields,
            readings,
        ) {
        assert forall|i: int| 0 <= i < names.len() implies name_holds(
            selections,
            #[trigger] names[i],
            fields,
            readings,
        ) by {
            assert(formula_holds(selections, Formula::Selection(names[i]), fields, readings));
        }
    }
}

/// One more selection counts one more where it holds, and nothing where it does
/// not.
pub proof fn quantifiers_count_each_selection_once(
    selections: Seq<(Seq<char>, Choice)>,
    n: nat,
    names: Seq<Seq<char>>,
    name: Seq<char>,
    fields: Fields,
    readings: Readings,
)
    requires
        n > 0,
    ensures
        formula_holds(selections, Formula::AtLeast(n, names.push(name)), fields, readings) == if formula_holds(
            selections,
            Formula::Selection(name),
            fields,
            readings,
        ) {
            formula_holds(selections, Formula::AtLeast((n - 1) as nat, names), fields, readings)
        } else {
            formula_holds(selections, Formula::AtLeast(n, names), fields, readings)
        },
{
    assert(names.push(name).drop_last() == names);
}

/// A selection is the first of its name, and a name that is not defined holds
/// of nothing.
pub proof fn a_name_means_its_selection(
    selections: Seq<(Seq<char>, Choice)>,
    name: Seq<char>,
    choice: Choice,
    fields: Fields,
    readings: Readings,
)
    ensures
        formula_holds(
            seq![(name, choice)] + selections,
            Formula::Selection(name),
            fields,
            readings,
        ) == choice_holds(choice, fields, readings),
        forall|other: Seq<char>|
            other != name ==> #[trigger] formula_holds(
                seq![(name, choice)] + selections,
                Formula::Selection(other),
                fields,
                readings,
            ) == formula_holds(selections, Formula::Selection(other), fields, readings),
        !formula_holds(seq![], Formula::Selection(name), fields, readings),
{
    let all = seq![(name, choice)] + selections;
    assert(all.drop_first() == selections);
    assert forall|other: Seq<char>| other != name implies #[trigger] formula_holds(
        all,
        Formula::Selection(other),
        fields,
        readings,
    ) == formula_holds(selections, Formula::Selection(other), fields, readings) by {
        assert(named(all, other) == named(selections, other));
    }
}

/// Alternatives of a selection widen it and tests of a group narrow it: two lists
/// of alternatives hold where either does, and the tests of two groups together
/// where both groups do.
pub proof fn selections_are_any_of_all(
    left: Choice,
    right: Choice,
    a: Seq<Test>,
    b: Seq<Test>,
    fields: Fields,
    readings: Readings,
)
    ensures
        choice_holds(left + right, fields, readings) <==> choice_holds(left, fields, readings)
            || choice_holds(right, fields, readings),
        choice_holds(seq![a + b], fields, readings) <==> choice_holds(seq![a], fields, readings)
            && choice_holds(seq![b], fields, readings),
        !choice_holds(seq![], fields, readings),
        choice_holds(seq![seq![]], fields, readings),
        forall|t: Test| #[trigger]
            choice_holds(seq![seq![t]], fields, readings) == test_holds(t, fields, readings),
{
    let both = left + right;
    if choice_holds(left, fields, readings) {
        let i = choose|i: int|
            0 <= i < left.len() && group_holds(#[trigger] left[i], fields, readings);
        assert(group_holds(both[i], fields, readings));
    }
    if choice_holds(right, fields, readings) {
        let i = choose|i: int|
            0 <= i < right.len() && group_holds(#[trigger] right[i], fields, readings);
        assert(both[left.len() + i] == right[i]);
        assert(group_holds(both[left.len() + i], fields, readings));
    }
    if choice_holds(both, fields, readings) {
        let i = choose|i: int|
            0 <= i < both.len() && group_holds(#[trigger] both[i], fields, readings);
        if i < left.len() {
            assert(group_holds(left[i], fields, readings));
        } else {
            assert(group_holds(right[i - left.len()], fields, readings));
        }
    }
    lemma_one_group(a + b, fields, readings);
    lemma_one_group(a, fields, readings);
    lemma_one_group(b, fields, readings);
    let ab = a + b;
    if group_holds(ab, fields, readings) {
        assert forall|i: int| 0 <= i < a.len() implies test_holds(
            #[trigger] a[i],
            fields,
            readings,
        ) by {
            assert(ab[i] == a[i]);
        }
        assert forall|i: int| 0 <= i < b.len() implies test_holds(
            #[trigger] b[i],
            fields,
            readings,
        ) by {
            assert(ab[a.len() + i] == b[i]);
        }
    }
    lemma_one_group(seq![], fields, readings);
    assert forall|t: Test| #[trigger] choice_holds(seq![seq![t]], fields, readings) == test_holds(
        t,
        fields,
        readings,
    ) by {
        lemma_one_group(seq![t], fields, readings);
        assert(seq![t][0] == t);
    }
}

proof fn lemma_one_group(group: Seq<Test>, fields: Fields, readings: Readings)
    ensures
        choice_holds(seq![group], fields, readings) == group_holds(group, fields, readings),
{
    let one = seq![group];
    assert(one[0] == group);
    if group_holds(group, fields, readings) {
        assert(group_holds(one[0], fields, readings));
    }
}

/// A field that an event does not carry satisfies the test that it is absent and
/// no other; a field that it carries never satisfies that one.
pub proof fn only_absence_holds_of_an_absent_field(test: Test, fields: Fields, readings: Readings)
    ensures
        field_datum(fields, test.field) is None ==> test_holds(test, fields, readings) == (test.op
            == Op::Absent),
        field_datum(fields, test.field) is Some && test.op == Op::Absent ==> !test_holds(
            test,
            fields,
            readings,
        ),
{
}

/// The needles of a test are alternatives, and under `all` they are demands: with
/// two lists of needles it holds where it does with either, or with both.
pub proof fn needles_are_alternatives_or_demands(
    test: Test,
    a: Seq<Seq<char>>,
    b: Seq<Seq<char>>,
    fields: Fields,
    readings: Readings,
)
    requires
        test.op != Op::Absent,
        field_datum(fields, test.field) is Some,
    ensures
        ({
            let with_a = test_holds(Test { needles: a, ..test }, fields, readings);
            let with_b = test_holds(Test { needles: b, ..test }, fields, readings);
            test_holds(Test { needles: a + b, ..test }, fields, readings) <==> if test.all {
                with_a && with_b
            } else {
                with_a || with_b
            }
        }),
        test_holds(Test { needles: seq![], ..test }, fields, readings) == test.all,
{
    let datum = field_datum(fields, test.field)->0;
    let ab = a + b;
    let with_a = Test { needles: a, ..test };
    let with_b = Test { needles: b, ..test };
    let with_ab = Test { needles: ab, ..test };
    assert(forall|i: int| 0 <= i < a.len() ==> #[trigger] ab[i] == a[i]);
    assert(forall|i: int| 0 <= i < b.len() ==> ab[a.len() + i] == #[trigger] b[i]);
    assert forall|n: Seq<char>| needle_matches(with_a, datum, n, readings) == #[trigger] needle_matches(
        with_ab,
        datum,
        n,
        readings,
    ) && needle_matches(with_b, datum, n, readings) == needle_matches(
        with_ab,
        datum,
        n,
        readings,
    ) by {}
    let good = |n: Seq<char>|
        if test.op == Op::FieldRef {
            refers(datum, n, test.cased, fields)
        } else {
            needle_matches(with_ab, datum, n, readings)
        };
    lemma_needles(with_a, fields, readings, good);
    lemma_needles(with_b, fields, readings, good);
    lemma_needles(with_ab, fields, readings, good);
    if test.all {
        if test_holds(with_ab, fields, readings) {
            assert forall|i: int| 0 <= i < a.len() implies good(#[trigger] a[i]) by {
                assert(good(ab[i]));
            }
            assert forall|i: int| 0 <= i < b.len() implies good(#[trigger] b[i]) by {
                assert(good(ab[a.len() + i]));
            }
        }
        if test_holds(with_a, fields, readings) && test_holds(with_b, fields, readings) {
            assert forall|i: int| 0 <= i < ab.len() implies good(#[trigger] ab[i]) by {
                if i >= a.len() {
                    assert(good(b[i - a.len()]));
                } else {
                    assert(good(a[i]));
                }
            }
        }
    } else {
        if test_holds(with_ab, fields, readings) {
            let i = choose|i: int| 0 <= i < ab.len() && good(#[trigger] ab[i]);
            if i < a.len() {
                assert(good(a[i]));
            } else {
                assert(good(b[i - a.len()]));
            }
        }
        if test_holds(with_a, fields, readings) {
            let i = choose|i: int| 0 <= i < a.len() && good(#[trigger] a[i]);
            assert(good(ab[i]));
        }
        if test_holds(with_b, fields, readings) {
            let i = choose|i: int| 0 <= i < b.len() && good(#[trigger] b[i]);
            assert(good(ab[a.len() + i]));
        }
    }
}

proof fn lemma_needles(
    test: Test,
    fields: Fields,
    readings: Readings,
    good: spec_fn(Seq<char>) -> bool,
)
    requires
        test.op != Op::Absent,
        field_datum(fields, test.field) is Some,
        forall|n: Seq<char>| #[trigger]
            good(n) == if test.op == Op::FieldRef {
                refers(field_datum(fields, test.field)->0, n, test.cased, fields)
            } else {
                needle_matches(test, field_datum(fields, test.field)->0, n, readings)
            },
    ensures
        test_holds(test, fields, readings) <==> if test.all {
            forall|i: int| 0 <= i < test.needles.len() ==> good(#[trigger] test.needles[i])
        } else {
            exists|i: int| 0 <= i < test.needles.len() && good(#[trigger] test.needles[i])
        },
{
    let datum = field_datum(fields, test.field)->0;
    if test.all {
        if test_holds(test, fields, readings) {
            assert forall|i: int| 0 <= i < test.needles.len() implies good(
                #[trigger] test.needles[i],
            ) by {}
        }
        if forall|i: int| 0 <= i < test.needles.len() ==> good(#[trigger] test.needles[i]) {
            assert forall|i: int| 0 <= i < test.needles.len() implies if test.op == Op::FieldRef {
                refers(datum, #[trigger] test.needles[i], test.cased, fields)
            } else {
                needle_matches(test, datum, test.needles[i], readings)
            } by {
                assert(good(test.needles[i]));
            }
        }
    } else {
        if exists|i: int| 0 <= i < test.needles.len() && good(#[trigger] test.needles[i]) {
            let i = choose|i: int| 0 <= i < test.needles.len() && good(#[trigger] test.needles[i]);
            assert(good(test.needles[i]));
        }
    }
}

/// Of two texts that read as numbers exactly one is greater, less or neither, and
/// the comparisons that admit equality are the strict ones' opposites.
pub proof fn number_comparisons_agree(
    datum: Datum,
    needle: Seq<char>,
    readings: Readings,
)
    ensures
        ({
            let greater = numbers_relate(Op::Greater, datum, needle, readings);
            let less = numbers_relate(Op::Less, datum, needle, readings);
            let at_least = numbers_relate(Op::GreaterEq, datum, needle, readings);
            let at_most = numbers_relate(Op::LessEq, datum, needle, readings);
            &&& !(greater && less)
            &&& greater ==> at_least && !at_most
            &&& less ==> at_most && !at_least
            &&& at_least || at_most ==> (at_least <==> !less) && (at_most <==> !greater)
        }),
{
}

/// A condition can hold where its parts can: both for a conjunction, one for a
/// disjunction; a negation always can.
pub proof fn possibility_follows_the_condition(
    selections: Seq<(Seq<char>, Choice)>,
    a: Formula,
    b: Formula,
    available: Seq<Seq<char>>,
)
    ensures
        formula_possible(selections, Formula::And(Box::new(a), Box::new(b)), available) <==> (
        formula_possible(selections, a, available) && formula_possible(selections, b, available)),
        formula_possible(selections, Formula::Or(Box::new(a), Box::new(b)), available) <==> (
        formula_possible(selections, a, available) || formula_possible(selections, b, available)),
        formula_possible(selections, Formula::Not(Box::new(a)), available),
{
}

/// A selection can hold where one of its alternatives can, and an alternative where
/// every test of it can; what asks for a field that no event carries cannot, unless it
/// asks that the field is absent.
pub proof fn what_asks_for_missing_fields_is_impossible(
    left: Choice,
    right: Choice,
    a: Seq<Test>,
    b: Seq<Test>,
    test: Test,
    available: Seq<Seq<char>>,
)
    ensures
        choice_possible(left + right, available) <==> choice_possible(left, available)
            || choice_possible(right, available),
        group_possible(a + b, available) <==> group_possible(a, available) && group_possible(
            b,
            available,
        ),
        !choice_possible(seq![], available),
        test.op == Op::Absent ==> test_possible(test, available),
        test.op != Op::Absent && !available.contains(test.field) ==> !test_possible(
            test,
            available,
        ),
        test.op != Op::Absent && test.op != Op::FieldRef && available.contains(test.field)
            ==> test_possible(test, available),
        test.op == Op::FieldRef && test.needles.len() == 1 && available.contains(test.field) ==> (
        test_possible(test, available) <==> available.contains(test.needles[0])),
        test_possible(test, available) && test.op == Op::FieldRef && test.all ==> forall|i: int|
            0 <= i < test.needles.len() ==> available.contains(#[trigger] test.needles[i]),
{
    let both = left + right;
    if choice_possible(left, available) {
        let i = choose|i: int| 0 <= i < left.len() && group_possible(#[trigger] left[i], available);
        assert(group_possible(both[i], available));
    }
    if choice_possible(right, available) {
        let i = choose|i: int|
            0 <= i < right.len() && group_possible(#[trigger] right[i], available);
        assert(group_possible(both[left.len() + i], available));
    }
    if choice_possible(both, available) {
        let i = choose|i: int| 0 <= i < both.len() && group_possible(#[trigger] both[i], available);
        if i < left.len() {
            assert(group_possible(left[i], available));
        } else {
            assert(group_possible(right[i - left.len()], available));
        }
    }
    let ab = a + b;
    if group_possible(ab, available) {
        assert forall|i: int| 0 <= i < a.len() implies test_possible(
            #[trigger] a[i],
            available,
        ) by {
            assert(ab[i] == a[i]);
        }
        assert forall|i: int| 0 <= i < b.len() implies test_possible(
            #[trigger] b[i],
            available,
        ) by {
            assert(ab[a.len() + i] == b[i]);
        }
    }
    if test.needles.len() == 1 {
        assert(available.contains(test.needles[0]) ==> test.needles[0] == test.needles[0]);
    }
}

/// The fields a block reads are those of its tests, each with what it refers to, in
/// the order in which they are written.
pub proof fn blocks_read_the_fields_of_their_tests(
    selections: Seq<(Seq<char>, Choice)>,
    name: Seq<char>,
    choice: Choice,
    group: Seq<Test>,
    test: Test,
)
    ensures
        plan_reads(selections.push((name, choice)), selections.len() + 1) == plan_reads(
            selections,
            selections.len(),
        ) + choice_reads(choice, choice.len()),
        choice_reads(choice.push(group), choice.len() + 1) == choice_reads(choice, choice.len())
            + group_reads(group, group.len()),
        group_reads(group.push(test), group.len() + 1) == group_reads(group, group.len()) + (
        seq![test.field] + if test.op == Op::FieldRef {
            test.needles
        } else {
            Seq::empty()
        }),
        plan_reads(seq![], 0) == Seq::<Seq<char>>::empty(),
        choice_reads(seq![], 0) == Seq::<Seq<char>>::empty(),
        group_reads(seq![], 0) == Seq::<Seq<char>>::empty(),
{
    lemma_plan_prefix(selections, (name, choice), selections.len());
    lemma_choice_prefix(choice, group, choice.len());
    lemma_group_prefix(group, test, group.len());
    assert(seq![test.field] + Seq::<Seq<char>>::empty() == seq![test.field]);
}

proof fn lemma_plan_prefix(
    selections: Seq<(Seq<char>, Choice)>,
    last: (Seq<char>, Choice),
    n: nat,
)
    requires
        n <= selections.len(),
    ensures
        plan_reads(selections.push(last), n) == plan_reads(selections, n),
    decreases n,
{
    if n > 0 {
        lemma_plan_prefix(selections, last, (n - 1) as nat);
        assert(selections.push(last)[n - 1] == selections[n - 1]);
    }
}

proof fn lemma_choice_prefix(choice: Choice, last: Seq<Test>, n: nat)
    requires
        n <= choice.len(),
    ensures
        choice_reads(choice.push(last), n) == choice_reads(choice, n),
    decreases n,
{
    if n > 0 {
        lemma_choice_prefix(choice, last, (n - 1) as nat);
        assert(choice.push(last)[n - 1] == choice[n - 1]);
    }
}

proof fn lemma_group_prefix(group: Seq<Test>, last: Test, n: nat)
    requires
        n <= group.len(),
    ensures
        group_reads(group.push(last), n) == group_reads(group, n),
    decreases n,
{
    if n > 0 {
        lemma_group_prefix(group, last, (n - 1) as nat);
        assert(group.push(last)[n - 1] == group[n - 1]);
    }
}

/// A test, a block and a condition mean exactly what their parts say.
pub proof fn parts_mean_what_they_hold(
    test: FieldTest,
    detection: Detection,
    i: int,
    g: int,
    t: int,
)
    ensures
        test.test().field == test.field@,
        test.test().op == test.op,
        test.test().all == test.all,
        test.test().cased == test.case_sensitive,
        test.test().needles.len() == test.needles@.len(),
        0 <= i < test.needles@.len() ==> test.test().needles[i] == test.needles@[i]@,
        detection.plan().condition == detection.condition.formula(),
        detection.plan().selections.len() == detection.selections@.len(),
        0 <= i < detection.selections@.len() ==> {
            let selection = detection.selections@[i];
            &&& detection.plan().selections[i].0 == selection.0@
            &&& detection.plan().selections[i].1.len() == selection.1@.len()
            &&& 0 <= g < selection.1@.len() ==> {
                &&& detection.plan().selections[i].1[g].len() == selection.1@[g]@.len()
                &&& 0 <= t < selection.1@[g]@.len() ==> detection.plan().selections[i].1[g][t]
                    == selection.1@[g]@[t].test()
            }
        },
{
}

/// A condition means what its shape says.
pub proof fn shapes_mean_what_they_say(condition: Condition)
    ensures
        match condition {
            Condition::Selection(name) => condition.formula() == Formula::Selection(name@),
            Condition::And(a, b) => condition.formula() == Formula::And(
                Box::new(a.formula()),
                Box::new(b.formula()),
            ),
            Condition::Or(a, b) => condition.formula() == Formula::Or(
                Box::new(a.formula()),
                Box::new(b.formula()),
            ),
            Condition::Not(a) => condition.formula() == Formula::Not(Box::new(a.formula())),
            Condition::AtLeast(n, names) => condition.formula() matches Formula::AtLeast(
                m,
                texts,
            ) && m == n && texts.len() == names@.len() && forall|i: int|
                0 <= i < texts.len() ==> #[trigger] texts[i] == names@[i]@,
        },
{
}

/// A number is compared as it is written, and a truth value is no number.
pub proof fn only_numbers_and_texts_read_as_numbers(
    i: int,
    b: bool,
    needle: Seq<char>,
    readings: Readings,
)
    ensures
        match (readings.number_of(integer_text(i)), readings.number_of(trimmed(needle))) {
            (Some(x), Some(y)) => {
                &&& numbers_relate(Op::Greater, Datum::Int(i), needle, readings) <==> x > y
                &&& numbers_relate(Op::GreaterEq, Datum::Int(i), needle, readings) <==> x >= y
                &&& numbers_relate(Op::Less, Datum::Int(i), needle, readings) <==> x < y
                &&& numbers_relate(Op::LessEq, Datum::Int(i), needle, readings) <==> x <= y
            },
            _ => {
                &&& !numbers_relate(Op::Greater, Datum::Int(i), needle, readings)
                &&& !numbers_relate(Op::GreaterEq, Datum::Int(i), needle, readings)
                &&& !numbers_relate(Op::Less, Datum::Int(i), needle, readings)
                &&& !numbers_relate(Op::LessEq, Datum::Int(i), needle, readings)
            },
        },
        !numbers_relate(Op::Greater, Datum::Bool(b), needle, readings),
        !numbers_relate(Op::GreaterEq, Datum::Bool(b), needle, readings),
        !numbers_relate(Op::Less, Datum::Bool(b), needle, readings),
        !numbers_relate(Op::LessEq, Datum::Bool(b), needle, readings),
{
}

/// What is no text is compared with a text as the text it is written as.
pub proof fn numbers_and_truth_values_compare_as_texts(
    test: Test,
    i: int,
    needle: Seq<char>,
    fields: Fields,
    readings: Readings,
)
    requires
        test.op == Op::Equals || test.op == Op::Contains || test.op == Op::StartsWith || test.op
            == Op::EndsWith || test.op == Op::Cidr,
    ensures
        needle_matches(test, Datum::Int(i), needle, readings) <==> needle_matches(
            test,
            Datum::Text(integer_text(i)),
            needle,
            readings,
        ),
        needle_matches(test, Datum::Bool(true), needle, readings) <==> needle_matches(
            test,
            Datum::Text("true"@),
            needle,
            readings,
        ),
        needle_matches(test, Datum::Bool(false), needle, readings) <==> needle_matches(
            test,
            Datum::Text("false"@),
            needle,
            readings,
        ),
        refers(Datum::Int(i), needle, test.cased, fields) <==> refers(
            Datum::Text(integer_text(i)),
            needle,
            test.cased,
            fields,
        ),
        refers(Datum::Bool(true), needle, test.cased, fields) <==> refers(
            Datum::Text("true"@),
            needle,
            test.cased,
            fields,
        ),
{
}

} // verus!
