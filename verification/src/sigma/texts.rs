//! Which texts a comparison hands to the platform's parsers.
//!
//! A rule that compares numbers or addresses depends on how some texts read. The
//! functions here list those texts; how any other text reads does not matter.
use super::condition::{views, Formula};
use super::detect::{
    choice_holds, choice_of, choices_of, formula_holds, group_holds, group_tests, holding,
    name_holds, named, needle_matches, test_holds, Choice, Detection, FieldTest, Group,
    Selection, Test,
};
use super::pattern::{inside_range, network_of, network_text, Readings};
use super::ruleset::{fires, hits_of, rule_models, Rule, RuleModel, RuleSet};
use super::view::{datum_text, event_fields, field_datum, Datum, EventView, Fields};
use crate::model::event::TelemetryEvent;
use crate::text::{chars_of, index_from, lemma_index_from, text_of, trim, trimmed};
use vstd::prelude::*;

verus! {

/// Whether two readings read a text the same way.
pub open spec fn alike(a: Readings, b: Readings, text: Seq<char>) -> bool {
    a.number_of(text) == b.number_of(text) && a.address_of(text) == b.address_of(text)
}

/// Whether two readings read every listed text the same way.
pub open spec fn agree(a: Readings, b: Readings, list: Seq<Seq<char>>) -> bool {
    forall|text: Seq<char>| list.contains(text) ==> #[trigger] alike(a, b, text)
}

/// Whether what a needle is compared as is listed.
pub open spec fn lists_needle(list: Seq<Seq<char>>, needle: Seq<char>) -> bool {
    list.contains(trimmed(needle)) && list.contains(network_text(needle))
}

/// Whether what a datum is compared as is listed.
pub open spec fn lists_datum(list: Seq<Seq<char>>, datum: Datum) -> bool {
    list.contains(datum_text(datum)) && list.contains(trimmed(datum_text(datum)))
}

/// Whether every needle of a test is listed.
pub open spec fn lists_test(list: Seq<Seq<char>>, test: Test) -> bool {
    forall|i: int| 0 <= i < test.needles.len() ==> lists_needle(list, #[trigger] test.needles[i])
}

/// Whether every needle of a group is listed.
pub open spec fn lists_group(list: Seq<Seq<char>>, group: Seq<Test>) -> bool {
    forall|i: int| 0 <= i < group.len() ==> lists_test(list, #[trigger] group[i])
}

/// Whether every needle of a selection is listed.
pub open spec fn lists_choice(list: Seq<Seq<char>>, choice: Choice) -> bool {
    forall|i: int| 0 <= i < choice.len() ==> lists_group(list, #[trigger] choice[i])
}

/// Whether every needle of the selections is listed.
pub open spec fn lists_choices(
    list: Seq<Seq<char>>,
    selections: Seq<(Seq<char>, Choice)>,
) -> bool {
    forall|i: int| 0 <= i < selections.len() ==> lists_choice(list, (#[trigger] selections[i]).1)
}

/// Whether every needle of the rules is listed.
pub open spec fn lists_rules(list: Seq<Seq<char>>, rules: Seq<RuleModel>) -> bool {
    forall|i: int|
        0 <= i < rules.len() ==> lists_choices(list, (#[trigger] rules[i]).plan.selections)
}

/// Whether every field is listed.
pub open spec fn lists_fields(list: Seq<Seq<char>>, fields: Fields) -> bool {
    forall|name: Seq<char>| #[trigger]
        fields.contains_key(name) ==> lists_datum(list, fields[name])
}

proof fn lemma_choice_listed(
    list: Seq<Seq<char>>,
    selections: Seq<(Seq<char>, Choice)>,
    name: Seq<char>,
)
    requires
        lists_choices(list, selections),
    ensures
        named(selections, name) matches Some(choice) ==> lists_choice(list, choice),
    decreases selections.len(),
{
    if selections.len() > 0 && selections[0].0 != name {
        let rest = selections.drop_first();
        assert forall|i: int| 0 <= i < rest.len() implies lists_choice(
            list,
            (#[trigger] rest[i]).1,
        ) by {
            assert(rest[i] == selections[i + 1]);
        }
        lemma_choice_listed(list, rest, name);
    }
}

proof fn lemma_needle(
    test: Test,
    datum: Datum,
    needle: Seq<char>,
    a: Readings,
    b: Readings,
    list: Seq<Seq<char>>,
)
    requires
        agree(a, b, list),
        lists_needle(list, needle),
        lists_datum(list, datum),
    ensures
        needle_matches(test, datum, needle, a) == needle_matches(test, datum, needle, b),
{
    assert(alike(a, b, trimmed(needle)));
    assert(alike(a, b, network_text(needle)));
    assert(alike(a, b, datum_text(datum)));
    assert(alike(a, b, trimmed(datum_text(datum))));
    let slash = index_from(needle, '/', 0);
    if slash >= needle.len() {
        lemma_take_all(needle);
    }
    assert(inside_range(needle, datum_text(datum), a) == inside_range(
        needle,
        datum_text(datum),
        b,
    ));
}

/// A pattern without a prefix length is all network.
proof fn lemma_take_all(pattern: Seq<char>)
    requires
        index_from(pattern, '/', 0) >= pattern.len(),
    ensures
        network_text(pattern) == trimmed(pattern),
{
    lemma_index_from(pattern, '/', 0);
    assert(pattern.take(index_from(pattern, '/', 0)) == pattern);
}

proof fn lemma_test(test: Test, fields: Fields, a: Readings, b: Readings, list: Seq<Seq<char>>)
    requires
        agree(a, b, list),
        lists_test(list, test),
        lists_fields(list, fields),
    ensures
        test_holds(test, fields, a) == test_holds(test, fields, b),
{
    match field_datum(fields, test.field) {
        None => {},
        Some(datum) => {
            assert forall|i: int| 0 <= i < test.needles.len() implies needle_matches(
                test,
                datum,
                #[trigger] test.needles[i],
                a,
            ) == needle_matches(test, datum, test.needles[i], b) by {
                lemma_needle(test, datum, test.needles[i], a, b, list);
            }
        },
    }
}

proof fn lemma_choice(
    choice: Choice,
    fields: Fields,
    a: Readings,
    b: Readings,
    list: Seq<Seq<char>>,
)
    requires
        agree(a, b, list),
        lists_choice(list, choice),
        lists_fields(list, fields),
    ensures
        choice_holds(choice, fields, a) == choice_holds(choice, fields, b),
{
    assert forall|i: int| 0 <= i < choice.len() implies group_holds(
        #[trigger] choice[i],
        fields,
        a,
    ) == group_holds(choice[i], fields, b) by {
        let group = choice[i];
        assert forall|j: int| 0 <= j < group.len() implies test_holds(
            #[trigger] group[j],
            fields,
            a,
        ) == test_holds(group[j], fields, b) by {
            lemma_test(group[j], fields, a, b, list);
        }
    }
}

proof fn lemma_name(
    selections: Seq<(Seq<char>, Choice)>,
    name: Seq<char>,
    fields: Fields,
    a: Readings,
    b: Readings,
    list: Seq<Seq<char>>,
)
    requires
        agree(a, b, list),
        lists_choices(list, selections),
        lists_fields(list, fields),
    ensures
        name_holds(selections, name, fields, a) == name_holds(selections, name, fields, b),
{
    lemma_choice_listed(list, selections, name);
    match named(selections, name) {
        Some(choice) => {
            lemma_choice(choice, fields, a, b, list);
        },
        None => {},
    }
}

proof fn lemma_holding(
    selections: Seq<(Seq<char>, Choice)>,
    names: Seq<Seq<char>>,
    fields: Fields,
    a: Readings,
    b: Readings,
    list: Seq<Seq<char>>,
)
    requires
        agree(a, b, list),
        lists_choices(list, selections),
        lists_fields(list, fields),
    ensures
        holding(selections, names, fields, a) == holding(selections, names, fields, b),
    decreases names.len(),
{
    if names.len() > 0 {
        lemma_holding(selections, names.drop_last(), fields, a, b, list);
        lemma_name(selections, names.last(), fields, a, b, list);
    }
}

proof fn lemma_formula(
    selections: Seq<(Seq<char>, Choice)>,
    formula: Formula,
    fields: Fields,
    a: Readings,
    b: Readings,
    list: Seq<Seq<char>>,
)
    requires
        agree(a, b, list),
        lists_choices(list, selections),
        lists_fields(list, fields),
    ensures
        formula_holds(selections, formula, fields, a) == formula_holds(
            selections,
            formula,
            fields,
            b,
        ),
    decreases formula,
{
    match formula {
        Formula::Selection(name) => {
            lemma_name(selections, name, fields, a, b, list);
        },
        Formula::And(x, y) => {
            lemma_formula(selections, *x, fields, a, b, list);
            lemma_formula(selections, *y, fields, a, b, list);
        },
        Formula::Or(x, y) => {
            lemma_formula(selections, *x, fields, a, b, list);
            lemma_formula(selections, *y, fields, a, b, list);
        },
        Formula::Not(x) => {
            lemma_formula(selections, *x, fields, a, b, list);
        },
        Formula::AtLeast(_, names) => {
            lemma_holding(selections, names, fields, a, b, list);
        },
    }
}

/// What rules report of an event depends only on how the listed texts read,
/// where the texts of the rules and of the event are listed.
pub proof fn only_listed_texts_matter(
    rules: Seq<RuleModel>,
    n: nat,
    event: TelemetryEvent,
    a: Readings,
    b: Readings,
    list: Seq<Seq<char>>,
)
    requires
        n <= rules.len(),
        agree(a, b, list),
        lists_rules(list, rules),
        lists_fields(list, event_fields(event)),
    ensures
        hits_of(rules, n, event, a) == hits_of(rules, n, event, b),
    decreases n,
{
    if n > 0 {
        only_listed_texts_matter(rules, (n - 1) as nat, event, a, b, list);
        let rule = rules[n - 1];
        lemma_formula(
            rule.plan.selections,
            rule.plan.condition,
            event_fields(event),
            a,
            b,
            list,
        );
        assert(fires(rule, event, a) == fires(rule, event, b));
    }
}

/// Whether one list holds whatever another holds.
pub open spec fn extends(longer: Seq<Seq<char>>, shorter: Seq<Seq<char>>) -> bool {
    forall|text: Seq<char>| shorter.contains(text) ==> #[trigger] longer.contains(text)
}

fn list_text(out: &mut Vec<String>, text: String)
    ensures
        extends(views(final(out)@), views(old(out)@)),
        views(final(out)@).contains(text@),
{
    let ghost before = views(out@);
    out.push(text);
    proof {
        let after = views(out@);
        assert(after == before.push(text@));
        assert(after[before.len() as int] == text@);
        assert forall|t: Seq<char>| before.contains(t) implies #[trigger] after.contains(t) by {
            let i = choose|i: int| 0 <= i < before.len() && before[i] == t;
            assert(after[i] == t);
        }
    }
}

fn trimmed_text(text: &str) -> (inner: String)
    ensures
        inner@ == trimmed(text@),
{
    text_of(trim(chars_of(text).as_slice()).as_slice())
}

fn list_needle(out: &mut Vec<String>, needle: &str)
    ensures
        extends(views(final(out)@), views(old(out)@)),
        lists_needle(views(final(out)@), needle@),
{
    list_text(out, trimmed_text(needle));
    list_text(out, network_of(needle));
}

fn list_test(out: &mut Vec<String>, test: &FieldTest)
    ensures
        extends(views(final(out)@), views(old(out)@)),
        lists_test(views(final(out)@), test.test()),
{
    let ghost first = views(out@);
    let mut i: usize = 0;
    while i < test.needles.len()
        invariant
            i <= test.needles@.len(),
            extends(views(out@), first),
            forall|k: int| 0 <= k < i ==> lists_needle(views(out@), (#[trigger] test.needles@[k])@),
        decreases test.needles@.len() - i,
    {
        let ghost before = views(out@);
        list_needle(out, test.needles[i].as_str());
        assert forall|k: int| 0 <= k < i + 1 implies lists_needle(
            views(out@),
            (#[trigger] test.needles@[k])@,
        ) by {
            if k < i {
                assert(lists_needle(before, test.needles@[k]@));
            }
        }
        i += 1;
    }
    assert forall|k: int| 0 <= k < test.test().needles.len() implies lists_needle(
        views(out@),
        #[trigger] test.test().needles[k],
    ) by {
        assert(test.test().needles[k] == test.needles@[k]@);
    }
}

proof fn lemma_test_stays(longer: Seq<Seq<char>>, shorter: Seq<Seq<char>>, test: Test)
    requires
        extends(longer, shorter),
        lists_test(shorter, test),
    ensures
        lists_test(longer, test),
{
    assert forall|i: int| 0 <= i < test.needles.len() implies lists_needle(
        longer,
        #[trigger] test.needles[i],
    ) by {
        assert(lists_needle(shorter, test.needles[i]));
    }
}

proof fn lemma_group_stays(longer: Seq<Seq<char>>, shorter: Seq<Seq<char>>, group: Seq<Test>)
    requires
        extends(longer, shorter),
        lists_group(shorter, group),
    ensures
        lists_group(longer, group),
{
    assert forall|i: int| 0 <= i < group.len() implies lists_test(longer, #[trigger] group[i]) by {
        lemma_test_stays(longer, shorter, group[i]);
    }
}

proof fn lemma_choice_stays(longer: Seq<Seq<char>>, shorter: Seq<Seq<char>>, choice: Choice)
    requires
        extends(longer, shorter),
        lists_choice(shorter, choice),
    ensures
        lists_choice(longer, choice),
{
    assert forall|i: int| 0 <= i < choice.len() implies lists_group(
        longer,
        #[trigger] choice[i],
    ) by {
        lemma_group_stays(longer, shorter, choice[i]);
    }
}

proof fn lemma_choices_stay(
    longer: Seq<Seq<char>>,
    shorter: Seq<Seq<char>>,
    selections: Seq<(Seq<char>, Choice)>,
)
    requires
        extends(longer, shorter),
        lists_choices(shorter, selections),
    ensures
        lists_choices(longer, selections),
{
    assert forall|i: int| 0 <= i < selections.len() implies lists_choice(
        longer,
        (#[trigger] selections[i]).1,
    ) by {
        lemma_choice_stays(longer, shorter, selections[i].1);
    }
}

fn list_group(out: &mut Vec<String>, group: &Group)
    ensures
        extends(views(final(out)@), views(old(out)@)),
        lists_group(views(final(out)@), group_tests(group@)),
{
    let ghost first = views(out@);
    let mut i: usize = 0;
    while i < group.len()
        invariant
            i <= group@.len(),
            extends(views(out@), first),
            forall|k: int| 0 <= k < i ==> lists_test(views(out@), (#[trigger] group@[k]).test()),
        decreases group@.len() - i,
    {
        let ghost before = views(out@);
        list_test(out, &group[i]);
        assert forall|k: int| 0 <= k < i + 1 implies lists_test(
            views(out@),
            (#[trigger] group@[k]).test(),
        ) by {
            if k < i {
                lemma_test_stays(views(out@), before, group@[k].test());
            }
        }
        i += 1;
    }
    assert forall|k: int| 0 <= k < group_tests(group@).len() implies lists_test(
        views(out@),
        #[trigger] group_tests(group@)[k],
    ) by {
        assert(group_tests(group@)[k] == group@[k].test());
    }
}

fn list_selection(out: &mut Vec<String>, selection: &Selection)
    ensures
        extends(views(final(out)@), views(old(out)@)),
        lists_choice(views(final(out)@), choice_of(selection@)),
{
    let ghost first = views(out@);
    let mut i: usize = 0;
    while i < selection.len()
        invariant
            i <= selection@.len(),
            extends(views(out@), first),
            forall|k: int|
                0 <= k < i ==> lists_group(views(out@), group_tests((#[trigger] selection@[k])@)),
        decreases selection@.len() - i,
    {
        let ghost before = views(out@);
        list_group(out, &selection[i]);
        assert forall|k: int| 0 <= k < i + 1 implies lists_group(
            views(out@),
            group_tests((#[trigger] selection@[k])@),
        ) by {
            if k < i {
                lemma_group_stays(views(out@), before, group_tests(selection@[k]@));
            }
        }
        i += 1;
    }
    assert forall|k: int| 0 <= k < choice_of(selection@).len() implies lists_group(
        views(out@),
        #[trigger] choice_of(selection@)[k],
    ) by {
        assert(choice_of(selection@)[k] == group_tests(selection@[k]@));
    }
}

fn list_detection(out: &mut Vec<String>, detection: &Detection)
    ensures
        extends(views(final(out)@), views(old(out)@)),
        lists_choices(views(final(out)@), detection.plan().selections),
{
    let ghost first = views(out@);
    let ghost all = choices_of(detection.selections@);
    let mut i: usize = 0;
    while i < detection.selections.len()
        invariant
            i <= detection.selections@.len(),
            all == choices_of(detection.selections@),
            extends(views(out@), first),
            forall|k: int| 0 <= k < i ==> lists_choice(views(out@), (#[trigger] all[k]).1),
        decreases detection.selections@.len() - i,
    {
        let ghost before = views(out@);
        list_selection(out, &detection.selections[i].1);
        assert forall|k: int| 0 <= k < i + 1 implies lists_choice(
            views(out@),
            (#[trigger] all[k]).1,
        ) by {
            if k < i {
                lemma_choice_stays(views(out@), before, all[k].1);
            }
        }
        i += 1;
    }
}

/// The texts of rules whose readings evaluation may ask for.
pub fn rule_texts(rules: &[Rule]) -> (list: Vec<String>)
    ensures
        lists_rules(views(list@), rule_models(rules@)),
{
    let mut out: Vec<String> = Vec::new();
    let ghost all = rule_models(rules@);
    let mut i: usize = 0;
    while i < rules.len()
        invariant
            i <= rules@.len(),
            all == rule_models(rules@),
            forall|k: int|
                0 <= k < i ==> lists_choices(views(out@), (#[trigger] all[k]).plan.selections),
        decreases rules@.len() - i,
    {
        let ghost before = views(out@);
        list_detection(&mut out, &rules[i].detection);
        assert forall|k: int| 0 <= k < i + 1 implies lists_choices(
            views(out@),
            (#[trigger] all[k]).plan.selections,
        ) by {
            if k < i {
                lemma_choices_stay(views(out@), before, all[k].plan.selections);
            }
        }
        i += 1;
    }
    out
}

impl RuleSet {
    /// The texts of the rules whose readings evaluation may ask for.
    pub fn texts(&self) -> (list: Vec<String>)
        ensures
            lists_rules(views(list@), self.models()),
    {
        rule_texts(self.rules())
    }
}

impl EventView {
    /// The texts of the fields whose readings evaluation may ask for.
    pub fn texts(&self) -> (list: Vec<String>)
        ensures
            lists_fields(views(list@), self.data()),
    {
        let mut out: Vec<String> = Vec::new();
        let names = self.field_names();
        let ghost all = self.data();
        let mut i: usize = 0;
        while i < names.len()
            invariant
                i <= names@.len(),
                all == self.data(),
                forall|k: int|
                    0 <= k < names@.len() ==> all.contains_key((#[trigger] names@[k])@),
                forall|k: int|
                    0 <= k < i ==> lists_datum(views(out@), all[(#[trigger] names@[k])@]),
            decreases names@.len() - i,
        {
            let ghost before = views(out@);
            match self.get(names[i]) {
                Some(value) => {
                    let text = value.as_text();
                    let inner = trimmed_text(text.as_str());
                    list_text(&mut out, text);
                    let ghost between = views(out@);
                    list_text(&mut out, inner);
                    assert forall|k: int| 0 <= k < i + 1 implies lists_datum(
                        views(out@),
                        all[(#[trigger] names@[k])@],
                    ) by {
                        if k < i {
                            let datum = all[names@[k]@];
                            assert(lists_datum(before, datum));
                            assert(between.contains(datum_text(datum)));
                            assert(between.contains(trimmed(datum_text(datum))));
                        }
                    }
                },
                None => {},
            }
            i += 1;
        }
        assert forall|name: Seq<char>| #[trigger] all.contains_key(name) implies lists_datum(
            views(out@),
            all[name],
        ) by {
            let k = choose|k: int| 0 <= k < names@.len() && (#[trigger] names@[k])@ == name;
            assert(lists_datum(views(out@), all[names@[k]@]));
        }
        out
    }
}

} // verus!
