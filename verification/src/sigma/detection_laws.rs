//! What a `detection` block compiles to.
use super::condition::{condition_of, Formula};
use super::detect::{
    choice_holds, compiled, gathered, groups_of, names_of, scalars_of, selection_of, test_holds,
    test_of, tests_of, Choice,
};
use super::modifier_laws::key_holds;
use super::pattern::Readings;
use super::view::Fields;
use super::yaml::Node;
use vstd::prelude::*;

verus! {

/// Whether pairs name selections that compile.
pub open spec fn selections_compile(pairs: Seq<(Node, Node)>) -> bool {
    forall|i: int|
        0 <= i < pairs.len() ==> {
            let pair = #[trigger] pairs[i];
            pair.0 is Text && pair.0->Text_0 != "condition"@ && pair.0->Text_0 != "timeframe"@
                && selection_of(pair.0->Text_0, pair.1) is Ok
        }
}

proof fn lemma_gathered(pairs: Seq<(Node, Node)>, source: Seq<char>, n: nat)
    requires
        selections_compile(pairs),
        n <= pairs.len(),
    ensures
        ({
            let all = pairs.push((Node::Text("condition"@), Node::Text(source)));
            gathered(all, n) matches Ok((selections, condition)) && condition is None
                && selections.len() == n && forall|i: int|
                0 <= i < n ==> #[trigger] selections[i] == (
                    pairs[i].0->Text_0,
                    selection_of(pairs[i].0->Text_0, pairs[i].1)->Ok_0,
                )
        }),
    decreases n,
{
    let all = pairs.push((Node::Text("condition"@), Node::Text(source)));
    if n > 0 {
        lemma_gathered(pairs, source, (n - 1) as nat);
        assert(all[n - 1] == pairs[n - 1]);
        assert(pairs[n - 1].0 is Text);
    }
}

/// A block of selections and a condition compiles to those selections, under their
/// names and in their order, and to that condition over their names; and it compiles
/// where the condition does.
pub proof fn blocks_compile_to_their_selections(pairs: Seq<(Node, Node)>, source: Seq<char>)
    requires
        selections_compile(pairs),
        pairs.len() > 0,
    ensures
        ({
            let all = pairs.push((Node::Text("condition"@), Node::Text(source)));
            let names = pairs.map_values(|p: (Node, Node)| p.0->Text_0);
            match compiled(Node::Mapping(all)) {
                Ok(plan) => {
                    &&& plan.selections.len() == pairs.len()
                    &&& forall|i: int|
                        0 <= i < pairs.len() ==> (#[trigger] plan.selections[i]).0
                            == pairs[i].0->Text_0 && selection_of(pairs[i].0->Text_0, pairs[i].1)
                            == Ok::<Choice, Seq<char>>(plan.selections[i].1)
                    &&& condition_of(source, names) == Ok::<Formula, Seq<char>>(plan.condition)
                },
                Err(_) => condition_of(source, names) is Err,
            }
        }),
{
    let all = pairs.push((Node::Text("condition"@), Node::Text(source)));
    let names = pairs.map_values(|p: (Node, Node)| p.0->Text_0);
    lemma_gathered(pairs, source, pairs.len());
    let n = pairs.len();
    assert(all[n as int] == (Node::Text("condition"@), Node::Text(source)));
    let selections = gathered(all, n)->Ok_0.0;
    assert(gathered(all, all.len()) == Ok::<(Seq<(Seq<char>, Choice)>, Option<Seq<char>>), Seq<char>>(
        (selections, Some(source)),
    ));
    assert(names_of(selections) == names);
    assert forall|i: int| 0 <= i < pairs.len() implies selection_of(
        (#[trigger] pairs[i]).0->Text_0,
        pairs[i].1,
    ) == Ok::<Choice, Seq<char>>(selections[i].1) by {}
}

/// A block needs selections and a condition that is a text, and takes no time frame.
pub proof fn incomplete_blocks_are_refused(pairs: Seq<(Node, Node)>, n: int, frame: Node)
    ensures
        pairs.len() == 0 ==> compiled(Node::Mapping(pairs)) is Err,
        selections_compile(pairs) ==> compiled(Node::Mapping(pairs)) is Err,
        selections_compile(pairs) && !(frame is Text) ==> compiled(
            Node::Mapping(pairs.push((Node::Text("condition"@), frame))),
        ) is Err,
        selections_compile(pairs) ==> compiled(
            Node::Mapping(pairs.push((Node::Text("timeframe"@), frame))),
        ) is Err,
        !(frame is Mapping) ==> compiled(frame) is Err,
{
    reveal_strlit("condition");
    reveal_strlit("timeframe");
    assert("condition"@[0] != "timeframe"@[0]);
    if selections_compile(pairs) {
        lemma_gathered_prefix(pairs, (Node::Text("condition"@), frame), pairs.len());
        lemma_gathered_prefix(pairs, (Node::Text("timeframe"@), frame), pairs.len());
    }
}

proof fn lemma_gathered_prefix(pairs: Seq<(Node, Node)>, last: (Node, Node), n: nat)
    requires
        selections_compile(pairs),
        n <= pairs.len(),
    ensures
        gathered(pairs, n) matches Ok(got) && got.1 is None,
        gathered(pairs.push(last), n) == gathered(pairs, n),
        pairs.push(last)[pairs.len() as int] == last,
    decreases n,
{
    if n > 0 {
        lemma_gathered_prefix(pairs, last, (n - 1) as nat);
        assert(pairs.push(last)[n - 1] == pairs[n - 1]);
        assert(pairs[n - 1].0 is Text);
    }
}

proof fn lemma_scalars_alike(a: Seq<char>, b: Seq<char>, field: Seq<char>, items: Seq<Node>, n: nat)
    requires
        n <= items.len(),
    ensures
        scalars_of(a, field, items, n) is Ok <==> scalars_of(b, field, items, n) is Ok,
        scalars_of(a, field, items, n) is Ok ==> scalars_of(a, field, items, n) == scalars_of(
            b,
            field,
            items,
            n,
        ),
    decreases n,
{
    if n > 0 {
        lemma_scalars_alike(a, b, field, items, (n - 1) as nat);
    }
}

/// The test a key and a value make does not depend on the selection it stands in.
proof fn lemma_test_alike(a: Seq<char>, b: Seq<char>, key: Seq<char>, value: Node)
    ensures
        test_of(a, key, value) is Ok <==> test_of(b, key, value) is Ok,
        test_of(a, key, value) is Ok ==> test_of(a, key, value) == test_of(b, key, value),
{
    if value is Sequence {
        let items = value->Sequence_0;
        lemma_scalars_alike(a, b, crate::text::pieces(key, '|')[0], items, items.len());
    }
}

/// Whether pairs are keys and values that make tests.
pub open spec fn keys_compile(pairs: Seq<(Node, Node)>) -> bool {
    pairs.len() > 0 && forall|i: int|
        0 <= i < pairs.len() ==> (#[trigger] pairs[i]).0 is Text && test_of(
            seq![],
            pairs[i].0->Text_0,
            pairs[i].1,
        ) is Ok
}

proof fn lemma_tests(name: Seq<char>, pairs: Seq<(Node, Node)>, n: nat)
    requires
        keys_compile(pairs),
        n <= pairs.len(),
    ensures
        tests_of(name, pairs, n) is Ok,
        tests_of(name, pairs, n)->Ok_0.len() == n,
        forall|i: int|
            0 <= i < n ==> #[trigger] tests_of(name, pairs, n)->Ok_0[i] == test_of(
                seq![],
                pairs[i].0->Text_0,
                pairs[i].1,
            )->Ok_0,
    decreases n,
{
    if n > 0 {
        lemma_tests(name, pairs, (n - 1) as nat);
        assert(pairs[n - 1].0 is Text);
        lemma_test_alike(name, seq![], pairs[n - 1].0->Text_0, pairs[n - 1].1);
    }
}

/// A selection that maps keys to values holds where every one of the keys does.
pub proof fn a_mapping_asks_for_every_key(
    name: Seq<char>,
    pairs: Seq<(Node, Node)>,
    fields: Fields,
    readings: Readings,
)
    requires
        keys_compile(pairs),
    ensures
        selection_of(name, Node::Mapping(pairs)) is Ok,
        choice_holds(selection_of(name, Node::Mapping(pairs))->Ok_0, fields, readings)
            <==> forall|i: int|
            0 <= i < pairs.len() ==> key_holds(
                (#[trigger] pairs[i]).0->Text_0,
                pairs[i].1,
                fields,
                readings,
            ),
{
    lemma_tests(name, pairs, pairs.len());
    let tests = tests_of(name, pairs, pairs.len())->Ok_0;
    let choice = selection_of(name, Node::Mapping(pairs))->Ok_0;
    assert(choice == seq![tests]);
    assert(choice[0] == tests);
    assert forall|i: int| 0 <= i < pairs.len() implies #[trigger] test_holds(
        tests[i],
        fields,
        readings,
    ) == key_holds(pairs[i].0->Text_0, pairs[i].1, fields, readings) by {
        assert(pairs[i].0 is Text);
    }
    if choice_holds(choice, fields, readings) {
        assert forall|i: int| 0 <= i < pairs.len() implies key_holds(
            (#[trigger] pairs[i]).0->Text_0,
            pairs[i].1,
            fields,
            readings,
        ) by {
            assert(test_holds(tests[i], fields, readings));
        }
    }
    if forall|i: int|
        0 <= i < pairs.len() ==> key_holds(
            (#[trigger] pairs[i]).0->Text_0,
            pairs[i].1,
            fields,
            readings,
        ) {
        assert forall|i: int| 0 <= i < tests.len() implies test_holds(
            #[trigger] tests[i],
            fields,
            readings,
        ) by {
            assert(pairs[i].0 is Text);
        }
        assert(super::detect::group_holds(choice[0], fields, readings));
    }
}

proof fn lemma_groups(name: Seq<char>, items: Seq<Node>, n: nat)
    requires
        forall|i: int|
            0 <= i < items.len() ==> (#[trigger] items[i]) is Mapping && selection_of(
                name,
                items[i],
            ) is Ok,
        n <= items.len(),
    ensures
        groups_of(name, items, n) is Ok,
        groups_of(name, items, n)->Ok_0.len() == n,
        forall|i: int|
            0 <= i < n ==> seq![#[trigger] groups_of(name, items, n)->Ok_0[i]] == selection_of(
                name,
                items[i],
            )->Ok_0,
    decreases n,
{
    if n > 0 {
        lemma_groups(name, items, (n - 1) as nat);
        assert(items[n - 1] is Mapping);
        assert(selection_of(name, items[n - 1]) is Ok);
    }
}

/// A selection that lists mappings holds where one of them alone would.
pub proof fn a_list_of_mappings_asks_for_one(
    name: Seq<char>,
    items: Seq<Node>,
    fields: Fields,
    readings: Readings,
)
    requires
        items.len() > 0,
        forall|i: int|
            0 <= i < items.len() ==> (#[trigger] items[i]) is Mapping && selection_of(
                name,
                items[i],
            ) is Ok,
    ensures
        selection_of(name, Node::Sequence(items)) is Ok,
        choice_holds(selection_of(name, Node::Sequence(items))->Ok_0, fields, readings)
            <==> exists|i: int|
            0 <= i < items.len() && choice_holds(
                selection_of(name, #[trigger] items[i])->Ok_0,
                fields,
                readings,
            ),
{
    lemma_groups(name, items, items.len());
    let groups = groups_of(name, items, items.len())->Ok_0;
    assert forall|i: int| 0 <= i < items.len() implies #[trigger] super::detect::group_holds(
        groups[i],
        fields,
        readings,
    ) == choice_holds(selection_of(name, items[i])->Ok_0, fields, readings) by {
        let one = selection_of(name, items[i])->Ok_0;
        assert(one == seq![groups[i]]);
        assert(one[0] == groups[i]);
        if super::detect::group_holds(groups[i], fields, readings) {
            assert(super::detect::group_holds(one[0], fields, readings));
        }
    }
    if choice_holds(groups, fields, readings) {
        let i = choose|i: int|
            0 <= i < groups.len() && super::detect::group_holds(
                #[trigger] groups[i],
                fields,
                readings,
            );
        assert(choice_holds(selection_of(name, items[i])->Ok_0, fields, readings));
    }
    if exists|i: int|
        0 <= i < items.len() && choice_holds(
            selection_of(name, #[trigger] items[i])->Ok_0,
            fields,
            readings,
        ) {
        let i = choose|i: int|
            0 <= i < items.len() && choice_holds(
                selection_of(name, #[trigger] items[i])->Ok_0,
                fields,
                readings,
            );
        assert(super::detect::group_holds(groups[i], fields, readings));
    }
}

/// A selection has to say something: an empty mapping, an empty list, a list of
/// anything but mappings, and anything else is refused.
pub proof fn empty_selections_are_refused(name: Seq<char>, value: Node)
    ensures
        selection_of(name, Node::Mapping(seq![])) is Err,
        selection_of(name, Node::Sequence(seq![])) is Err,
        !(value is Mapping) ==> selection_of(name, Node::Sequence(seq![value])) is Err,
        !(value is Mapping) && !(value is Sequence) ==> selection_of(name, value) is Err,
{
    let one = seq![value];
    assert(one[0] == value);
    reveal_with_fuel(groups_of, 2);
    reveal_with_fuel(tests_of, 2);
}

proof fn lemma_gathered_so_far(pairs: Seq<(Node, Node)>, last: (Node, Node), n: nat)
    requires
        n <= pairs.len(),
    ensures
        gathered(pairs.push(last), n) == gathered(pairs, n),
        pairs.push(last)[pairs.len() as int] == last,
    decreases n,
{
    if n > 0 {
        lemma_gathered_so_far(pairs, last, (n - 1) as nat);
        assert(pairs.push(last)[n - 1] == pairs[n - 1]);
    }
}

proof fn lemma_spoiled(pairs: Seq<(Node, Node)>, at: int, n: nat)
    requires
        0 <= at < n <= pairs.len(),
        gathered(pairs, (at + 1) as nat) is Err,
    ensures
        gathered(pairs, n) is Err,
    decreases n,
{
    if at + 1 < n {
        lemma_spoiled(pairs, at, (n - 1) as nat);
    }
}

/// One key that is not understood spoils the whole block, whatever else it holds: a
/// key that is no text, a time frame, a condition that is no text, and a selection
/// that does not compile.
pub proof fn one_bad_key_spoils_the_block(pairs: Seq<(Node, Node)>, at: int)
    requires
        0 <= at < pairs.len(),
        ({
            let (key, value) = pairs[at];
            ||| !(key is Text)
            ||| key == Node::Text("timeframe"@)
            ||| key == Node::Text("condition"@) && !(value is Text)
            ||| key is Text && key != Node::Text("condition"@) && selection_of(key->Text_0, value)
                is Err
        }),
    ensures
        compiled(Node::Mapping(pairs)) is Err,
{
    reveal_strlit("condition");
    reveal_strlit("timeframe");
    assert("condition"@[0] != "timeframe"@[0]);
    assert(gathered(pairs, (at + 1) as nat) is Err);
    lemma_spoiled(pairs, at, pairs.len());
}

/// Of several conditions the last counts.
pub proof fn the_last_condition_counts(pairs: Seq<(Node, Node)>, a: Seq<char>, b: Seq<char>)
    ensures
        ({
            let first = (Node::Text("condition"@), Node::Text(a));
            let last = (Node::Text("condition"@), Node::Text(b));
            compiled(Node::Mapping(pairs.push(first).push(last))) == compiled(
                Node::Mapping(pairs.push(last)),
            )
        }),
{
    let first = (Node::Text("condition"@), Node::Text(a));
    let last = (Node::Text("condition"@), Node::Text(b));
    let n = pairs.len();
    lemma_gathered_so_far(pairs, first, n);
    lemma_gathered_so_far(pairs, last, n);
    let both = pairs.push(first).push(last);
    lemma_gathered_so_far(pairs.push(first), last, n + 1);
    assert(gathered(both, n + 1) == gathered(pairs.push(first), n + 1));
    assert(gathered(both, n + 2) == gathered(pairs.push(last), n + 1));
}

} // verus!
