//! What schemaless values promise: how they compare, how they print, and what they
//! are decoded from.
use super::kind::{EventKind, NetworkProtocol};
use super::value::{
    collected, distinct, item, lemma_name_index, member, name_index, quoted_text, rendered,
    rendered_items, rendered_pairs, same_float, same_tree, scalar_tree, stored, storing_reads_back,
    Real, Scalar, Tree, Value,
};
use crate::text::{decimal_text, integer_text};
use vstd::prelude::*;

verus! {

/// A value stands for what it holds.
pub proof fn values_are_taken_at_their_word(value: Value)
    ensures
        value is Null <==> value.tree() is Null,
        value is Bool ==> value.tree() == Tree::Bool(value->Bool_0),
        value is Int ==> value.tree() == Tree::Int(value->Int_0 as int),
        value is Uint ==> value.tree() == Tree::Uint(value->Uint_0 as nat),
        value is Float ==> value.tree() == Tree::Float(
            (value->Float_0).bits,
            (value->Float_0).text@,
        ),
        value is String ==> value.tree() == Tree::Text((value->String_0)@),
        value is Object ==> value.tree() == Tree::Object((value->Object_0).pairs()),
        value is Array ==> value.tree() is Array && (value.tree()->Array_0).len() == (
        value->Array_0)@.len() && forall|i: int|
            0 <= i < (value->Array_0)@.len() ==> #[trigger] (value.tree()->Array_0)[i] == (
            value->Array_0)@[i].tree(),
{
}

/// Numbers with a fraction compare as numbers: what is not a number equals
/// nothing, the two zeros are equal, and any others are where their bit patterns
/// are.
pub proof fn fractions_compare_as_numbers(a: u64, b: u64)
    ensures
        same_float(a, b) == same_float(b, a),
        0x7ff0_0000_0000_0000 < a < 0x8000_0000_0000_0000 ==> !same_float(a, b),
        0xfff0_0000_0000_0000 < a ==> !same_float(a, b),
        a <= 0x7ff0_0000_0000_0000 || 0x8000_0000_0000_0000 <= a <= 0xfff0_0000_0000_0000
            ==> same_float(a, a),
        same_float(0, 0x8000_0000_0000_0000),
        same_float(a, b) && a != b ==> (a == 0 || a == 0x8000_0000_0000_0000) && (b == 0 || b
            == 0x8000_0000_0000_0000),
{
}

/// Values are equal only where they are of one shape and hold the same.
pub proof fn equal_values_hold_the_same(a: Tree, b: Tree)
    ensures
        a is Null && b is Null ==> same_tree(a, b),
        a is Bool && b is Bool ==> (same_tree(a, b) <==> a->Bool_0 == b->Bool_0),
        a is Int && b is Int ==> (same_tree(a, b) <==> a->Int_0 == b->Int_0),
        a is Uint && b is Uint ==> (same_tree(a, b) <==> a->Uint_0 == b->Uint_0),
        a is Text && b is Text ==> (same_tree(a, b) <==> a->Text_0 == b->Text_0),
        a is Float && b is Float ==> (same_tree(a, b) <==> same_float(a->Float_0, b->Float_0)),
        same_tree(a, b) ==> (a is Null <==> b is Null) && (a is Bool <==> b is Bool) && (a is Int
            <==> b is Int) && (a is Uint <==> b is Uint) && (a is Float <==> b is Float),
        same_tree(a, b) ==> (a is Text <==> b is Text) && (a is Array <==> b is Array) && (
        a is Object <==> b is Object),
{
}

/// Arrays are equal where they are item by item.
pub proof fn equal_arrays_agree_item_by_item(a: Seq<Tree>, b: Seq<Tree>)
    ensures
        same_tree(Tree::Array(a), Tree::Array(b)) <==> a.len() == b.len() && forall|i: int|
            0 <= i < a.len() ==> same_tree(#[trigger] a[i], b[i]),
{
    reveal_with_fuel(same_tree, 2);
}

/// Objects are equal where they name as much and agree on every name, in whatever
/// order they hold them.
pub proof fn equal_objects_agree_on_every_name(
    a: Seq<(Seq<char>, Tree)>,
    b: Seq<(Seq<char>, Tree)>,
    name: Seq<char>,
)
    requires
        distinct(a),
    ensures
        same_tree(Tree::Object(a), Tree::Object(b)) ==> a.len() == b.len() && (stored(a, name)
            is Some ==> stored(b, name) is Some && same_tree(
            stored(a, name)->0,
            stored(b, name)->0,
        )),
        a.len() == b.len() && (forall|n: Seq<char>|
            #![trigger stored(a, n)]
            stored(a, n) is Some ==> stored(b, n) is Some && same_tree(
                stored(a, n)->0,
                stored(b, n)->0,
            )) ==> same_tree(Tree::Object(a), Tree::Object(b)),
{
    reveal_with_fuel(same_tree, 2);
    lemma_name_index(a, name);
    let at = name_index(a, name);
    if same_tree(Tree::Object(a), Tree::Object(b)) && at < a.len() {
        assert(a[at].0 == name);
    }
    if a.len() == b.len() && (forall|n: Seq<char>|
        #![trigger stored(a, n)]
        stored(a, n) is Some ==> stored(b, n) is Some && same_tree(
            stored(a, n)->0,
            stored(b, n)->0,
        )) {
        assert forall|i: int| 0 <= i < a.len() implies match stored(b, (#[trigger] a[i]).0) {
            Some(other) => same_tree(a[i].1, other),
            None => false,
        } by {
            let n = a[i].0;
            lemma_name_index(a, n);
            if name_index(a, n) < i {
                assert(a[name_index(a, n)].0 == a[i].0);
            }
            assert(stored(a, n) == Some(a[i].1));
        }
    }
}

/// What a name is stored under is found there: the first of its entries, and none
/// where it has none.
pub proof fn a_name_finds_its_first_entry(pairs: Seq<(Seq<char>, Tree)>, name: Seq<char>)
    ensures
        match stored(pairs, name) {
            Some(tree) => exists|i: int|
                0 <= i < pairs.len() && #[trigger] pairs[i] == (name, tree) && forall|j: int|
                    0 <= j < i ==> (#[trigger] pairs[j]).0 != name,
            None => forall|j: int| 0 <= j < pairs.len() ==> (#[trigger] pairs[j]).0 != name,
        },
        member(Tree::Object(pairs), name) == stored(pairs, name),
{
    lemma_name_index(pairs, name);
    let at = name_index(pairs, name);
    if at < pairs.len() {
        assert(pairs[at] == (name, pairs[at].1));
    }
}

/// Only objects have members and only arrays have items, at each of their places.
pub proof fn only_holders_hold(tree: Tree, name: Seq<char>, at: int)
    ensures
        !(tree is Object) ==> member(tree, name) is None,
        item(tree, at) is Some <==> tree is Array && 0 <= at < (tree->Array_0).len(),
        item(tree, at) is Some ==> item(tree, at)->0 == (tree->Array_0)[at],
{
}

/// A name that is given again keeps its first place and takes its last value; all
/// other names stay as they are.
pub proof fn the_last_value_of_a_name_counts(
    pairs: Seq<(Seq<char>, Tree)>,
    last: (Seq<char>, Tree),
    name: Seq<char>,
)
    ensures
        collected(Seq::<(Seq<char>, Tree)>::empty()) == Seq::<(Seq<char>, Tree)>::empty(),
        distinct(collected(pairs)),
        stored(collected(pairs.push(last)), name) == if name == last.0 {
            Some(last.1)
        } else {
            stored(collected(pairs), name)
        },
        forall|i: int|
            0 <= i < collected(pairs).len() ==> #[trigger] collected(pairs.push(last))[i].0
                == collected(pairs)[i].0,
        stored(collected(pairs), last.0) is None ==> collected(pairs.push(last)) == collected(
            pairs,
        ).push(last),
    decreases pairs.len(),
{
    let more = pairs.push(last);
    assert(more.drop_last() == pairs);
    if pairs.len() > 0 {
        the_last_value_of_a_name_counts(pairs.drop_last(), pairs.last(), name);
        assert(pairs.drop_last().push(pairs.last()) == pairs);
        storing_reads_back(
            collected(pairs.drop_last()),
            pairs.last().0,
            pairs.last().1,
            name,
        );
    }
    storing_reads_back(collected(pairs), last.0, last.1, name);
    lemma_name_index(collected(pairs), last.0);
}

/// A scalar decodes to what it is: an integer stays one wherever one of the two
/// integer forms can hold it, and is taken as a fraction where none can.
pub proof fn scalars_decode_to_what_they_are(
    signed: i128,
    unsigned: u128,
    number: Real,
    c: char,
    text: String,
    b: bool,
)
    ensures
        scalar_tree(Scalar::Unit) == Tree::Null,
        scalar_tree(Scalar::Bool(b)) == Tree::Bool(b),
        i64::MIN <= signed <= i64::MAX ==> scalar_tree(Scalar::Signed(signed, number)) == Tree::Int(
            signed as int,
        ),
        !(i64::MIN <= signed <= i64::MAX) ==> scalar_tree(Scalar::Signed(signed, number))
            == Tree::Float(number.bits, number.text@),
        unsigned <= u64::MAX ==> scalar_tree(Scalar::Unsigned(unsigned, number)) == Tree::Uint(
            unsigned as nat,
        ),
        unsigned > u64::MAX ==> scalar_tree(Scalar::Unsigned(unsigned, number)) == Tree::Float(
            number.bits,
            number.text@,
        ),
        scalar_tree(Scalar::Float(number)) == Tree::Float(number.bits, number.text@),
        scalar_tree(Scalar::Char(c)) == Tree::Text(seq![c]),
        scalar_tree(Scalar::Text(text)) == Tree::Text(text@),
{
}

/// Scalars print as they are written.
pub proof fn scalars_print_as_written(i: int, u: nat, bits: u64, text: Seq<char>)
    ensures
        rendered(Tree::Null) == "null"@,
        rendered(Tree::Bool(true)) == "true"@,
        rendered(Tree::Bool(false)) == "false"@,
        rendered(Tree::Int(i)) == integer_text(i),
        rendered(Tree::Uint(u)) == decimal_text(u),
        rendered(Tree::Float(bits, text)) == text,
        rendered(Tree::Text(text)) == quoted_text(text),
{
}

/// What an array and an object print between their brackets.
pub open spec fn inside(tree: Tree) -> Seq<char> {
    rendered(tree).subrange(1, rendered(tree).len() - 1)
}

/// An array prints its items in square brackets and in order, with a comma between
/// them.
pub proof fn arrays_print_their_items(items: Seq<Tree>, last: Tree)
    ensures
        rendered(Tree::Array(seq![])) == seq!['[', ']'],
        rendered(Tree::Array(seq![last])) == seq!['['] + rendered(last) + seq![']'],
        items.len() > 0 ==> rendered(Tree::Array(items.push(last))) == seq!['['] + inside(
            Tree::Array(items),
        ) + seq![','] + rendered(last) + seq![']'],
{
    reveal_strlit("[");
    reveal_strlit("]");
    reveal_strlit(",");
    reveal_strlit("");
    assert("["@ == seq!['['] && "]"@ == seq![']'] && ","@ == seq![',']);
    let none = Seq::<Tree>::empty();
    lemma_items_print(none, last, 0);
    assert(none.push(last) == seq![last]);
    reveal_with_fuel(rendered, 2);
    reveal_with_fuel(rendered_items, 2);
    assert(rendered_items(none, 0) == Seq::<char>::empty());
    assert(rendered(Tree::Array(none)) == seq!['[', ']']);
    lemma_items_print(items, last, 0);
    let whole = rendered(Tree::Array(items));
    assert(whole == seq!['['] + rendered_items(items, 0) + seq![']']);
    assert(inside(Tree::Array(items)) == rendered_items(items, 0));
    assert(seq!['['] + (rendered_items(items, 0) + seq![','] + rendered(last)) + seq![']'] == seq![
        '[',
    ] + inside(Tree::Array(items)) + seq![','] + rendered(last) + seq![']']);
}

proof fn lemma_items_print(items: Seq<Tree>, last: Tree, from: int)
    requires
        0 <= from <= items.len(),
    ensures
        rendered_items(items.push(last), from) == rendered_items(items, from) + (if items.len()
            > 0 {
            ","@
        } else {
            Seq::<char>::empty()
        }) + rendered(last),
    decreases items.len() - from,
{
    reveal_strlit("");
    assert(""@ == Seq::<char>::empty());
    let more = items.push(last);
    reveal_with_fuel(rendered_items, 2);
    if from < items.len() {
        lemma_items_print(items, last, from + 1);
        assert(more[from] == items[from]);
        assert(rendered_items(more, from) == rendered_items(items, from) + ","@ + rendered(last));
    } else {
        assert(more[from] == last);
        assert(rendered_items(more, from + 1) == Seq::<char>::empty());
        assert(rendered_items(items, from) == Seq::<char>::empty());
        assert(rendered_items(more, from) == (if items.len() > 0 {
            ","@
        } else {
            Seq::<char>::empty()
        }) + rendered(last));
    }
}

/// An object prints its entries in curly brackets and in order, each as its quoted
/// name, a colon and its value, with a comma between them.
pub proof fn objects_print_their_entries(
    pairs: Seq<(Seq<char>, Tree)>,
    last: (Seq<char>, Tree),
)
    ensures
        rendered(Tree::Object(seq![])) == seq!['{', '}'],
        rendered(Tree::Object(seq![last])) == seq!['{'] + quoted_text(last.0) + seq![':']
            + rendered(last.1) + seq!['}'],
        pairs.len() > 0 ==> rendered(Tree::Object(pairs.push(last))) == seq!['{'] + inside(
            Tree::Object(pairs),
        ) + seq![','] + quoted_text(last.0) + seq![':'] + rendered(last.1) + seq!['}'],
{
    reveal_strlit("{");
    reveal_strlit("}");
    reveal_strlit(",");
    reveal_strlit(":");
    assert("{"@ == seq!['{'] && "}"@ == seq!['}'] && ","@ == seq![','] && ":"@ == seq![':']);
    let none = Seq::<(Seq<char>, Tree)>::empty();
    lemma_pairs_print(none, last, 0);
    assert(none.push(last) == seq![last]);
    reveal_with_fuel(rendered, 2);
    reveal_with_fuel(rendered_pairs, 2);
    assert(rendered_pairs(none, 0) == Seq::<char>::empty());
    assert(rendered(Tree::Object(none)) == seq!['{', '}']);
    lemma_pairs_print(pairs, last, 0);
    let whole = rendered(Tree::Object(pairs));
    assert(whole == seq!['{'] + rendered_pairs(pairs, 0) + seq!['}']);
    assert(inside(Tree::Object(pairs)) == rendered_pairs(pairs, 0));
    let one = quoted_text(last.0) + seq![':'] + rendered(last.1);
    assert(seq!['{'] + one + seq!['}'] == seq!['{'] + quoted_text(last.0) + seq![':'] + rendered(
        last.1,
    ) + seq!['}']);
    assert(seq!['{'] + (rendered_pairs(pairs, 0) + seq![','] + one) + seq!['}'] == seq!['{']
        + inside(Tree::Object(pairs)) + seq![','] + quoted_text(last.0) + seq![':'] + rendered(
        last.1,
    ) + seq!['}']);
}

proof fn lemma_pairs_print(
    pairs: Seq<(Seq<char>, Tree)>,
    last: (Seq<char>, Tree),
    from: int,
)
    requires
        0 <= from <= pairs.len(),
    ensures
        rendered_pairs(pairs.push(last), from) == rendered_pairs(pairs, from) + (if pairs.len()
            > 0 {
            ","@
        } else {
            Seq::<char>::empty()
        }) + (quoted_text(last.0) + ":"@ + rendered(last.1)),
    decreases pairs.len() - from,
{
    reveal_strlit("");
    assert(""@ == Seq::<char>::empty());
    let more = pairs.push(last);
    let one = quoted_text(last.0) + ":"@ + rendered(last.1);
    reveal_with_fuel(rendered_pairs, 2);
    if from < pairs.len() {
        lemma_pairs_print(pairs, last, from + 1);
        assert(more[from] == pairs[from]);
        assert(rendered_pairs(more, from) == rendered_pairs(pairs, from) + ","@ + one);
    } else {
        assert(more[from] == last);
        assert(rendered_pairs(more, from + 1) == Seq::<char>::empty());
        assert(rendered_pairs(pairs, from) == Seq::<char>::empty());
        assert(rendered_pairs(more, from) == (if pairs.len() > 0 {
            ","@
        } else {
            Seq::<char>::empty()
        }) + one);
    }
}

/// Each kind of event goes by its own name on the wire.
pub proof fn kinds_go_by_their_names(kind: EventKind)
    ensures
        kind is ProcessStart ==> kind.name() == "process_start"@,
        kind is ProcessExit ==> kind.name() == "process_exit"@,
        kind is NetworkConnect ==> kind.name() == "network_connect"@,
        kind is NetworkDisconnect ==> kind.name() == "network_disconnect"@,
        kind is FileCreate ==> kind.name() == "file_create"@,
        kind is FileWrite ==> kind.name() == "file_write"@,
        kind is FileDelete ==> kind.name() == "file_delete"@,
        kind is FileRename ==> kind.name() == "file_rename"@,
        kind is RegistrySet ==> kind.name() == "registry_set"@,
        kind is RegistryDelete ==> kind.name() == "registry_delete"@,
        kind is DnsQuery ==> kind.name() == "dns_query"@,
        kind is ImageLoad ==> kind.name() == "image_load"@,
        kind is ScriptBlock ==> kind.name() == "script_block"@,
        kind is WmiProcess ==> kind.name() == "wmi_process"@,
        kind is WmiSubscription ==> kind.name() == "wmi_subscription"@,
        kind is TaskRegistered ==> kind.name() == "task_registered"@,
        kind is Unclassified ==> kind.name() == "unclassified"@,
{
}

/// Each protocol goes by its name in lower case, and one without a name by its
/// number.
pub proof fn protocols_go_by_their_names(n: u8, number: nat)
    requires
        number == n,
    ensures
        NetworkProtocol::Tcp.name() == "tcp"@,
        NetworkProtocol::Udp.name() == "udp"@,
        NetworkProtocol::Icmp.name() == "icmp"@,
        NetworkProtocol::Other(n).name() == "other("@ + decimal_text(number) + ")"@,
{
}

} // verus!
