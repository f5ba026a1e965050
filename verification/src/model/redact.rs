//! Field-level redaction.
//!
//! The rule is deliberately asymmetric between containers and scalars:
//!
//! * A field whose name is explicitly classified sensitive is replaced
//!   wholesale, whatever it holds.
//! * A field whose name is unknown but whose value is an object or array is
//!   recursed into, so its leaves get classified on their own merits.
//! * A field whose name is unknown and whose value is a scalar is replaced,
//!   because there is no later opportunity to catch it.
//!
//! The keys of an unknown container survive. Callers who cannot accept that
//! use [`strip_sensitive`], which removes rather than replaces and keeps nothing
//! of an unknown field.
use super::classification::{class_of, class_of_known, field_class, known_class, REDACTED};
use super::value::{
    lemma_name_index, lemma_smaller, storing_a_new_name_adds_at_the_end, Object, Tree, Value,
};
use vstd::prelude::*;

verus! {

/// Whether a tree has children.
pub open spec fn container(tree: Tree) -> bool {
    tree is Object || tree is Array
}

/// What stands in the place of a sensitive value.
pub open spec fn blank() -> Tree {
    Tree::Text(REDACTED@)
}

/// Whether a field is replaced whole.
pub open spec fn blanked(name: Seq<char>, tree: Tree) -> bool {
    match known_class(name) {
        Some(class) => class is Sensitive,
        None => !container(tree),
    }
}

/// A tree with its sensitive leaves replaced and its shape kept.
pub open spec fn redacted(tree: Tree) -> Tree
    decreases tree,
{
    match tree {
        Tree::Object(pairs) => Tree::Object(
            Seq::new(
                pairs.len(),
                |i: int|
                    if 0 <= i < pairs.len() {
                        (
                            pairs[i].0,
                            if blanked(pairs[i].0, pairs[i].1) {
                                blank()
                            } else {
                                redacted(pairs[i].1)
                            },
                        )
                    } else {
                        (seq![], Tree::Null)
                    },
            ),
        ),
        Tree::Array(items) => Tree::Array(
            Seq::new(
                items.len(),
                |i: int|
                    if 0 <= i < items.len() {
                        redacted(items[i])
                    } else {
                        Tree::Null
                    },
            ),
        ),
        _ => tree,
    }
}

/// A tree with its sensitive and unknown fields removed.
pub open spec fn stripped(tree: Tree) -> Tree
    decreases tree, 0nat, 0nat,
{
    match tree {
        Tree::Object(pairs) => Tree::Object(stripped_pairs(pairs, pairs.len())),
        Tree::Array(items) => Tree::Array(
            Seq::new(
                items.len(),
                |i: int|
                    if 0 <= i < items.len() {
                        stripped(items[i])
                    } else {
                        Tree::Null
                    },
            ),
        ),
        _ => tree,
    }
}

/// Those of the first `n` entries that are not sensitive, themselves stripped.
pub open spec fn stripped_pairs(pairs: Seq<(Seq<char>, Tree)>, n: nat) -> Seq<(Seq<char>, Tree)>
    decreases pairs, 1nat, n,
{
    if n == 0 || n > pairs.len() {
        seq![]
    } else {
        let front = stripped_pairs(pairs, (n - 1) as nat);
        let pair = pairs[n - 1];
        if field_class(pair.0) is Sensitive {
            front
        } else {
            front.push((pair.0, stripped(pair.1)))
        }
    }
}

/// No sensitive leaf is left: a field that is to be replaced holds the marker
/// and nothing else.
pub open spec fn clean(tree: Tree) -> bool
    decreases tree,
{
    match tree {
        Tree::Object(pairs) => forall|i: int|
            0 <= i < pairs.len() ==> {
                let pair = #[trigger] pairs[i];
                (blanked(pair.0, pair.1) ==> pair.1 == blank()) && clean(pair.1)
            },
        Tree::Array(items) => forall|i: int| 0 <= i < items.len() ==> clean(#[trigger] items[i]),
        _ => true,
    }
}

/// No sensitive or unknown name is left.
pub open spec fn bare(tree: Tree) -> bool
    decreases tree,
{
    match tree {
        Tree::Object(pairs) => forall|i: int|
            0 <= i < pairs.len() ==> {
                let pair = #[trigger] pairs[i];
                !(field_class(pair.0) is Sensitive) && bare(pair.1)
            },
        Tree::Array(items) => forall|i: int| 0 <= i < items.len() ==> bare(#[trigger] items[i]),
        _ => true,
    }
}

/// Redaction leaves no sensitive leaf.
pub proof fn redaction_is_clean(tree: Tree)
    ensures
        clean(redacted(tree)),
    decreases tree,
{
    match tree {
        Tree::Object(pairs) => {
            let out = redacted(tree)->Object_0;
            assert forall|i: int| 0 <= i < out.len() implies {
                let pair = #[trigger] out[i];
                (blanked(pair.0, pair.1) ==> pair.1 == blank()) && clean(pair.1)
            } by {
                if !blanked(pairs[i].0, pairs[i].1) {
                    redaction_is_clean(pairs[i].1);
                    assert(container(out[i].1) == container(pairs[i].1));
                }
            }
        },
        Tree::Array(items) => {
            let out = redacted(tree)->Array_0;
            assert forall|i: int| 0 <= i < out.len() implies clean(#[trigger] out[i]) by {
                redaction_is_clean(items[i]);
            }
        },
        _ => {},
    }
}

/// Redacting twice is redacting once.
pub proof fn redaction_is_idempotent(tree: Tree)
    ensures
        redacted(redacted(tree)) == redacted(tree),
    decreases tree,
{
    match tree {
        Tree::Object(pairs) => {
            let once = redacted(tree)->Object_0;
            let twice = redacted(redacted(tree))->Object_0;
            assert forall|i: int| 0 <= i < once.len() implies once[i] == twice[i] by {
                if !blanked(pairs[i].0, pairs[i].1) {
                    redaction_is_idempotent(pairs[i].1);
                    assert(container(once[i].1) == container(pairs[i].1));
                }
            }
            assert(once == twice);
        },
        Tree::Array(items) => {
            let once = redacted(tree)->Array_0;
            let twice = redacted(redacted(tree))->Array_0;
            assert forall|i: int| 0 <= i < once.len() implies once[i] == twice[i] by {
                redaction_is_idempotent(items[i]);
            }
            assert(once == twice);
        },
        _ => {},
    }
}

/// Redaction keeps every name in its place: an object stays an object with the
/// same names, and an array an array of the same length.
pub proof fn redaction_keeps_the_shape(tree: Tree)
    ensures
        match tree {
            Tree::Object(pairs) => redacted(tree) matches Tree::Object(out) && out.len()
                == pairs.len() && forall|i: int|
                0 <= i < pairs.len() ==> (#[trigger] out[i]).0 == pairs[i].0,
            Tree::Array(items) => redacted(tree) matches Tree::Array(out) && out.len()
                == items.len(),
            _ => redacted(tree) == tree,
        },
{
}

proof fn lemma_stripped_pairs(pairs: Seq<(Seq<char>, Tree)>, n: nat)
    requires
        n <= pairs.len(),
        forall|i: int| 0 <= i < pairs.len() ==> bare(stripped((#[trigger] pairs[i]).1)),
    ensures
        forall|i: int|
            0 <= i < stripped_pairs(pairs, n).len() ==> {
                let pair = #[trigger] stripped_pairs(pairs, n)[i];
                !(field_class(pair.0) is Sensitive) && bare(pair.1)
            },
    decreases n,
{
    if n > 0 {
        lemma_stripped_pairs(pairs, (n - 1) as nat);
        assert(bare(stripped(pairs[n - 1].1)));
    }
}

/// Stripping leaves no sensitive or unknown name anywhere.
pub proof fn stripping_is_bare(tree: Tree)
    ensures
        bare(stripped(tree)),
    decreases tree,
{
    match tree {
        Tree::Object(pairs) => {
            assert forall|i: int| 0 <= i < pairs.len() implies bare(
                stripped((#[trigger] pairs[i]).1),
            ) by {
                stripping_is_bare(pairs[i].1);
            }
            lemma_stripped_pairs(pairs, pairs.len());
        },
        Tree::Array(items) => {
            let out = stripped(tree)->Array_0;
            assert forall|i: int| 0 <= i < out.len() implies bare(#[trigger] out[i]) by {
                stripping_is_bare(items[i]);
            }
        },
        _ => {},
    }
}

proof fn lemma_bare_pairs(pairs: Seq<(Seq<char>, Tree)>, n: nat)
    requires
        n <= pairs.len(),
        forall|i: int|
            0 <= i < pairs.len() ==> !(field_class((#[trigger] pairs[i]).0) is Sensitive)
                && stripped(pairs[i].1) == pairs[i].1,
    ensures
        stripped_pairs(pairs, n) == pairs.take(n as int),
    decreases n,
{
    if n > 0 {
        lemma_bare_pairs(pairs, (n - 1) as nat);
        assert(pairs.take(n as int) == pairs.take(n - 1).push(pairs[n - 1]));
    }
}

/// Stripping changes nothing in a tree that holds no sensitive or unknown name.
pub proof fn stripping_keeps_what_is_bare(tree: Tree)
    requires
        bare(tree),
    ensures
        stripped(tree) == tree,
    decreases tree,
{
    match tree {
        Tree::Object(pairs) => {
            assert forall|i: int| 0 <= i < pairs.len() implies !(field_class(
                (#[trigger] pairs[i]).0,
            ) is Sensitive) && stripped(pairs[i].1) == pairs[i].1 by {
                stripping_keeps_what_is_bare(pairs[i].1);
            }
            lemma_bare_pairs(pairs, pairs.len());
            assert(pairs.take(pairs.len() as int) == pairs);
        },
        Tree::Array(items) => {
            let out = stripped(tree)->Array_0;
            assert forall|i: int| 0 <= i < out.len() implies out[i] == items[i] by {
                stripping_keeps_what_is_bare(items[i]);
            }
            assert(out == items);
        },
        _ => {},
    }
}

/// Stripping twice is stripping once.
pub proof fn stripping_is_idempotent(tree: Tree)
    ensures
        stripped(stripped(tree)) == stripped(tree),
{
    stripping_is_bare(tree);
    stripping_keeps_what_is_bare(stripped(tree));
}

fn is_container(value: &Value) -> (yes: bool)
    ensures
        yes == container(value.tree()),
{
    matches!(value, Value::Object(_) | Value::Array(_))
}

fn is_blanked(name: &str, value: &Value) -> (yes: bool)
    ensures
        yes == blanked(name@, value.tree()),
{
    match class_of_known(name) {
        Some(class) => class.requires_redaction(),
        None => !is_container(value),
    }
}

fn marker() -> (value: Value)
    ensures
        value.tree() == blank(),
{
    Value::String(REDACTED.to_string())
}

/// Replaces sensitive leaves, preserving the shape of everything else.
pub fn redact(value: &Value) -> (out: Value)
    ensures
        out.tree() == redacted(value.tree()),
    decreases value.tree(),
{
    match value {
        Value::Object(object) => {
            let ghost pairs = object.pairs();
            let ghost want = redacted(value.tree())->Object_0;
            let mut out = Object::with_capacity(object.len());
            let mut i: usize = 0;
            assert(want.take(0) == Seq::<(Seq<char>, Tree)>::empty());
            while i < object.len()
                invariant
                    i <= pairs.len(),
                    pairs == object.pairs(),
                    value.tree() == Tree::Object(pairs),
                    redacted(value.tree()) == Tree::Object(want),
                    want.len() == pairs.len(),
                    out.pairs() == want.take(i as int),
                decreases pairs.len() - i,
            {
                match object.get_index(i) {
                    Some((name, held)) => {
                        assert(pairs[i as int] == (name@, held.tree()));
                        proof {
                            lemma_smaller(value.tree(), i as int);
                        }
                        let kept = if is_blanked(name.as_str(), held) {
                            marker()
                        } else {
                            redact(held)
                        };
                        proof {
                            lemma_name_index(pairs, name@);
                            assert forall|k: int| 0 <= k < i implies (#[trigger] out.pairs()[k]).0
                                != name@ by {
                                assert(out.pairs()[k].0 == pairs[k].0);
                            }
                            storing_a_new_name_adds_at_the_end(out.pairs(), name@, kept.tree());
                            assert(want[i as int] == (name@, kept.tree()));
                            assert(want.take(i + 1) == want.take(i as int).push(want[i as int]));
                        }
                        let _new = out.insert(name.clone(), kept);
                    },
                    None => {},
                }
                i += 1;
            }
            assert(want.take(want.len() as int) == want);
            Value::Object(out)
        },
        Value::Array(items) => {
            let ghost want = redacted(value.tree())->Array_0;
            let mut out: Vec<Value> = Vec::new();
            let mut i: usize = 0;
            while i < items.len()
                invariant
                    i <= items@.len(),
                    out@.len() == i,
                    value matches Value::Array(all) && *items == all,
                    redacted(value.tree()) == Tree::Array(want),
                    want.len() == items@.len(),
                    forall|k: int| 0 <= k < i ==> want[k] == (#[trigger] out@[k]).tree(),
                decreases items@.len() - i,
            {
                let ghost it = value.tree()->Array_0[i as int];
                assert(it == items@[i as int].tree());
                out.push(redact(&items[i]));
                i += 1;
            }
            let result = Value::Array(out);
            assert(result.tree()->Array_0 == want);
            result
        },
        _ => value.copied(),
    }
}

/// Replaces sensitive leaves where they stand: what [`redact`] returns, without
/// rebuilding the tree.
pub fn redact_in_place(value: &mut Value)
    ensures
        final(value).tree() == redacted(old(value).tree()),
    decreases old(value).tree(),
{
    let ghost whole = *value;
    match value {
        Value::Object(object) => {
            let ghost pairs = object.pairs();
            let ghost want = redacted(whole.tree())->Object_0;
            let mut i: usize = 0;
            while i < object.len()
                invariant
                    i <= pairs.len(),
                    object.pairs().len() == pairs.len(),
                    whole.tree() == Tree::Object(pairs),
                    redacted(whole.tree()) == Tree::Object(want),
                    want.len() == pairs.len(),
                    whole == *old(value),
                    forall|k: int| 0 <= k < i ==> #[trigger] object.pairs()[k] == want[k],
                    forall|k: int| i <= k < pairs.len() ==> #[trigger] object.pairs()[k] == pairs[k],
                decreases pairs.len() - i,
            {
                match object.get_index_mut(i) {
                    Some((name, held)) => {
                        assert(pairs[i as int] == (name@, held.tree()));
                        proof {
                            lemma_smaller(whole.tree(), i as int);
                        }
                        if is_blanked(name.as_str(), held) {
                            *held = marker();
                        } else {
                            redact_in_place(held);
                        }
                    },
                    None => {},
                }
                i += 1;
            }
            assert(object.pairs() == want);
        },
        Value::Array(items) => {
            let ghost before = items@;
            let ghost want = redacted(whole.tree())->Array_0;
            let mut i: usize = 0;
            while i < items.len()
                invariant
                    i <= items@.len(),
                    items@.len() == before.len(),
                    whole matches Value::Array(all) && all@ == before,
                    redacted(whole.tree()) == Tree::Array(want),
                    want.len() == before.len(),
                    whole == *old(value),
                    forall|k: int| 0 <= k < i ==> want[k] == (#[trigger] items@[k]).tree(),
                    forall|k: int| i <= k < before.len() ==> #[trigger] items@[k] == before[k],
                decreases before.len() - i,
            {
                let ghost it = whole.tree()->Array_0[i as int];
                assert(it == before[i as int].tree());
                redact_in_place(&mut items[i]);
                i += 1;
            }
            proof {
                let shape = Value::Array(*items);
                assert(shape.tree()->Array_0 == want);
            }
        },
        _ => {},
    }
}

proof fn lemma_stripped_names(pairs: Seq<(Seq<char>, Tree)>, n: nat, name: Seq<char>)
    requires
        n <= pairs.len(),
        forall|i: int| 0 <= i < n ==> (#[trigger] pairs[i]).0 != name,
    ensures
        forall|i: int|
            0 <= i < stripped_pairs(pairs, n).len() ==> (#[trigger] stripped_pairs(pairs, n)[i]).0
                != name,
    decreases n,
{
    if n > 0 {
        lemma_stripped_names(pairs, (n - 1) as nat, name);
        let front = stripped_pairs(pairs, (n - 1) as nat);
        let all = stripped_pairs(pairs, n);
        assert(pairs[n - 1].0 != name);
        assert forall|i: int| 0 <= i < all.len() implies (#[trigger] all[i]).0 != name by {
            if i < front.len() {
                assert(all[i] == front[i]);
            }
        }
    }
}

/// Removes sensitive fields entirely, rather than replacing them.
///
/// An unfamiliar field is dropped too, which is what makes this the tool for
/// cold storage, where the goal is to retain as little as possible.
pub fn strip_sensitive(value: &Value) -> (out: Value)
    ensures
        out.tree() == stripped(value.tree()),
    decreases value.tree(),
{
    match value {
        Value::Object(object) => {
            let ghost pairs = object.pairs();
            let mut out = Object::with_capacity(object.len());
            let mut i: usize = 0;
            while i < object.len()
                invariant
                    i <= pairs.len(),
                    pairs == object.pairs(),
                    value.tree() == Tree::Object(pairs),
                    out.pairs() == stripped_pairs(pairs, i as nat),
                decreases pairs.len() - i,
            {
                match object.get_index(i) {
                    Some((name, held)) => {
                        assert(pairs[i as int] == (name@, held.tree()));
                        proof {
                            lemma_smaller(value.tree(), i as int);
                        }
                        if !class_of(name.as_str()).stripped_in_cold_storage() {
                            let kept = strip_sensitive(held);
                            proof {
                                lemma_name_index(pairs, name@);
                                lemma_stripped_names(pairs, i as nat, name@);
                                storing_a_new_name_adds_at_the_end(
                                    out.pairs(),
                                    name@,
                                    kept.tree(),
                                );
                            }
                            let _new = out.insert(name.clone(), kept);
                        }
                    },
                    None => {},
                }
                i += 1;
            }
            Value::Object(out)
        },
        Value::Array(items) => {
            let ghost want = stripped(value.tree())->Array_0;
            let mut out: Vec<Value> = Vec::new();
            let mut i: usize = 0;
            while i < items.len()
                invariant
                    i <= items@.len(),
                    out@.len() == i,
                    value matches Value::Array(all) && *items == all,
                    stripped(value.tree()) == Tree::Array(want),
                    want.len() == items@.len(),
                    forall|k: int| 0 <= k < i ==> want[k] == (#[trigger] out@[k]).tree(),
                decreases items@.len() - i,
            {
                let ghost it = value.tree()->Array_0[i as int];
                assert(it == items@[i as int].tree());
                out.push(strip_sensitive(&items[i]));
                i += 1;
            }
            let result = Value::Array(out);
            assert(result.tree()->Array_0 == want);
            result
        },
        _ => value.copied(),
    }
}

/// Removes sensitive fields where they stand: what [`strip_sensitive`] returns.
pub fn strip_sensitive_in_place(value: &mut Value)
    ensures
        final(value).tree() == stripped(old(value).tree()),
    decreases old(value).tree(),
{
    let ghost whole = *value;
    match value {
        Value::Object(object) => {
            let ghost pairs = object.pairs();
            let mut kept: usize = 0;
            let mut seen: usize = 0;
            let total: usize = object.len();
            while seen < total
                invariant
                    kept <= seen <= total,
                    total == pairs.len(),
                    object.pairs().len() == kept + (total - seen),
                    whole.tree() == Tree::Object(pairs),
                    whole == *old(value),
                    stripped_pairs(pairs, seen as nat) == object.pairs().take(kept as int),
                    forall|k: int|
                        kept <= k < object.pairs().len() ==> #[trigger] object.pairs()[k]
                            == pairs[seen + (k - kept)],
                decreases total - seen,
            {
                let ghost before = object.pairs();
                assert(before[kept as int] == pairs[seen as int]);
                proof {
                    lemma_smaller(whole.tree(), seen as int);
                }
                let leaves = match object.get_index_mut(kept) {
                    Some((name, held)) => {
                        let leaves = class_of(name.as_str()).stripped_in_cold_storage();
                        if !leaves {
                            strip_sensitive_in_place(held);
                        }
                        leaves
                    },
                    None => false,
                };
                if leaves {
                    assert(object.pairs() == before);
                    let _left = object.shift_remove_index(kept);
                    assert(object.pairs().take(kept as int) == before.take(kept as int));
                } else {
                    assert(object.pairs().take(kept + 1) == before.take(kept as int).push(
                        object.pairs()[kept as int],
                    ));
                    kept += 1;
                }
                seen += 1;
            }
            assert(object.pairs().take(kept as int) == object.pairs());
        },
        Value::Array(items) => {
            let ghost before = items@;
            let ghost want = stripped(whole.tree())->Array_0;
            let mut i: usize = 0;
            while i < items.len()
                invariant
                    i <= items@.len(),
                    items@.len() == before.len(),
                    whole matches Value::Array(all) && all@ == before,
                    stripped(whole.tree()) == Tree::Array(want),
                    want.len() == before.len(),
                    whole == *old(value),
                    forall|k: int| 0 <= k < i ==> want[k] == (#[trigger] items@[k]).tree(),
                    forall|k: int| i <= k < before.len() ==> #[trigger] items@[k] == before[k],
                decreases before.len() - i,
            {
                let ghost it = whole.tree()->Array_0[i as int];
                assert(it == before[i as int].tree());
                strip_sensitive_in_place(&mut items[i]);
                i += 1;
            }
            proof {
                let shape = Value::Array(*items);
                assert(shape.tree()->Array_0 == want);
            }
        },
        _ => {},
    }
}

} // verus!
