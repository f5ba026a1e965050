//! Schemaless values: what a provider's own fields decode to.
use super::entries::{entries_held, Entries};
use crate::text::{decimal, decimal_text, integer, integer_text, same};
use vstd::prelude::*;

verus! {

/// A floating-point number, as its bit pattern and the text it prints as.
#[derive(Debug, Clone)]
pub struct Real {
    pub bits: u64,
    pub text: String,
}

/// A schemaless value.
#[derive(Debug)]
pub enum Value {
    Null,
    Bool(bool),
    Int(i64),
    Uint(u64),
    Float(Real),
    String(String),
    Array(Vec<Value>),
    Object(Object),
}

/// Named values in the order in which their names were first inserted.
#[derive(Debug)]
pub struct Object {
    entries: Entries,
}

/// A value, as mathematics.
pub enum Tree {
    Null,
    Bool(bool),
    Int(int),
    Uint(nat),
    Float(u64, Seq<char>),
    Text(Seq<char>),
    Array(Seq<Tree>),
    Object(Seq<(Seq<char>, Tree)>),
}

impl Value {
    /// The tree this value stands for.
    pub open spec fn tree(&self) -> Tree
        decreases self,
    {
        match self {
            Value::Null => Tree::Null,
            Value::Bool(b) => Tree::Bool(*b),
            Value::Int(i) => Tree::Int(*i as int),
            Value::Uint(u) => Tree::Uint(*u as nat),
            Value::Float(x) => Tree::Float(x.bits, x.text@),
            Value::String(s) => Tree::Text(s@),
            Value::Array(items) => Tree::Array(
                Seq::new(
                    items@.len(),
                    |i: int|
                        if 0 <= i < items@.len() {
                            items@[i].tree()
                        } else {
                            Tree::Null
                        },
                ),
            ),
            Value::Object(object) => Tree::Object(object.pairs()),
        }
    }
}

impl Object {
    /// The names and trees of the entries, in order.
    pub closed spec fn pairs(&self) -> Seq<(Seq<char>, Tree)> {
        entries_held(self.entries)
    }

    /// No name occurs twice.
    pub open spec fn wf(&self) -> bool {
        distinct(self.pairs())
    }
}

/// What a tree holds is smaller than the tree.
pub proof fn lemma_smaller(tree: Tree, i: int)
    ensures
        tree matches Tree::Array(items) ==> 0 <= i < items.len() ==> decreases_to!(tree => items[i]),
        tree matches Tree::Object(pairs) ==> decreases_to!(tree => pairs),
        tree matches Tree::Object(pairs) ==> 0 <= i < pairs.len() ==> decreases_to!(
            tree => pairs[i].1
        ),
        tree matches Tree::Object(pairs) ==> 0 <= i < pairs.len() ==> decreases_to!(
            pairs => pairs[i].1
        ),
{
}

/// No name occurs twice.
pub open spec fn distinct(pairs: Seq<(Seq<char>, Tree)>) -> bool {
    forall|i: int, j: int|
        0 <= i < j < pairs.len() ==> (#[trigger] pairs[i]).0 != (#[trigger] pairs[j]).0
}

/// Where a name first stands, or the length where it does not.
pub open spec fn name_index(pairs: Seq<(Seq<char>, Tree)>, name: Seq<char>) -> int
    decreases pairs.len(),
{
    if pairs.len() == 0 {
        0
    } else if pairs[0].0 == name {
        0
    } else {
        1 + name_index(pairs.drop_first(), name)
    }
}

pub proof fn lemma_name_index(pairs: Seq<(Seq<char>, Tree)>, name: Seq<char>)
    ensures
        0 <= name_index(pairs, name) <= pairs.len(),
        name_index(pairs, name) < pairs.len() ==> pairs[name_index(pairs, name)].0 == name,
        forall|i: int| 0 <= i < name_index(pairs, name) ==> (#[trigger] pairs[i]).0 != name,
    decreases pairs.len(),
{
    if pairs.len() > 0 && pairs[0].0 != name {
        let rest = pairs.drop_first();
        lemma_name_index(rest, name);
        assert forall|i: int| 0 <= i < name_index(pairs, name) implies (#[trigger] pairs[i]).0
            != name by {
            if i > 0 {
                assert(rest[i - 1] == pairs[i]);
            }
        }
    }
}

/// The tree stored under a name.
pub open spec fn stored(pairs: Seq<(Seq<char>, Tree)>, name: Seq<char>) -> Option<Tree> {
    let at = name_index(pairs, name);
    if at < pairs.len() {
        Some(pairs[at].1)
    } else {
        None
    }
}

/// The entries after a value is stored under a name: in place where the name is
/// known, at the end where it is new.
pub open spec fn stored_in(
    pairs: Seq<(Seq<char>, Tree)>,
    name: Seq<char>,
    tree: Tree,
) -> Seq<(Seq<char>, Tree)> {
    let at = name_index(pairs, name);
    if at < pairs.len() {
        pairs.update(at, (name, tree))
    } else {
        pairs.push((name, tree))
    }
}

/// Storing a value keeps names distinct, reads back as that value under its
/// name, and leaves every other name as it was.
pub proof fn storing_reads_back(
    pairs: Seq<(Seq<char>, Tree)>,
    name: Seq<char>,
    tree: Tree,
    other: Seq<char>,
)
    requires
        distinct(pairs),
    ensures
        distinct(stored_in(pairs, name, tree)),
        stored(stored_in(pairs, name, tree), name) == Some(tree),
        other != name ==> stored(stored_in(pairs, name, tree), other) == stored(pairs, other),
{
    let after = stored_in(pairs, name, tree);
    lemma_name_index(pairs, name);
    lemma_name_index(after, name);
    lemma_name_index(pairs, other);
    lemma_name_index(after, other);
    let at = name_index(pairs, name);
    assert(after[at] == (name, tree));
    assert(name_index(after, name) == at);
    assert forall|i: int, j: int| 0 <= i < j < after.len() implies (#[trigger] after[i]).0 != (
    #[trigger] after[j]).0 by {
        if i != at {
            assert(after[i] == pairs[i]);
        }
        if j != at {
            assert(after[j] == pairs[j]);
        }
    }
    if other != name {
        let o = name_index(pairs, other);
        let p = name_index(after, other);
        if o < pairs.len() {
            assert(after[o] == pairs[o]);
            if p < o {
                assert(after[p].0 == other);
                assert(p != at);
                assert(pairs[p] == after[p]);
            }
            assert(p == o);
        } else if p < after.len() {
            assert(p != at);
            assert(after[p] == pairs[p]);
            assert(false);
        }
    }
}

impl Object {
    /// An object with nothing in it.
    pub fn new() -> (object: Object)
        ensures
            object.pairs() == Seq::<(Seq<char>, Tree)>::empty(),
            object.wf(),
    {
        Object { entries: Entries::new() }
    }

    /// An empty object with room for `capacity` entries.
    pub fn with_capacity(capacity: usize) -> (object: Object)
        ensures
            object.pairs() == Seq::<(Seq<char>, Tree)>::empty(),
            object.wf(),
    {
        let mut entries = Entries::new();
        entries.reserve(capacity);
        Object { entries }
    }

    pub fn len(&self) -> (n: usize)
        ensures
            n == self.pairs().len(),
    {
        self.entries.len()
    }

    pub fn is_empty(&self) -> (empty: bool)
        ensures
            empty == (self.pairs().len() == 0),
    {
        self.entries.len() == 0
    }

    /// The value stored under a name.
    pub fn get(&self, name: &str) -> (value: Option<&Value>)
        ensures
            match value {
                Some(v) => stored(self.pairs(), name@) == Some(v.tree()),
                None => stored(self.pairs(), name@) is None,
            },
    {
        self.entries.get(name)
    }

    /// The value stored under a name, to change in place.
    pub fn get_mut(&mut self, name: &str) -> (value: Option<&mut Value>)
        ensures
            match value {
                Some(v) => stored(old(self).pairs(), name@) == Some((*v).tree())
                    && final(self).pairs() == stored_in(
                    old(self).pairs(),
                    name@,
                    (*final(v)).tree(),
                ),
                None => stored(old(self).pairs(), name@) is None && *final(self) == *old(self),
            },
    {
        self.entries.get_mut(name)
    }

    /// Stores a value under a name and hands back the value it replaces.
    pub fn insert(&mut self, name: String, value: Value) -> (replaced: Option<Value>)
        ensures
            final(self).pairs() == stored_in(old(self).pairs(), name@, value.tree()),
            match replaced {
                Some(v) => stored(old(self).pairs(), name@) == Some(v.tree()),
                None => stored(old(self).pairs(), name@) is None,
            },
            old(self).wf() ==> final(self).wf(),
    {
        proof {
            if self.wf() {
                storing_reads_back(self.pairs(), name@, value.tree(), name@);
            }
        }
        self.entries.insert(name, value)
    }

    /// The entry at a place in the order.
    pub fn get_index(&self, index: usize) -> (entry: Option<(&String, &Value)>)
        ensures
            match entry {
                Some((name, value)) => index < self.pairs().len() && self.pairs()[index as int] == (
                    name@,
                    value.tree(),
                ) && name_index(self.pairs(), name@) == index,
                None => index >= self.pairs().len(),
            },
    {
        self.entries.at(index)
    }

    /// The entry at a place in the order, its value to change in place.
    pub fn get_index_mut(&mut self, index: usize) -> (entry: Option<(&String, &mut Value)>)
        ensures
            match entry {
                Some((name, value)) => index < old(self).pairs().len()
                    && old(self).pairs()[index as int] == (name@, (*value).tree())
                    && final(self).pairs() == old(self).pairs().update(
                    index as int,
                    (name@, (*final(value)).tree()),
                ),
                None => index >= old(self).pairs().len() && *final(self) == *old(self),
            },
    {
        self.entries.at_mut(index)
    }

    /// Takes out the entry at a place in the order; those behind it move up.
    pub fn shift_remove_index(&mut self, index: usize) -> (entry: Option<(String, Value)>)
        ensures
            match entry {
                Some((name, value)) => index < old(self).pairs().len()
                    && old(self).pairs()[index as int] == (name@, value.tree())
                    && final(self).pairs() == old(self).pairs().remove(index as int),
                None => index >= old(self).pairs().len() && *final(self) == *old(self),
            },
    {
        self.entries.remove(index)
    }
}

/// Storing under a name that is not there yet puts the entry at the end.
pub proof fn storing_a_new_name_adds_at_the_end(
    pairs: Seq<(Seq<char>, Tree)>,
    name: Seq<char>,
    tree: Tree,
)
    requires
        forall|i: int| 0 <= i < pairs.len() ==> (#[trigger] pairs[i]).0 != name,
    ensures
        stored_in(pairs, name, tree) == pairs.push((name, tree)),
{
    lemma_name_index(pairs, name);
}

impl Value {
    /// An independent copy of this value.
    pub fn copied(&self) -> (copy: Value)
        ensures
            copy.tree() == self.tree(),
        decreases self.tree(),
    {
        match self {
            Value::Null => Value::Null,
            Value::Bool(b) => Value::Bool(*b),
            Value::Int(i) => Value::Int(*i),
            Value::Uint(u) => Value::Uint(*u),
            Value::Float(x) => Value::Float(Real { bits: x.bits, text: x.text.clone() }),
            Value::String(s) => Value::String(s.clone()),
            Value::Array(items) => {
                let mut out: Vec<Value> = Vec::new();
                let mut i: usize = 0;
                while i < items.len()
                    invariant
                        i <= items@.len(),
                        out@.len() == i,
                        self matches Value::Array(all) && *items == all,
                        forall|k: int|
                            0 <= k < i ==> (#[trigger] out@[k]).tree() == items@[k].tree(),
                    decreases items@.len() - i,
                {
                    assert(self.tree()->Array_0[i as int] == items@[i as int].tree());
                    proof {
                        lemma_smaller(self.tree(), i as int);
                    }
                    out.push(items[i].copied());
                    i += 1;
                }
                let copy = Value::Array(out);
                assert(copy.tree()->Array_0 == self.tree()->Array_0);
                copy
            },
            Value::Object(object) => {
                proof {
                    lemma_smaller(self.tree(), 0);
                }
                Value::Object(object.copied())
            },
        }
    }
}

impl Object {
    /// An independent copy of this object.
    pub fn copied(&self) -> (copy: Object)
        ensures
            copy.pairs() == self.pairs(),
        decreases self.pairs(),
    {
        let ghost all = self.pairs();
        let mut out = Object::with_capacity(self.len());
        let mut i: usize = 0;
        assert(all.take(0) == Seq::<(Seq<char>, Tree)>::empty());
        while i < self.len()
            invariant
                i <= all.len(),
                self.pairs() == all,
                out.pairs() == all.take(i as int),
            decreases all.len() - i,
        {
            match self.get_index(i) {
                Some((name, value)) => {
                    proof {
                        lemma_smaller(Tree::Object(all), i as int);
                    }
                    let copy = value.copied();
                    proof {
                        lemma_name_index(all, name@);
                        storing_a_new_name_adds_at_the_end(out.pairs(), name@, copy.tree());
                        assert(all.take(i + 1) == all.take(i as int).push(all[i as int]));
                    }
                    let _new = out.insert(name.clone(), copy);
                },
                None => {},
            }
            i += 1;
        }
        assert(all.take(all.len() as int) == all);
        out
    }
}

impl Clone for Value {
    fn clone(&self) -> (copy: Value)
        ensures
            copy.tree() == self.tree(),
    {
        self.copied()
    }
}

impl Clone for Object {
    fn clone(&self) -> (copy: Object)
        ensures
            copy.pairs() == self.pairs(),
    {
        self.copied()
    }
}

/// The bit pattern of positive infinity: a larger magnitude is not a number.
pub const INFINITY_BITS: u64 = 0x7ff0_0000_0000_0000;

/// The bit pattern of negative zero.
pub const NEGATIVE_ZERO_BITS: u64 = 0x8000_0000_0000_0000;

/// The bits of a floating-point number without its sign.
pub open spec fn magnitude(bits: u64) -> u64 {
    if bits >= NEGATIVE_ZERO_BITS {
        (bits - NEGATIVE_ZERO_BITS) as u64
    } else {
        bits
    }
}

/// Whether two bit patterns are equal as floating-point numbers: the zeros are,
/// and what is not a number equals nothing.
pub open spec fn same_float(a: u64, b: u64) -> bool {
    &&& magnitude(a) <= INFINITY_BITS
    &&& magnitude(b) <= INFINITY_BITS
    &&& a == b || (magnitude(a) == 0 && magnitude(b) == 0)
}

/// Whether two trees are equal. The order of an object's entries is not part of
/// what it says.
pub open spec fn same_tree(a: Tree, b: Tree) -> bool
    decreases a,
{
    match (a, b) {
        (Tree::Null, Tree::Null) => true,
        (Tree::Bool(x), Tree::Bool(y)) => x == y,
        (Tree::Int(x), Tree::Int(y)) => x == y,
        (Tree::Uint(x), Tree::Uint(y)) => x == y,
        (Tree::Float(x, _), Tree::Float(y, _)) => same_float(x, y),
        (Tree::Text(x), Tree::Text(y)) => x == y,
        (Tree::Array(x), Tree::Array(y)) => x.len() == y.len() && forall|i: int|
            0 <= i < x.len() ==> same_tree(#[trigger] x[i], y[i]),
        (Tree::Object(x), Tree::Object(y)) => x.len() == y.len() && forall|i: int|
            0 <= i < x.len() ==> match stored(y, (#[trigger] x[i]).0) {
                Some(other) => same_tree(x[i].1, other),
                None => false,
            },
        _ => false,
    }
}

fn float_magnitude(bits: u64) -> (m: u64)
    ensures
        m == magnitude(bits),
{
    if bits >= NEGATIVE_ZERO_BITS {
        bits - NEGATIVE_ZERO_BITS
    } else {
        bits
    }
}

impl Value {
    /// Whether two values are equal.
    pub fn same(&self, other: &Value) -> (equal: bool)
        ensures
            equal == same_tree(self.tree(), other.tree()),
        decreases self.tree(),
    {
        match (self, other) {
            (Value::Null, Value::Null) => true,
            (Value::Bool(x), Value::Bool(y)) => *x == *y,
            (Value::Int(x), Value::Int(y)) => *x == *y,
            (Value::Uint(x), Value::Uint(y)) => *x == *y,
            (Value::Float(x), Value::Float(y)) => {
                let a: u64 = float_magnitude(x.bits);
                let b: u64 = float_magnitude(y.bits);
                a <= INFINITY_BITS && b <= INFINITY_BITS && (x.bits == y.bits || (a == 0 && b
                    == 0))
            },
            (Value::String(x), Value::String(y)) => same(x.as_str(), y.as_str()),
            (Value::Array(x), Value::Array(y)) => {
                if x.len() != y.len() {
                    return false;
                }
                let ghost left = self.tree()->Array_0;
                let ghost right = other.tree()->Array_0;
                let mut i: usize = 0;
                while i < x.len()
                    invariant
                        i <= x@.len(),
                        x@.len() == y@.len(),
                        self matches Value::Array(all) && *x == all,
                        other matches Value::Array(all) && *y == all,
                        self.tree() == Tree::Array(left),
                        other.tree() == Tree::Array(right),
                        forall|k: int| 0 <= k < i ==> same_tree(#[trigger] left[k], right[k]),
                    decreases x@.len() - i,
                {
                    assert(left[i as int] == x@[i as int].tree());
                    assert(right[i as int] == y@[i as int].tree());
                    proof {
                        lemma_smaller(self.tree(), i as int);
                    }
                    if !x[i].same(&y[i]) {
                        return false;
                    }
                    i += 1;
                }
                true
            },
            (Value::Object(x), Value::Object(y)) => {
                if x.len() != y.len() {
                    return false;
                }
                let ghost left = self.tree()->Object_0;
                let ghost right = other.tree()->Object_0;
                let mut i: usize = 0;
                while i < x.len()
                    invariant
                        i <= left.len(),
                        left.len() == right.len(),
                        self.tree() == Tree::Object(left),
                        other.tree() == Tree::Object(right),
                        left == x.pairs(),
                        right == y.pairs(),
                        forall|k: int|
                            0 <= k < i ==> match stored(right, (#[trigger] left[k]).0) {
                                Some(tree) => same_tree(left[k].1, tree),
                                None => false,
                            },
                    decreases left.len() - i,
                {
                    match x.get_index(i) {
                        Some((name, value)) => {
                            assert(left[i as int] == (name@, value.tree()));
                            proof {
                                lemma_smaller(self.tree(), i as int);
                            }
                            match y.get(name.as_str()) {
                                Some(counterpart) => {
                                    if !value.same(counterpart) {
                                        return false;
                                    }
                                },
                                None => {
                                    return false;
                                },
                            }
                        },
                        None => {},
                    }
                    i += 1;
                }
                true
            },
            _ => false,
        }
    }
}

impl vstd::std_specs::cmp::PartialEqSpecImpl for Value {
    open spec fn obeys_eq_spec() -> bool {
        true
    }

    open spec fn eq_spec(&self, other: &Value) -> bool {
        same_tree(self.tree(), other.tree())
    }
}

impl PartialEq for Value {
    fn eq(&self, other: &Value) -> (equal: bool) {
        self.same(other)
    }
}

/// The Rust debug form of a text: quoted, with escapes.
pub uninterp spec fn quoted_text(text: Seq<char>) -> Seq<char>;

/// The `Debug` form of `str`, by `format!`. Which characters it escapes, and
/// how, is left unsaid.
#[verifier::external_body]
fn quoted(text: &str) -> (form: String)
    ensures
        form@ == quoted_text(text@),
{
    format!("{text:?}")
}

/// The rendered items from `from` on, each after a comma but the first.
pub open spec fn rendered_items(items: Seq<Tree>, from: int) -> Seq<char>
    decreases items, items.len() - from,
{
    if from < 0 || from >= items.len() {
        seq![]
    } else {
        (if from > 0 {
            ","@
        } else {
            ""@
        }) + rendered(items[from]) + rendered_items(items, from + 1)
    }
}

/// The rendered entries from `from` on, each after a comma but the first.
pub open spec fn rendered_pairs(pairs: Seq<(Seq<char>, Tree)>, from: int) -> Seq<char>
    decreases pairs, pairs.len() - from,
{
    if from < 0 || from >= pairs.len() {
        seq![]
    } else {
        (if from > 0 {
            ","@
        } else {
            ""@
        }) + quoted_text(pairs[from].0) + ":"@ + rendered(pairs[from].1) + rendered_pairs(
            pairs,
            from + 1,
        )
    }
}

/// A value as one line of text.
pub open spec fn rendered(tree: Tree) -> Seq<char>
    decreases tree,
{
    match tree {
        Tree::Null => "null"@,
        Tree::Bool(b) => if b {
            "true"@
        } else {
            "false"@
        },
        Tree::Int(i) => integer_text(i),
        Tree::Uint(u) => decimal_text(u),
        Tree::Float(_, text) => text,
        Tree::Text(s) => quoted_text(s),
        Tree::Array(items) => "["@ + rendered_items(items, 0) + "]"@,
        Tree::Object(pairs) => "{"@ + rendered_pairs(pairs, 0) + "}"@,
    }
}

impl Value {
    /// The value as one line of text.
    pub fn render(&self) -> (text: String)
        ensures
            text@ == rendered(self.tree()),
        decreases self.tree(),
    {
        match self {
            Value::Null => "null".to_string(),
            Value::Bool(b) => if *b {
                "true".to_string()
            } else {
                "false".to_string()
            },
            Value::Int(i) => integer(*i),
            Value::Uint(u) => decimal(*u),
            Value::Float(x) => x.text.clone(),
            Value::String(s) => quoted(s.as_str()),
            Value::Array(items) => {
                let ghost all = self.tree()->Array_0;
                let mut out = "[".to_string();
                let mut i: usize = 0;
                assert(out@ + rendered_items(all, 0) == "["@ + rendered_items(all, 0));
                while i < items.len()
                    invariant
                        i <= items@.len(),
                        self matches Value::Array(held) && *items == held,
                        self.tree() == Tree::Array(all),
                        all.len() == items@.len(),
                        out@ + rendered_items(all, i as int) == "["@ + rendered_items(all, 0),
                    decreases items@.len() - i,
                {
                    let ghost before = out@;
                    let ghost comma = if i > 0 {
                        ","@
                    } else {
                        ""@
                    };
                    out.push_str(if i > 0 {
                        ","
                    } else {
                        ""
                    });
                    assert(all[i as int] == items@[i as int].tree());
                    proof {
                        lemma_smaller(self.tree(), i as int);
                    }
                    out.push_str(items[i].render().as_str());
                    proof {
                        assert(rendered_items(all, i as int) == comma + rendered(all[i as int])
                            + rendered_items(all, i + 1));
                        assert(out@ + rendered_items(all, i + 1) == before + (comma + rendered(
                            all[i as int],
                        ) + rendered_items(all, i + 1)));
                    }
                    i += 1;
                }
                assert(out@ + rendered_items(all, i as int) == out@);
                out.push_str("]");
                out
            },
            Value::Object(object) => {
                let ghost all = self.tree()->Object_0;
                let mut out = "{".to_string();
                let mut i: usize = 0;
                assert(out@ + rendered_pairs(all, 0) == "{"@ + rendered_pairs(all, 0));
                while i < object.len()
                    invariant
                        i <= all.len(),
                        self.tree() == Tree::Object(all),
                        all == object.pairs(),
                        out@ + rendered_pairs(all, i as int) == "{"@ + rendered_pairs(all, 0),
                    decreases all.len() - i,
                {
                    let ghost before = out@;
                    let ghost comma = if i > 0 {
                        ","@
                    } else {
                        ""@
                    };
                    match object.get_index(i) {
                        Some((name, value)) => {
                            out.push_str(if i > 0 {
                                ","
                            } else {
                                ""
                            });
                            out.push_str(quoted(name.as_str()).as_str());
                            out.push_str(":");
                            proof {
                                lemma_smaller(self.tree(), i as int);
                            }
                            out.push_str(value.render().as_str());
                        },
                        None => {},
                    }
                    proof {
                        let pair = all[i as int];
                        let piece = comma + quoted_text(pair.0) + ":"@ + rendered(pair.1);
                        assert(rendered_pairs(all, i as int) == piece + rendered_pairs(all, i + 1));
                        assert(out@ == before + piece);
                        assert(out@ + rendered_pairs(all, i + 1) == before + (piece
                            + rendered_pairs(all, i + 1)));
                    }
                    i += 1;
                }
                assert(out@ + rendered_pairs(all, i as int) == out@);
                out.push_str("}");
                out
            },
        }
    }
}

impl Value {
    pub fn is_null(&self) -> (yes: bool)
        ensures
            yes == (self is Null),
    {
        matches!(self, Value::Null)
    }

    pub fn as_bool(&self) -> (held: Option<bool>)
        ensures
            held == match self {
                Value::Bool(b) => Some(*b),
                _ => None,
            },
    {
        match self {
            Value::Bool(b) => Some(*b),
            _ => None,
        }
    }

    pub fn as_str(&self) -> (held: Option<&str>)
        ensures
            match held {
                Some(s) => self.tree() == Tree::Text(s@),
                None => !(self is String),
            },
    {
        match self {
            Value::String(s) => Some(s.as_str()),
            _ => None,
        }
    }

    /// The value as a signed integer, where it is an integer that fits.
    pub fn as_i64(&self) -> (held: Option<i64>)
        ensures
            match self {
                Value::Int(i) => held == Some(*i),
                Value::Uint(u) => match held {
                    Some(i) => i == *u,
                    None => *u > i64::MAX,
                },
                _ => held is None,
            },
    {
        match self {
            Value::Int(i) => Some(*i),
            Value::Uint(u) => if *u <= i64::MAX as u64 {
                Some(*u as i64)
            } else {
                None
            },
            _ => None,
        }
    }

    /// The value as an unsigned integer, where it is an integer that fits.
    pub fn as_u64(&self) -> (held: Option<u64>)
        ensures
            match self {
                Value::Uint(u) => held == Some(*u),
                Value::Int(i) => match held {
                    Some(u) => u == *i,
                    None => *i < 0,
                },
                _ => held is None,
            },
    {
        match self {
            Value::Uint(u) => Some(*u),
            Value::Int(i) => if *i >= 0 {
                Some(*i as u64)
            } else {
                None
            },
            _ => None,
        }
    }

    pub fn as_array(&self) -> (held: Option<&[Value]>)
        ensures
            match held {
                Some(items) => self matches Value::Array(all) && items@ == all@,
                None => !(self is Array),
            },
    {
        match self {
            Value::Array(a) => Some(a.as_slice()),
            _ => None,
        }
    }

    pub fn as_array_mut(&mut self) -> (held: Option<&mut Vec<Value>>)
        ensures
            match held {
                Some(items) => *old(self) == Value::Array(*items) && *final(self) == Value::Array(
                    *final(items),
                ),
                None => !(*old(self) is Array) && *final(self) == *old(self),
            },
    {
        match self {
            Value::Array(a) => Some(a),
            _ => None,
        }
    }

    pub fn as_object(&self) -> (held: Option<&Object>)
        ensures
            match held {
                Some(object) => *self == Value::Object(*object),
                None => !(self is Object),
            },
    {
        match self {
            Value::Object(o) => Some(o),
            _ => None,
        }
    }

    pub fn as_object_mut(&mut self) -> (held: Option<&mut Object>)
        ensures
            match held {
                Some(object) => *old(self) == Value::Object(*object) && *final(self)
                    == Value::Object(*final(object)),
                None => !(*old(self) is Object) && *final(self) == *old(self),
            },
    {
        match self {
            Value::Object(o) => Some(o),
            _ => None,
        }
    }

    /// The value an object stores under a key; `None` for anything else.
    pub fn get_ref(&self, key: &str) -> (value: Option<&Value>)
        ensures
            match value {
                Some(v) => member(self.tree(), key@) == Some(v.tree()),
                None => member(self.tree(), key@) is None,
            },
    {
        match self {
            Value::Object(o) => {
                assert(o.pairs() == self.tree()->Object_0);
                o.get(key)
            },
            _ => None,
        }
    }

    /// The value an object stores under a key, to change in place.
    pub fn get_mut(&mut self, key: &str) -> (value: Option<&mut Value>)
        ensures
            match value {
                Some(v) => member(old(self).tree(), key@) == Some((*v).tree()) && final(self).tree() == Tree::Object(
                    stored_in(old(self).tree()->Object_0, key@, (*final(v)).tree()),
                ),
                None => member(old(self).tree(), key@) is None && *final(self) == *old(self),
            },
    {
        let ghost before = self.tree();
        match self {
            Value::Object(o) => {
                assert(o.pairs() == before->Object_0);
                let ghost shape = Value::Object(*final(o));
                assert(shape.tree()->Object_0 == final(o).pairs());
                o.get_mut(key)
            },
            _ => None,
        }
    }

    /// The value an object stores under a key, or null.
    pub fn get(&self, key: &str) -> (value: Value)
        ensures
            value.tree() == match member(self.tree(), key@) {
                Some(tree) => tree,
                None => Tree::Null,
            },
    {
        match self.get_ref(key) {
            Some(v) => v.copied(),
            None => Value::Null,
        }
    }

    /// The item an array holds at an index, or null.
    pub fn get_index(&self, index: usize) -> (value: Value)
        ensures
            value.tree() == match item(self.tree(), index as int) {
                Some(tree) => tree,
                None => Tree::Null,
            },
    {
        match self.get_index_ref(index) {
            Some(v) => v.copied(),
            None => Value::Null,
        }
    }

    /// The item an array holds at an index.
    pub fn get_index_ref(&self, index: usize) -> (value: Option<&Value>)
        ensures
            match value {
                Some(v) => item(self.tree(), index as int) == Some(v.tree()),
                None => item(self.tree(), index as int) is None,
            },
    {
        match self {
            Value::Array(a) => if index < a.len() {
                Some(&a[index])
            } else {
                None
            },
            _ => None,
        }
    }

    /// Whether the value holds nothing: null, or empty text, array or object.
    pub fn is_empty(&self) -> (empty: bool)
        ensures
            empty == match self.tree() {
                Tree::Null => true,
                Tree::Text(s) => s.len() == 0,
                Tree::Array(items) => items.len() == 0,
                Tree::Object(pairs) => pairs.len() == 0,
                _ => false,
            },
    {
        match self {
            Value::Array(a) => a.len() == 0,
            Value::Object(o) => o.is_empty(),
            Value::String(s) => s.as_str().is_empty(),
            Value::Null => true,
            _ => false,
        }
    }

    pub fn kind_name(&self) -> (name: &'static str)
        ensures
            name@ == match self {
                Value::Null => "null"@,
                Value::Bool(_) => "bool"@,
                Value::Int(_) => "int"@,
                Value::Uint(_) => "uint"@,
                Value::Float(_) => "float"@,
                Value::String(_) => "string"@,
                Value::Array(_) => "array"@,
                Value::Object(_) => "object"@,
            },
    {
        match self {
            Value::Null => "null",
            Value::Bool(_) => "bool",
            Value::Int(_) => "int",
            Value::Uint(_) => "uint",
            Value::Float(_) => "float",
            Value::String(_) => "string",
            Value::Array(_) => "array",
            Value::Object(_) => "object",
        }
    }
}

/// The tree an object stores under a key.
pub open spec fn member(tree: Tree, key: Seq<char>) -> Option<Tree> {
    match tree {
        Tree::Object(pairs) => stored(pairs, key),
        _ => None,
    }
}

/// The tree an array holds at an index.
pub open spec fn item(tree: Tree, index: int) -> Option<Tree> {
    match tree {
        Tree::Array(items) => if 0 <= index < items.len() {
            Some(items[index])
        } else {
            None
        },
        _ => None,
    }
}

impl Default for Value {
    fn default() -> (value: Value)
        ensures
            value == Value::Null,
    {
        Value::Null
    }
}

impl vstd::std_specs::convert::FromSpecImpl<bool> for Value {
    open spec fn obeys_from_spec() -> bool {
        true
    }

    open spec fn from_spec(v: bool) -> Value {
        Value::Bool(v)
    }
}

impl From<bool> for Value {
    fn from(v: bool) -> (value: Value) {
        Value::Bool(v)
    }
}

impl vstd::std_specs::convert::FromSpecImpl<i64> for Value {
    open spec fn obeys_from_spec() -> bool {
        true
    }

    open spec fn from_spec(v: i64) -> Value {
        Value::Int(v)
    }
}

impl From<i64> for Value {
    fn from(v: i64) -> (value: Value) {
        Value::Int(v)
    }
}

impl vstd::std_specs::convert::FromSpecImpl<i32> for Value {
    open spec fn obeys_from_spec() -> bool {
        true
    }

    open spec fn from_spec(v: i32) -> Value {
        Value::Int(v as i64)
    }
}

impl From<i32> for Value {
    fn from(v: i32) -> (value: Value) {
        Value::Int(v as i64)
    }
}

impl vstd::std_specs::convert::FromSpecImpl<u64> for Value {
    open spec fn obeys_from_spec() -> bool {
        true
    }

    open spec fn from_spec(v: u64) -> Value {
        Value::Uint(v)
    }
}

impl From<u64> for Value {
    fn from(v: u64) -> (value: Value) {
        Value::Uint(v)
    }
}

impl vstd::std_specs::convert::FromSpecImpl<u32> for Value {
    open spec fn obeys_from_spec() -> bool {
        true
    }

    open spec fn from_spec(v: u32) -> Value {
        Value::Uint(v as u64)
    }
}

impl From<u32> for Value {
    fn from(v: u32) -> (value: Value) {
        Value::Uint(v as u64)
    }
}

impl vstd::std_specs::convert::FromSpecImpl<usize> for Value {
    open spec fn obeys_from_spec() -> bool {
        true
    }

    open spec fn from_spec(v: usize) -> Value {
        Value::Uint(v as u64)
    }
}

impl From<usize> for Value {
    fn from(v: usize) -> (value: Value) {
        Value::Uint(v as u64)
    }
}

impl vstd::std_specs::convert::FromSpecImpl<Real> for Value {
    open spec fn obeys_from_spec() -> bool {
        true
    }

    open spec fn from_spec(v: Real) -> Value {
        Value::Float(v)
    }
}

impl From<Real> for Value {
    fn from(v: Real) -> (value: Value) {
        Value::Float(v)
    }
}

impl vstd::std_specs::convert::FromSpecImpl<String> for Value {
    open spec fn obeys_from_spec() -> bool {
        true
    }

    open spec fn from_spec(v: String) -> Value {
        Value::String(v)
    }
}

impl From<String> for Value {
    fn from(v: String) -> (value: Value) {
        Value::String(v)
    }
}

impl vstd::std_specs::convert::FromSpecImpl<Vec<Value>> for Value {
    open spec fn obeys_from_spec() -> bool {
        true
    }

    open spec fn from_spec(v: Vec<Value>) -> Value {
        Value::Array(v)
    }
}

impl From<Vec<Value>> for Value {
    fn from(v: Vec<Value>) -> (value: Value) {
        Value::Array(v)
    }
}

impl vstd::std_specs::convert::FromSpecImpl<Object> for Value {
    open spec fn obeys_from_spec() -> bool {
        true
    }

    open spec fn from_spec(v: Object) -> Value {
        Value::Object(v)
    }
}

impl From<Object> for Value {
    fn from(v: Object) -> (value: Value) {
        Value::Object(v)
    }
}

impl vstd::std_specs::convert::FromSpecImpl<&str> for Value {
    open spec fn obeys_from_spec() -> bool {
        false
    }

    open spec fn from_spec(v: &str) -> Value {
        Value::Null
    }
}

impl From<&str> for Value {
    fn from(v: &str) -> (value: Value)
        ensures
            value.tree() == Tree::Text(v@),
    {
        Value::String(v.to_string())
    }
}

impl<T: Into<Value>> vstd::std_specs::convert::FromSpecImpl<Option<T>> for Value {
    open spec fn obeys_from_spec() -> bool {
        false
    }

    open spec fn from_spec(v: Option<T>) -> Value {
        Value::Null
    }
}

impl<T: Into<Value>> From<Option<T>> for Value {
    fn from(v: Option<T>) -> (value: Value)
        ensures
            v is None ==> value == Value::Null,
            v matches Some(x) ==> call_ensures(T::into, (x,), value),
    {
        match v {
            Some(x) => x.into(),
            None => Value::Null,
        }
    }
}

/// One scalar as a self-describing format hands it over.
///
/// The wide integers come with the floating-point reading they have where no
/// integer variant can hold them.
pub enum Scalar {
    Unit,
    Bool(bool),
    Signed(i128, Real),
    Unsigned(u128, Real),
    Float(Real),
    Char(char),
    Text(String),
}

/// The tree a scalar decodes to.
pub open spec fn scalar_tree(scalar: Scalar) -> Tree {
    match scalar {
        Scalar::Unit => Tree::Null,
        Scalar::Bool(b) => Tree::Bool(b),
        Scalar::Signed(i, number) => if i64::MIN <= i <= i64::MAX {
            Tree::Int(i as int)
        } else {
            Tree::Float(number.bits, number.text@)
        },
        Scalar::Unsigned(u, number) => if u <= u64::MAX {
            Tree::Uint(u as nat)
        } else {
            Tree::Float(number.bits, number.text@)
        },
        Scalar::Float(number) => Tree::Float(number.bits, number.text@),
        Scalar::Char(c) => Tree::Text(seq![c]),
        Scalar::Text(s) => Tree::Text(s@),
    }
}

/// The names of a list of values, and their trees.
pub open spec fn named_trees(pairs: Seq<(String, Value)>) -> Seq<(Seq<char>, Tree)> {
    Seq::new(pairs.len(), |i: int| (pairs[i].0@, pairs[i].1.tree()))
}

/// The entries a sequence of decoded pairs makes: a repeated name keeps its
/// first place and its last value.
pub open spec fn collected(pairs: Seq<(Seq<char>, Tree)>) -> Seq<(Seq<char>, Tree)>
    decreases pairs.len(),
{
    if pairs.len() == 0 {
        seq![]
    } else {
        stored_in(collected(pairs.drop_last()), pairs.last().0, pairs.last().1)
    }
}

impl Value {
    /// The value a scalar decodes to: an integer stays an integer wherever one
    /// of the two integer variants can hold it.
    pub fn from_scalar(scalar: Scalar) -> (value: Value)
        ensures
            value.tree() == scalar_tree(scalar),
    {
        match scalar {
            Scalar::Unit => Value::Null,
            Scalar::Bool(b) => Value::Bool(b),
            Scalar::Signed(i, number) => {
                if i64::MIN as i128 <= i && i <= i64::MAX as i128 {
                    Value::Int(i as i64)
                } else {
                    Value::Float(number)
                }
            },
            Scalar::Unsigned(u, number) => {
                if u <= u64::MAX as u128 {
                    Value::Uint(u as u64)
                } else {
                    Value::Float(number)
                }
            },
            Scalar::Float(number) => Value::Float(number),
            Scalar::Char(c) => {
                let mut s = String::new();
                s.push(c);
                assert(s@ == seq![c]);
                Value::String(s)
            },
            Scalar::Text(s) => Value::String(s),
        }
    }

    /// The object a sequence of decoded pairs makes.
    pub fn from_entries(pairs: Vec<(String, Value)>) -> (value: Value)
        ensures
            value.tree() == Tree::Object(collected(named_trees(pairs@))),
            value matches Value::Object(object) && object.wf(),
    {
        let ghost all = named_trees(pairs@);
        let mut rest = pairs;
        let mut reversed: Vec<(String, Value)> = Vec::new();
        let ghost n = all.len() as int;
        while rest.len() > 0
            invariant
                rest@.len() + reversed@.len() == n,
                all.len() == n,
                forall|k: int|
                    0 <= k < rest@.len() ==> all[k] == ((#[trigger] rest@[k]).0@, rest@[k].1.tree()),
                forall|k: int|
                    0 <= k < reversed@.len() ==> all[n - 1 - k] == (
                        (#[trigger] reversed@[k]).0@,
                        reversed@[k].1.tree(),
                    ),
            decreases rest@.len(),
        {
            match rest.pop() {
                Some(pair) => {
                    reversed.push(pair);
                },
                None => {},
            }
        }
        let mut object = Object::with_capacity(reversed.len());
        assert(all.take(0) == Seq::<(Seq<char>, Tree)>::empty());
        while reversed.len() > 0
            invariant
                all.len() == n,
                0 <= reversed@.len() <= n,
                object.wf(),
                object.pairs() == collected(all.take(n - reversed@.len())),
                forall|k: int|
                    0 <= k < reversed@.len() ==> all[n - 1 - k] == (
                        (#[trigger] reversed@[k]).0@,
                        reversed@[k].1.tree(),
                    ),
            decreases reversed@.len(),
        {
            let ghost done = n - reversed@.len();
            assert(all.take(done + 1).drop_last() == all.take(done));
            match reversed.pop() {
                Some((name, value)) => {
                    let _replaced = object.insert(name, value);
                },
                None => {},
            }
        }
        assert(all.take(n) == all);
        Value::Object(object)
    }
}

} // verus!
