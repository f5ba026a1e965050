//! The entries of an object, in a map that keeps them in order.
use super::value::{name_index, stored, stored_in, Tree, Value};
use indexmap::IndexMap;
use vstd::prelude::*;

verus! {

/// Named values in an `IndexMap`, in the order in which their names were first
/// inserted. The map holds values that may hold maps in turn; what it holds is
/// stated as trees.
#[verifier::external_body]
#[derive(Debug)]
pub struct Entries {
    map: IndexMap<String, Value>,
}

/// The names in the map and the trees of their values, in the map's order.
pub uninterp spec fn entries_held(entries: Entries) -> Seq<(Seq<char>, Tree)>;

impl Entries {
    /// `IndexMap::new`: the map holds nothing.
    #[verifier::external_body]
    pub(crate) fn new() -> (entries: Entries)
        ensures
            entries_held(entries) == Seq::<(Seq<char>, Tree)>::empty(),
    {
        Entries { map: IndexMap::new() }
    }

    /// `IndexMap::try_reserve`: whether or not the room is found, the map holds
    /// what it held. How much room it then has is left unsaid.
    #[verifier::external_body]
    pub(crate) fn reserve(&mut self, additional: usize)
        ensures
            entries_held(*final(self)) == entries_held(*old(self)),
    {
        let _found = self.map.try_reserve(additional);
    }

    /// `IndexMap::len`: how many entries the map holds.
    #[verifier::external_body]
    pub(crate) fn len(&self) -> (n: usize)
        ensures
            n == entries_held(*self).len(),
    {
        self.map.len()
    }

    /// `IndexMap::get`: the value stored under a name, if there is one.
    #[verifier::external_body]
    pub(crate) fn get(&self, name: &str) -> (value: Option<&Value>)
        ensures
            match value {
                Some(v) => stored(entries_held(*self), name@) == Some(v.tree()),
                None => stored(entries_held(*self), name@) is None,
            },
    {
        self.map.get(name)
    }

    /// `IndexMap::get_mut`: the value stored under a name, if there is one. What
    /// it is changed to is stored in its place; every other entry stays.
    #[verifier::external_body]
    pub(crate) fn get_mut(&mut self, name: &str) -> (value: Option<&mut Value>)
        ensures
            match value {
                Some(v) => stored(entries_held(*old(self)), name@) == Some((*v).tree())
                    && entries_held(*final(self)) == stored_in(
                    entries_held(*old(self)),
                    name@,
                    (*final(v)).tree(),
                ),
                None => stored(entries_held(*old(self)), name@) is None && *final(self) == *old(
                    self,
                ),
            },
    {
        self.map.get_mut(name)
    }

    /// `IndexMap::insert`: the value is stored in place where the name is known,
    /// and at the end where it is new; the value it replaces is handed back.
    #[verifier::external_body]
    pub(crate) fn insert(&mut self, name: String, value: Value) -> (replaced: Option<Value>)
        ensures
            entries_held(*final(self)) == stored_in(
                entries_held(*old(self)),
                name@,
                value.tree(),
            ),
            match replaced {
                Some(v) => stored(entries_held(*old(self)), name@) == Some(v.tree()),
                None => stored(entries_held(*old(self)), name@) is None,
            },
    {
        self.map.insert(name, value)
    }

    /// `IndexMap::get_index`: the entry at a place in the order. No earlier entry
    /// has its name.
    #[verifier::external_body]
    pub(crate) fn at(&self, index: usize) -> (entry: Option<(&String, &Value)>)
        ensures
            match entry {
                Some((name, value)) => index < entries_held(*self).len() && entries_held(
                    *self,
                )[index as int] == (name@, value.tree()) && name_index(
                    entries_held(*self),
                    name@,
                ) == index,
                None => index >= entries_held(*self).len(),
            },
    {
        self.map.get_index(index)
    }

    /// `IndexMap::get_index_mut`: the entry at a place in the order, whose value
    /// can be changed. What it is changed to takes its place; every other entry
    /// stays.
    #[verifier::external_body]
    pub(crate) fn at_mut(&mut self, index: usize) -> (entry: Option<(&String, &mut Value)>)
        ensures
            match entry {
                Some((name, value)) => index < entries_held(*old(self)).len() && entries_held(
                    *old(self),
                )[index as int] == (name@, (*value).tree()) && entries_held(*final(self))
                    == entries_held(*old(self)).update(
                    index as int,
                    (name@, (*final(value)).tree()),
                ),
                None => index >= entries_held(*old(self)).len() && *final(self) == *old(self),
            },
    {
        self.map.get_index_mut(index)
    }

    /// `IndexMap::shift_remove_index`: the entry at a place in the order leaves,
    /// and those behind it move up by one.
    #[verifier::external_body]
    pub(crate) fn remove(&mut self, index: usize) -> (entry: Option<(String, Value)>)
        ensures
            match entry {
                Some((name, value)) => index < entries_held(*old(self)).len() && entries_held(
                    *old(self),
                )[index as int] == (name@, value.tree()) && entries_held(*final(self))
                    == entries_held(*old(self)).remove(index as int),
                None => index >= entries_held(*old(self)).len() && *final(self) == *old(self),
            },
    {
        self.map.shift_remove_index(index)
    }
}

} // verus!
