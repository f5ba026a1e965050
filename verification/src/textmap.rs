//! Maps keyed by text, in ascending order of their keys.
use crate::text::{is_before, same, text_before, text_order_is_transitive, texts_are_ordered};
use vstd::prelude::*;

verus! {

/// Entries in ascending order of their keys, no key twice.
pub open spec fn keys_rise<T>(entries: Seq<(String, T)>) -> bool {
    forall|i: int, j: int|
        0 <= i < j < entries.len() ==> text_before(
            (#[trigger] entries[i]).0@,
            (#[trigger] entries[j]).0@,
        )
}

/// What entries hold, by key.
pub open spec fn by_key<T>(entries: Seq<(String, T)>) -> Map<Seq<char>, T>
    decreases entries.len(),
{
    if entries.len() == 0 {
        Map::empty()
    } else {
        by_key(entries.drop_last()).insert(entries.last().0@, entries.last().1)
    }
}

/// What rising entries hold: each entry's value under its key, and nothing else.
pub proof fn lemma_by_key<T>(entries: Seq<(String, T)>)
    requires
        keys_rise(entries),
    ensures
        forall|i: int|
            0 <= i < entries.len() ==> #[trigger] by_key(entries).contains_key(entries[i].0@)
                && by_key(entries)[entries[i].0@] == entries[i].1,
        forall|key: Seq<char>| #[trigger]
            by_key(entries).contains_key(key) ==> exists|i: int|
                0 <= i < entries.len() && (#[trigger] entries[i]).0@ == key,
        by_key(entries).dom().finite(),
        by_key(entries).len() == entries.len(),
    decreases entries.len(),
{
    if entries.len() > 0 {
        let front = entries.drop_last();
        let last = entries.last();
        assert forall|i: int, j: int| 0 <= i < j < front.len() implies text_before(
            (#[trigger] front[i]).0@,
            (#[trigger] front[j]).0@,
        ) by {
            assert(text_before(entries[i].0@, entries[j].0@));
        }
        lemma_by_key(front);
        assert forall|i: int| 0 <= i < front.len() implies (#[trigger] front[i]).0@ != last.0@ by {
            assert(text_before(entries[i].0@, entries[entries.len() - 1].0@));
            texts_are_ordered(last.0@, last.0@);
        }
        assert(!by_key(front).contains_key(last.0@));
        assert forall|i: int| 0 <= i < entries.len() implies #[trigger] by_key(
            entries,
        ).contains_key(entries[i].0@) && by_key(entries)[entries[i].0@] == entries[i].1 by {
            if i < front.len() {
                assert(front[i] == entries[i]);
                assert(by_key(front).contains_key(front[i].0@));
            }
        }
        assert forall|key: Seq<char>| #[trigger]
            by_key(entries).contains_key(key) implies exists|i: int|
            0 <= i < entries.len() && (#[trigger] entries[i]).0@ == key by {
            if key == last.0@ {
                assert(entries[entries.len() - 1].0@ == key);
            } else {
                assert(by_key(front).contains_key(key));
                let i = choose|i: int| 0 <= i < front.len() && (#[trigger] front[i]).0@ == key;
                assert(entries[i].0@ == key);
            }
        }
    }
}

/// Rising entries that hold a value under each of the keys of a map, and under no
/// others, hold that map.
proof fn lemma_holds<T>(entries: Seq<(String, T)>, map: Map<Seq<char>, T>)
    requires
        keys_rise(entries),
        forall|i: int|
            0 <= i < entries.len() ==> map.contains_key((#[trigger] entries[i]).0@)
                && map[entries[i].0@] == entries[i].1,
        forall|key: Seq<char>| #[trigger]
            map.contains_key(key) ==> exists|i: int|
                0 <= i < entries.len() && (#[trigger] entries[i]).0@ == key,
    ensures
        by_key(entries) == map,
{
    lemma_by_key(entries);
    let got = by_key(entries);
    assert forall|key: Seq<char>|
        #![trigger got.dom().contains(key)]
        #![trigger map.dom().contains(key)]
        got.dom().contains(key) == map.dom().contains(key) && (got.dom().contains(key) ==> got[key]
            == map[key]) by {
        if got.contains_key(key) {
            let i = choose|i: int| 0 <= i < entries.len() && (#[trigger] entries[i]).0@ == key;
            assert(got.contains_key(entries[i].0@));
        }
        if map.contains_key(key) {
            let i = choose|i: int| 0 <= i < entries.len() && (#[trigger] entries[i]).0@ == key;
            assert(got.contains_key(entries[i].0@));
        }
    }
    assert(got =~= map);
}

/// Where a key stands among rising entries, or where it would.
fn place<T>(entries: &Vec<(String, T)>, key: &str) -> (at: usize)
    requires
        keys_rise(entries@),
    ensures
        at <= entries@.len(),
        forall|i: int| 0 <= i < at ==> text_before((#[trigger] entries@[i]).0@, key@),
        forall|i: int| at <= i < entries@.len() ==> !text_before((#[trigger] entries@[i]).0@, key@),
        by_key(entries@).contains_key(key@) == (at < entries@.len() && entries@[at as int].0@
            == key@),
        by_key(entries@).contains_key(key@) ==> by_key(entries@)[key@] == entries@[at as int].1,
{
    let mut low: usize = 0;
    let mut high: usize = entries.len();
    while low < high
        invariant
            keys_rise(entries@),
            low <= high <= entries@.len(),
            forall|i: int| 0 <= i < low ==> text_before((#[trigger] entries@[i]).0@, key@),
            forall|i: int|
                high <= i < entries@.len() ==> !text_before((#[trigger] entries@[i]).0@, key@),
        decreases high - low,
    {
        let mid: usize = low + (high - low) / 2;
        if is_before(entries[mid].0.as_str(), key) {
            proof {
                assert forall|i: int| 0 <= i < mid + 1 implies text_before(
                    (#[trigger] entries@[i]).0@,
                    key@,
                ) by {
                    if i < mid {
                        text_order_is_transitive(entries@[i].0@, entries@[mid as int].0@, key@);
                    }
                }
            }
            low = mid + 1;
        } else {
            proof {
                assert forall|i: int| mid <= i < entries@.len() implies !text_before(
                    (#[trigger] entries@[i]).0@,
                    key@,
                ) by {
                    if i > mid && text_before(entries@[i].0@, key@) {
                        text_order_is_transitive(entries@[mid as int].0@, entries@[i].0@, key@);
                    }
                }
            }
            high = mid;
        }
    }
    proof {
        lemma_by_key(entries@);
        texts_are_ordered(key@, key@);
        if by_key(entries@).contains_key(key@) {
            let i = choose|i: int| 0 <= i < entries@.len() && (#[trigger] entries@[i]).0@ == key@;
            if low < i {
                assert(text_before(entries@[low as int].0@, entries@[i].0@));
            }
            assert(i == low);
        }
        if low < entries@.len() && entries@[low as int].0@ == key@ {
            assert(by_key(entries@).contains_key(entries@[low as int].0@));
        }
    }
    low
}

/// A map keyed by text. Its entries stand in ascending order of their keys, so
/// two maps that hold the same are the same list.
#[derive(Debug, PartialEq, Eq)]
pub struct TextMap<T> {
    entries: Vec<(String, T)>,
}

impl<T> View for TextMap<T> {
    type V = Map<Seq<char>, T>;

    closed spec fn view(&self) -> Map<Seq<char>, T> {
        by_key(self.entries@)
    }
}

impl<T> TextMap<T> {
    #[verifier::type_invariant]
    spec fn in_order(self) -> bool {
        keys_rise(self.entries@)
    }

    /// A map that holds nothing.
    pub fn new() -> (map: TextMap<T>)
        ensures
            map@ == Map::<Seq<char>, T>::empty(),
    {
        TextMap { entries: Vec::new() }
    }

    pub fn len(&self) -> (n: usize)
        ensures
            n == self@.len(),
            self@.dom().finite(),
    {
        proof {
            use_type_invariant(self);
            lemma_by_key(self.entries@);
        }
        self.entries.len()
    }

    pub fn is_empty(&self) -> (empty: bool)
        ensures
            empty == (self@ == Map::<Seq<char>, T>::empty()),
    {
        proof {
            use_type_invariant(self);
            lemma_by_key(self.entries@);
            if self.entries@.len() > 0 {
                assert(self@.contains_key(self.entries@[0].0@));
            } else {
                assert(self@ == Map::<Seq<char>, T>::empty());
            }
        }
        self.entries.len() == 0
    }

    /// The value of a key.
    pub fn get(&self, key: &str) -> (value: Option<&T>)
        ensures
            match value {
                Some(v) => self@.contains_key(key@) && self@[key@] == *v,
                None => !self@.contains_key(key@),
            },
    {
        proof {
            use_type_invariant(self);
        }
        let at: usize = place(&self.entries, key);
        if at < self.entries.len() && same(self.entries[at].0.as_str(), key) {
            Some(&self.entries[at].1)
        } else {
            None
        }
    }

    /// Gives a key a value, and hands back the one it had.
    pub fn insert(&mut self, key: &str, value: T) -> (replaced: Option<T>)
        ensures
            final(self)@ == old(self)@.insert(key@, value),
            final(self)@.dom().finite(),
            final(self)@.len() == old(self)@.len() + (if old(self)@.contains_key(key@) {
                0int
            } else {
                1int
            }),
            match replaced {
                Some(v) => old(self)@.contains_key(key@) && old(self)@[key@] == v,
                None => !old(self)@.contains_key(key@),
            },
    {
        proof {
            use_type_invariant(&*self);
        }
        let mut entries: Vec<(String, T)> = Vec::new();
        std::mem::swap(&mut self.entries, &mut entries);
        let ghost before = entries@;
        let ghost want = by_key(before).insert(key@, value);
        let at: usize = place(&entries, key);
        proof {
            lemma_by_key(before);
        }
        if at < entries.len() && same(entries[at].0.as_str(), key) {
            let mut held = value;
            std::mem::swap(&mut entries[at].1, &mut held);
            proof {
                let after = entries@;
                lemma_replaced(before, after, at as int);
                lemma_holds(after, want);
            }
            self.entries = entries;
            Some(held)
        } else {
            entries.insert(at, (key.to_string(), value));
            proof {
                let after = entries@;
                assert(after == before.insert(at as int, after[at as int]));
                assert forall|i: int| at <= i < before.len() implies text_before(
                    key@,
                    (#[trigger] before[i]).0@,
                ) by {
                    if i > at {
                        assert(text_before(before[at as int].0@, before[i].0@));
                    }
                    texts_are_ordered(key@, before[at as int].0@);
                    if i > at {
                        text_order_is_transitive(key@, before[at as int].0@, before[i].0@);
                    }
                }
                lemma_added(before, after, at as int);
                lemma_holds(after, want);
            }
            self.entries = entries;
            None
        }
    }

    /// The entries, in ascending order of their keys.
    pub fn entries(&self) -> (entries: &[(String, T)])
        ensures
            keys_rise(entries@),
            by_key(entries@) == self@,
    {
        proof {
            use_type_invariant(self);
        }
        self.entries.as_slice()
    }
}

proof fn lemma_replaced<T>(before: Seq<(String, T)>, after: Seq<(String, T)>, at: int)
    requires
        keys_rise(before),
        0 <= at < before.len(),
        after.len() == before.len(),
        after[at].0 == before[at].0,
        forall|i: int| 0 <= i < before.len() && i != at ==> #[trigger] after[i] == before[i],
    ensures
        keys_rise(after),
        ({
            let want = by_key(before).insert(before[at].0@, after[at].1);
            &&& forall|i: int|
                0 <= i < after.len() ==> want.contains_key((#[trigger] after[i]).0@)
                    && want[after[i].0@] == after[i].1
            &&& forall|key: Seq<char>| #[trigger]
                want.contains_key(key) ==> exists|i: int|
                    0 <= i < after.len() && (#[trigger] after[i]).0@ == key
        }),
{
    lemma_by_key(before);
    assert forall|i: int| 0 <= i < after.len() implies (#[trigger] after[i]).0 == before[i].0 by {
        if i != at {
            assert(after[i] == before[i]);
        }
    }
    assert forall|i: int, j: int| 0 <= i < j < after.len() implies text_before(
        (#[trigger] after[i]).0@,
        (#[trigger] after[j]).0@,
    ) by {
        assert(text_before(before[i].0@, before[j].0@));
    }
    let want = by_key(before).insert(before[at].0@, after[at].1);
    assert forall|i: int| 0 <= i < after.len() implies want.contains_key((#[trigger] after[i]).0@)
        && want[after[i].0@] == after[i].1 by {
        assert(by_key(before).contains_key(before[i].0@));
        if i != at {
            assert(after[i] == before[i]);
            texts_are_ordered(before[at].0@, before[at].0@);
            if i < at {
                assert(text_before(before[i].0@, before[at].0@));
            } else {
                assert(text_before(before[at].0@, before[i].0@));
            }
        }
    }
    assert forall|key: Seq<char>| #[trigger] want.contains_key(key) implies exists|i: int|
        0 <= i < after.len() && (#[trigger] after[i]).0@ == key by {
        if key == before[at].0@ {
            assert(after[at].0@ == key);
        } else {
            assert(by_key(before).contains_key(key));
            let i = choose|i: int| 0 <= i < before.len() && (#[trigger] before[i]).0@ == key;
            assert(after[i].0@ == key);
        }
    }
}

proof fn lemma_added<T>(before: Seq<(String, T)>, after: Seq<(String, T)>, at: int)
    requires
        keys_rise(before),
        0 <= at <= before.len(),
        after == before.insert(at, after[at]),
        forall|i: int| 0 <= i < at ==> text_before((#[trigger] before[i]).0@, after[at].0@),
        forall|i: int|
            at <= i < before.len() ==> text_before(after[at].0@, (#[trigger] before[i]).0@),
    ensures
        keys_rise(after),
        ({
            let want = by_key(before).insert(after[at].0@, after[at].1);
            &&& forall|i: int|
                0 <= i < after.len() ==> want.contains_key((#[trigger] after[i]).0@)
                    && want[after[i].0@] == after[i].1
            &&& forall|key: Seq<char>| #[trigger]
                want.contains_key(key) ==> exists|i: int|
                    0 <= i < after.len() && (#[trigger] after[i]).0@ == key
        }),
{
    lemma_by_key(before);
    let entry = after[at];
    texts_are_ordered(entry.0@, entry.0@);
    assert forall|i: int| 0 <= i < after.len() implies #[trigger] after[i] == if i < at {
        before[i]
    } else if i == at {
        entry
    } else {
        before[i - 1]
    } by {}
    assert forall|i: int, j: int| 0 <= i < j < after.len() implies text_before(
        (#[trigger] after[i]).0@,
        (#[trigger] after[j]).0@,
    ) by {
        if i != at && j != at {
            let a = if i < at {
                i
            } else {
                i - 1
            };
            let b = if j < at {
                j
            } else {
                j - 1
            };
            assert(after[i] == before[a]);
            assert(after[j] == before[b]);
        } else if i == at {
            assert(after[j] == before[j - 1]);
        } else {
            assert(after[i] == before[i]);
        }
    }
    let want = by_key(before).insert(entry.0@, entry.1);
    assert forall|i: int| 0 <= i < after.len() implies want.contains_key((#[trigger] after[i]).0@)
        && want[after[i].0@] == after[i].1 by {
        if i != at {
            let a = if i < at {
                i
            } else {
                i - 1
            };
            assert(after[i] == before[a]);
            assert(by_key(before).contains_key(before[a].0@));
        }
    }
    assert forall|key: Seq<char>| #[trigger] want.contains_key(key) implies exists|i: int|
        0 <= i < after.len() && (#[trigger] after[i]).0@ == key by {
        if key == entry.0@ {
            assert(after[at].0@ == key);
        } else {
            assert(by_key(before).contains_key(key));
            let i = choose|i: int| 0 <= i < before.len() && (#[trigger] before[i]).0@ == key;
            if i < at {
                assert(after[i].0@ == key);
            } else {
                assert(after[i + 1].0@ == key);
            }
        }
    }
}

impl<T: Clone> Clone for TextMap<T> {
    fn clone(&self) -> (copy: TextMap<T>)
        ensures
            copy@.dom() == self@.dom(),
            forall|key: Seq<char>| #[trigger]
                self@.contains_key(key) ==> cloned(self@[key], copy@[key]),
    {
        proof {
            use_type_invariant(self);
        }
        let mut entries: Vec<(String, T)> = Vec::new();
        let mut i: usize = 0;
        while i < self.entries.len()
            invariant
                i <= self.entries@.len(),
                entries@.len() == i,
                forall|k: int|
                    0 <= k < i ==> (#[trigger] entries@[k]).0@ == self.entries@[k].0@ && cloned(
                        self.entries@[k].1,
                        entries@[k].1,
                    ),
            decreases self.entries@.len() - i,
        {
            let value = self.entries[i].1.clone();
            entries.push((self.entries[i].0.clone(), value));
            i += 1;
        }
        proof {
            assert forall|a: int, b: int| 0 <= a < b < entries@.len() implies text_before(
                (#[trigger] entries@[a]).0@,
                (#[trigger] entries@[b]).0@,
            ) by {
                assert(text_before(self.entries@[a].0@, self.entries@[b].0@));
            }
            lemma_by_key(self.entries@);
            lemma_by_key(entries@);
            assert forall|key: Seq<char>| #[trigger]
                by_key(entries@).dom().contains(key) == by_key(self.entries@).dom().contains(
                    key,
                ) by {
                if by_key(entries@).contains_key(key) {
                    let k = choose|k: int|
                        0 <= k < entries@.len() && (#[trigger] entries@[k]).0@ == key;
                    assert(by_key(self.entries@).contains_key(self.entries@[k].0@));
                }
                if by_key(self.entries@).contains_key(key) {
                    let k = choose|k: int|
                        0 <= k < self.entries@.len() && (#[trigger] self.entries@[k]).0@ == key;
                    assert(by_key(entries@).contains_key(entries@[k].0@));
                }
            }
            assert forall|key: Seq<char>| #[trigger]
                by_key(self.entries@).contains_key(key) implies cloned(
                by_key(self.entries@)[key],
                by_key(entries@)[key],
            ) by {
                let k = choose|k: int|
                    0 <= k < self.entries@.len() && (#[trigger] self.entries@[k]).0@ == key;
                assert(by_key(self.entries@).contains_key(self.entries@[k].0@));
                assert(by_key(entries@).contains_key(entries@[k].0@));
            }
            assert(by_key(entries@).dom() =~= by_key(self.entries@).dom());
        }
        TextMap { entries }
    }
}

impl<T> Default for TextMap<T> {
    fn default() -> (map: TextMap<T>)
        ensures
            map@ == Map::<Seq<char>, T>::empty(),
    {
        TextMap::new()
    }
}

} // verus!
