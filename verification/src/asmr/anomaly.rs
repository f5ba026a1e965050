//! Structure: which actors have been seen to act on which, and how.
use crate::numbers::one_more;
use crate::ratio::Ratio;
use crate::text::{is_listed, listed, same};
use crate::textmap::{lemma_by_key, TextMap};
use vstd::prelude::*;

verus! {

/// One directed relation: `from` acted on `to` under `label`.
#[derive(Debug, Clone, PartialEq, Eq, PartialOrd, Ord)]
pub struct EdgeKey {
    pub from: String,
    pub to: String,
    pub label: String,
}

impl EdgeKey {
    /// The relation's three names.
    pub open spec fn names(&self) -> (Seq<char>, Seq<char>, Seq<char>) {
        (self.from@, self.to@, self.label@)
    }

    pub fn new(from: &str, to: &str, label: &str) -> (edge: EdgeKey)
        ensures
            edge.names() == (from@, to@, label@),
    {
        EdgeKey { from: from.to_string(), to: to.to_string(), label: label.to_string() }
    }

    fn is(&self, other: &EdgeKey) -> (yes: bool)
        ensures
            yes == (self.names() == other.names()),
    {
        same(self.from.as_str(), other.from.as_str()) && same(
            self.to.as_str(),
            other.to.as_str(),
        ) && same(self.label.as_str(), other.label.as_str())
    }
}

/// How unusual a relation is, in halves.
pub const FAMILIAR: u8 = 0;

/// A new relation between two known actors.
pub const NEW_RELATION: u8 = 1;

/// A relation with at least one unknown actor.
pub const NEW_ACTOR: u8 = 2;

/// Whether a list holds a relation.
pub open spec fn drawn(edges: Seq<EdgeKey>, names: (Seq<char>, Seq<char>, Seq<char>)) -> bool {
    exists|i: int| 0 <= i < edges.len() && (#[trigger] edges[i]).names() == names
}

/// The graph as seen so far.
#[derive(Debug, Clone)]
pub struct StructuralProfile {
    known: Vec<EdgeKey>,
    out_degree: TextMap<u32>,
    nodes: Vec<String>,
}

impl StructuralProfile {
    /// Whether a relation was taught.
    pub closed spec fn has_edge(&self, names: (Seq<char>, Seq<char>, Seq<char>)) -> bool {
        drawn(self.known@, names)
    }

    /// Whether an actor was taught, on either end of a relation.
    pub closed spec fn has_node(&self, node: Seq<char>) -> bool {
        listed(self.nodes@, node)
    }

    /// How often an actor acted.
    pub closed spec fn degree(&self, node: Seq<char>) -> u32 {
        if self.out_degree@.contains_key(node) {
            self.out_degree@[node]
        } else {
            0
        }
    }

    /// How many different relations were taught.
    pub closed spec fn edge_total(&self) -> nat {
        self.known@.len()
    }

    /// How many different actors were taught.
    pub closed spec fn node_total(&self) -> nat {
        self.nodes@.len()
    }

    /// Relations and actors are each held once; both ends of a relation are
    /// actors.
    pub closed spec fn wf(&self) -> bool {
        &&& forall|i: int, j: int|
            0 <= i < j < self.nodes@.len() ==> (#[trigger] self.nodes@[i])@ != (
            #[trigger] self.nodes@[j])@
        &&& forall|i: int, j: int|
            0 <= i < j < self.known@.len() ==> (#[trigger] self.known@[i]).names() != (
            #[trigger] self.known@[j]).names()
        &&& forall|i: int|
            0 <= i < self.known@.len() ==> self.has_node((#[trigger] self.known@[i]).from@)
                && self.has_node(self.known@[i].to@)
    }

    pub fn new() -> (profile: StructuralProfile)
        ensures
            profile.wf(),
            profile.edge_total() == 0,
            profile.node_total() == 0,
            forall|names: (Seq<char>, Seq<char>, Seq<char>)| !#[trigger] profile.has_edge(names),
            forall|node: Seq<char>| !#[trigger] profile.has_node(node),
            forall|node: Seq<char>| #[trigger] profile.degree(node) == 0,
    {
        StructuralProfile { known: Vec::new(), out_degree: TextMap::new(), nodes: Vec::new() }
    }

    /// Whether this is what another profile becomes when it is taught a relation:
    /// the relation and its two ends are known from then on, and the first end
    /// has acted once more.
    pub open spec fn taught(
        &self,
        before: &StructuralProfile,
        edge: (Seq<char>, Seq<char>, Seq<char>),
    ) -> bool {
        &&& forall|names: (Seq<char>, Seq<char>, Seq<char>)| #[trigger]
            self.has_edge(names) == (names == edge || before.has_edge(names))
        &&& forall|node: Seq<char>| #[trigger]
            self.has_node(node) == (node == edge.0 || node == edge.1 || before.has_node(node))
        &&& forall|node: Seq<char>| #[trigger]
            self.degree(node) == if node == edge.0 {
                one_more(before.degree(node))
            } else {
                before.degree(node)
            }
        &&& self.edge_total() == before.edge_total() + (if before.has_edge(edge) {
            0int
        } else {
            1int
        })
        &&& self.node_total() == before.node_total() + (if before.has_node(edge.0) {
            0int
        } else {
            1int
        }) + (if before.has_node(edge.1) || edge.1 == edge.0 {
            0int
        } else {
            1int
        })
    }

    fn teach_node(&mut self, node: &str)
        requires
            old(self).wf(),
        ensures
            final(self).wf(),
            final(self).known == old(self).known,
            final(self).out_degree == old(self).out_degree,
            final(self).node_total() == old(self).node_total() + (if old(self).has_node(node@) {
                0int
            } else {
                1int
            }),
            forall|other: Seq<char>| #[trigger]
                final(self).has_node(other) == (other == node@ || old(self).has_node(other)),
    {
        if !is_listed(self.nodes.as_slice(), node) {
            let ghost before = self.nodes@;
            self.nodes.push(node.to_string());
            proof {
                let after = self.nodes@;
                assert forall|other: Seq<char>| true implies #[trigger] listed(after, other) == (
                other == node@ || listed(before, other)) by {
                    if listed(before, other) {
                        let i = choose|i: int|
                            0 <= i < before.len() && (#[trigger] before[i])@ == other;
                        assert(after[i]@ == other);
                    }
                    if other == node@ {
                        assert(after[before.len() as int]@ == other);
                    }
                    if listed(after, other) && other != node@ {
                        let i = choose|i: int|
                            0 <= i < after.len() && (#[trigger] after[i])@ == other;
                        assert(before[i]@ == other);
                    }
                }
                assert forall|i: int, j: int| 0 <= i < j < after.len() implies (
                #[trigger] after[i])@ != (#[trigger] after[j])@ by {
                    assert(after[i] == before[i]);
                    if j < before.len() {
                        assert(after[j] == before[j]);
                    } else {
                        assert(before[i]@ != node@);
                    }
                }
            }
        }
    }

    /// Teaches the profile an edge. Returns true when the edge itself was new,
    /// whether or not its ends were.
    pub fn observe_edge(&mut self, e: EdgeKey) -> (new: bool)
        requires
            old(self).wf(),
        ensures
            final(self).wf(),
            new == !old(self).has_edge(e.names()),
            final(self).taught(old(self), e.names()),
            final(self).oddity(e.names()) == FAMILIAR,
    {
        let ghost start = *self;
        self.teach_node(e.from.as_str());
        let ghost half = *self;
        self.teach_node(e.to.as_str());
        let ghost taught = *self;
        assert forall|node: Seq<char>| #[trigger] listed(taught.nodes@, node) == (node == e.from@
            || node == e.to@ || start.has_node(node)) by {
            assert(taught.has_node(node) == (node == e.to@ || half.has_node(node)));
            assert(half.has_node(node) == (node == e.from@ || start.has_node(node)));
        }
        assert(half.has_node(e.to@) == (e.to@ == e.from@ || start.has_node(e.to@)));
        let n: u32 = self.out_degree(e.from.as_str()).saturating_add(1);
        let _earlier = self.out_degree.insert(e.from.as_str(), n);
        let ghost edges = self.known@;
        if self.knows_edge(&e) {
            return false;
        }
        let ghost names = e.names();
        self.known.push(e);
        proof {
            let after = self.known@;
            assert(after == edges.push(e));
            assert forall|other: (Seq<char>, Seq<char>, Seq<char>)| true implies #[trigger] drawn(
                after,
                other,
            ) == (other == names || drawn(edges, other)) by {
                if drawn(edges, other) {
                    let i = choose|i: int|
                        0 <= i < edges.len() && (#[trigger] edges[i]).names() == other;
                    assert(after[i].names() == other);
                }
                if other == names {
                    assert(after[edges.len() as int].names() == other);
                }
                if drawn(after, other) && other != names {
                    let i = choose|i: int|
                        0 <= i < after.len() && (#[trigger] after[i]).names() == other;
                    assert(edges[i].names() == other);
                }
            }
            assert forall|i: int, j: int| 0 <= i < j < after.len() implies (
            #[trigger] after[i]).names() != (#[trigger] after[j]).names() by {
                assert(after[i] == edges[i]);
                if j < edges.len() {
                    assert(after[j] == edges[j]);
                } else {
                    assert(edges[i].names() != names);
                }
            }
            assert forall|i: int| 0 <= i < after.len() implies self.has_node(
                (#[trigger] after[i]).from@,
            ) && self.has_node(after[i].to@) by {
                assert(self.nodes == taught.nodes);
                if i < edges.len() {
                    assert(after[i] == edges[i]);
                    assert(start.known@[i] == edges[i]);
                    assert(start.has_node(start.known@[i].from@));
                    assert(start.has_node(start.known@[i].to@));
                    assert(listed(taught.nodes@, after[i].from@));
                    assert(listed(taught.nodes@, after[i].to@));
                } else {
                    assert(listed(taught.nodes@, e.from@));
                    assert(listed(taught.nodes@, e.to@));
                }
            }
        }
        true
    }

    pub fn knows_edge(&self, e: &EdgeKey) -> (known: bool)
        ensures
            known == self.has_edge(e.names()),
    {
        let mut i: usize = 0;
        while i < self.known.len()
            invariant
                i <= self.known@.len(),
                forall|k: int| 0 <= k < i ==> (#[trigger] self.known@[k]).names() != e.names(),
            decreases self.known@.len() - i,
        {
            if self.known[i].is(e) {
                return true;
            }
            i += 1;
        }
        false
    }

    pub fn knows_node(&self, node: &str) -> (known: bool)
        ensures
            known == self.has_node(node@),
    {
        is_listed(self.nodes.as_slice(), node)
    }

    pub fn out_degree(&self, node: &str) -> (n: u32)
        ensures
            n == self.degree(node@),
    {
        match self.out_degree.get(node) {
            Some(n) => *n,
            None => 0,
        }
    }

    pub fn edges(&self) -> (n: usize)
        ensures
            n == self.edge_total(),
    {
        self.known.len()
    }

    pub fn nodes(&self) -> (n: usize)
        ensures
            n == self.node_total(),
    {
        self.nodes.len()
    }

    /// How unusual a relation is before it is taught.
    pub open spec fn oddity(&self, names: (Seq<char>, Seq<char>, Seq<char>)) -> u8 {
        if self.has_edge(names) {
            FAMILIAR
        } else if self.has_node(names.0) && self.has_node(names.1) {
            NEW_RELATION
        } else {
            NEW_ACTOR
        }
    }

    /// How unusual this edge is, in halves, evaluated before it is taught: none
    /// for a relation already known, one half for a new relation between two
    /// known actors, and a whole where at least one end is new.
    pub fn score(&self, e: &EdgeKey) -> (halves: u8)
        ensures
            halves == self.oddity(e.names()),
    {
        if self.knows_edge(e) {
            FAMILIAR
        } else if self.knows_node(e.from.as_str()) && self.knows_node(e.to.as_str()) {
            NEW_RELATION
        } else {
            NEW_ACTOR
        }
    }

    /// Whether `most` is the widest fan-out of any actor.
    pub open spec fn widest(&self, most: u32) -> bool {
        &&& forall|node: Seq<char>| #[trigger] self.degree(node) <= most
        &&& most == 0 || exists|node: Seq<char>| #[trigger] self.degree(node) == most
    }

    fn widest_fanout(&self) -> (most: u32)
        requires
            self.wf(),
        ensures
            self.widest(most),
    {
        let all = self.out_degree.entries();
        let mut most: u32 = 0;
        let mut i: usize = 0;
        while i < all.len()
            invariant
                i <= all@.len(),
                forall|k: int| 0 <= k < i ==> (#[trigger] all@[k]).1 <= most,
                most == 0 || exists|k: int| 0 <= k < i && (#[trigger] all@[k]).1 == most,
            decreases all@.len() - i,
        {
            if all[i].1 > most {
                most = all[i].1;
                assert(all@[i as int].1 == most);
            }
            i += 1;
        }
        proof {
            lemma_by_key(all@);
            assert forall|node: Seq<char>| #[trigger] self.degree(node) <= most by {
                if self.out_degree@.contains_key(node) {
                    let k = choose|k: int| 0 <= k < all@.len() && (#[trigger] all@[k]).0@ == node;
                    assert(self.out_degree@.contains_key(all@[k].0@));
                }
            }
            if most != 0 {
                let k = choose|k: int| 0 <= k < i && (#[trigger] all@[k]).1 == most;
                assert(self.out_degree@.contains_key(all@[k].0@));
                assert(self.degree(all@[k].0@) == most);
            }
        }
        most
    }

    /// This actor's fan-out relative to the widest, between zero and one; zero
    /// for a profile that was taught nothing.
    pub fn fanout_ratio(&self, node: &str) -> (ratio: Ratio)
        requires
            self.wf(),
        ensures
            ratio.wf(),
            exists|most: u32| #[trigger]
                self.widest(most) && ratio == if most == 0 {
                    Ratio { num: 0, den: 1 }
                } else {
                    Ratio { num: self.degree(node@) as u64, den: most as u64 }
                },
    {
        let most: u32 = self.widest_fanout();
        if most == 0 {
            return Ratio { num: 0, den: 1 };
        }
        assert(self.degree(node@) <= most);
        Ratio { num: self.out_degree(node) as u64, den: most as u64 }
    }
}

impl Default for StructuralProfile {
    fn default() -> (profile: StructuralProfile)
        ensures
            profile.wf(),
            profile.edge_total() == 0,
            profile.node_total() == 0,
            forall|names: (Seq<char>, Seq<char>, Seq<char>)| !#[trigger] profile.has_edge(names),
            forall|node: Seq<char>| !#[trigger] profile.has_node(node),
            forall|node: Seq<char>| #[trigger] profile.degree(node) == 0,
    {
        StructuralProfile::new()
    }
}

} // verus!
