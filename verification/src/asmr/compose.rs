//! How subsystems depend on each other, and how far a failure spreads.
use crate::numbers::{add_rising, rising};
use std::collections::BTreeSet;
use vstd::prelude::*;

verus! {

/// The kind of relation between two subsystems.
#[derive(Debug, Clone, Copy, PartialEq, Eq, PartialOrd, Ord, Structural)]
pub enum EdgeKind {
    /// Failure follows the edge.
    Depends,
    /// Traffic follows the edge.
    Talks,
    /// The target is inside the source.
    Contains,
}

/// One directed edge.
#[derive(Debug, Clone, Copy, PartialEq, Eq, Structural)]
pub struct Link {
    pub from: u32,
    pub to: u32,
    pub kind: EdgeKind,
}

/// A directed graph of subsystems.
#[derive(Debug, Clone)]
pub struct Composition {
    links: Vec<Link>,
    nodes: Vec<u32>,
}

/// Whether an edge leads from one node to another.
pub open spec fn leads(links: Seq<Link>, a: u32, b: u32) -> bool {
    exists|i: int| 0 <= i < links.len() && (#[trigger] links[i]).from == a && links[i].to == b
}

/// Whether a sequence of nodes follows the edges.
pub open spec fn is_path(links: Seq<Link>, path: Seq<u32>) -> bool {
    forall|i: int| 0 <= i < path.len() - 1 ==> leads(links, #[trigger] path[i], path[i + 1])
}

/// Whether a path leads from one node to another. Every node reaches itself.
pub open spec fn reaches(links: Seq<Link>, a: u32, b: u32) -> bool {
    exists|path: Seq<u32>|
        path.len() > 0 && path[0] == a && path.last() == b && #[trigger] is_path(links, path)
}

/// Every node reaches itself.
pub proof fn reaching_is_reflexive(links: Seq<Link>, a: u32)
    ensures
        reaches(links, a, a),
{
    let path = seq![a];
    assert(is_path(links, path));
}

/// Following one more edge reaches its target.
pub proof fn reaching_extends(links: Seq<Link>, a: u32, b: u32, c: u32)
    requires
        reaches(links, a, b),
        leads(links, b, c),
    ensures
        reaches(links, a, c),
{
    let path = choose|path: Seq<u32>|
        path.len() > 0 && path[0] == a && path.last() == b && #[trigger] is_path(links, path);
    let longer = path.push(c);
    assert forall|i: int| 0 <= i < longer.len() - 1 implies leads(
        links,
        #[trigger] longer[i],
        longer[i + 1],
    ) by {
        if i < path.len() - 1 {
            assert(leads(links, path[i], path[i + 1]));
        }
    }
    assert(is_path(links, longer));
}

/// Reaching is transitive.
pub proof fn reaching_is_transitive(links: Seq<Link>, a: u32, b: u32, c: u32)
    requires
        reaches(links, a, b),
        reaches(links, b, c),
    ensures
        reaches(links, a, c),
{
    let path = choose|path: Seq<u32>|
        path.len() > 0 && path[0] == b && path.last() == c && #[trigger] is_path(links, path);
    lemma_follow(links, a, path, path.len() - 1);
}

proof fn lemma_follow(links: Seq<Link>, a: u32, path: Seq<u32>, n: int)
    requires
        0 <= n < path.len(),
        is_path(links, path),
        reaches(links, a, path[0]),
    ensures
        reaches(links, a, path[n]),
    decreases n,
{
    if n > 0 {
        lemma_follow(links, a, path, n - 1);
        assert(leads(links, path[n - 1], path[n]));
        reaching_extends(links, a, path[n - 1], path[n]);
    }
}

/// A set that holds a node and every successor of its members holds everything
/// the node reaches.
proof fn lemma_closed(links: Seq<Link>, a: u32, b: u32, members: Set<u32>)
    requires
        members.contains(a),
        forall|x: u32, y: u32|
            members.contains(x) && #[trigger] leads(links, x, y) ==> members.contains(y),
        reaches(links, a, b),
    ensures
        members.contains(b),
{
    let path = choose|path: Seq<u32>|
        path.len() > 0 && path[0] == a && path.last() == b && #[trigger] is_path(links, path);
    lemma_closed_path(links, path, members, path.len() - 1);
}

proof fn lemma_closed_path(links: Seq<Link>, path: Seq<u32>, members: Set<u32>, n: int)
    requires
        0 <= n < path.len(),
        is_path(links, path),
        members.contains(path[0]),
        forall|x: u32, y: u32|
            members.contains(x) && #[trigger] leads(links, x, y) ==> members.contains(y),
    ensures
        members.contains(path[n]),
    decreases n,
{
    if n > 0 {
        lemma_closed_path(links, path, members, n - 1);
        assert(leads(links, path[n - 1], path[n]));
    }
}

/// Every node some edge leads to.
spec fn targets(links: Seq<Link>) -> Set<u32>
    decreases links.len(),
{
    if links.len() == 0 {
        Set::empty()
    } else {
        targets(links.drop_last()).insert(links.last().to)
    }
}

proof fn lemma_targets(links: Seq<Link>)
    ensures
        targets(links).finite(),
        forall|i: int| 0 <= i < links.len() ==> targets(links).contains((#[trigger] links[i]).to),
    decreases links.len(),
{
    if links.len() > 0 {
        let front = links.drop_last();
        lemma_targets(front);
        assert forall|i: int| 0 <= i < links.len() implies targets(links).contains(
            (#[trigger] links[i]).to,
        ) by {
            if i < front.len() {
                assert(front[i] == links[i]);
            }
        }
    }
}

impl Composition {
    /// The edges, in the order in which they were added.
    pub closed spec fn edges(&self) -> Seq<Link> {
        self.links@
    }

    /// The node list is rising and holds exactly the ends of the edges.
    pub closed spec fn wf(&self) -> bool {
        &&& rising(self.nodes@)
        &&& forall|n: u32| #[trigger] self.nodes@.contains(n) == is_end(self.links@, n)
    }

    pub fn new() -> (graph: Composition)
        ensures
            graph.wf(),
            graph.edges() == Seq::<Link>::empty(),
    {
        Composition { links: Vec::new(), nodes: Vec::new() }
    }

    /// Adds one edge behind those already there.
    pub fn add_edge(&mut self, from: u32, to: u32, kind: EdgeKind)
        requires
            old(self).wf(),
        ensures
            final(self).wf(),
            final(self).edges() == old(self).edges().push(Link { from, to, kind }),
    {
        let ghost before = self.links@;
        let ghost had = self.nodes@;
        add_rising(&mut self.nodes, from);
        let ghost half = self.nodes@;
        add_rising(&mut self.nodes, to);
        self.links.push(Link { from, to, kind });
        proof {
            let after = self.links@;
            let last = Link { from, to, kind };
            assert(after == before.push(last));
            assert forall|n: u32| #[trigger] self.nodes@.contains(n) == is_end(after, n) by {
                assert(half.contains(n) == (n == from || had.contains(n)));
                assert(had.contains(n) == is_end(before, n));
                if is_end(before, n) {
                    let i = choose|i: int|
                        0 <= i < before.len() && ((#[trigger] before[i]).from == n || before[i].to
                            == n);
                    assert(after[i].from == n || after[i].to == n);
                }
                if n == from || n == to {
                    assert(after[before.len() as int] == last);
                }
                if is_end(after, n) {
                    let i = choose|i: int|
                        0 <= i < after.len() && ((#[trigger] after[i]).from == n || after[i].to
                            == n);
                    if i < before.len() {
                        assert(before[i].from == n || before[i].to == n);
                    }
                }
            }
        }
    }

    /// Every end of an edge, in ascending order.
    pub fn nodes(&self) -> (nodes: Vec<u32>)
        requires
            self.wf(),
        ensures
            rising(nodes@),
            forall|n: u32| #[trigger] nodes@.contains(n) == is_end(self.edges(), n),
    {
        let mut out: Vec<u32> = Vec::new();
        let mut i: usize = 0;
        while i < self.nodes.len()
            invariant
                i <= self.nodes@.len(),
                out@ == self.nodes@.take(i as int),
            decreases self.nodes@.len() - i,
        {
            out.push(self.nodes[i]);
            i += 1;
        }
        assert(out@ == self.nodes@);
        out
    }

    pub fn edge_count(&self) -> (n: usize)
        ensures
            n == self.edges().len(),
    {
        self.links.len()
    }

    /// Everything `from` reaches, itself included. A cycle is normal here, so
    /// the search is iterative and visits each node once.
    #[verifier::loop_isolation(false)]
    pub fn reachable(&self, from: u32) -> (seen: BTreeSet<u32>)
        ensures
            forall|n: u32| #[trigger] seen@.contains(n) == reaches(self.edges(), from, n),
            seen@.finite(),
    {
        let ghost links = self.edges();
        let mut seen: BTreeSet<u32> = BTreeSet::new();
        let mut stack: Vec<u32> = Vec::new();
        stack.push(from);
        seen.insert(from);
        let ghost universe: Set<u32> = targets(links).insert(from);
        proof {
            reaching_is_reflexive(links, from);
            lemma_targets(links);
            vstd::set_lib::lemma_len_subset(seen@, universe);
            assert(stack@[0] == from);
        }
        while stack.len() > 0
            invariant
                seen@.finite(),
                seen@.contains(from),
                forall|n: u32| #[trigger] seen@.contains(n) ==> reaches(links, from, n),
                forall|i: int| 0 <= i < stack@.len() ==> seen@.contains(#[trigger] stack@[i]),
                forall|x: u32, y: u32|
                    seen@.contains(x) && !stack@.contains(x) && #[trigger] leads(links, x, y)
                        ==> seen@.contains(y),
                seen@.subset_of(universe),
                seen@.len() <= universe.len(),
            decreases universe.len() - seen@.len(), stack@.len(),
        {
            let ghost before = stack@;
            let ghost was = seen@;
            let node: u32 = match stack.pop() {
                Some(node) => node,
                None => {
                    return seen;
                },
            };
            assert(before == stack@.push(node));
            assert(before[before.len() - 1] == node);
            let ghost popped = stack@;
            let mut i: usize = 0;
            while i < self.links.len()
                invariant
                    i <= self.links@.len(),
                    seen@.finite(),
                    was.subset_of(seen@),
                    seen@.contains(node),
                    forall|n: u32| #[trigger] seen@.contains(n) ==> reaches(links, from, n),
                    forall|k: int| 0 <= k < stack@.len() ==> seen@.contains(#[trigger] stack@[k]),
                    forall|k: int|
                        0 <= k < i && (#[trigger] links[k]).from == node ==> seen@.contains(
                            links[k].to,
                        ),
                    forall|n: u32|
                        #[trigger] seen@.contains(n) && !was.contains(n) ==> stack@.contains(n),
                    forall|n: u32| #[trigger] popped.contains(n) ==> stack@.contains(n),
                    seen@.subset_of(universe),
                    seen@.len() <= universe.len(),
                    seen@.len() >= was.len(),
                    seen@.len() == was.len() ==> seen@ == was && stack@ == popped,
                decreases self.links@.len() - i,
            {
                let link = self.links[i];
                if link.from == node {
                    let ghost held = seen@;
                    let ghost piled = stack@;
                    if seen.insert(link.to) {
                        stack.push(link.to);
                        proof {
                            assert(links[i as int] == link);
                            assert(leads(links, node, link.to));
                            reaching_extends(links, from, node, link.to);
                            assert(targets(links).contains(links[i as int].to));
                            vstd::set_lib::lemma_len_subset(seen@, universe);
                            assert(stack@ == piled.push(link.to));
                            assert(stack@[piled.len() as int] == link.to);
                            assert forall|n: u32| #[trigger] piled.contains(n) implies stack@.contains(
                                n,
                            ) by {
                                let k = choose|k: int| 0 <= k < piled.len() && piled[k] == n;
                                assert(stack@[k] == n);
                            }
                            assert forall|k: int| 0 <= k < stack@.len() implies seen@.contains(
                                #[trigger] stack@[k],
                            ) by {
                                if k < piled.len() {
                                    assert(held.contains(piled[k]));
                                }
                            }
                        }
                    } else {
                        assert(seen@ == held);
                    }
                }
                i += 1;
            }
            proof {
                assert forall|x: u32, y: u32|
                    seen@.contains(x) && !stack@.contains(x) && #[trigger] leads(
                        links,
                        x,
                        y,
                    ) implies seen@.contains(y) by {
                    assert(was.contains(x));
                    if x == node {
                        let k = choose|k: int|
                            0 <= k < links.len() && (#[trigger] links[k]).from == x && links[k].to
                                == y;
                        assert(links[k].from == node);
                    } else {
                        if before.contains(x) {
                            let k = choose|k: int| 0 <= k < before.len() && before[k] == x;
                            assert(popped[k] == x);
                            assert(popped.contains(x));
                        }
                        assert(was.contains(y));
                    }
                }
            }
        }
        proof {
            assert forall|n: u32| #[trigger] seen@.contains(n) == reaches(links, from, n) by {
                if reaches(links, from, n) {
                    assert forall|x: u32, y: u32|
                        seen@.contains(x) && #[trigger] leads(
                            links,
                            x,
                            y,
                        ) implies seen@.contains(y) by {
                        assert(!stack@.contains(x));
                    }
                    lemma_closed(links, from, n, seen@);
                }
            }
        }
        seen
    }

    /// How many nodes a failure at `from` can spread to, itself included. One
    /// means fully contained.
    pub fn blast_radius(&self, from: u32) -> (n: usize)
        ensures
            n == Set::new(|b: u32| reaches(self.edges(), from, b)).len(),
    {
        let seen = self.reachable(from);
        assert(seen@ =~= Set::new(|b: u32| reaches(self.edges(), from, b)));
        seen.len()
    }

    /// True when nothing in the graph has an edge into `from`.
    pub fn is_isolated(&self, from: u32) -> (yes: bool)
        ensures
            yes == !exists|a: u32| leads(self.edges(), a, from),
    {
        let mut i: usize = 0;
        while i < self.links.len()
            invariant
                i <= self.links@.len(),
                forall|k: int| 0 <= k < i ==> (#[trigger] self.links@[k]).to != from,
            decreases self.links@.len() - i,
        {
            if self.links[i].to == from {
                assert(leads(self.edges(), self.links@[i as int].from, from));
                return false;
            }
            i += 1;
        }
        true
    }
}

/// Whether a node is an end of some edge.
pub open spec fn is_end(links: Seq<Link>, n: u32) -> bool {
    exists|i: int| 0 <= i < links.len() && ((#[trigger] links[i]).from == n || links[i].to == n)
}

impl Default for Composition {
    fn default() -> (graph: Composition)
        ensures
            graph.wf(),
            graph.edges() == Seq::<Link>::empty(),
    {
        Composition::new()
    }
}

} // verus!
