//! Counts that stop at the most they can hold, and lists of numbers in order.
use vstd::prelude::*;

verus! {

/// One more, up to the most a count can hold.
pub open spec fn one_more(n: u32) -> u32 {
    if n < u32::MAX {
        (n + 1) as u32
    } else {
        n
    }
}

/// A number that can stand in an ordered list.
pub trait Ranked: Copy {
    /// The number itself.
    spec fn rank(self) -> int;

    /// Whether this number is smaller than another.
    fn is_below(self, other: Self) -> (yes: bool)
        ensures
            yes == (self.rank() < other.rank()),
    ;

    /// Two that are the same number are the same.
    proof fn rank_tells_apart(a: Self, b: Self)
        ensures
            a.rank() == b.rank() ==> a == b,
    ;
}

impl Ranked for u32 {
    open spec fn rank(self) -> int {
        self as int
    }

    fn is_below(self, other: u32) -> (yes: bool) {
        self < other
    }

    proof fn rank_tells_apart(a: u32, b: u32) {
    }
}

impl Ranked for u64 {
    open spec fn rank(self) -> int {
        self as int
    }

    fn is_below(self, other: u64) -> (yes: bool) {
        self < other
    }

    proof fn rank_tells_apart(a: u64, b: u64) {
    }
}

/// Numbers in ascending order, none twice.
pub open spec fn rising<N: Ranked>(list: Seq<N>) -> bool {
    forall|i: int, j: int|
        0 <= i < j < list.len() ==> (#[trigger] list[i]).rank() < (#[trigger] list[j]).rank()
}

/// Adds a number to a rising list, unless it is there already.
pub fn add_rising<N: Ranked>(list: &mut Vec<N>, e: N)
    requires
        rising(old(list)@),
    ensures
        rising(final(list)@),
        forall|x: N| #[trigger] final(list)@.contains(x) == (x == e || old(list)@.contains(x)),
{
    let ghost before = list@;
    let mut at: usize = 0;
    while at < list.len() && list[at].is_below(e)
        invariant
            at <= list@.len(),
            list@ == before,
            forall|k: int| 0 <= k < at ==> (#[trigger] list@[k]).rank() < e.rank(),
        decreases list@.len() - at,
    {
        at += 1;
    }
    if at < list.len() && !e.is_below(list[at]) {
        proof {
            N::rank_tells_apart(before[at as int], e);
        }
        assert(before[at as int] == e);
        return;
    }
    list.insert(at, e);
    proof {
        let after = list@;
        assert forall|i: int, j: int| 0 <= i < j < after.len() implies (
        #[trigger] after[i]).rank() < (#[trigger] after[j]).rank() by {
            let a = if i < at {
                i
            } else {
                i - 1
            };
            let b = if j < at {
                j
            } else {
                j - 1
            };
            if i != at {
                assert(after[i] == before[a]);
            }
            if j != at {
                assert(after[j] == before[b]);
            }
            if i == at && b > at {
                assert(before[at as int].rank() < before[b].rank());
            }
        }
        assert forall|x: N| #[trigger] after.contains(x) == (x == e || before.contains(x)) by {
            if before.contains(x) {
                let k = choose|k: int| 0 <= k < before.len() && before[k] == x;
                assert(after[if k < at {
                    k
                } else {
                    k + 1
                }] == x);
            }
            if x == e {
                assert(after[at as int] == e);
            }
            if after.contains(x) && x != e {
                let k = choose|k: int| 0 <= k < after.len() && after[k] == x;
                assert(before[if k < at {
                    k
                } else {
                    k - 1
                }] == x);
            }
        }
    }
}

/// A count goes up by one, and stays where it can go no further.
pub proof fn counts_go_up_by_one(n: u32)
    ensures
        n < u32::MAX ==> one_more(n) == n + 1,
        n == u32::MAX ==> one_more(n) == n,
{
}

} // verus!
