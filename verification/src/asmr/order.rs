//! Orders over things that are measured by a number.
//!
//! A number is given as a key that orders like it: the smaller number has the
//! smaller key, and equal numbers share one.
use vstd::prelude::*;

verus! {

/// One candidate piece of work: what it is worth per unit of its cost, and the
/// identity that breaks ties.
#[derive(Debug, Clone, Copy, PartialEq, Eq, Structural)]
pub struct Candidate {
    pub density: i64,
    pub id: u64,
}

/// Whether one candidate comes before another: the denser one, of equally dense
/// ones the one with the smaller identity, and of those the earlier one.
pub open spec fn comes_before(all: Seq<Candidate>, a: int, b: int) -> bool {
    ||| all[a].density > all[b].density
    ||| all[a].density == all[b].density && all[a].id < all[b].id
    ||| all[a].density == all[b].density && all[a].id == all[b].id && a < b
}

/// Whether positions list the first `n` candidates, each once, in order.
pub open spec fn in_order(all: Seq<Candidate>, n: nat, order: Seq<usize>) -> bool {
    &&& order.len() == n
    &&& forall|i: int| 0 <= i < order.len() ==> (#[trigger] order[i]) < n
    &&& forall|i: int, j: int|
        0 <= i < j < order.len() ==> comes_before(
            all,
            (#[trigger] order[i]) as int,
            (#[trigger] order[j]) as int,
        )
    &&& forall|k: usize| k < n ==> #[trigger] order.contains(k)
}

/// The positions of candidates in the order in which they compete for a budget.
pub fn triage_order(all: &[Candidate]) -> (order: Vec<usize>)
    ensures
        in_order(all@, all@.len(), order@),
{
    let mut order: Vec<usize> = Vec::new();
    let mut i: usize = 0;
    while i < all.len()
        invariant
            i <= all@.len(),
            in_order(all@, i as nat, order@),
        decreases all@.len() - i,
    {
        let new = all[i];
        let ghost before = order@;
        let mut at: usize = order.len();
        while at > 0 && (new.density > all[order[at - 1]].density || (new.density
            == all[order[at - 1]].density && new.id < all[order[at - 1]].id))
            invariant
                at <= order@.len(),
                i < all@.len(),
                new == all@[i as int],
                in_order(all@, i as nat, order@),
                order@ == before,
                forall|k: int|
                    at <= k < order@.len() ==> comes_before(
                        all@,
                        i as int,
                        (#[trigger] order@[k]) as int,
                    ),
            decreases at,
        {
            at -= 1;
        }
        assert(at > 0 ==> comes_before(all@, order@[at - 1] as int, i as int));
        assert forall|k: int| 0 <= k < at implies comes_before(
            all@,
            (#[trigger] order@[k]) as int,
            i as int,
        ) by {
            if k < at - 1 {
                assert(comes_before(all@, order@[k] as int, order@[at - 1] as int));
            }
        }
        order.insert(at, i);
        proof {
            lemma_inserted(all@, i, before, order@, at as int);
        }
        i += 1;
    }
    order
}

proof fn lemma_inserted(
    all: Seq<Candidate>,
    n: usize,
    before: Seq<usize>,
    after: Seq<usize>,
    at: int,
)
    requires
        n < all.len(),
        in_order(all, n as nat, before),
        0 <= at <= before.len(),
        after == before.insert(at, n),
        forall|k: int| 0 <= k < at ==> comes_before(all, (#[trigger] before[k]) as int, n as int),
        forall|k: int|
            at <= k < before.len() ==> comes_before(all, n as int, (#[trigger] before[k]) as int),
    ensures
        in_order(all, (n + 1) as nat, after),
{
    assert forall|i: int, j: int| 0 <= i < j < after.len() implies comes_before(
        all,
        (#[trigger] after[i]) as int,
        (#[trigger] after[j]) as int,
    ) by {
        let a = if i < at {
            before[i]
        } else if i == at {
            n
        } else {
            before[i - 1]
        };
        let b = if j < at {
            before[j]
        } else if j == at {
            n
        } else {
            before[j - 1]
        };
        assert(after[i] == a && after[j] == b);
    }
    assert forall|i: int| 0 <= i < after.len() implies (#[trigger] after[i]) < n + 1 by {
        if i < at {
            assert(after[i] == before[i]);
        } else if i > at {
            assert(after[i] == before[i - 1]);
        }
    }
    assert forall|k: usize| k < n + 1 implies #[trigger] after.contains(k) by {
        if k == n {
            assert(after[at] == n);
        } else {
            assert(before.contains(k));
            let w = choose|w: int| 0 <= w < before.len() && before[w] == k;
            if w < at {
                assert(after[w] == k);
            } else {
                assert(after[w + 1] == k);
            }
        }
    }
}

/// Where the first of the highest keys stands.
pub open spec fn is_first_highest(keys: Seq<i64>, at: int) -> bool {
    &&& 0 <= at < keys.len()
    &&& forall|i: int| 0 <= i < keys.len() ==> (#[trigger] keys[i]) <= keys[at]
    &&& forall|i: int| 0 <= i < at ==> (#[trigger] keys[i]) < keys[at]
}

/// The first of the highest keys; none where there are no keys.
pub fn first_highest(keys: &[i64]) -> (at: Option<usize>)
    ensures
        match at {
            Some(i) => is_first_highest(keys@, i as int),
            None => keys@.len() == 0,
        },
{
    if keys.len() == 0 {
        return None;
    }
    let mut best: usize = 0;
    let mut i: usize = 1;
    while i < keys.len()
        invariant
            1 <= i <= keys@.len(),
            best < i,
            forall|k: int| 0 <= k < i ==> (#[trigger] keys@[k]) <= keys@[best as int],
            forall|k: int| 0 <= k < best ==> (#[trigger] keys@[k]) < keys@[best as int],
        decreases keys@.len() - i,
    {
        if keys[i] > keys[best] {
            best = i;
        }
        i += 1;
    }
    Some(best)
}

/// Two orders of the same candidates are the same: nothing is left to chance.
pub proof fn the_order_is_unique(all: Seq<Candidate>, n: nat, a: Seq<usize>, b: Seq<usize>)
    requires
        n <= all.len(),
        in_order(all, n, a),
        in_order(all, n, b),
    ensures
        a == b,
{
    lemma_same_up_to(all, n, a, b, n);
    assert(a.take(n as int) == a);
    assert(b.take(n as int) == b);
}

proof fn lemma_same_up_to(all: Seq<Candidate>, n: nat, a: Seq<usize>, b: Seq<usize>, m: nat)
    requires
        m <= n <= all.len(),
        in_order(all, n, a),
        in_order(all, n, b),
    ensures
        a.take(m as int) == b.take(m as int),
    decreases m,
{
    if m > 0 {
        let k = m - 1;
        lemma_same_up_to(all, n, a, b, k as nat);
        assert forall|i: int| 0 <= i < k implies a[i] == b[i] by {
            assert(a.take(k)[i] == b.take(k)[i]);
        }
        assert(a[k] < n && b[k] < n);
        // What stands at `k` in one order stands at `k` or later in the other.
        let p = first_place(b, a[k]);
        let q = first_place(a, b[k]);
        assert(b.contains(a[k]));
        assert(a.contains(b[k]));
        if p < k {
            assert(a[p] == a[k]);
            assert(comes_before(all, a[p] as int, a[k] as int));
        }
        if q < k {
            assert(b[q] == b[k]);
            assert(comes_before(all, b[q] as int, b[k] as int));
        }
        if p > k && q > k {
            assert(comes_before(all, b[k] as int, b[p] as int));
            assert(comes_before(all, a[k] as int, a[q] as int));
        }
        assert(a[k] == b[k]);
        assert(a.take(m as int) == a.take(k).push(a[k]));
        assert(b.take(m as int) == b.take(k).push(b[k]));
    }
}

spec fn first_place(order: Seq<usize>, position: usize) -> int {
    choose|i: int| 0 <= i < order.len() && order[i] == position
}

} // verus!
