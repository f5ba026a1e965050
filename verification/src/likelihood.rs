//! Evidence as a pair of conditional probabilities.
use vstd::prelude::*;

verus! {

/// One, in the unit probabilities are given in: ten-thousandths.
pub const ONE: u32 = 10_000;

/// Evidence quality, in ten-thousandths.
#[derive(Debug, Clone, Copy, PartialEq, Eq, Structural)]
pub struct Likelihood {
    /// Probability of the evidence under the malicious hypothesis.
    pub hit: u32,
    /// Probability of the evidence under the benign hypothesis.
    pub miss: u32,
}

/// A probability kept strictly positive and at most one.
pub open spec fn clamped(p: u32) -> u32 {
    if p < 1 {
        1
    } else if p > ONE {
        ONE
    } else {
        p
    }
}

impl Likelihood {
    /// Records the two conditional probabilities.
    pub fn new(hit: u32, miss: u32) -> (likelihood: Likelihood)
        ensures
            likelihood == (Likelihood { hit, miss }),
    {
        Likelihood { hit, miss }
    }

    /// Whether the ratio of hit to miss is positive and finite.
    pub open spec fn wf(&self) -> bool {
        1 <= self.hit <= ONE && 1 <= self.miss <= ONE
    }

    /// Whether this evidence moves a belief strictly less than `other` does:
    /// its ratio of hit to miss is smaller.
    pub open spec fn weaker(&self, other: &Likelihood) -> bool {
        self.hit * other.miss < other.hit * self.miss
    }

    /// Whether this evidence moves a belief strictly less than `other` does.
    pub fn is_weaker(&self, other: &Likelihood) -> (yes: bool)
        ensures
            yes == self.weaker(other),
    {
        let h: u64 = self.hit as u64;
        let m: u64 = self.miss as u64;
        let g: u64 = other.hit as u64;
        let n: u64 = other.miss as u64;
        assert(h * n <= u64::MAX && g * m <= u64::MAX) by (nonlinear_arith)
            requires
                h <= u32::MAX,
                m <= u32::MAX,
                g <= u32::MAX,
                n <= u32::MAX,
        ;
        let left: u64 = h * n;
        let right: u64 = g * m;
        left < right
    }
}

/// Builds a likelihood with both sides clamped strictly positive: a rule without
/// any false positives is a claim no rule is entitled to make.
pub fn evidence(hit: u32, miss: u32) -> (likelihood: Likelihood)
    ensures
        likelihood == (Likelihood { hit: clamped(hit), miss: clamped(miss) }),
        likelihood.wf(),
{
    Likelihood {
        hit: if hit < 1 {
            1
        } else if hit > ONE {
            ONE
        } else {
            hit
        },
        miss: if miss < 1 {
            1
        } else if miss > ONE {
            ONE
        } else {
            miss
        },
    }
}

/// A probability within the unit is kept, none is ever zero, and none is more
/// than one.
pub proof fn probabilities_are_kept_positive(p: u32)
    ensures
        1 <= clamped(p) <= 10_000,
        1 <= p <= 10_000 ==> clamped(p) == p,
        p == 0 ==> clamped(p) == 1,
        p >= 10_000 ==> clamped(p) == 10_000,
{
}

/// Evidence that fires more often under attack, or less often on a clean host, is
/// the stronger.
pub proof fn better_evidence_is_stronger(a: Likelihood, b: Likelihood)
    requires
        a.wf(),
        b.wf(),
    ensures
        !a.weaker(&a),
        a.weaker(&b) ==> !b.weaker(&a),
        a.miss == b.miss ==> (a.weaker(&b) <==> a.hit < b.hit),
        a.hit == b.hit ==> (a.weaker(&b) <==> a.miss > b.miss),
{
    let (h, m, g, n) = (a.hit as int, a.miss as int, b.hit as int, b.miss as int);
    assert(m == n ==> (h * n < g * m <==> h < g)) by (nonlinear_arith)
        requires
            m > 0,
    ;
    assert(h == g ==> (h * n < g * m <==> m > n)) by (nonlinear_arith)
        requires
            h > 0,
    ;
}

/// Being weaker goes on: what is weaker than the weaker is weaker.
pub proof fn weakness_is_transitive(a: Likelihood, b: Likelihood, c: Likelihood)
    requires
        a.wf(),
        b.wf(),
        c.wf(),
        a.weaker(&b),
        b.weaker(&c),
    ensures
        a.weaker(&c),
{
    let (h, m, g, n, k, l) = (
        a.hit as int,
        a.miss as int,
        b.hit as int,
        b.miss as int,
        c.hit as int,
        c.miss as int,
    );
    assert(h * l < k * m) by (nonlinear_arith)
        requires
            h * n < g * m,
            g * l < k * n,
            m > 0,
            n > 0,
            l > 0,
            g > 0,
    {
        assert((h * n) * l < (g * m) * l);
        assert((g * l) * m < (k * n) * m);
        assert((h * n) * l == (h * l) * n);
        assert((g * m) * l == (g * l) * m);
        assert((k * n) * m == (k * m) * n);
    }
}

} // verus!
