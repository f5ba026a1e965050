//! Exact fractions.
use vstd::prelude::*;

verus! {

/// A fraction between zero and one, as its two whole parts.
#[derive(Debug, Clone, Copy, PartialEq, Eq, Structural)]
pub struct Ratio {
    pub num: u64,
    pub den: u64,
}

impl Ratio {
    /// The denominator is positive and the fraction lies between zero and one.
    pub open spec fn wf(&self) -> bool {
        0 < self.den && self.num <= self.den
    }

    /// What is left of one. A fraction and its complement sum to one.
    pub open spec fn complement(&self) -> Ratio {
        Ratio { num: (self.den - self.num) as u64, den: self.den }
    }
}

/// A fraction of whole numbers.
#[derive(Debug, Clone, Copy, PartialEq, Eq, Structural)]
pub struct Fraction {
    pub num: u128,
    pub den: u128,
}

/// A fraction and what is left of one make one, and each is what the other
/// leaves.
pub proof fn complements_make_one(ratio: Ratio)
    requires
        ratio.wf(),
    ensures
        ratio.complement().wf(),
        ratio.complement().den == ratio.den,
        ratio.num + ratio.complement().num == ratio.den,
        ratio.complement().complement() == ratio,
{
}

} // verus!
