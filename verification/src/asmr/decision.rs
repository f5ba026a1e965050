//! Acting on a belief.
use crate::model::value::INFINITY_BITS;
use vstd::prelude::*;

verus! {

/// Whether to respond.
#[derive(Debug, Clone, Copy, PartialEq, Eq, Structural)]
pub enum Decision {
    /// Take the response action.
    Act,
    /// Do nothing this round.
    Abstain,
}

/// A probability: the bit pattern of the number, and the text an alert quotes.
///
/// The bit patterns of numbers that are not negative order as the numbers do.
#[derive(Debug, Clone)]
pub struct Probability {
    pub bits: u64,
    pub text: String,
}

/// Whether a bit pattern is a number that is at least the one of `bound`.
pub open spec fn reaches(bits: u64, bound: u64) -> bool {
    bound <= bits <= INFINITY_BITS
}

impl Probability {
    /// Whether the probability is at least the one whose bit pattern is `bound`.
    pub fn at_least(&self, bound: u64) -> (yes: bool)
        ensures
            yes == reaches(self.bits, bound),
    {
        bound <= self.bits && self.bits <= INFINITY_BITS
    }
}

} // verus!
