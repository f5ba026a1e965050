//! How far each source of evidence is trusted.
//!
//! Trust is a number between zero and one. It is held as the bit pattern of that
//! number: the patterns of numbers that are not negative order as the numbers
//! do, which is all that the two combinations need. Discounts, which multiply,
//! are worked out by the caller.
use crate::textmap::TextMap;
use crate::model::value::INFINITY_BITS;
use vstd::prelude::*;

verus! {

/// The bit pattern of one half.
pub const HALF_BITS: u64 = 0x3fe0_0000_0000_0000;

/// The bit pattern of one.
pub const ONE_BITS: u64 = 0x3ff0_0000_0000_0000;

/// The least bit pattern of a negative number.
pub const SIGN_BIT: u64 = 0x8000_0000_0000_0000;

/// The bit pattern of minus infinity.
pub const MINUS_INFINITY_BITS: u64 = 0xfff0_0000_0000_0000;

/// A trust value.
#[derive(Debug, Clone, Copy, PartialEq, Eq, PartialOrd, Structural)]
pub struct Trust {
    bits: u64,
}

/// A number kept between zero and one, as bit patterns; what is not a number is
/// one half.
pub open spec fn kept_in_unit(bits: u64) -> u64 {
    if bits <= ONE_BITS {
        bits
    } else if bits <= INFINITY_BITS {
        ONE_BITS
    } else if SIGN_BIT <= bits <= MINUS_INFINITY_BITS {
        0
    } else {
        HALF_BITS
    }
}

impl Trust {
    /// The bit pattern.
    pub closed spec fn level(self) -> u64 {
        self.bits
    }

    /// Trust is at most full.
    pub open spec fn wf(self) -> bool {
        self.level() <= ONE_BITS
    }

    /// No trust: evidence from this source is ignored.
    pub fn none() -> (trust: Trust)
        ensures
            trust.level() == 0,
            trust.wf(),
    {
        Trust { bits: 0 }
    }

    /// No opinion yet, which is not the same as a decision that the source is
    /// worthless.
    pub fn unknown() -> (trust: Trust)
        ensures
            trust.level() == HALF_BITS,
            trust.wf(),
    {
        Trust { bits: HALF_BITS }
    }

    /// A local sensor under control end to end.
    pub fn full() -> (trust: Trust)
        ensures
            trust.level() == ONE_BITS,
            trust.wf(),
    {
        Trust { bits: ONE_BITS }
    }

    /// Trust from the bit pattern of any number. Zero has one form.
    pub fn new(bits: u64) -> (trust: Trust)
        ensures
            trust.level() == kept_in_unit(bits),
            trust.wf(),
    {
        if bits <= ONE_BITS {
            Trust { bits }
        } else if bits <= INFINITY_BITS {
            Trust::full()
        } else if SIGN_BIT <= bits && bits <= MINUS_INFINITY_BITS {
            Trust::none()
        } else {
            Trust::unknown()
        }
    }

    /// The bit pattern of the value.
    pub fn get(&self) -> (bits: u64)
        ensures
            bits == self.level(),
    {
        self.bits
    }

    /// The pessimistic combination: trust is only as good as the weaker of two
    /// sources.
    pub fn meet(&self, other: Trust) -> (trust: Trust)
        ensures
            trust.level() == lower(self.level(), other.level()),
            trust == *self || trust == other,
    {
        if self.bits <= other.bits {
            *self
        } else {
            other
        }
    }

    /// The optimistic combination.
    pub fn join(&self, other: Trust) -> (trust: Trust)
        ensures
            trust.level() == higher(self.level(), other.level()),
            trust == *self || trust == other,
    {
        if self.bits >= other.bits {
            *self
        } else {
            other
        }
    }
}

impl Default for Trust {
    fn default() -> (trust: Trust)
        ensures
            trust.level() == HALF_BITS,
            trust.wf(),
    {
        Trust::unknown()
    }
}

/// The lower of two levels.
pub open spec fn lower(a: u64, b: u64) -> u64 {
    if a <= b {
        a
    } else {
        b
    }
}

/// The higher of two levels.
pub open spec fn higher(a: u64, b: u64) -> u64 {
    if a >= b {
        a
    } else {
        b
    }
}

/// Trust is a bounded lattice: both combinations are idempotent, commute and
/// associate, each absorbs the other, no trust and full trust are the bounds,
/// and combining stays within them.
pub proof fn trust_is_a_bounded_lattice(a: u64, b: u64, c: u64)
    requires
        a <= ONE_BITS,
        b <= ONE_BITS,
        c <= ONE_BITS,
    ensures
        lower(a, a) == a,
        higher(a, a) == a,
        lower(a, b) == lower(b, a),
        higher(a, b) == higher(b, a),
        lower(lower(a, b), c) == lower(a, lower(b, c)),
        higher(higher(a, b), c) == higher(a, higher(b, c)),
        lower(a, higher(a, b)) == a,
        higher(a, lower(a, b)) == a,
        lower(a, 0) == 0,
        higher(a, ONE_BITS) == ONE_BITS,
        lower(a, b) <= ONE_BITS,
        higher(a, b) <= ONE_BITS,
{
}

/// Trust per source for a running pipeline.
#[derive(Debug, Clone)]
pub struct TrustLedger {
    sources: TextMap<Trust>,
}

impl TrustLedger {
    /// What a source is trusted, where that was decided.
    pub closed spec fn decided(&self, source: Seq<char>) -> Option<Trust> {
        if self.sources@.contains_key(source) {
            Some(self.sources@[source])
        } else {
            None
        }
    }

    /// How far a source is trusted. One that nothing is known of is not thereby
    /// worthless.
    pub open spec fn level_of(&self, source: Seq<char>) -> u64 {
        match self.decided(source) {
            Some(trust) => trust.level(),
            None => HALF_BITS,
        }
    }

    /// How many sources something was decided of.
    pub closed spec fn size(&self) -> nat {
        self.sources@.len()
    }

    pub fn new() -> (ledger: TrustLedger)
        ensures
            ledger.size() == 0,
            forall|source: Seq<char>| #[trigger] ledger.decided(source) is None,
    {
        TrustLedger { sources: TextMap::new() }
    }

    /// How far a source is trusted.
    pub fn get(&self, source: &str) -> (trust: Trust)
        ensures
            trust.level() == self.level_of(source@),
            self.decided(source@) matches Some(known) ==> trust == known,
    {
        match self.sources.get(source) {
            Some(trust) => *trust,
            None => Trust::unknown(),
        }
    }

    /// Decides what a source is trusted.
    pub fn set(&mut self, source: &str, t: Trust)
        ensures
            final(self).size() == old(self).size() + (if old(self).decided(source@) is None {
                1int
            } else {
                0int
            }),
            forall|other: Seq<char>| #[trigger]
                final(self).decided(other) == if other == source@ {
                    Some(t)
                } else {
                    old(self).decided(other)
                },
    {
        let _earlier = self.sources.insert(source, t);
    }

    /// Lowers a source's trust to a discounted value, for instance after it is
    /// caught raising a false alarm. Trust is only ever degraded, never silently
    /// restored: a discount that would raise it leaves it as it is.
    pub fn degrade(&mut self, source: &str, discounted: Trust)
        ensures
            final(self).level_of(source@) == lower(
                old(self).level_of(source@),
                discounted.level(),
            ),
            final(self).level_of(source@) <= old(self).level_of(source@),
            forall|other: Seq<char>|
                other != source@ ==> #[trigger] final(self).decided(other) == old(self).decided(
                    other,
                ),
            final(self).size() == old(self).size() + (if old(self).decided(source@) is None {
                1int
            } else {
                0int
            }),
    {
        let current = self.get(source);
        let kept = current.meet(discounted);
        self.set(source, kept);
        assert(self.decided(source@) == Some(kept));
    }

    pub fn len(&self) -> (n: usize)
        ensures
            n == self.size(),
    {
        self.sources.len()
    }

    pub fn is_empty(&self) -> (empty: bool)
        ensures
            empty == (self.size() == 0),
    {
        self.sources.len() == 0
    }
}

impl Default for TrustLedger {
    fn default() -> (ledger: TrustLedger)
        ensures
            ledger.size() == 0,
            forall|source: Seq<char>| #[trigger] ledger.decided(source) is None,
    {
        TrustLedger::new()
    }
}

} // verus!
