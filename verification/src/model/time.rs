//! Instants.
use vstd::prelude::*;

verus! {

/// An instant: whole seconds since 1970-01-01T00:00:00Z, and nanoseconds past
/// that second.
#[derive(Debug, Clone, Copy, PartialEq, Eq, Hash, PartialOrd, Ord, Structural)]
pub struct Timestamp {
    pub secs: i64,
    pub nanos: u32,
}

impl Timestamp {
    /// Nanoseconds since 1970-01-01T00:00:00Z.
    pub open spec fn since_epoch(&self) -> int {
        self.secs * 1_000_000_000 + self.nanos
    }

    pub fn new(secs: i64, nanos: u32) -> (at: Timestamp)
        ensures
            at == (Timestamp { secs, nanos }),
    {
        Timestamp { secs, nanos }
    }

    /// Nanoseconds since the epoch, where a signed 64-bit count can hold them.
    pub fn timestamp_nanos_opt(&self) -> (count: Option<i64>)
        ensures
            match count {
                Some(n) => n == self.since_epoch(),
                None => !(i64::MIN <= self.since_epoch() <= i64::MAX),
            },
    {
        let wide: i128 = self.secs as i128 * 1_000_000_000 + self.nanos as i128;
        if i64::MIN as i128 <= wide && wide <= i64::MAX as i128 {
            Some(wide as i64)
        } else {
            None
        }
    }
}

} // verus!
