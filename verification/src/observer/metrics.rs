//! Counters, snapshots, and the heartbeat line.
//!
//! Every raw event the source produced falls into exactly one bucket: the
//! translator did not score it (`unmapped`), it was a scored shape but a field
//! was missing (`undecodable`), or it was handed to the scorer (`scored`).
use crate::ratio::Fraction;
use crate::text::{chars_of, decimal, decimal_text};
use vstd::prelude::*;

verus! {

/// The live counters.
#[derive(Debug, Clone, Copy, PartialEq, Eq, Structural)]
pub struct Counters {
    /// Raw events the source produced, before translation.
    pub raw_seen: u64,
    /// Wire events that reached the scorer.
    pub scored: u64,
    /// Alerts the scorer produced.
    pub alerts: u64,
    /// Wire events handed to the sink.
    pub shipped: u64,
    /// Events the sink refused, or that had no sink to go to.
    pub dropped: u64,
    /// Times the sink's flush failed.
    pub sink_errors: u64,
    /// Times the source failed.
    pub source_errors: u64,
    /// Flush cycles completed.
    pub flush_count: u64,
    /// Alerts restated on the flush interval.
    pub restated: u64,
}

/// A reading of the counters, taken at a moment.
#[derive(Debug, Clone, Copy, PartialEq, Eq, Structural)]
pub struct MetricsSnapshot {
    pub raw_seen: u64,
    pub scored: u64,
    pub alerts: u64,
    pub shipped: u64,
    pub dropped: u64,
    pub sink_errors: u64,
    pub source_errors: u64,
    pub flush_count: u64,
    pub restated: u64,
}

/// Counters that have counted nothing.
pub open spec fn nothing_counted() -> Counters {
    Counters {
        raw_seen: 0,
        scored: 0,
        alerts: 0,
        shipped: 0,
        dropped: 0,
        sink_errors: 0,
        source_errors: 0,
        flush_count: 0,
        restated: 0,
    }
}

impl Default for Counters {
    fn default() -> (counters: Counters)
        ensures
            counters == nothing_counted(),
    {
        Counters {
            raw_seen: 0,
            scored: 0,
            alerts: 0,
            shipped: 0,
            dropped: 0,
            sink_errors: 0,
            source_errors: 0,
            flush_count: 0,
            restated: 0,
        }
    }
}

impl Counters {
    /// Adds to a counter; past the most it can hold it starts again from zero.
    pub fn bump(counter: &mut u64, by: u64)
        ensures
            *final(counter) == (*old(counter)).wrapping_add(by),
    {
        *counter = (*counter).wrapping_add(by);
    }

    /// The reading of a moment.
    pub open spec fn reading(&self) -> MetricsSnapshot {
        MetricsSnapshot {
            raw_seen: self.raw_seen,
            scored: self.scored,
            alerts: self.alerts,
            shipped: self.shipped,
            dropped: self.dropped,
            sink_errors: self.sink_errors,
            source_errors: self.source_errors,
            flush_count: self.flush_count,
            restated: self.restated,
        }
    }

    /// Reads every counter in one go.
    pub fn snapshot(&self) -> (snapshot: MetricsSnapshot)
        ensures
            snapshot == self.reading(),
    {
        MetricsSnapshot {
            raw_seen: self.raw_seen,
            scored: self.scored,
            alerts: self.alerts,
            shipped: self.shipped,
            dropped: self.dropped,
            sink_errors: self.sink_errors,
            source_errors: self.source_errors,
            flush_count: self.flush_count,
            restated: self.restated,
        }
    }
}

impl Default for MetricsSnapshot {
    fn default() -> (snapshot: MetricsSnapshot)
        ensures
            snapshot == nothing_counted().reading(),
    {
        Counters::default().snapshot()
    }
}

/// Events per second over a span in nanoseconds; zero on a run of no length.
pub open spec fn rate_over(events: u64, wall: u128) -> Fraction {
    if wall == 0 {
        Fraction { num: 0, den: 1 }
    } else {
        Fraction { num: (events * 1_000_000_000) as u128, den: wall }
    }
}

impl MetricsSnapshot {
    /// Events per second over a span in nanoseconds; zero on a run of no length.
    pub fn eps(&self, wall: u128) -> (rate: Fraction)
        ensures
            rate.den > 0,
            rate == rate_over(self.scored, wall),
    {
        if wall == 0 {
            Fraction { num: 0, den: 1 }
        } else {
            Fraction { num: self.scored as u128 * 1_000_000_000, den: wall }
        }
    }

    /// Fraction of raw events that became wire events; one where there were
    /// none.
    pub fn coverage(&self) -> (fraction: Fraction)
        ensures
            fraction.den > 0,
            fraction == if self.raw_seen == 0 {
                Fraction { num: 1, den: 1 }
            } else {
                Fraction { num: self.scored as u128, den: self.raw_seen as u128 }
            },
    {
        if self.raw_seen == 0 {
            Fraction { num: 1, den: 1 }
        } else {
            Fraction { num: self.scored as u128, den: self.raw_seen as u128 }
        }
    }
}

/// A text with spaces in front of it up to a width.
pub open spec fn padded(text: Seq<char>, width: nat) -> Seq<char>
    decreases width,
{
    if text.len() >= width {
        text
    } else {
        seq![' '] + padded(text, (width - 1) as nat)
    }
}

fn push_padded(out: &mut String, text: &str, width: usize)
    ensures
        final(out)@ == old(out)@ + padded(text@, width as nat),
{
    let len: usize = chars_of(text).len();
    let ghost before = out@;
    let mut left: usize = width;
    while len < left
        invariant
            len == text@.len(),
            left <= width,
            out@ + padded(text@, left as nat) == before + padded(text@, width as nat),
        decreases left,
    {
        let ghost now = out@;
        let ghost rest = padded(text@, (left - 1) as nat);
        out.push(' ');
        assert(out@ + rest == now + (seq![' '] + rest));
        left -= 1;
    }
    out.push_str(text);
}

/// What an operator reads while the loop runs. The rate is given as it prints:
/// rounded to a whole number.
#[derive(Debug, Clone)]
pub struct Heartbeat {
    pub events: u64,
    pub eps: String,
    pub alerts: u64,
    pub shipped: u64,
    pub pending: u64,
    pub unmapped: u64,
    pub undecodable: u64,
}

impl Heartbeat {
    /// The heartbeat as one line of text.
    pub open spec fn text(&self) -> Seq<char> {
        "  live   events "@ + padded(decimal_text(self.events as nat), 10) + "  "@ + padded(
            self.eps@,
            8,
        ) + "/s  alerts "@ + padded(decimal_text(self.alerts as nat), 5) + "  shipped "@ + padded(
            decimal_text(self.shipped as nat),
            10,
        ) + "  pending "@ + padded(decimal_text(self.pending as nat), 6) + "  unmapped "@ + padded(
            decimal_text(self.unmapped as nat),
            7,
        ) + "  undecodable "@ + padded(decimal_text(self.undecodable as nat), 7)
    }

    /// The heartbeat as one line of text.
    pub fn line(&self) -> (text: String)
        ensures
            text@ == self.text(),
    {
        let mut out = "  live   events ".to_string();
        push_padded(&mut out, decimal(self.events).as_str(), 10);
        out.push_str("  ");
        push_padded(&mut out, self.eps.as_str(), 8);
        out.push_str("/s  alerts ");
        push_padded(&mut out, decimal(self.alerts).as_str(), 5);
        out.push_str("  shipped ");
        push_padded(&mut out, decimal(self.shipped).as_str(), 10);
        out.push_str("  pending ");
        push_padded(&mut out, decimal(self.pending).as_str(), 6);
        out.push_str("  unmapped ");
        push_padded(&mut out, decimal(self.unmapped).as_str(), 7);
        out.push_str("  undecodable ");
        push_padded(&mut out, decimal(self.undecodable).as_str(), 7);
        out
    }
}

/// A text is padded in front, with spaces alone and up to the width; a longer one
/// is left whole.
pub proof fn padding_is_in_front(text: Seq<char>, width: nat)
    ensures
        text.len() >= width ==> padded(text, width) == text,
        text.len() < width ==> padded(text, width).len() == width,
        padded(text, width).skip(padded(text, width).len() - text.len()) == text,
        forall|i: int|
            0 <= i < padded(text, width).len() - text.len() ==> #[trigger] padded(text, width)[i]
                == ' ',
    decreases width,
{
    if text.len() < width {
        let shorter = padded(text, (width - 1) as nat);
        padding_is_in_front(text, (width - 1) as nat);
        let whole = padded(text, width);
        assert(whole == seq![' '] + shorter);
        assert(whole.skip(whole.len() - text.len()) == shorter.skip(shorter.len() - text.len()));
        assert forall|i: int| 0 <= i < whole.len() - text.len() implies #[trigger] whole[i]
            == ' ' by {
            if i > 0 {
                assert(shorter[i - 1] == ' ');
            }
        }
    } else {
        assert(text.skip(0) == text);
    }
}

/// A rate times the span it is taken over is the events, and a run of no length
/// has none.
pub proof fn rates_give_back_the_events(events: u64, wall: u128)
    ensures
        rate_over(events, wall).den > 0,
        wall > 0 ==> rate_over(events, wall).num * wall == events * 1_000_000_000 * rate_over(
            events,
            wall,
        ).den,
        wall == 0 ==> rate_over(events, wall).num == 0,
{
}

/// A reading shows each counter as it stood, and counters start from nothing.
pub proof fn readings_show_every_counter(counters: Counters)
    ensures
        ({
            let reading = counters.reading();
            &&& reading.raw_seen == counters.raw_seen && reading.scored == counters.scored
            &&& reading.alerts == counters.alerts && reading.shipped == counters.shipped
            &&& reading.dropped == counters.dropped && reading.restated == counters.restated
            &&& reading.sink_errors == counters.sink_errors
            &&& reading.source_errors == counters.source_errors
            &&& reading.flush_count == counters.flush_count
        }),
        ({
            let none = nothing_counted();
            &&& none.raw_seen == 0 && none.scored == 0 && none.alerts == 0 && none.shipped == 0
            &&& none.dropped == 0 && none.sink_errors == 0 && none.source_errors == 0
            &&& none.flush_count == 0 && none.restated == 0
        }),
{
}

} // verus!
