//! The trace: every event, in the order in which it came.
use vstd::prelude::*;

verus! {

/// Stable handle for a trace entry.
#[derive(Debug, Clone, Copy, PartialEq, Eq, PartialOrd, Ord, Structural)]
pub struct EventId(pub u64);

/// One trace entry.
#[derive(Debug, Clone, PartialEq)]
pub struct TraceEvent {
    pub id: EventId,
    /// Time in nanoseconds since the epoch.
    pub ts_ns: i64,
    /// Entity that acted; zero where it is not known.
    pub actor: u64,
    pub action: String,
    pub target: Option<u64>,
}

/// One trace entry, as mathematics.
pub struct Step {
    pub id: u64,
    pub ts_ns: int,
    pub actor: u64,
    pub action: Seq<char>,
    pub target: Option<u64>,
}

impl TraceEvent {
    pub open spec fn step(&self) -> Step {
        Step {
            id: self.id.0,
            ts_ns: self.ts_ns as int,
            actor: self.actor,
            action: self.action@,
            target: self.target,
        }
    }
}

/// The steps a list of entries stands for.
pub open spec fn steps(events: Seq<TraceEvent>) -> Seq<Step> {
    events.map_values(|e: TraceEvent| e.step())
}

/// An append-only trace.
#[derive(Debug, Clone)]
pub struct Trace {
    events: Vec<TraceEvent>,
}

impl Trace {
    /// The entries, in order.
    pub closed spec fn path(&self) -> Seq<Step> {
        steps(self.events@)
    }

    pub fn new() -> (trace: Trace)
        ensures
            trace.path() == Seq::<Step>::empty(),
    {
        Trace { events: Vec::new() }
    }

    /// Appends one entry; what came before stays as it was.
    pub fn push(&mut self, event: TraceEvent)
        ensures
            final(self).path() == old(self).path().push(event.step()),
    {
        let ghost before = steps(self.events@);
        let ghost step = event.step();
        self.events.push(event);
        assert(steps(self.events@) == before.push(step));
    }

    pub fn len(&self) -> (n: usize)
        ensures
            n == self.path().len(),
    {
        self.events.len()
    }

    pub fn is_empty(&self) -> (empty: bool)
        ensures
            empty == (self.path().len() == 0),
    {
        self.events.len() == 0
    }

    pub fn events(&self) -> (events: &[TraceEvent])
        ensures
            steps(events@) == self.path(),
    {
        self.events.as_slice()
    }
}

} // verus!
