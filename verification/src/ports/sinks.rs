//! Where telemetry comes from and where it goes.
use super::error::{AlertError, SinkError, SourceError};
use crate::model::alert::Alert;
use crate::model::event::{RawEvent, TelemetryEvent};
use std::time::Duration;
use vstd::prelude::*;

verus! {

/// A source of raw telemetry, synchronous and batched.
pub trait EventSource: Send {
    /// Appends up to `max` events, blocking no longer than `timeout`, and
    /// returns how many. None is normal, not an error.
    fn next_batch(
        &mut self,
        out: &mut Vec<RawEvent>,
        max: usize,
        timeout: Duration,
    ) -> Result<usize, SourceError>;

    /// Events the source itself threw away.
    fn dropped_count(&self) -> u64;

    fn name(&self) -> &str;

    fn stop(&mut self) -> Result<(), SourceError>;
}

/// A destination for telemetry. It is driven by the thread that owns it.
pub trait EventSink: Send {
    /// Queues events for delivery. Success means that the events were accepted,
    /// not that they arrived.
    fn write(&mut self, events: Vec<TelemetryEvent>) -> Result<(), SinkError>;

    /// Delivers everything queued.
    fn flush(&mut self) -> Result<(), SinkError>;

    /// How many events are held but not yet delivered.
    fn buffered_count(&self) -> u64 {
        0
    }
}

/// A destination for alerts.
pub trait AlertSink: Send + Sync {
    fn emit(&self, alert: &Alert) -> Result<(), AlertError>;

    fn emitted_count(&self) -> u64 {
        0
    }
}

} // verus!
