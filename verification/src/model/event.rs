//! Telemetry events.
use super::error::ModelError;
use super::host::HostId;
use super::kind::EventKind;
use super::time::Timestamp;
use super::value::Value;
use std::sync::Arc;
use vstd::prelude::*;

verus! {

/// The schema version every event carries.
pub const CURRENT_SCHEMA_VERSION: u16 = 2;

/// The most bytes a serialised payload may take.
pub const MAX_PAYLOAD_SIZE: usize = 65_536;

/// A provider's identity, cheap to clone.
#[derive(Debug, PartialEq, Eq, Hash)]
pub struct ProviderId(Arc<String>);

impl View for ProviderId {
    type V = Seq<char>;

    closed spec fn view(&self) -> Seq<char> {
        self.0@
    }
}

impl ProviderId {
    pub fn new(s: &str) -> (id: ProviderId)
        ensures
            id@ == s@,
    {
        ProviderId(Arc::new(s.to_string()))
    }

    pub fn as_str(&self) -> (name: &str)
        ensures
            name@ == self@,
    {
        self.0.as_str()
    }
}

impl Clone for ProviderId {
    fn clone(&self) -> (copy: ProviderId)
        ensures
            copy == *self,
    {
        ProviderId(self.0.clone())
    }
}

#[derive(Debug, Clone, Copy, PartialEq, Eq, Hash, PartialOrd, Ord, Structural)]
pub struct EventId(pub u64);

impl EventId {
    pub fn new(n: u64) -> (id: EventId)
        ensures
            id == EventId(n),
    {
        EventId(n)
    }

    pub fn as_u64(&self) -> (n: u64)
        ensures
            n == self.0,
    {
        self.0
    }
}

/// Counts bytes as they are written and refuses the write that passes a limit.
#[derive(Debug)]
pub struct LimitedCounter {
    pub written: usize,
    pub limit: usize,
}

impl LimitedCounter {
    /// A counter for one payload.
    pub fn for_payload() -> (counter: LimitedCounter)
        ensures
            counter == (LimitedCounter { written: 0, limit: MAX_PAYLOAD_SIZE }),
    {
        LimitedCounter { written: 0, limit: MAX_PAYLOAD_SIZE }
    }

    /// Counts a write of `len` bytes; `false` when the total passes the limit.
    /// The count includes the write that was refused.
    pub fn write(&mut self, len: usize) -> (accepted: bool)
        requires
            old(self).written + len <= usize::MAX,
        ensures
            final(self).written == old(self).written + len,
            final(self).limit == old(self).limit,
            accepted == (final(self).written <= final(self).limit),
    {
        self.written = self.written + len;
        self.written <= self.limit
    }
}

/// The provider's own fields, as they came off the wire.
///
/// The serialised size is the thing with a limit, and it is counted while the
/// writer runs, so an oversized payload is refused without ever building the
/// oversized buffer.
#[derive(Debug, Clone, PartialEq)]
pub struct Payload {
    value: Value,
}

impl Payload {
    /// The value carried.
    pub closed spec fn held(&self) -> Value {
        self.value
    }

    /// A payload of a value whose serialisation was written through `counter`
    /// and ended in `outcome`.
    ///
    /// A failed serialisation is an oversized payload where the count passed
    /// the ceiling, and an invalid one otherwise.
    pub fn new(value: Value, counter: &LimitedCounter, outcome: Result<(), String>) -> (payload:
        Result<Payload, ModelError>)
        ensures
            match (outcome, payload) {
                (Ok(_), Ok(p)) => p.held() == value,
                (Err(reason), Err(error)) => error == if counter.written > MAX_PAYLOAD_SIZE {
                    ModelError::PayloadTooLarge { size: counter.written, max: MAX_PAYLOAD_SIZE }
                } else {
                    ModelError::InvalidValue { field: "payload", value: reason }
                },
                _ => false,
            },
    {
        match outcome {
            Ok(_) => Ok(Payload { value }),
            Err(reason) => {
                if counter.written > MAX_PAYLOAD_SIZE {
                    Err(
                        ModelError::PayloadTooLarge {
                            size: counter.written,
                            max: MAX_PAYLOAD_SIZE,
                        },
                    )
                } else {
                    Err(ModelError::InvalidValue { field: "payload", value: reason })
                }
            },
        }
    }

    /// A payload with nothing in it.
    pub fn empty() -> (payload: Payload)
        ensures
            payload.held() == Value::Null,
    {
        Payload { value: Value::Null }
    }

    pub fn value(&self) -> (value: &Value)
        ensures
            *value == self.held(),
    {
        &self.value
    }

    pub fn into_value(self) -> (value: Value)
        ensures
            value == self.held(),
    {
        self.value
    }
}

#[derive(Debug, Clone, Copy, PartialEq, Eq, Structural)]
pub enum EventSource {
    WindowsEtw,
    LinuxEbpf,
    MacOsEs,
}

#[derive(Debug, Clone)]
pub struct RawEvent {
    pub source: EventSource,
    pub provider: ProviderId,
    pub event_id: u16,
    pub timestamp_raw: i64,
    pub pid: u32,
    pub tid: u32,
    pub level: u8,
    pub data: Vec<u8>,
}

#[derive(Debug, Clone)]
pub struct TelemetryEvent {
    pub id: EventId,
    pub host: HostId,
    pub timestamp: Timestamp,
    pub received_at: Option<Timestamp>,
    pub schema_version: u16,
    pub source: EventSource,
    pub provider: ProviderId,
    pub event_id: u16,
    pub pid: u32,
    pub tid: u32,
    pub level: u8,
    pub kind: EventKind,
    pub payload: Payload,
}

impl TelemetryEvent {
    /// An event of the current schema, not yet received.
    pub fn new(
        id: EventId,
        host: HostId,
        timestamp: Timestamp,
        source: EventSource,
        provider: ProviderId,
        event_id: u16,
        pid: u32,
        tid: u32,
        level: u8,
        kind: EventKind,
        payload: Payload,
    ) -> (event: TelemetryEvent)
        ensures
            event == (TelemetryEvent {
                id,
                host,
                timestamp,
                received_at: None,
                schema_version: CURRENT_SCHEMA_VERSION,
                source,
                provider,
                event_id,
                pid,
                tid,
                level,
                kind,
                payload,
            }),
    {
        TelemetryEvent {
            id,
            host,
            timestamp,
            received_at: None,
            schema_version: CURRENT_SCHEMA_VERSION,
            source,
            provider,
            event_id,
            pid,
            tid,
            level,
            kind,
            payload,
        }
    }

    pub fn with_received_at(self, ts: Timestamp) -> (event: TelemetryEvent)
        ensures
            event == (TelemetryEvent { received_at: Some(ts), ..self }),
    {
        let mut event = self;
        event.received_at = Some(ts);
        event
    }

    pub fn with_schema_version(self, v: u16) -> (event: TelemetryEvent)
        ensures
            event == (TelemetryEvent { schema_version: v, ..self }),
    {
        let mut event = self;
        event.schema_version = v;
        event
    }
}

/// The schema version of an event that does not carry one.
pub fn default_schema_version() -> (version: u16)
    ensures
        version == CURRENT_SCHEMA_VERSION,
{
    CURRENT_SCHEMA_VERSION
}

} // verus!
