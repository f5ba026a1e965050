//! The events a sensor sends, the values they carry and how they are minimised.
pub mod alert;
pub mod classification;
pub mod dns;
mod entries;
pub mod error;
pub mod event;
pub mod file;
pub mod host;
pub mod kind;
pub mod laws;
pub mod network;
pub mod process;
pub mod redact;
pub mod registry;
pub mod rule;
pub mod time;
pub mod value;
pub mod value_laws;

pub use alert::{Alert, AlertId, Severity};
pub use classification::{class_of, DataClass, REDACTED};
pub use error::ModelError;
pub use event::{
    EventId, EventSource, LimitedCounter, Payload, ProviderId, RawEvent, TelemetryEvent,
    CURRENT_SCHEMA_VERSION, MAX_PAYLOAD_SIZE,
};
pub use host::{Host, HostId, OperatingSystem};
pub use kind::{
    DnsQueryPayload, EventKind, FileCreate, FileDelete, FileRename, FileWrite, ImageLoad,
    IntegrityLevel, NetworkConnect, NetworkDisconnect, NetworkProtocol, ProcessExit, ProcessStart,
    RegistryDelete, RegistrySet, ScriptBlock, TaskRegistered, WmiProcess, WmiSubscription,
};
pub use process::{Process, ProcessId};
pub use redact::{redact, redact_in_place, strip_sensitive, strip_sensitive_in_place};
pub use rule::{Rule, RuleId};
pub use time::Timestamp;
pub use value::{Object, Real, Scalar, Value};
