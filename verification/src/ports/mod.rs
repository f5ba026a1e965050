//! The ports through which the agent is fed, heard and allowed to act.
pub mod actuator;
pub mod error;
pub mod sinks;
pub mod stores;

pub use actuator::{ActionError, Actuator, Response};
pub use error::{AlertError, HostError, RuleError, SinkError, SourceError};
pub use sinks::{AlertSink, EventSink, EventSource};
pub use stores::{HostRegistry, RuleStore};
