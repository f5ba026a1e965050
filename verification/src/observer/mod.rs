//! The observation runtime: when to pull, ship, flush, report and stop, and what
//! to count.
//!
//! The loop itself is the caller's: it holds the source, the scorer, the sink and
//! the clock. It performs the action it is handed and says what happened; what
//! follows from that is decided here.
pub mod config;
pub mod metrics;
pub mod runtime;

pub use config::ObserverConfig;
pub use metrics::{Counters, Heartbeat, MetricsSnapshot};
pub use runtime::{Action, Happened, Run, RunOutcome, RunStop};
