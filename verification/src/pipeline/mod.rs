//! The monitoring-response pipeline.
//!
//! One event is projected into state and trace, evaluated by the rules, and
//! answered. The findings are evidence; the decision what to make of them is the
//! caller's, and the response to the decision is governed, recorded and
//! minimised here.
pub mod engine;
pub mod laws;
pub mod report;
pub mod rule_laws;
pub mod rules;

pub use crate::asmr::privacy::minimise;
pub use engine::{Config, Engine, Pending};
pub use report::{Metrics, Observation};
pub use rules::Finding;
