//! Loading and evaluating SIGMA detection rules.
//!
//! SIGMA is a vendor-neutral rule format. Its rules are loaded, evaluated
//! against events, and produce the same shape of evidence the native rules do: a
//! likelihood pair, not a verdict.
//!
//! A SIGMA rule carries no false-positive rate, so the pair is synthesised from
//! its level. A rule is only as good as its field mapping, so every rule carries
//! the fields it reads that no view ever produces. A construct the engine does
//! not implement is rejected at load, because a silent rule is worse than a
//! missing one.
pub mod condition;
pub mod condition_laws;
pub mod detect;
pub mod detection_laws;
pub mod laws;
pub mod modifier_laws;
pub mod pattern;
pub mod pattern_laws;
pub mod ruleset;
pub mod ruleset_laws;
pub mod texts;
pub mod view;
pub mod view_laws;
pub mod yaml;

pub use condition::Condition;
pub use detect::{Detection, FieldTest, Op};
pub use pattern::{Address, Readings};
pub use ruleset::{Hit, Level, LoadError, LogSource, Rule, RuleSet};
pub use view::{EventView, Value};
