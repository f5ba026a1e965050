//! Why a model value is refused.
use super::time::Timestamp;
use crate::text::{concat3, concat5, decimal, decimal_text};
use vstd::prelude::*;

verus! {

/// Why a model value is refused.
#[derive(Debug)]
pub enum ModelError {
    EmptyField { field: &'static str },
    InvalidValue { field: &'static str, value: String },
    TimestampInFuture(Timestamp),
    PayloadTooLarge { size: usize, max: usize },
}

impl ModelError {
    /// The error as one line of text. `instant` is how the instant of a
    /// [`ModelError::TimestampInFuture`] is written.
    pub fn message(&self, instant: &str) -> (text: String)
        ensures
            text@ == match self {
                ModelError::EmptyField { field } => "field `"@ + field@ + "` must not be empty"@,
                ModelError::InvalidValue { field, value } => "field `"@ + field@
                    + "` has invalid value: "@ + value@,
                ModelError::TimestampInFuture(_) => "timestamp "@ + instant@
                    + " is in the future"@,
                ModelError::PayloadTooLarge { size, max } => "payload too large: "@
                    + decimal_text(*size as nat) + " bytes (max "@ + decimal_text(*max as nat)
                    + ")"@,
            },
    {
        match self {
            ModelError::EmptyField { field } => concat3("field `", field, "` must not be empty"),
            ModelError::InvalidValue { field, value } => {
                let mut text = concat3("field `", field, "` has invalid value: ");
                text.push_str(value.as_str());
                text
            },
            ModelError::TimestampInFuture(_) => concat3("timestamp ", instant, " is in the future"),
            ModelError::PayloadTooLarge { size, max } => concat5(
                "payload too large: ",
                decimal(*size as u64).as_str(),
                " bytes (max ",
                decimal(*max as u64).as_str(),
                ")",
            ),
        }
    }
}

} // verus!
