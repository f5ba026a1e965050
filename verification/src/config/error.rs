//! Why a configuration is refused.
use crate::text::{concat, concat3, concat5};
use vstd::prelude::*;

verus! {

/// Why a configuration is refused.
#[derive(Debug, Clone)]
pub enum ConfigError {
    ReadFile { path: String, source: String },
    ParseToml { path: String, source: String },
    MissingField { field: &'static str },
    InvalidValue { field: &'static str, reason: String },
    MissingEnvVar { field: &'static str, var: String },
    Validation(String),
}

/// What is wrong with a configuration, as mathematics.
pub enum Fault {
    Missing(Seq<char>),
    Invalid(Seq<char>, Seq<char>),
}

impl ConfigError {
    /// Whether this error reports the given fault.
    pub open spec fn reports(&self, fault: Fault) -> bool {
        match (self, fault) {
            (ConfigError::MissingField { field }, Fault::Missing(name)) => field@ == name,
            (ConfigError::InvalidValue { field, reason }, Fault::Invalid(name, why)) => field@
                == name && reason@ == why,
            _ => false,
        }
    }

    /// The error as one line of text.
    pub fn message(&self) -> (text: String)
        ensures
            text@ == match self {
                ConfigError::ReadFile { path, source } => "failed to read config file "@ + path@
                    + ": "@ + source@,
                ConfigError::ParseToml { path, source } => "invalid TOML in "@ + path@ + ": "@
                    + source@,
                ConfigError::MissingField { field } => "missing required field `"@ + field@ + "`"@,
                ConfigError::InvalidValue { field, reason } => "field `"@ + field@
                    + "` has invalid value: "@ + reason@,
                ConfigError::MissingEnvVar { field, var } => "environment variable `"@ + var@
                    + "` referenced by `"@ + field@ + "` is not set"@,
                ConfigError::Validation(reason) => "validation failed: "@ + reason@,
            },
    {
        match self {
            ConfigError::ReadFile { path, source } => {
                let mut text = concat3("failed to read config file ", path.as_str(), ": ");
                text.push_str(source.as_str());
                text
            },
            ConfigError::ParseToml { path, source } => {
                let mut text = concat3("invalid TOML in ", path.as_str(), ": ");
                text.push_str(source.as_str());
                text
            },
            ConfigError::MissingField { field } => concat3("missing required field `", field, "`"),
            ConfigError::InvalidValue { field, reason } => {
                let mut text = concat3("field `", field, "` has invalid value: ");
                text.push_str(reason.as_str());
                text
            },
            ConfigError::MissingEnvVar { field, var } => concat5(
                "environment variable `",
                var.as_str(),
                "` referenced by `",
                field,
                "` is not set",
            ),
            ConfigError::Validation(reason) => concat("validation failed: ", reason.as_str()),
        }
    }
}

/// Whether a validation has the given outcome: accepted where nothing is wrong,
/// and refused for what is wrong.
pub open spec fn finds(outcome: Result<(), ConfigError>, fault: Option<Fault>) -> bool {
    match (outcome, fault) {
        (Ok(_), None) => true,
        (Err(error), Some(f)) => error.reports(f),
        _ => false,
    }
}

/// The error for a value that breaks a rule.
pub fn invalid(field: &'static str, reason: &str) -> (error: ConfigError)
    ensures
        error.reports(Fault::Invalid(field@, reason@)),
{
    ConfigError::InvalidValue { field, reason: reason.to_string() }
}

/// An outcome answers for what is wrong: it is accepted exactly where nothing is,
/// and an error names the setting at fault and, for a value, the reason.
pub proof fn outcomes_answer_for_the_fault(
    outcome: Result<(), ConfigError>,
    fault: Option<Fault>,
)
    requires
        finds(outcome, fault),
    ensures
        outcome is Ok <==> fault is None,
        match outcome {
            Ok(_) => true,
            Err(ConfigError::MissingField { field }) => fault == Some(Fault::Missing(field@)),
            Err(ConfigError::InvalidValue { field, reason }) => fault == Some(
                Fault::Invalid(field@, reason@),
            ),
            Err(_) => false,
        },
{
}

} // verus!
