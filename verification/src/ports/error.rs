//! Why a port failed.
use crate::text::{concat, concat3};
use vstd::prelude::*;

verus! {

#[derive(Debug)]
pub enum SourceError {
    Unavailable(String),
    Malformed(String),
    ShutDown,
}

impl SourceError {
    /// The error as one line of text.
    pub fn message(&self) -> (text: String)
        ensures
            text@ == match self {
                SourceError::Unavailable(why) => "source temporarily unavailable: "@ + why@,
                SourceError::Malformed(why) => "source produced malformed data: "@ + why@,
                SourceError::ShutDown => "source shut down"@,
            },
    {
        match self {
            SourceError::Unavailable(why) => concat(
                "source temporarily unavailable: ",
                why.as_str(),
            ),
            SourceError::Malformed(why) => concat("source produced malformed data: ", why.as_str()),
            SourceError::ShutDown => "source shut down".to_string(),
        }
    }
}

#[derive(Debug)]
pub enum SinkError {
    Temporary(String),
    Permanent(String),
    Backpressure,
}

impl SinkError {
    /// The error as one line of text.
    pub fn message(&self) -> (text: String)
        ensures
            text@ == match self {
                SinkError::Temporary(why) => "sink temporarily unavailable: "@ + why@,
                SinkError::Permanent(why) => "sink rejected event permanently: "@ + why@,
                SinkError::Backpressure => "sink backpressure: buffer full"@,
            },
    {
        match self {
            SinkError::Temporary(why) => concat("sink temporarily unavailable: ", why.as_str()),
            SinkError::Permanent(why) => concat("sink rejected event permanently: ", why.as_str()),
            SinkError::Backpressure => "sink backpressure: buffer full".to_string(),
        }
    }
}

#[derive(Debug)]
pub enum RuleError {
    Parse { location: String, message: String },
    Unavailable(String),
}

impl RuleError {
    /// The error as one line of text.
    pub fn message(&self) -> (text: String)
        ensures
            text@ == match self {
                RuleError::Parse { location, message } => "rule parse error in "@ + location@
                    + ": "@ + message@,
                RuleError::Unavailable(why) => "rule store unavailable: "@ + why@,
            },
    {
        match self {
            RuleError::Parse { location, message } => {
                let mut text = concat3("rule parse error in ", location.as_str(), ": ");
                text.push_str(message.as_str());
                text
            },
            RuleError::Unavailable(why) => concat("rule store unavailable: ", why.as_str()),
        }
    }
}

#[derive(Debug)]
pub enum AlertError {
    Delivery(String),
    Rejected(String),
}

impl AlertError {
    /// The error as one line of text.
    pub fn message(&self) -> (text: String)
        ensures
            text@ == match self {
                AlertError::Delivery(why) => "alert delivery failed: "@ + why@,
                AlertError::Rejected(why) => "alert rejected: "@ + why@,
            },
    {
        match self {
            AlertError::Delivery(why) => concat("alert delivery failed: ", why.as_str()),
            AlertError::Rejected(why) => concat("alert rejected: ", why.as_str()),
        }
    }
}

#[derive(Debug)]
pub enum HostError {
    NotFound(String),
    Unavailable(String),
}

impl HostError {
    /// The error as one line of text.
    pub fn message(&self) -> (text: String)
        ensures
            text@ == match self {
                HostError::NotFound(why) => "host not found: "@ + why@,
                HostError::Unavailable(why) => "registry unavailable: "@ + why@,
            },
    {
        match self {
            HostError::NotFound(why) => concat("host not found: ", why.as_str()),
            HostError::Unavailable(why) => concat("registry unavailable: ", why.as_str()),
        }
    }
}

} // verus!
