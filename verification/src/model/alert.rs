//! Alerts.
use super::error::ModelError;
use super::event::EventId;
use super::host::HostId;
use super::rule::RuleId;
use super::time::Timestamp;
use vstd::prelude::*;

verus! {

#[derive(Debug, Clone, PartialEq, Eq, Hash)]
pub struct AlertId(String);

impl View for AlertId {
    type V = Seq<char>;

    closed spec fn view(&self) -> Seq<char> {
        self.0@
    }
}

impl AlertId {
    /// An identity; an empty name is refused.
    pub fn new(s: String) -> (id: Result<AlertId, ModelError>)
        ensures
            match id {
                Ok(alert) => s@.len() > 0 && alert@ == s@,
                Err(error) => s@.len() == 0 && error == (ModelError::EmptyField {
                    field: "alert_id",
                }),
            },
    {
        if s.as_str().is_empty() {
            return Err(ModelError::EmptyField { field: "alert_id" });
        }
        Ok(AlertId(s))
    }

    pub fn as_str(&self) -> (name: &str)
        ensures
            name@ == self@,
    {
        self.0.as_str()
    }
}

#[derive(Debug, Clone, Copy, PartialEq, Eq, PartialOrd, Ord, Hash, Structural)]
pub enum Severity {
    Info,
    Low,
    Medium,
    High,
    Critical,
}

#[derive(Debug, Clone)]
pub struct Alert {
    pub id: AlertId,
    pub rule_id: RuleId,
    pub title: String,
    pub description: String,
    pub severity: Severity,
    pub timestamp: Timestamp,
    pub host: HostId,
    pub events: Vec<EventId>,
    pub mitre_techniques: Vec<String>,
}

impl Alert {
    pub fn new(
        id: AlertId,
        rule_id: RuleId,
        title: String,
        description: String,
        severity: Severity,
        timestamp: Timestamp,
        host: HostId,
        events: Vec<EventId>,
        mitre_techniques: Vec<String>,
    ) -> (alert: Alert)
        ensures
            alert == (Alert {
                id,
                rule_id,
                title,
                description,
                severity,
                timestamp,
                host,
                events,
                mitre_techniques,
            }),
    {
        Alert {
            id,
            rule_id,
            title,
            description,
            severity,
            timestamp,
            host,
            events,
            mitre_techniques,
        }
    }
}

} // verus!
