//! Rules, as a rule store holds them.
use super::alert::Severity;
use super::error::ModelError;
use vstd::prelude::*;

verus! {

#[derive(Debug, Clone, PartialEq, Eq, Hash)]
pub struct RuleId(String);

impl View for RuleId {
    type V = Seq<char>;

    closed spec fn view(&self) -> Seq<char> {
        self.0@
    }
}

impl RuleId {
    /// An identity; an empty name is refused.
    pub fn new(s: String) -> (id: Result<RuleId, ModelError>)
        ensures
            match id {
                Ok(rule) => s@.len() > 0 && rule@ == s@,
                Err(error) => s@.len() == 0 && error == (ModelError::EmptyField {
                    field: "rule_id",
                }),
            },
    {
        if s.as_str().is_empty() {
            return Err(ModelError::EmptyField { field: "rule_id" });
        }
        Ok(RuleId(s))
    }

    pub fn as_str(&self) -> (name: &str)
        ensures
            name@ == self@,
    {
        self.0.as_str()
    }
}

#[derive(Debug, Clone)]
pub struct Rule {
    pub id: RuleId,
    pub title: String,
    pub description: String,
    pub severity: Severity,
    pub mitre_techniques: Vec<String>,
    pub sigma_yaml: Option<String>,
    pub enabled: bool,
}

} // verus!
