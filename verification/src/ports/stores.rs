//! Where rules and hosts are kept.
use super::error::{HostError, RuleError};
use crate::model::host::{Host, HostId};
use crate::model::rule::Rule;
use vstd::prelude::*;

verus! {

/// Keeps the rules.
pub trait RuleStore: Send + Sync {
    fn load_all(&self) -> Result<Vec<Rule>, RuleError>;

    fn reload(&self) -> Result<(), RuleError>;

    fn count(&self) -> usize;
}

/// Keeps the hosts.
pub trait HostRegistry: Send + Sync {
    fn upsert(&self, host: &Host) -> Result<(), HostError>;

    fn get(&self, id: &HostId) -> Result<Option<Host>, HostError>;

    fn list(&self) -> Result<Vec<Host>, HostError>;

    fn mark_inactive(&self, id: &HostId) -> Result<(), HostError>;
}

} // verus!
