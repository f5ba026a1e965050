//! Hosts and their identities.
use super::error::ModelError;
use super::time::Timestamp;
use super::value::Object;
use std::sync::Arc;
use vstd::prelude::*;

verus! {

/// A host's identity, cheap to clone: a clone shares the name, because the
/// sensor clones an identity once per event.
#[derive(Debug, PartialEq, Eq, Hash, PartialOrd, Ord)]
pub struct HostId(Arc<String>);

impl View for HostId {
    type V = Seq<char>;

    closed spec fn view(&self) -> Seq<char> {
        self.0@
    }
}

impl HostId {
    /// An identity; an empty name is refused.
    pub fn new(s: &str) -> (id: Result<HostId, ModelError>)
        ensures
            match id {
                Ok(host) => s@.len() > 0 && host@ == s@,
                Err(error) => s@.len() == 0 && error == (ModelError::EmptyField {
                    field: "host_id",
                }),
            },
    {
        if s.is_empty() {
            return Err(ModelError::EmptyField { field: "host_id" });
        }
        Ok(HostId(Arc::new(s.to_string())))
    }

    pub fn as_str(&self) -> (name: &str)
        ensures
            name@ == self@,
    {
        self.0.as_str()
    }
}

impl Clone for HostId {
    fn clone(&self) -> (copy: HostId)
        ensures
            copy == *self,
    {
        HostId(self.0.clone())
    }
}

#[derive(Debug, Clone, Copy, PartialEq, Eq, Hash, Structural)]
pub enum OperatingSystem {
    Windows,
    Linux,
    MacOs,
    Unknown,
}

#[derive(Debug, Clone)]
pub struct Host {
    pub id: HostId,
    pub hostname: String,
    pub os: OperatingSystem,
    pub first_seen: Timestamp,
    pub last_seen: Timestamp,
    pub labels: Object,
}

impl Host {
    /// A host first and last seen now, without labels.
    pub fn new(id: HostId, hostname: String, os: OperatingSystem, now: Timestamp) -> (host: Host)
        ensures
            host.id == id,
            host.hostname == hostname,
            host.os == os,
            host.first_seen == now,
            host.last_seen == now,
            host.labels.pairs().len() == 0,
    {
        Host { id, hostname, os, first_seen: now, last_seen: now, labels: Object::new() }
    }

    /// Moves the last sighting to `now` and nothing else.
    pub fn touch(&mut self, now: Timestamp)
        ensures
            *final(self) == (Host { last_seen: now, ..*old(self) }),
    {
        self.last_seen = now;
    }
}

} // verus!
