//! Processes.
use super::time::Timestamp;
use vstd::prelude::*;

verus! {

#[derive(Debug, Clone, Copy, PartialEq, Eq, Hash, PartialOrd, Ord, Structural)]
pub struct ProcessId(pub u32);

impl ProcessId {
    pub fn new(n: u32) -> (id: ProcessId)
        ensures
            id == ProcessId(n),
    {
        ProcessId(n)
    }

    pub fn as_u32(&self) -> (n: u32)
        ensures
            n == self.0,
    {
        self.0
    }
}

#[derive(Debug, Clone)]
pub struct Process {
    pub pid: ProcessId,
    pub parent_pid: Option<ProcessId>,
    pub executable: Option<String>,
    pub command_line: Option<String>,
    pub user: Option<String>,
    pub working_directory: Option<String>,
    pub started_at: Option<Timestamp>,
}

} // verus!
