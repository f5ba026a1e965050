//! File operations.
use super::process::Process;
use std::sync::Arc;
use vstd::prelude::*;

verus! {

#[derive(Debug, Clone, Copy, PartialEq, Eq, Hash, Structural)]
pub enum FileAction {
    Create,
    Read,
    Write,
    Delete,
    Rename,
    Execute,
    Open,
    Close,
}

#[derive(Debug, Clone)]
pub struct FileEvent {
    pub action: FileAction,
    pub path: String,
    pub new_path: Option<String>,
    pub process: Option<Arc<Process>>,
    pub size: Option<u64>,
    pub hash: Option<String>,
}

} // verus!
