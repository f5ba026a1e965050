//! Registry operations.
use super::process::Process;
use std::sync::Arc;
use vstd::prelude::*;

verus! {

#[derive(Debug, Clone, Copy, PartialEq, Eq, Hash, Structural)]
pub enum RegistryAction {
    CreateKey,
    DeleteKey,
    OpenKey,
    QueryValue,
    SetValue,
    DeleteValue,
    EnumerateKey,
    EnumerateValue,
}

#[derive(Debug, Clone)]
pub struct RegistryEvent {
    pub action: RegistryAction,
    pub key_path: String,
    pub value_name: Option<String>,
    pub value_data: Option<String>,
    pub process: Option<Arc<Process>>,
}

} // verus!
