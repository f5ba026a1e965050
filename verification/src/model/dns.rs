//! Name resolution.
use super::process::Process;
use std::sync::Arc;
use vstd::prelude::*;

verus! {

#[derive(Debug, Clone)]
pub struct DnsQuery {
    pub query_name: String,
    pub query_type: String,
    pub answers: Vec<String>,
    pub process: Option<Arc<Process>>,
    pub response_code: Option<String>,
}

} // verus!
