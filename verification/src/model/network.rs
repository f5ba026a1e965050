//! Network connections.
use super::process::Process;
use std::sync::Arc;
use vstd::prelude::*;

verus! {

#[derive(Debug, Clone, Copy, PartialEq, Eq, Hash, Structural)]
pub enum NetworkProtocol {
    Tcp,
    Udp,
    Icmp,
    Other(u8),
}

#[derive(Debug, Clone)]
pub struct NetworkConnection {
    pub source_ip: String,
    pub source_port: u16,
    pub destination_ip: String,
    pub destination_port: u16,
    pub protocol: NetworkProtocol,
    pub process: Option<Arc<Process>>,
    pub bytes_sent: Option<u64>,
    pub bytes_received: Option<u64>,
}

} // verus!
