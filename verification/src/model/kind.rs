//! What happened, in the shapes the sensor can tell apart.
use super::process::ProcessId;
use super::time::Timestamp;
use crate::text::{byte_decimal, byte_text, concat3};
use vstd::prelude::*;

pub use super::network::NetworkProtocol;

verus! {

/// What happened.
#[derive(Debug, Clone, PartialEq)]
pub enum EventKind {
    ProcessStart(ProcessStart),
    ProcessExit(ProcessExit),
    NetworkConnect(NetworkConnect),
    NetworkDisconnect(NetworkDisconnect),
    FileCreate(FileCreate),
    FileWrite(FileWrite),
    FileDelete(FileDelete),
    FileRename(FileRename),
    RegistrySet(RegistrySet),
    RegistryDelete(RegistryDelete),
    DnsQuery(DnsQueryPayload),
    ImageLoad(ImageLoad),
    ScriptBlock(ScriptBlock),
    WmiProcess(WmiProcess),
    WmiSubscription(WmiSubscription),
    TaskRegistered(TaskRegistered),
    Unclassified,
}

impl Default for EventKind {
    fn default() -> (kind: EventKind)
        ensures
            kind == EventKind::Unclassified,
    {
        EventKind::Unclassified
    }
}

impl EventKind {
    /// The name a kind goes by on the wire.
    pub open spec fn name(&self) -> Seq<char> {
        match self {
            EventKind::ProcessStart(_) => "process_start"@,
            EventKind::ProcessExit(_) => "process_exit"@,
            EventKind::NetworkConnect(_) => "network_connect"@,
            EventKind::NetworkDisconnect(_) => "network_disconnect"@,
            EventKind::FileCreate(_) => "file_create"@,
            EventKind::FileWrite(_) => "file_write"@,
            EventKind::FileDelete(_) => "file_delete"@,
            EventKind::FileRename(_) => "file_rename"@,
            EventKind::RegistrySet(_) => "registry_set"@,
            EventKind::RegistryDelete(_) => "registry_delete"@,
            EventKind::DnsQuery(_) => "dns_query"@,
            EventKind::ImageLoad(_) => "image_load"@,
            EventKind::ScriptBlock(_) => "script_block"@,
            EventKind::WmiProcess(_) => "wmi_process"@,
            EventKind::WmiSubscription(_) => "wmi_subscription"@,
            EventKind::TaskRegistered(_) => "task_registered"@,
            EventKind::Unclassified => "unclassified"@,
        }
    }

    /// The name a kind goes by on the wire.
    pub fn as_str(&self) -> (name: &'static str)
        ensures
            name@ == self.name(),
    {
        match self {
            EventKind::ProcessStart(_) => "process_start",
            EventKind::ProcessExit(_) => "process_exit",
            EventKind::NetworkConnect(_) => "network_connect",
            EventKind::NetworkDisconnect(_) => "network_disconnect",
            EventKind::FileCreate(_) => "file_create",
            EventKind::FileWrite(_) => "file_write",
            EventKind::FileDelete(_) => "file_delete",
            EventKind::FileRename(_) => "file_rename",
            EventKind::RegistrySet(_) => "registry_set",
            EventKind::RegistryDelete(_) => "registry_delete",
            EventKind::DnsQuery(_) => "dns_query",
            EventKind::ImageLoad(_) => "image_load",
            EventKind::ScriptBlock(_) => "script_block",
            EventKind::WmiProcess(_) => "wmi_process",
            EventKind::WmiSubscription(_) => "wmi_subscription",
            EventKind::TaskRegistered(_) => "task_registered",
            EventKind::Unclassified => "unclassified",
        }
    }
}

impl NetworkProtocol {
    /// The protocol's name, in lower case.
    pub open spec fn name(&self) -> Seq<char> {
        match self {
            NetworkProtocol::Tcp => "tcp"@,
            NetworkProtocol::Udp => "udp"@,
            NetworkProtocol::Icmp => "icmp"@,
            NetworkProtocol::Other(n) => "other("@ + byte_text(*n) + ")"@,
        }
    }

    /// The protocol's name, in lower case.
    pub fn lower_name(&self) -> (name: String)
        ensures
            name@ == self.name(),
    {
        match self {
            NetworkProtocol::Tcp => "tcp".to_string(),
            NetworkProtocol::Udp => "udp".to_string(),
            NetworkProtocol::Icmp => "icmp".to_string(),
            NetworkProtocol::Other(n) => concat3("other(", byte_decimal(*n).as_str(), ")"),
        }
    }
}

#[derive(Debug, Clone, Copy, PartialEq, Eq, Hash, Structural)]
pub enum IntegrityLevel {
    Untrusted,
    Low,
    Medium,
    MediumPlus,
    High,
    System,
    Protected,
}

#[derive(Debug, Clone, PartialEq)]
pub struct ProcessStart {
    pub pid: ProcessId,
    pub parent_pid: Option<ProcessId>,
    pub executable: String,
    pub command_line: Option<String>,
    pub user: Option<String>,
    pub working_directory: Option<String>,
    pub started_at: Timestamp,
    pub image_hash: Option<String>,
    pub integrity_level: Option<IntegrityLevel>,
    pub is_wow64: bool,
    /// The image name of the process that spawned this one.
    ///
    /// Populated from `Microsoft-Windows-Security-Auditing` event 4688
    /// version 2, which carries `ParentProcessName` directly. The
    /// `Kernel-Process` provider never carries it — only the parent
    /// PID — so a rule that wants the parent's image without a second
    /// lookup uses this field when it is present, and falls back to the
    /// parent PID otherwise.
    pub parent_image: Option<String>,
}

#[derive(Debug, Clone, PartialEq)]
pub struct ProcessExit {
    pub pid: ProcessId,
    pub exit_code: Option<i32>,
    pub exited_at: Timestamp,
}

#[derive(Debug, Clone, PartialEq)]
pub struct NetworkConnect {
    pub pid: ProcessId,
    pub source_ip: String,
    pub source_port: u16,
    pub destination_ip: String,
    pub destination_port: u16,
    pub protocol: NetworkProtocol,
    pub initiated_at: Timestamp,
}

#[derive(Debug, Clone, PartialEq)]
pub struct NetworkDisconnect {
    pub pid: ProcessId,
    pub source_ip: String,
    pub source_port: u16,
    pub destination_ip: String,
    pub destination_port: u16,
    pub protocol: NetworkProtocol,
    pub bytes_sent: Option<u64>,
    pub bytes_received: Option<u64>,
    pub ended_at: Timestamp,
}

#[derive(Debug, Clone, PartialEq)]
pub struct FileCreate {
    pub pid: ProcessId,
    pub path: String,
    pub created_at: Timestamp,
}

#[derive(Debug, Clone, PartialEq)]
pub struct FileWrite {
    pub pid: ProcessId,
    pub path: String,
    pub size: Option<u64>,
    pub bytes_written: Option<u64>,
    pub written_at: Timestamp,
}

#[derive(Debug, Clone, PartialEq)]
pub struct FileDelete {
    pub pid: ProcessId,
    pub path: String,
    pub deleted_at: Timestamp,
}

#[derive(Debug, Clone, PartialEq)]
pub struct FileRename {
    pub pid: ProcessId,
    /// The name the file was renamed from, as far as the provider says.
    ///
    /// On Windows 10/11 `Microsoft-Windows-Kernel-File` id 20 declares exactly
    /// one name field and no old/new pair, and it is often *empty* or a fragment
    /// rather than a path (`*`, `usr`, `bin`). It holds the same value as
    /// [`Self::new_path`], and the event's honest reading is "a rename-class
    /// operation touched a file whose name fragment is this", not "the file moved
    /// from A to B".
    pub old_path: String,
    /// The name the file was renamed to, as far as the provider says.
    ///
    /// The rename *target* is not in the telemetry on current Windows builds: it
    /// lives in the SetInformation parameter buffer, which the provider does not
    /// decode into a named field. This field exists so a provider that *can*
    /// distinguish the two sides populates them differently, and so a reader who
    /// sees them equal knows the provider did not distinguish them rather than
    /// that the file was renamed to itself.
    pub new_path: String,
    pub renamed_at: Timestamp,
}

#[derive(Debug, Clone, PartialEq)]
pub struct RegistrySet {
    pub pid: ProcessId,
    pub key_path: String,
    pub value_name: Option<String>,
    pub value_data: Option<String>,
    pub set_at: Timestamp,
}

#[derive(Debug, Clone, PartialEq)]
pub struct RegistryDelete {
    pub pid: ProcessId,
    pub key_path: String,
    pub deleted_at: Timestamp,
}

#[derive(Debug, Clone, PartialEq)]
pub struct DnsQueryPayload {
    pub pid: ProcessId,
    pub query_name: String,
    pub query_type: String,
    pub answers: Vec<String>,
    pub response_code: Option<String>,
    pub queried_at: Timestamp,
}

#[derive(Debug, Clone, PartialEq)]
pub struct ImageLoad {
    pub pid: ProcessId,
    pub image_path: String,
    pub image_hash: Option<String>,
    pub signed: Option<bool>,
    pub signer: Option<String>,
    pub loaded_at: Timestamp,
    pub is_wow64: bool,
}

/// A script block an interpreter was asked to run (`Microsoft-Windows-PowerShell`
/// id 4104).
///
/// This is what the interpreter was told to *execute*, which is a different and
/// usually more useful thing than what was on its command line: an encoded
/// command, a download cradle, or a whole script. It only exists when Script
/// Block Logging is enabled on the host, so its absence proves nothing.
///
/// # Two honest caveats
///
/// A long script arrives in fragments sharing a [`ScriptBlock::script_block_id`],
/// one per event, with `message_number` counting them and `message_total` saying
/// how many there are. Nothing here reassembles them: a rule reading one fragment
/// sees one fragment, and `message_total > 1` is how a reader can tell that the
/// text in hand is a piece rather than the whole.
///
/// The sensor caps `text`, so a very long block is truncated. The cap is a
/// property of what we ship, not of what the host ran.
#[derive(Debug, Clone, PartialEq)]
pub struct ScriptBlock {
    pub pid: ProcessId,
    /// The script text, capped by the sensor.
    pub text: String,
    /// Groups the fragments of one script, when the host supplies it.
    pub script_block_id: Option<String>,
    /// The file the block came from, when it came from one. Absent for a block
    /// typed at a prompt or built in memory.
    pub path: Option<String>,
    pub message_number: Option<u32>,
    pub message_total: Option<u32>,
    pub recorded_at: Timestamp,
}

/// A process created through WMI (`Microsoft-Windows-WMI-Activity` id 23).
///
/// This is the `T1047` observable. WMI is a living-off-the-land execution
/// channel: a remote or local caller asks `Win32_Process::Create` for a
/// process, and `WmiPrvSE.exe` — a signed Windows binary that is already
/// running — creates it. The attacker never touches a shell on the target, which
/// is why this event is worth its own shape rather than being folded into
/// `ProcessStart`.
///
/// The message template on the reference host reads
/// `CorrelationId = %1; GroupOperationId = %2; OperationId = %3;
/// Commandline= %4; CreatedProcessId = %5; ClientMachine = %6; User = %8;
/// ClientProcessId = %9`, which is where every field below comes from. Note
/// what it does **not** carry: the image path. The command line is the whole
/// story, so it is mandatory here — an id-23 event without one is
/// `undecodable` rather than a `WmiProcess` with nothing to read.
#[derive(Debug, Clone, PartialEq)]
pub struct WmiProcess {
    /// The process WMI created, not the WMI host that created it.
    pub pid: ProcessId,
    /// The full command line of the created process. Mandatory.
    pub command_line: String,
    /// The account the caller ran as, as WMI spells it.
    pub user: Option<String>,
    /// The process that asked for the creation (normally `WmiPrvSE.exe`).
    pub client_pid: Option<ProcessId>,
    /// The machine the request came from. Empty or absent for a local caller,
    /// which is the distinction [`Self::is_local`] states directly.
    pub client_machine: Option<String>,
    /// `true` when WMI reported the caller as local.
    pub is_local: Option<bool>,
    pub created_at: Timestamp,
}

/// A WMI **permanent event subscription** (`Microsoft-Windows-WMI-Activity` id
/// 5861).
///
/// This is `T1546.003`, and it is the highest-signal single event this sensor
/// ships. A permanent subscription is a pair — an event filter and a consumer —
/// that WMI stores in its repository and re-evaluates after every reboot without
/// any process running to trigger it. That is the whole point of it, and it is
/// why the event, not the task or the service, is the one to alert on: there is
/// no binary to find later.
///
/// The message template reads
/// `Namespace = %1; Eventfilter = %2 (refer to its activate eventid:5859);
/// Consumer = %3; PossibleCause = %4`, which is the source of every field.
#[derive(Debug, Clone, PartialEq)]
pub struct WmiSubscription {
    /// The WMI namespace the subscription lives in (`root\subscription` for
    /// anything that runs a command).
    pub namespace: String,
    /// The event filter (`ESS`), spelled as WMI spells it.
    pub event_filter: String,
    /// The consumer that runs when the filter matches. This is where the
    /// payload lives — a `CommandLineEventConsumer` names a command, an
    /// `ActiveScriptEventConsumer` names a script — so a rule that wants to
    /// judge the subscription reads this and not the filter.
    pub consumer: Option<String>,
    pub recorded_at: Timestamp,
}

/// A scheduled task registration (`Microsoft-Windows-TaskScheduler` id 106).
///
/// This is `T1053.005`. The message template reads
/// `User "%2" registered Task Scheduler task "%1"`, and that really is the
/// whole event: a task name and a user context.
///
/// # What this event cannot tell you
///
/// It does not carry the task's action. The command a task will run is in the
/// task's XML, which this provider does not emit; `TaskScheduler` id 129 carries
/// `Path` and `ProcessID` when the task *launches*, and id 200/201 carry
/// `ActionName` when an action runs. So a rule reading id 106 can judge the task
/// name and the account that registered it, and nothing else. Shipping the field
/// that is available, rather than pretending to the one that is not, is why the
/// type has only two fields.
#[derive(Debug, Clone, PartialEq)]
pub struct TaskRegistered {
    /// The task path and name, as Task Scheduler spells it (for example
    /// `\Microsoft\Windows\UpdateOrchestrator\Schedule Scan`).
    pub task_name: String,
    /// The account the registration ran as, when the host supplies it.
    pub user: Option<String>,
    pub recorded_at: Timestamp,
}

} // verus!
