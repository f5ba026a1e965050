//! The port through which a decided response reaches the machine.
//!
//! The vocabulary is deliberately tiny: three operations, all aimed at a
//! process. Suspending comes before terminating because it is reversible: a
//! wrong guess costs a paused process, not a lost one.
use crate::text::{concat, concat3, decimal, decimal_text};
use vstd::prelude::*;

verus! {

/// Something the agent can do to a process in response to a detection.
#[derive(Debug, Clone, Copy, PartialEq, Eq, Hash, Structural)]
pub enum Response {
    /// Hold a process's threads at their current instruction.
    Suspend { pid: u32 },
    /// Let a suspended process run again.
    Resume { pid: u32 },
    /// End a process. Not reversible in any sense that matters.
    Terminate { pid: u32 },
}

impl Response {
    pub open spec fn target(self) -> u32 {
        match self {
            Response::Suspend { pid } => pid,
            Response::Resume { pid } => pid,
            Response::Terminate { pid } => pid,
        }
    }

    pub open spec fn undone_by(self) -> Option<Response> {
        match self {
            Response::Suspend { pid } => Some(Response::Resume { pid }),
            Response::Resume { pid } => Some(Response::Suspend { pid }),
            Response::Terminate { pid } => None,
        }
    }

    pub open spec fn word(self) -> Seq<char> {
        match self {
            Response::Suspend { pid } => "suspend"@,
            Response::Resume { pid } => "resume"@,
            Response::Terminate { pid } => "terminate"@,
        }
    }

    /// The process this is aimed at.
    pub fn pid(self) -> (pid: u32)
        ensures
            pid == self.target(),
    {
        match self {
            Response::Suspend { pid } => pid,
            Response::Resume { pid } => pid,
            Response::Terminate { pid } => pid,
        }
    }

    /// What undoes this, when anything does. Nothing undoes a termination, and
    /// that is the answer rather than a gap.
    pub fn inverse(self) -> (inverse: Option<Response>)
        ensures
            inverse == self.undone_by(),
    {
        match self {
            Response::Suspend { pid } => Some(Response::Resume { pid }),
            Response::Resume { pid } => Some(Response::Suspend { pid }),
            Response::Terminate { .. } => None,
        }
    }

    /// Whether this can be undone.
    pub fn is_reversible(self) -> (yes: bool)
        ensures
            yes == (self.undone_by() is Some),
    {
        self.inverse().is_some()
    }

    /// The imperative verb, for a log line or an alert body.
    pub fn verb(self) -> (verb: &'static str)
        ensures
            verb@ == self.word(),
    {
        match self {
            Response::Suspend { .. } => "suspend",
            Response::Resume { .. } => "resume",
            Response::Terminate { .. } => "terminate",
        }
    }

    /// A one-line description of what was or would be done.
    pub fn describe(self) -> (line: String)
        ensures
            line@ == self.word() + " process "@ + decimal_text(self.target() as nat),
    {
        concat3(self.verb(), " process ", decimal(self.pid() as u64).as_str())
    }
}

/// What undoes a response is undone by it, and is aimed at the same process.
pub proof fn an_inverse_is_its_own_inverse(response: Response)
    requires
        response.undone_by() is Some,
    ensures
        (response.undone_by()->0).undone_by() == Some(response),
        (response.undone_by()->0).target() == response.target(),
{
}

/// Why an action did not happen. A refusal is a guard working; an error of the
/// operating system is a bug or a race.
#[derive(Debug)]
pub enum ActionError {
    /// A guard said no.
    Refused(String),
    /// The operating system declined, or the target was already gone.
    Os(String),
    /// This build has no implementation for the platform it is running on.
    Unsupported,
}

impl ActionError {
    /// The error as one line of text.
    pub fn message(&self) -> (text: String)
        ensures
            text@ == match self {
                ActionError::Refused(reason) => "refused: "@ + reason@,
                ActionError::Os(reason) => "the operating system declined: "@ + reason@,
                ActionError::Unsupported => "responding is not implemented on this platform"@,
            },
    {
        match self {
            ActionError::Refused(reason) => concat("refused: ", reason.as_str()),
            ActionError::Os(reason) => concat("the operating system declined: ", reason.as_str()),
            ActionError::Unsupported => "responding is not implemented on this platform".to_string(),
        }
    }
}

/// Carries out a decided response.
pub trait Actuator: Send {
    /// Does it, or refuses and says why. Success means that the operating system
    /// accepted the request, not that the effect can be observed yet.
    fn apply(&mut self, response: Response) -> Result<(), ActionError>;

    /// Whether this actuator resolves and guards but never acts. An actuator is
    /// assumed real unless it says otherwise.
    fn is_dry_run(&self) -> bool {
        false
    }
}

/// A process is suspended and resumed, each undoing the other; ending one is never
/// undone. Each says what it does and is aimed at its own process.
pub proof fn only_endings_cannot_be_undone(pid: u32)
    ensures
        (Response::Suspend { pid }).undone_by() == Some(Response::Resume { pid }),
        (Response::Resume { pid }).undone_by() == Some(Response::Suspend { pid }),
        (Response::Terminate { pid }).undone_by() is None,
        (Response::Suspend { pid }).target() == pid,
        (Response::Resume { pid }).target() == pid,
        (Response::Terminate { pid }).target() == pid,
        (Response::Suspend { pid }).word() == "suspend"@,
        (Response::Resume { pid }).word() == "resume"@,
        (Response::Terminate { pid }).word() == "terminate"@,
{
}

} // verus!
