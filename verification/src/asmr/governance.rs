//! What may be done without asking.
//!
//! Every response passes through here before it is carried out. Disruptive
//! actions are escalated when they exceed policy or cannot be undone, and each
//! verdict is written to an append-only log with the exact reason for it.
use vstd::prelude::*;

verus! {

/// How much authority the deployment has granted the automated responder.
#[derive(Debug, Clone, Copy, PartialEq, Eq, Structural)]
pub enum AutonomyLevel {
    /// Passive collection only.
    Observe,
    /// May raise alerts, never disrupt.
    Alert,
    /// May propose disruptive actions for human sign-off.
    Approve,
    /// May execute disruptive actions within policy.
    Auto,
}

impl AutonomyLevel {
    pub open spec fn height(self) -> u8 {
        match self {
            AutonomyLevel::Observe => 0,
            AutonomyLevel::Alert => 1,
            AutonomyLevel::Approve => 2,
            AutonomyLevel::Auto => 3,
        }
    }

    /// Position on the autonomy lattice.
    pub fn rank(&self) -> (rank: u8)
        ensures
            rank == self.height(),
    {
        match self {
            AutonomyLevel::Observe => 0,
            AutonomyLevel::Alert => 1,
            AutonomyLevel::Approve => 2,
            AutonomyLevel::Auto => 3,
        }
    }

    /// True when this level is at least as permissive as the required level.
    pub fn permits(&self, required: AutonomyLevel) -> (yes: bool)
        ensures
            yes == (self.height() >= required.height()),
    {
        self.rank() >= required.rank()
    }
}

/// Impact scale used to bound what may run without a human.
#[derive(Debug, Clone, Copy, PartialEq, Eq, Structural)]
pub enum Severity {
    /// Purely informational.
    Info,
    /// Minor impact.
    Low,
    /// Moderate impact.
    Medium,
    /// Significant impact on a host or user.
    High,
    /// Broad or destructive impact.
    Critical,
}

impl Severity {
    pub open spec fn height(self) -> u8 {
        match self {
            Severity::Info => 0,
            Severity::Low => 1,
            Severity::Medium => 2,
            Severity::High => 3,
            Severity::Critical => 4,
        }
    }

    /// Position on the severity scale.
    pub fn rank(&self) -> (rank: u8)
        ensures
            rank == self.height(),
    {
        match self {
            Severity::Info => 0,
            Severity::Low => 1,
            Severity::Medium => 2,
            Severity::High => 3,
            Severity::Critical => 4,
        }
    }
}

/// Deployment policy bounding automatic disruptive action.
#[derive(Debug, Clone, Copy, PartialEq, Eq, Structural)]
pub struct GovernancePolicy {
    /// Highest severity the `Auto` level may execute unattended.
    pub max_auto: Severity,
    /// When true, only reversible actions may run unattended.
    pub require_reversible: bool,
}

impl Default for GovernancePolicy {
    fn default() -> (policy: GovernancePolicy)
        ensures
            policy == (GovernancePolicy { max_auto: Severity::Medium, require_reversible: true }),
    {
        GovernancePolicy { max_auto: Severity::Medium, require_reversible: true }
    }
}

/// Outcome of the governance check.
#[derive(Debug, Clone, Copy, PartialEq, Eq, Structural)]
pub enum Verdict {
    /// Execute immediately.
    Auto,
    /// Escalate to a human operator.
    RequiresApproval,
    /// Refuse; the autonomy level does not allow this at all.
    Denied,
}

/// A proposed response action.
#[derive(Debug, Clone, PartialEq)]
pub struct ActionRequest {
    /// Action identifier, such as `kill_process`.
    pub name: String,
    /// Estimated impact if it fires.
    pub severity: Severity,
    /// Whether the action can be undone.
    pub reversible: bool,
    /// Number of entities affected.
    pub blast_radius: u32,
    /// Whether the action interferes at all; enrichment never does.
    pub disruptive: bool,
}

/// Why an action may run, must be approved, or is refused.
pub enum Ground {
    NotDisruptive,
    ObserveOnly,
    ApprovalLevel,
    TooSevere,
    Irreversible,
    WithinPolicy,
}

/// The ground on which a proposal is decided.
pub open spec fn ground_for(
    disruptive: bool,
    severity: Severity,
    reversible: bool,
    level: AutonomyLevel,
    policy: GovernancePolicy,
) -> Ground {
    if !disruptive {
        Ground::NotDisruptive
    } else if level.height() < AutonomyLevel::Approve.height() {
        Ground::ObserveOnly
    } else if level == AutonomyLevel::Approve {
        Ground::ApprovalLevel
    } else if severity.height() > policy.max_auto.height() {
        Ground::TooSevere
    } else if policy.require_reversible && !reversible {
        Ground::Irreversible
    } else {
        Ground::WithinPolicy
    }
}

/// The ground on which a request is decided.
pub open spec fn ground_of(
    req: ActionRequest,
    level: AutonomyLevel,
    policy: GovernancePolicy,
) -> Ground {
    ground_for(req.disruptive, req.severity, req.reversible, level, policy)
}

/// The verdict a ground leads to.
pub open spec fn verdict_of(ground: Ground) -> Verdict {
    match ground {
        Ground::NotDisruptive | Ground::WithinPolicy => Verdict::Auto,
        Ground::ObserveOnly => Verdict::Denied,
        _ => Verdict::RequiresApproval,
    }
}

/// How a ground is written down.
pub open spec fn reason_of(ground: Ground) -> Seq<char> {
    match ground {
        Ground::NotDisruptive => "not disruptive"@,
        Ground::ObserveOnly => "observe-only autonomy"@,
        Ground::ApprovalLevel => "approval autonomy level"@,
        Ground::TooSevere => "exceeds max_auto severity"@,
        Ground::Irreversible => "irreversible action requires approval"@,
        Ground::WithinPolicy => "within policy"@,
    }
}

/// The verdict on a request.
pub open spec fn governed(
    req: ActionRequest,
    level: AutonomyLevel,
    policy: GovernancePolicy,
) -> Verdict {
    verdict_of(ground_of(req, level, policy))
}

/// How freely a verdict lets an action run.
pub open spec fn freedom(verdict: Verdict) -> int {
    match verdict {
        Verdict::Denied => 0,
        Verdict::RequiresApproval => 1,
        Verdict::Auto => 2,
    }
}

/// An action that does not disrupt needs no authority, whatever the level and
/// the policy.
pub proof fn harmless_actions_need_no_authority(
    req: ActionRequest,
    level: AutonomyLevel,
    policy: GovernancePolicy,
)
    requires
        !req.disruptive,
    ensures
        governed(req, level, policy) == Verdict::Auto,
{
}

/// More autonomy never restricts an action further.
pub proof fn autonomy_is_monotone(
    req: ActionRequest,
    lower: AutonomyLevel,
    higher: AutonomyLevel,
    policy: GovernancePolicy,
)
    requires
        lower.height() <= higher.height(),
    ensures
        freedom(governed(req, lower, policy)) <= freedom(governed(req, higher, policy)),
{
}

/// A disruptive action runs unattended only at the highest autonomy, within the
/// severity cap, and reversibly where the policy asks for that.
pub proof fn unattended_disruption_is_within_policy(
    req: ActionRequest,
    level: AutonomyLevel,
    policy: GovernancePolicy,
)
    requires
        req.disruptive,
    ensures
        governed(req, level, policy) == Verdict::Auto <==> level == AutonomyLevel::Auto
            && req.severity.height() <= policy.max_auto.height() && (policy.require_reversible
            ==> req.reversible),
{
}

fn evaluate(req: &ActionRequest, level: AutonomyLevel, policy: &GovernancePolicy) -> (decision: (
    Verdict,
    &'static str,
))
    ensures
        decision.0 == governed(*req, level, *policy),
        decision.1@ == reason_of(ground_of(*req, level, *policy)),
{
    if !req.disruptive {
        return (Verdict::Auto, "not disruptive");
    }
    match level {
        AutonomyLevel::Observe | AutonomyLevel::Alert => (
            Verdict::Denied,
            "observe-only autonomy",
        ),
        AutonomyLevel::Approve => (Verdict::RequiresApproval, "approval autonomy level"),
        AutonomyLevel::Auto => {
            if req.severity.rank() > policy.max_auto.rank() {
                (Verdict::RequiresApproval, "exceeds max_auto severity")
            } else if policy.require_reversible && !req.reversible {
                (Verdict::RequiresApproval, "irreversible action requires approval")
            } else {
                (Verdict::Auto, "within policy")
            }
        },
    }
}

/// Decides whether an action may run, be escalated, or be refused.
pub fn govern(req: &ActionRequest, level: AutonomyLevel, policy: &GovernancePolicy) -> (verdict:
    Verdict)
    ensures
        verdict == governed(*req, level, *policy),
{
    evaluate(req, level, policy).0
}

/// One immutable audit record of a governance decision.
#[derive(Debug, Clone, PartialEq)]
pub struct AuditEntry {
    /// Decision time in nanoseconds since the epoch.
    pub ts_ns: i64,
    /// Name of the proposed action.
    pub action: String,
    /// Verdict that was issued.
    pub verdict: Verdict,
    /// The exact branch that produced the verdict.
    pub reason: &'static str,
}

/// One audit record, as mathematics.
pub struct Record {
    pub ts_ns: int,
    pub action: Seq<char>,
    pub verdict: Verdict,
    pub reason: Seq<char>,
}

impl AuditEntry {
    pub open spec fn record(&self) -> Record {
        Record {
            ts_ns: self.ts_ns as int,
            action: self.action@,
            verdict: self.verdict,
            reason: self.reason@,
        }
    }
}

/// The record of a decision on a ground.
pub open spec fn record_for(ts_ns: int, action: Seq<char>, ground: Ground) -> Record {
    Record { ts_ns, action, verdict: verdict_of(ground), reason: reason_of(ground) }
}

/// The record of one decision.
pub open spec fn record_of(
    ts_ns: i64,
    req: ActionRequest,
    level: AutonomyLevel,
    policy: GovernancePolicy,
) -> Record {
    record_for(ts_ns as int, req.name@, ground_of(req, level, policy))
}

/// The records of a list of entries.
pub open spec fn records(entries: Seq<AuditEntry>) -> Seq<Record> {
    entries.map_values(|e: AuditEntry| e.record())
}

/// Append-only record of governance decisions.
#[derive(Debug, Clone)]
pub struct AuditLog {
    entries: Vec<AuditEntry>,
}

impl AuditLog {
    /// The decisions recorded, in order.
    pub closed spec fn history(&self) -> Seq<Record> {
        records(self.entries@)
    }

    /// An empty log.
    pub fn new() -> (log: AuditLog)
        ensures
            log.history() == Seq::<Record>::empty(),
    {
        AuditLog { entries: Vec::new() }
    }

    /// Decides a request, appends exactly one entry for the decision, and
    /// returns the verdict. What was recorded before stays as it was.
    pub fn record(
        &mut self,
        ts_ns: i64,
        req: &ActionRequest,
        level: AutonomyLevel,
        policy: &GovernancePolicy,
    ) -> (verdict: Verdict)
        ensures
            verdict == governed(*req, level, *policy),
            final(self).history() == old(self).history().push(
                record_of(ts_ns, *req, level, *policy),
            ),
            final(self).history().len() <= usize::MAX,
    {
        let (verdict, reason) = evaluate(req, level, policy);
        let ghost before = records(self.entries@);
        let entry = AuditEntry { ts_ns, action: req.name.clone(), verdict, reason };
        let ghost kept = entry.record();
        self.entries.push(entry);
        assert(records(self.entries@) == before.push(kept));
        let _count: usize = self.entries.len();
        verdict
    }

    /// All recorded entries in the order in which they were made.
    pub fn entries(&self) -> (entries: &[AuditEntry])
        ensures
            records(entries@) == self.history(),
    {
        self.entries.as_slice()
    }

    /// Number of recorded decisions.
    pub fn len(&self) -> (n: usize)
        ensures
            n == self.history().len(),
    {
        self.entries.len()
    }

    /// True when nothing has been recorded.
    pub fn is_empty(&self) -> (empty: bool)
        ensures
            empty == (self.history().len() == 0),
    {
        self.entries.len() == 0
    }
}

impl Default for AuditLog {
    fn default() -> (log: AuditLog)
        ensures
            log.history() == Seq::<Record>::empty(),
    {
        AuditLog::new()
    }
}

} // verus!
