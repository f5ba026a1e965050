//! The engine: one event in, evidence out; one decision in, a response out.
//!
//! An event is projected into the state space and the trace, the rules are
//! evaluated against it, and their findings are counted. Weighing the findings
//! against a prior and a cost ratio is arithmetic on real numbers and is done by
//! the caller between the two halves; what follows from the decision (the action
//! chosen, the verdict on it, its record, the alert) is done here.
use super::report::{build, Metrics, Observation, RuleFiring};
use super::rules::{all_say, evaluate, evaluated, Evidence, Facts, Finding, Known};
use crate::asmr::action::{
    action_of, ascending, ladder_of, Action, ActionId, ActionKind, ActionSpace,
};
use crate::asmr::anomaly::{EdgeKey, StructuralProfile};
use crate::asmr::decision::{reaches, Decision, Probability};
use crate::asmr::governance::{
    ground_for, record_for, verdict_of, ActionRequest, AuditLog, AutonomyLevel,
    GovernancePolicy, Ground, Record, Severity as GovSeverity, Verdict,
};
use crate::asmr::novelty::NoveltyModel;
use crate::asmr::observe::{ObsId, ObservationMap};
use crate::asmr::privacy::{minimise, minimised};
use crate::asmr::state::{AttrValue, Entity, EntityId, EntityKind, StateSpace};
use crate::asmr::trace::{EventId, Step, Trace, TraceEvent};
use crate::model::alert::{Alert, AlertId, Severity as ModelSeverity};
use crate::model::event::TelemetryEvent;
use crate::model::host::HostId;
use crate::model::kind::{EventKind, ProcessStart};
use crate::model::rule::RuleId;
use crate::numbers::one_more;
use crate::text::{concat, concat3, concat5, decimal, decimal_text, folded, folded_chars, text_of};
use crate::textmap::TextMap;
use std::collections::BTreeMap;
use vstd::prelude::*;

verus! {

/// The bit pattern of 0.995: from here on a host is isolated.
pub const ISOLATE_BITS: u64 = 0x3fef_d70a_3d70_a3d7;

/// The bit pattern of 0.98: from here on a process is frozen.
pub const FREEZE_BITS: u64 = 0x3fef_5c28_f5c2_8f5c;

/// The bit pattern of 0.90: from here on a compensating control is applied.
pub const CONTROL_BITS: u64 = 0x3fec_cccc_cccc_cccd;

/// How the pipeline is governed.
#[derive(Debug, Clone)]
pub struct Config {
    pub host: HostId,
    pub policy: GovernancePolicy,
    pub autonomy: AutonomyLevel,
}

impl Config {
    /// The default policy, and approval before anything disruptive.
    pub fn new(host: HostId) -> (cfg: Config)
        ensures
            cfg.host == host,
            cfg.policy == (GovernancePolicy {
                max_auto: GovSeverity::Medium,
                require_reversible: true,
            }),
            cfg.autonomy == AutonomyLevel::Approve,
    {
        Config { host, policy: GovernancePolicy::default(), autonomy: AutonomyLevel::Approve }
    }
}

/// What the engine remembers about one running process.
#[derive(Debug, Clone)]
struct ProcRecord {
    entity: u64,
    image: String,
    children: u32,
}

/// A running process, as mathematics.
pub struct Proc {
    pub entity: u64,
    pub image: Seq<char>,
    pub children: u32,
}

impl ProcRecord {
    spec fn proc(&self) -> Proc {
        Proc { entity: self.entity, image: self.image@, children: self.children }
    }
}

/// What one event gave: the entity its evidence is about, and the evidence.
#[derive(Debug)]
pub struct Pending {
    pub key: u64,
    pub findings: Vec<Finding>,
}

/// The entity an event's evidence is about: the started process, or the one
/// that emitted the event.
pub open spec fn key_of(event: TelemetryEvent) -> u64 {
    match event.kind {
        EventKind::ProcessStart(start) => start.pid.0 as u64,
        _ => event.pid as u64,
    }
}

/// An event's time in nanoseconds since the epoch; zero where a signed count
/// cannot hold it.
pub open spec fn event_ns(event: TelemetryEvent) -> int {
    let at = event.timestamp.since_epoch();
    if i64::MIN <= at <= i64::MAX {
        at
    } else {
        0
    }
}

/// The process that started another, where it is running.
pub open spec fn parent_of(running: Map<u32, Proc>, start: ProcessStart) -> Option<Proc> {
    match start.parent_pid {
        Some(pid) => if running.contains_key(pid.0) {
            Some(running[pid.0])
        } else {
            None
        },
        None => None,
    }
}

/// What is established about the process that emitted an event, before the
/// event itself is taken into account. The parent's image is the one the event
/// names, and otherwise the one its parent is known to run.
pub open spec fn established(
    running: Map<u32, Proc>,
    novelty: NoveltyModel,
    event: TelemetryEvent,
) -> Known {
    match event.kind {
        EventKind::ProcessStart(start) => Known {
            image: Some(start.executable@),
            command_line: match start.command_line {
                Some(command) => Some(command@),
                None => None,
            },
            parent_image: match start.parent_image {
                Some(image) => Some(image@),
                None => match parent_of(running, start) {
                    Some(parent) => Some(parent.image),
                    None => None,
                },
            },
            image_is_novel: novelty.seen(folded(start.executable@)) == 0,
            siblings: match parent_of(running, start) {
                Some(parent) => parent.children as nat,
                None => 0,
            },
        },
        _ => Known {
            image: None,
            command_line: None,
            parent_image: None,
            image_is_novel: false,
            siblings: 0,
        },
    }
}

/// The running processes after an event. A start counts one more child for its
/// parent and begins without children of its own; an exit ends a process.
pub open spec fn running_after(
    running: Map<u32, Proc>,
    event: TelemetryEvent,
    entity: u64,
) -> Map<u32, Proc> {
    match event.kind {
        EventKind::ProcessStart(start) => {
            let counted = match parent_of(running, start) {
                Some(parent) => running.insert(
                    (start.parent_pid->0).0,
                    Proc { children: one_more(parent.children), ..parent },
                ),
                None => running,
            };
            counted.insert(
                start.pid.0,
                Proc { entity, image: start.executable@, children: 0 },
            )
        },
        EventKind::ProcessExit(exit) => running.remove(exit.pid.0),
        _ => running,
    }
}

/// The entity that acted in an event; zero where it is not known.
pub open spec fn actor_of(running: Map<u32, Proc>, event: TelemetryEvent, entity: u64) -> u64 {
    match event.kind {
        EventKind::ProcessStart(_) => entity,
        EventKind::ProcessExit(exit) => if running.contains_key(exit.pid.0) {
            running[exit.pid.0].entity
        } else {
            0
        },
        _ => if running.contains_key(event.pid) {
            running[event.pid].entity
        } else {
            0
        },
    }
}

/// Whether attributes are those of a started process: its parent and its user,
/// each where there is one, and nothing else.
pub open spec fn start_attributes(
    attrs: Map<Seq<char>, AttrValue>,
    start: ProcessStart,
) -> bool {
    let parent = match start.parent_pid {
        Some(pid) => Map::<Seq<char>, AttrValue>::empty().insert(
            "parent_pid"@,
            AttrValue::Int(pid.0 as i64),
        ),
        None => Map::empty(),
    };
    match start.user {
        Some(user) => {
            &&& attrs == parent.insert("user"@, attrs["user"@])
            &&& attrs["user"@] matches AttrValue::Text(text)
            &&& text@ == user@
        },
        None => attrs == parent,
    }
}

/// Whether an entity is the projection of a process start.
pub open spec fn projects(
    entity: Entity,
    id: u64,
    start: ProcessStart,
    at: int,
) -> bool {
    &&& entity.id == EntityId(id)
    &&& entity.kind == EntityKind::Process
    &&& entity.label@ == start.executable@
    &&& entity.first_seen_ns == at
    &&& entity.last_seen_ns == at
    &&& start_attributes(entity.attrs@, start)
}

/// The relation a process start draws.
pub open spec fn edge_of(running: Map<u32, Proc>, start: ProcessStart) -> (
    Seq<char>,
    Seq<char>,
    Seq<char>,
) {
    (
        match parent_of(running, start) {
            Some(parent) => parent.image,
            None => "<unobserved>"@,
        },
        start.executable@,
        "spawned"@,
    )
}

/// What is on record of a rule after findings: one more firing for each finding
/// that names it, with the probabilities of the first that ever did.
pub open spec fn noted(
    before: Option<RuleFiring>,
    said: Seq<Evidence>,
    rule: Seq<char>,
) -> Option<RuleFiring>
    decreases said.len(),
{
    if said.len() == 0 {
        before
    } else {
        let earlier = noted(before, said.drop_last(), rule);
        if said.last().rule != rule {
            earlier
        } else {
            match earlier {
                Some(f) => Some(RuleFiring { firings: (f.firings + 1) as u64, ..f }),
                None => Some(
                    RuleFiring {
                        firings: 1,
                        hit: said.last().likelihood.hit,
                        miss: said.last().likelihood.miss,
                    },
                ),
            }
        }
    }
}

/// The responses this deployment may choose from, from watching to isolating:
/// id, name, kind, severity, whether it can be undone, how much it affects, and
/// for how long. The last one is irreversible and wide.
pub open spec fn responses() -> Seq<(u32, Seq<char>, ActionKind, u8, bool, u32, u64)> {
    seq![
        (1, "record"@, ActionKind::Observe, 1, true, 0, 0),
        (2, "raise alert"@, ActionKind::Alert, 2, true, 0, 0),
        (3, "apply compensating control"@, ActionKind::CompensatingControl, 3, true, 1, 300),
        (4, "freeze process"@, ActionKind::Freeze, 4, true, 1, 0),
        (5, "isolate host"@, ActionKind::Isolate, 5, false, 500, 900),
    ]
}

/// Whether an action is the given response.
pub open spec fn is_response(
    action: Action,
    response: (u32, Seq<char>, ActionKind, u8, bool, u32, u64),
) -> bool {
    &&& action.id == ActionId(response.0)
    &&& action.name@ == response.1
    &&& action.kind == response.2
    &&& action.severity == response.3
    &&& action.reversible == response.4
    &&& action.blast_radius == response.5
    &&& action.duration_s == response.6
}

/// Whether actions are exactly the responses, in order.
pub open spec fn are_responses(actions: Seq<Action>) -> bool {
    actions.len() == 5 && forall|i: int|
        0 <= i < 5 ==> is_response(#[trigger] actions[i], responses()[i])
}

/// The response a probability justifies, by its place among the responses.
pub open spec fn justified(bits: u64) -> int {
    if reaches(bits, ISOLATE_BITS) {
        4
    } else if reaches(bits, FREEZE_BITS) {
        3
    } else if reaches(bits, CONTROL_BITS) {
        2
    } else {
        1
    }
}

/// A severity of one to five on the governance scale.
pub open spec fn governance_severity(severity: u8) -> GovSeverity {
    if severity == 5 {
        GovSeverity::Critical
    } else if severity == 4 {
        GovSeverity::High
    } else if severity == 3 {
        GovSeverity::Medium
    } else if severity == 2 {
        GovSeverity::Low
    } else {
        GovSeverity::Info
    }
}

/// A severity of one to five on the alert scale.
pub open spec fn alert_severity(severity: u8) -> ModelSeverity {
    if severity == 5 {
        ModelSeverity::Critical
    } else if severity == 4 {
        ModelSeverity::High
    } else if severity == 3 {
        ModelSeverity::Medium
    } else if severity == 2 {
        ModelSeverity::Low
    } else {
        ModelSeverity::Info
    }
}

/// The strongest evidence; of equally strong evidence the last.
pub open spec fn strongest(said: Seq<Evidence>) -> Option<Evidence>
    decreases said.len(),
{
    if said.len() == 0 {
        None
    } else {
        match strongest(said.drop_last()) {
            None => Some(said.last()),
            Some(best) => if said.last().likelihood.weaker(&best.likelihood) {
                Some(best)
            } else {
                Some(said.last())
            },
        }
    }
}

/// The technique an alert names.
pub open spec fn named_technique(said: Seq<Evidence>) -> Seq<char> {
    match strongest(said) {
        Some(best) => best.technique,
        None => "TA0000"@,
    }
}

/// The rule an alert names.
pub open spec fn named_rule(said: Seq<Evidence>) -> Seq<char> {
    match strongest(said) {
        Some(best) => best.rule,
        None => "unclassified"@,
    }
}

/// What an alert says of the first `n` findings, each minimised.
pub open spec fn body_of(said: Seq<Evidence>, n: nat) -> Seq<char>
    decreases n,
{
    if n == 0 {
        seq![]
    } else {
        let one = said[n - 1].technique + ": "@ + minimised(said[n - 1].detail);
        if n == 1 {
            one
        } else {
            body_of(said, (n - 1) as nat) + "; "@ + one
        }
    }
}

/// Whether an alert is the one a response to findings raises.
pub open spec fn raises(
    alert: Alert,
    ordinal: nat,
    event: TelemetryEvent,
    said: Seq<Evidence>,
    probability: Probability,
    host: HostId,
    verdict: Verdict,
) -> bool {
    let response = responses()[justified(probability.bits)];
    let promised = if verdict == Verdict::RequiresApproval {
        response.1 + " (proposed, awaiting approval)"@
    } else {
        response.1
    };
    &&& alert.id@ == decimal_text(ordinal)
    &&& alert.rule_id@ == named_rule(said)
    &&& alert.title@ == named_technique(said) + ": "@ + promised
    &&& alert.description@ == "p="@ + probability.text@ + " via "@ + named_rule(said) + "; "@
        + body_of(said, said.len())
    &&& alert.severity == alert_severity(response.3)
    &&& alert.timestamp == event.timestamp
    &&& alert.host == host
    &&& alert.events@.len() == 0
    &&& alert.mitre_techniques@.len() == 1
    &&& alert.mitre_techniques@[0]@ == named_technique(said)
}

/// The ground on which the response to a probability is decided.
pub open spec fn response_ground(probability: Probability, cfg: Config) -> Ground {
    let response = responses()[justified(probability.bits)];
    ground_for(
        response.2.step() > ActionKind::Alert.step(),
        governance_severity(response.3),
        response.4,
        cfg.autonomy,
        cfg.policy,
    )
}

/// The pipeline.
pub struct Engine {
    cfg: Config,
    state: StateSpace,
    trace: Trace,
    observe: ObservationMap,
    novelty: NoveltyModel,
    anomaly: StructuralProfile,
    actions: ActionSpace,
    audit: AuditLog,
    processes: BTreeMap<u32, ProcRecord>,
    metrics: Metrics,
}

impl Engine {
    pub closed spec fn config(&self) -> Config {
        self.cfg
    }

    /// The entities known, by id.
    pub closed spec fn entities(&self) -> Map<u64, Entity> {
        self.state.known()
    }

    /// The trace so far.
    pub closed spec fn path(&self) -> Seq<Step> {
        self.trace.path()
    }

    /// The entity each process id was last observed as.
    pub closed spec fn observed(&self) -> Map<u64, ObsId> {
        self.observe.latest()
    }

    /// What images were seen.
    pub closed spec fn images(&self) -> NoveltyModel {
        self.novelty
    }

    /// What relations were drawn.
    pub closed spec fn structure(&self) -> StructuralProfile {
        self.anomaly
    }

    /// The running processes, by process id.
    pub closed spec fn running(&self) -> Map<u32, Proc> {
        self.processes@.map_values(|r: ProcRecord| r.proc())
    }

    /// The decisions recorded.
    pub closed spec fn decisions(&self) -> Seq<Record> {
        self.audit.history()
    }

    /// The counters.
    pub closed spec fn counts(&self) -> Metrics {
        self.metrics
    }

    /// Every event has its trace entry; every process start its entity and its
    /// sighting; every decision is an alert or was withheld.
    pub closed spec fn wf(&self) -> bool {
        &&& self.state.wf()
        &&& self.novelty.wf()
        &&& self.anomaly.wf()
        &&& self.metrics.wf()
        &&& are_responses(self.actions.all())
        &&& self.metrics.process_starts <= self.metrics.events
        &&& self.trace.path().len() == self.metrics.events
        &&& self.novelty.sightings() == self.metrics.process_starts
        &&& forall|id: u64|
            self.state.known().dom().contains(id) ==> 1 <= id <= self.metrics.process_starts
        &&& self.audit.history().len() == self.metrics.alerts + self.metrics.withheld_by_policy
    }

    /// The counters can count one more event and everything the rules may find
    /// in it.
    pub open spec fn has_room(&self) -> bool {
        self.counts().events < u64::MAX && self.counts().findings <= u64::MAX - 17
    }

    pub fn new(cfg: Config) -> (engine: Engine)
        ensures
            engine.wf(),
            engine.has_room(),
            engine.config() == cfg,
            engine.entities() == Map::<u64, Entity>::empty(),
            engine.path() == Seq::<Step>::empty(),
            engine.observed() == Map::<u64, ObsId>::empty(),
            engine.running() == Map::<u32, Proc>::empty(),
            engine.decisions() == Seq::<Record>::empty(),
            engine.images().variety() == 0,
            engine.images().sightings() == 0,
            forall|image: Seq<char>| #[trigger] engine.images().seen(image) == 0,
            engine.structure().edge_total() == 0,
            engine.structure().node_total() == 0,
            forall|names: (Seq<char>, Seq<char>, Seq<char>)|
                !#[trigger] engine.structure().has_edge(names),
            forall|node: Seq<char>| !#[trigger] engine.structure().has_node(node),
            forall|node: Seq<char>| #[trigger] engine.structure().degree(node) == 0,
            engine.counts().events == 0,
            engine.counts().process_starts == 0,
            engine.counts().findings == 0,
            engine.counts().alerts == 0,
            engine.counts().abstained == 0,
            engine.counts().withheld_by_policy == 0,
            engine.counts().suppressed == 0,
            engine.counts().below_floor == 0,
            engine.counts().redacted_fields == 0,
            engine.counts().by_rule@ == Map::<Seq<char>, RuleFiring>::empty(),
    {
        let engine = Engine {
            cfg,
            state: StateSpace::new(),
            trace: Trace::new(),
            observe: ObservationMap::new(),
            novelty: NoveltyModel::new(),
            anomaly: StructuralProfile::new(),
            actions: default_actions(),
            audit: AuditLog::new(),
            processes: BTreeMap::new(),
            metrics: Metrics::new(),
        };
        assert(engine.running() =~= Map::<u32, Proc>::empty());
        engine
    }
}

/// The response ladder this deployment is allowed to choose from.
pub fn default_actions() -> (space: ActionSpace)
    ensures
        are_responses(space.all()),
{
    let mut space = ActionSpace::new();
    let _ = space.register(
        Action::new(ActionId(1), "record", ActionKind::Observe, 1, true, 0, 0),
    );
    let _ = space.register(
        Action::new(ActionId(2), "raise alert", ActionKind::Alert, 2, true, 0, 0),
    );
    let _ = space.register(
        Action::new(
            ActionId(3),
            "apply compensating control",
            ActionKind::CompensatingControl,
            3,
            true,
            1,
            300,
        ),
    );
    let _ = space.register(
        Action::new(ActionId(4), "freeze process", ActionKind::Freeze, 4, true, 1, 0),
    );
    let _ = space.register(
        Action::new(ActionId(5), "isolate host", ActionKind::Isolate, 5, false, 500, 900),
    );
    space
}

fn evidence_key(event: &TelemetryEvent) -> (key: u64)
    ensures
        key == key_of(*event),
{
    match &event.kind {
        EventKind::ProcessStart(start) => start.pid.as_u32() as u64,
        _ => event.pid as u64,
    }
}

fn timestamp_ns(event: &TelemetryEvent) -> (at: i64)
    ensures
        at == event_ns(*event),
{
    match event.timestamp.timestamp_nanos_opt() {
        Some(at) => at,
        None => 0,
    }
}

fn gov_severity(severity: u8) -> (level: GovSeverity)
    ensures
        level == governance_severity(severity),
{
    match severity {
        5 => GovSeverity::Critical,
        4 => GovSeverity::High,
        3 => GovSeverity::Medium,
        2 => GovSeverity::Low,
        _ => GovSeverity::Info,
    }
}

fn model_severity(severity: u8) -> (level: ModelSeverity)
    ensures
        level == alert_severity(severity),
{
    match severity {
        5 => ModelSeverity::Critical,
        4 => ModelSeverity::High,
        3 => ModelSeverity::Medium,
        2 => ModelSeverity::Low,
        _ => ModelSeverity::Info,
    }
}

/// Where actions already ascend, the ladder is the order of registration.
proof fn lemma_ladder_of_ascending(actions: Seq<Action>, n: nat)
    requires
        n <= actions.len(),
        ascending(actions),
    ensures
        ladder_of(actions, n) == actions.take(n as int),
    decreases n,
{
    if n > 0 {
        let m = (n - 1) as nat;
        lemma_ladder_of_ascending(actions, m);
        let lower = actions.take(m as int);
        if m > 0 {
            assert(lower.last() == actions[m - 1]);
            assert(actions[m - 1].height() <= actions[n - 1].height());
        }
        assert(lower.insert(m as int, actions[n - 1]) == actions.take(n as int));
    } else {
        assert(actions.take(0) == Seq::<Action>::empty());
    }
}

proof fn lemma_responses(actions: Seq<Action>)
    requires
        are_responses(actions),
    ensures
        ladder_of(actions, 5) == actions,
        forall|i: int|
            0 <= i < 5 ==> action_of(actions, (#[trigger] actions[i]).id) == Some(actions[i]),
{
    assert(is_response(actions[0], responses()[0]));
    assert(is_response(actions[1], responses()[1]));
    assert(is_response(actions[2], responses()[2]));
    assert(is_response(actions[3], responses()[3]));
    assert(is_response(actions[4], responses()[4]));
    assert(ascending(actions));
    lemma_ladder_of_ascending(actions, 5);
    assert(actions.take(5) == actions);
    reveal_with_fuel(action_of, 6);
    let a1 = actions.drop_first();
    let a2 = a1.drop_first();
    let a3 = a2.drop_first();
    let a4 = a3.drop_first();
    assert(a1[0] == actions[1] && a2[0] == actions[2] && a3[0] == actions[3] && a4[0]
        == actions[4]);
    assert forall|i: int| 0 <= i < 5 implies action_of(actions, (#[trigger] actions[i]).id) == Some(
        actions[i],
    ) by {
        assert(i == 0 || i == 1 || i == 2 || i == 3 || i == 4);
    }
}

/// Facts gathered before evaluation, owned so that the rules borrow nothing from
/// the engine.
struct OwnedFacts {
    image: Option<String>,
    command_line: Option<String>,
    parent_image: Option<String>,
    image_is_novel: bool,
    siblings: u32,
}

spec fn text_chars(text: Option<String>) -> Option<Seq<char>> {
    match text {
        Some(s) => Some(s@),
        None => None,
    }
}

impl OwnedFacts {
    spec fn known(&self) -> Known {
        Known {
            image: text_chars(self.image),
            command_line: text_chars(self.command_line),
            parent_image: text_chars(self.parent_image),
            image_is_novel: self.image_is_novel,
            siblings: self.siblings as nat,
        }
    }

    fn as_facts(&self) -> (facts: Facts<'_>)
        ensures
            facts.known() == self.known(),
    {
        Facts {
            image: borrowed(&self.image),
            command_line: borrowed(&self.command_line),
            parent_image: borrowed(&self.parent_image),
            image_is_novel: self.image_is_novel,
            siblings: self.siblings,
        }
    }
}

fn borrowed(text: &Option<String>) -> (chars: Option<&str>)
    ensures
        super::rules::optional_chars(chars) == text_chars(*text),
{
    match text {
        Some(s) => Some(s.as_str()),
        None => None,
    }
}

fn owned(text: &Option<String>) -> (copy: Option<String>)
    ensures
        text_chars(copy) == text_chars(*text),
{
    match text {
        Some(s) => Some(s.clone()),
        None => None,
    }
}

impl Engine {
    /// The record of a running process.
    fn process(&self, pid: u32) -> (record: Option<&ProcRecord>)
        ensures
            match record {
                Some(r) => self.running().contains_key(pid) && self.running()[pid] == r.proc()
                    && self.processes@.contains_key(pid) && self.processes@[pid] == *r,
                None => !self.running().contains_key(pid) && !self.processes@.contains_key(pid),
            },
    {
        self.processes.get(&pid)
    }

    /// Facts about the emitting process, read before the state is updated, so
    /// that siblings means siblings before this one.
    fn gather(&self, event: &TelemetryEvent) -> (facts: OwnedFacts)
        ensures
            facts.known() == established(self.running(), self.images(), *event),
    {
        match &event.kind {
            EventKind::ProcessStart(start) => {
                let parent = match start.parent_pid {
                    Some(pid) => self.process(pid.as_u32()),
                    None => None,
                };
                let folded_image = text_of(folded_chars(start.executable.as_str()).as_slice());
                let parent_image = match &start.parent_image {
                    Some(image) => Some(image.clone()),
                    None => match parent {
                        Some(record) => Some(record.image.clone()),
                        None => None,
                    },
                };
                OwnedFacts {
                    image: Some(start.executable.clone()),
                    command_line: owned(&start.command_line),
                    parent_image,
                    image_is_novel: self.novelty.is_novel(folded_image.as_str()),
                    siblings: match parent {
                        Some(record) => record.children,
                        None => 0,
                    },
                }
            },
            _ => OwnedFacts {
                image: None,
                command_line: None,
                parent_image: None,
                image_is_novel: false,
                siblings: 0,
            },
        }
    }
}

fn start_attrs(start: &ProcessStart) -> (attrs: TextMap<AttrValue>)
    ensures
        start_attributes(attrs@, *start),
{
    let mut attrs: TextMap<AttrValue> = TextMap::new();
    match start.parent_pid {
        Some(pid) => {
            let _earlier = attrs.insert("parent_pid", AttrValue::Int(pid.as_u32() as i64));
        },
        None => {},
    }
    match &start.user {
        Some(user) => {
            let _earlier = attrs.insert("user", AttrValue::Text(user.clone()));
        },
        None => {},
    }
    attrs
}

impl Engine {
    /// Whether everything but the trace, the counters and what an event is
    /// projected into stayed as it was.
    pub open spec fn keeps(&self, before: &Engine) -> bool {
        self.config() == before.config() && self.decisions() == before.decisions()
    }

    /// Whether this is the engine after an event was projected into it.
    pub open spec fn projected(&self, before: &Engine, event: TelemetryEvent) -> bool {
        let id = self.counts().process_starts;
        &&& self.keeps(before)
        &&& self.running() == running_after(before.running(), event, id)
        &&& self.path() == before.path().push(
            Step {
                id: self.counts().events,
                ts_ns: event_ns(event),
                actor: actor_of(before.running(), event, id),
                action: event.kind.name(),
                target: None,
            },
        )
        &&& match event.kind {
            EventKind::ProcessStart(start) => {
                &&& self.counts().process_starts == before.counts().process_starts + 1
                &&& self.entities() == before.entities().insert(id, self.entities()[id])
                &&& !before.entities().contains_key(id)
                &&& projects(self.entities()[id], id, start, event_ns(event))
                &&& self.observed() == before.observed().insert(start.pid.0 as u64, ObsId(id))
                &&& forall|image: Seq<char>| #[trigger]
                    self.images().seen(image) == if image == folded(start.executable@) {
                        one_more(before.images().seen(image))
                    } else {
                        before.images().seen(image)
                    }
                &&& self.images().sightings() == before.images().sightings() + 1
                &&& self.images().variety() == before.images().variety() + (if before.images().seen(
                    folded(start.executable@),
                ) == 0 {
                    1int
                } else {
                    0int
                })
                &&& if start.parent_pid is Some {
                    self.structure().taught(
                        &before.structure(),
                        edge_of(before.running(), start),
                    )
                } else {
                    self.structure() == before.structure()
                }
            },
            _ => {
                &&& self.counts().process_starts == before.counts().process_starts
                &&& self.entities() == before.entities()
                &&& self.observed() == before.observed()
                &&& self.images() == before.images()
                &&& self.structure() == before.structure()
            },
        }
    }

    /// Projects an event into state, trace, novelty and structure. The counter
    /// of events already counts it.
    fn project(&mut self, event: &TelemetryEvent)
        requires
            old(self).state.wf(),
            old(self).novelty.wf(),
            old(self).anomaly.wf(),
            old(self).metrics.wf(),
            old(self).metrics.process_starts < old(self).metrics.events,
            old(self).novelty.sightings() == old(self).metrics.process_starts,
            forall|id: u64|
                old(self).state.known().dom().contains(id) ==> 1 <= id <= old(self).metrics.process_starts,
        ensures
            final(self).state.wf(),
            final(self).novelty.wf(),
            final(self).anomaly.wf(),
            final(self).metrics == (Metrics {
                process_starts: final(self).metrics.process_starts,
                ..old(self).metrics
            }),
            final(self).metrics.process_starts <= final(self).metrics.events,
            final(self).novelty.sightings() == final(self).metrics.process_starts,
            forall|id: u64|
                final(self).state.known().dom().contains(id) ==> 1 <= id <= final(self).metrics.process_starts,
            final(self).projected(old(self), *event),
            final(self).actions == old(self).actions,
            final(self).audit == old(self).audit,
            final(self).cfg == old(self).cfg,
    {
        let ts: i64 = timestamp_ns(event);
        let ghost start_engine = *self;
        let ghost running = self.running();
        let actor: u64;
        match &event.kind {
            EventKind::ProcessStart(start) => {
                self.metrics.process_starts = self.metrics.process_starts + 1;
                let entity: u64 = self.metrics.process_starts;
                let pid: u32 = start.pid.as_u32();
                let attrs = start_attrs(start);
                let projected = Entity {
                    id: EntityId(entity),
                    kind: EntityKind::Process,
                    label: start.executable.clone(),
                    first_seen_ns: ts,
                    last_seen_ns: ts,
                    attrs,
                };
                assert(projects(projected, entity, *start, event_ns(*event)));
                let _first = self.state.observe(projected);
                let folded_image = text_of(folded_chars(start.executable.as_str()).as_slice());
                let _seen: u32 = self.novelty.observe(folded_image.as_str());
                self.observe.observe(pid as u64, ObsId(entity));
                match start.parent_pid {
                    Some(parent_pid) => {
                        let parent: u32 = parent_pid.as_u32();
                        let parent_image = match self.process(parent) {
                            Some(record) => record.image.clone(),
                            None => "<unobserved>".to_string(),
                        };
                        let edge = EdgeKey::new(
                            parent_image.as_str(),
                            start.executable.as_str(),
                            "spawned",
                        );
                        let _new = self.anomaly.observe_edge(edge);
                        match self.processes.remove(&parent) {
                            Some(record) => {
                                let counted = ProcRecord {
                                    entity: record.entity,
                                    image: record.image,
                                    children: record.children.saturating_add(1),
                                };
                                self.processes.insert(parent, counted);
                                assert(self.running() =~= running.insert(
                                    parent,
                                    Proc {
                                        children: one_more(running[parent].children),
                                        ..running[parent]
                                    },
                                ));
                            },
                            None => {
                                assert(self.running() =~= running);
                            },
                        }
                    },
                    None => {},
                }
                let ghost counted = self.running();
                self.processes.insert(
                    pid,
                    ProcRecord { entity, image: start.executable.clone(), children: 0 },
                );
                assert(self.running() =~= counted.insert(
                    pid,
                    Proc { entity, image: start.executable@, children: 0 },
                ));
                actor = entity;
            },
            EventKind::ProcessExit(exit) => {
                let pid: u32 = exit.pid.as_u32();
                actor = match self.processes.remove(&pid) {
                    Some(record) => record.entity,
                    None => 0,
                };
                assert(self.running() =~= running.remove(pid));
            },
            _ => {
                actor = match self.process(event.pid) {
                    Some(record) => record.entity,
                    None => 0,
                };
            },
        }
        let action = event.kind.as_str().to_string();
        self.trace.push(
            TraceEvent {
                id: EventId(self.metrics.events),
                ts_ns: ts,
                actor,
                action,
                target: None,
            },
        );
    }

    /// The first half of taking an event in: the event is counted, projected and
    /// evaluated, and what the rules found is counted and handed back.
    pub fn begin(&mut self, event: &TelemetryEvent) -> (pending: Pending)
        requires
            old(self).wf(),
            old(self).has_room(),
        ensures
            final(self).wf(),
            pending.key == key_of(*event),
            all_say(pending.findings@) == evaluated(
                *event,
                established(old(self).running(), old(self).images(), *event),
            ),
            final(self).projected(old(self), *event),
            final(self).counts() == (Metrics {
                events: (old(self).counts().events + 1) as u64,
                process_starts: final(self).counts().process_starts,
                findings: (old(self).counts().findings + pending.findings@.len()) as u64,
                by_rule: final(self).counts().by_rule,
                ..old(self).counts()
            }),
            forall|rule: Seq<char>| #[trigger]
                final(self).counts().firing(rule) == noted(
                    old(self).counts().firing(rule),
                    all_say(pending.findings@),
                    rule,
                ),
    {
        self.metrics.events = self.metrics.events + 1;
        let facts = self.gather(event);
        self.project(event);
        let ghost projected = *self;
        let findings = evaluate(event, &facts.as_facts());
        proof {
            lemma_at_most(*event, facts.known());
            assert(all_say(findings@).len() == findings@.len());
        }
        let ghost said = all_say(findings@);
        let mut i: usize = 0;
        assert(said.take(0) == Seq::<Evidence>::empty());
        while i < findings.len()
            invariant
                i <= findings@.len() <= 17,
                said == all_say(findings@),
                self.metrics.wf(),
                self.metrics.findings == old(self).metrics.findings + i,
                old(self).metrics.findings <= u64::MAX - 17,
                *self == (Engine {
                    metrics: Metrics {
                        findings: self.metrics.findings,
                        by_rule: self.metrics.by_rule,
                        ..projected.metrics
                    },
                    ..projected
                }),
                projected.metrics.by_rule == old(self).metrics.by_rule,
                forall|rule: Seq<char>| #[trigger]
                    self.metrics.firing(rule) == noted(
                        old(self).metrics.firing(rule),
                        said.take(i as int),
                        rule,
                    ),
            decreases findings@.len() - i,
        {
            let ghost before = self.metrics;
            self.metrics.record_finding(
                findings[i].rule,
                findings[i].likelihood.hit,
                findings[i].likelihood.miss,
            );
            proof {
                let now = said.take(i + 1);
                assert(now.drop_last() == said.take(i as int));
                assert(now.last() == findings@[i as int].says());
                assert forall|rule: Seq<char>| #[trigger]
                    self.metrics.firing(rule) == noted(
                        old(self).metrics.firing(rule),
                        now,
                        rule,
                    ) by {
                    assert(before.firing(rule) == noted(
                        old(self).metrics.firing(rule),
                        said.take(i as int),
                        rule,
                    ));
                    if rule != findings@[i as int].rule@ {
                        assert(self.metrics.firing(rule) == before.firing(rule));
                    }
                }
            }
            i += 1;
        }
        assert(said.take(i as int) == said);
        Pending { key: evidence_key(event), findings }
    }
}

fn strongest_finding(findings: &[Finding]) -> (best: Option<&Finding>)
    ensures
        match best {
            Some(f) => strongest(all_say(findings@)) == Some(f.says()),
            None => strongest(all_say(findings@)) is None,
        },
{
    let ghost said = all_say(findings@);
    let mut best: Option<&Finding> = None;
    let mut i: usize = 0;
    assert(said.take(0) == Seq::<Evidence>::empty());
    while i < findings.len()
        invariant
            i <= findings@.len(),
            said == all_say(findings@),
            strongest(said.take(i as int)) == match best {
                Some(f) => Some(f.says()),
                None => None,
            },
        decreases findings@.len() - i,
    {
        let next = &findings[i];
        proof {
            let now = said.take(i + 1);
            assert(now.drop_last() == said.take(i as int));
            assert(now.last() == next.says());
        }
        best = match best {
            None => Some(next),
            Some(held) => if next.likelihood.is_weaker(&held.likelihood) {
                Some(held)
            } else {
                Some(next)
            },
        };
        i += 1;
    }
    assert(said.take(i as int) == said);
    best
}

fn alert_body(findings: &[Finding]) -> (body: String)
    ensures
        body@ == body_of(all_say(findings@), findings@.len()),
{
    let ghost said = all_say(findings@);
    let mut body = String::new();
    let mut i: usize = 0;
    while i < findings.len()
        invariant
            i <= findings@.len(),
            said == all_say(findings@),
            body@ == body_of(said, i as nat),
        decreases findings@.len() - i,
    {
        let ghost before = body@;
        assert(said[i as int] == findings@[i as int].says());
        let kept = minimise(findings[i].detail.as_str());
        let one = concat3(findings[i].technique, ": ", kept.as_str());
        if i > 0 {
            body.push_str("; ");
        }
        body.push_str(one.as_str());
        assert(i == 0 ==> body@ == one@);
        i += 1;
    }
    body
}

impl Engine {
    /// Whether everything but the audit log and the counters stayed as it was.
    pub open spec fn settles(&self, before: &Engine) -> bool {
        &&& self.config() == before.config()
        &&& self.entities() == before.entities()
        &&& self.path() == before.path()
        &&& self.observed() == before.observed()
        &&& self.images() == before.images()
        &&& self.structure() == before.structure()
        &&& self.running() == before.running()
    }

    /// The second half of taking an event in: the response to a decision on its
    /// findings.
    ///
    /// An alert is returned when the decision is to act and policy permits the
    /// response. Nothing returned is not the same as nothing having happened:
    /// the counters tell an abstention from a refusal by policy, and every
    /// decision to act is recorded either way.
    pub fn finish(
        &mut self,
        event: &TelemetryEvent,
        findings: &[Finding],
        decision: Decision,
        probability: &Probability,
    ) -> (alert: Option<Alert>)
        requires
            old(self).wf(),
            decision == Decision::Abstain && findings@.len() > 0 ==> old(self).counts().abstained
                < u64::MAX,
        ensures
            final(self).wf(),
            final(self).settles(old(self)),
            decision == Decision::Abstain ==> {
                &&& alert is None
                &&& final(self).decisions() == old(self).decisions()
                &&& final(self).counts() == (Metrics {
                    abstained: (old(self).counts().abstained + (if findings@.len() > 0 {
                        1int
                    } else {
                        0int
                    })) as u64,
                    ..old(self).counts()
                })
            },
            decision == Decision::Act ==> {
                let ground = response_ground(*probability, old(self).config());
                let response = responses()[justified(probability.bits)];
                let said = all_say(findings@);
                &&& final(self).decisions() == old(self).decisions().push(
                    record_for(event_ns(*event), response.1, ground),
                )
                &&& verdict_of(ground) == Verdict::Denied ==> {
                    &&& alert is None
                    &&& final(self).counts() == (Metrics {
                        withheld_by_policy: (old(self).counts().withheld_by_policy + 1) as u64,
                        ..old(self).counts()
                    })
                }
                &&& verdict_of(ground) != Verdict::Denied ==> {
                    &&& final(self).counts() == (Metrics {
                        alerts: (old(self).counts().alerts + 1) as u64,
                        ..old(self).counts()
                    })
                    &&& match alert {
                        Some(a) => named_rule(said).len() > 0 && raises(
                            a,
                            (old(self).counts().alerts + 1) as nat,
                            *event,
                            said,
                            *probability,
                            old(self).config().host,
                            verdict_of(ground),
                        ),
                        None => named_rule(said).len() == 0,
                    }
                }
            },
    {
        match decision {
            Decision::Act => self.respond(event, findings, probability),
            Decision::Abstain => {
                if findings.len() > 0 {
                    self.metrics.abstained = self.metrics.abstained + 1;
                }
                None
            },
        }
    }

    /// The action justified by the evidence alone. Governance decides separately
    /// whether it may be taken.
    fn choose_action(&self, probability: &Probability) -> (id: ActionId)
        requires
            are_responses(self.actions.all()),
        ensures
            id == ActionId(responses()[justified(probability.bits)].0),
            action_of(self.actions.all(), id) == Some(
                self.actions.all()[justified(probability.bits)],
            ),
    {
        let kind = if probability.at_least(ISOLATE_BITS) {
            ActionKind::Isolate
        } else if probability.at_least(FREEZE_BITS) {
            ActionKind::Freeze
        } else if probability.at_least(CONTROL_BITS) {
            ActionKind::CompensatingControl
        } else {
            ActionKind::Alert
        };
        let ladder = self.actions.escalation_ladder();
        let ghost all = self.actions.all();
        let ghost want = justified(probability.bits);
        proof {
            lemma_responses(all);
            assert(is_response(all[0], responses()[0]));
            assert(is_response(all[1], responses()[1]));
            assert(is_response(all[2], responses()[2]));
            assert(is_response(all[3], responses()[3]));
            assert(is_response(all[4], responses()[4]));
            assert(kind == responses()[want].2);
        }
        let mut i: usize = 0;
        while i < ladder.len()
            invariant
                i <= ladder@.len(),
                ladder@ == all.map_values(|a: Action| a.id),
                all == self.actions.all(),
                are_responses(all),
                want == justified(probability.bits),
                kind == responses()[want].2,
                1 <= want < 5,
                forall|k: int|
                    0 <= k < 5 ==> action_of(all, (#[trigger] all[k]).id) == Some(all[k]),
                forall|k: int| 0 <= k < i ==> (#[trigger] all[k]).kind != kind,
            decreases ladder@.len() - i,
        {
            assert(ladder@[i as int] == all[i as int].id);
            assert(is_response(all[i as int], responses()[i as int]));
            match self.actions.get(ladder[i]) {
                Some(action) => {
                    assert(*action == all[i as int]);
                    if action.kind == kind {
                        assert(i == want) by {
                            assert(is_response(all[want], responses()[want]));
                            assert(all[want].kind == kind);
                        }
                        return ladder[i];
                    }
                },
                None => {},
            }
            i += 1;
        }
        assert(is_response(all[want], responses()[want]));
        assert(all[want].kind == kind);
        ActionId(2)
    }

    fn respond(
        &mut self,
        event: &TelemetryEvent,
        findings: &[Finding],
        probability: &Probability,
    ) -> (alert: Option<Alert>)
        requires
            old(self).wf(),
        ensures
            final(self).wf(),
            final(self).settles(old(self)),
            ({
                let ground = response_ground(*probability, old(self).config());
                let response = responses()[justified(probability.bits)];
                let said = all_say(findings@);
                &&& final(self).decisions() == old(self).decisions().push(
                    record_for(event_ns(*event), response.1, ground),
                )
                &&& verdict_of(ground) == Verdict::Denied ==> {
                    &&& alert is None
                    &&& final(self).counts() == (Metrics {
                        withheld_by_policy: (old(self).counts().withheld_by_policy + 1) as u64,
                        ..old(self).counts()
                    })
                }
                &&& verdict_of(ground) != Verdict::Denied ==> {
                    &&& final(self).counts() == (Metrics {
                        alerts: (old(self).counts().alerts + 1) as u64,
                        ..old(self).counts()
                    })
                    &&& match alert {
                        Some(a) => named_rule(said).len() > 0 && raises(
                            a,
                            (old(self).counts().alerts + 1) as nat,
                            *event,
                            said,
                            *probability,
                            old(self).config().host,
                            verdict_of(ground),
                        ),
                        None => named_rule(said).len() == 0,
                    }
                }
            }),
    {
        let action_id = self.choose_action(probability);
        let ghost place = justified(probability.bits);
        let ghost all = self.actions.all();
        assert(is_response(all[place], responses()[place]));
        let (name, severity, reversible, blast_radius, disruptive) = match self.actions.get(
            action_id,
        ) {
            Some(action) => (
                action.name.clone(),
                action.severity,
                action.reversible,
                action.blast_radius,
                action.kind.disruptive(),
            ),
            None => {
                return None;
            },
        };
        let request = ActionRequest {
            name: name.clone(),
            severity: gov_severity(severity),
            reversible,
            blast_radius,
            disruptive,
        };
        let verdict = self.audit.record(
            timestamp_ns(event),
            &request,
            self.cfg.autonomy,
            &self.cfg.policy,
        );
        let (technique, rule): (&'static str, &'static str) = match strongest_finding(findings) {
            Some(best) => (best.technique, best.rule),
            None => ("TA0000", "unclassified"),
        };
        match verdict {
            Verdict::Denied => {
                self.metrics.withheld_by_policy = self.metrics.withheld_by_policy + 1;
                None
            },
            Verdict::Auto | Verdict::RequiresApproval => {
                let promised = if verdict == Verdict::RequiresApproval {
                    concat(name.as_str(), " (proposed, awaiting approval)")
                } else {
                    name
                };
                let body = alert_body(findings);
                self.metrics.alerts = self.metrics.alerts + 1;
                let id = match AlertId::new(decimal(self.metrics.alerts)) {
                    Ok(id) => id,
                    Err(_) => {
                        proof {
                            lemma_decimal_not_empty(self.metrics.alerts as nat);
                        }
                        return None;
                    },
                };
                let rule_id = match RuleId::new(rule.to_string()) {
                    Ok(id) => id,
                    Err(_) => {
                        return None;
                    },
                };
                let mut description = concat5(
                    "p=",
                    probability.text.as_str(),
                    " via ",
                    rule,
                    "; ",
                );
                description.push_str(body.as_str());
                let mut techniques: Vec<String> = Vec::new();
                techniques.push(technique.to_string());
                Some(
                    Alert::new(
                        id,
                        rule_id,
                        concat3(technique, ": ", promised.as_str()),
                        description,
                        model_severity(severity),
                        event.timestamp,
                        self.cfg.host.clone(),
                        Vec::new(),
                        techniques,
                    ),
                )
            },
        }
    }

    pub fn metrics(&self) -> (metrics: &Metrics)
        ensures
            *metrics == self.counts(),
    {
        &self.metrics
    }

    pub fn autonomy(&self) -> (level: AutonomyLevel)
        ensures
            level == self.config().autonomy,
    {
        self.cfg.autonomy
    }

    pub fn audit(&self) -> (audit: &AuditLog)
        ensures
            audit.history() == self.decisions(),
    {
        &self.audit
    }

    pub fn state(&self) -> (state: &StateSpace)
        requires
            self.wf(),
        ensures
            state.wf(),
            state.known() == self.entities(),
    {
        &self.state
    }

    pub fn trace(&self) -> (trace: &Trace)
        ensures
            trace.path() == self.path(),
    {
        &self.trace
    }

    /// Assembles the run report.
    pub fn observation(&self) -> (report: Observation)
        requires
            self.wf(),
        ensures
            report.entities == self.entities().len(),
            report.distinct_images == self.images().variety(),
            report.known_edges == self.structure().edge_total(),
            report.blind_spot.wf(),
            report.blind_spot.den == if self.entities().len() == 0 {
                1
            } else {
                self.entities().len()
            },
            report.blind_spot.den - report.blind_spot.num == if self.entities().len() == 0 {
                1
            } else if self.observed().len() > self.entities().len() {
                self.entities().len()
            } else {
                self.observed().len()
            },
            report.metrics == (Metrics { by_rule: report.metrics.by_rule, ..self.counts() }),
            report.metrics.by_rule@ == self.counts().by_rule@,
    {
        build(
            &self.metrics,
            &self.observe,
            self.state.len(),
            self.novelty.distinct(),
            self.anomaly.edges(),
        )
    }
}

proof fn lemma_decimal_not_empty(n: nat)
    ensures
        decimal_text(n).len() > 0,
    decreases n,
{
    if n >= 10 {
        lemma_decimal_not_empty(n / 10);
    }
}

/// Every decision to act is recorded: there are exactly as many records as there
/// are alerts and refusals.
pub proof fn every_governed_decision_is_audited(engine: Engine)
    requires
        engine.wf(),
    ensures
        engine.decisions().len() == engine.counts().alerts + engine.counts().withheld_by_policy,
{
}

/// Every event has exactly one trace entry.
pub proof fn every_event_is_traced(engine: Engine)
    requires
        engine.wf(),
    ensures
        engine.path().len() == engine.counts().events,
{
}

/// No host is isolated unattended under the default policy, whatever the
/// evidence and the autonomy.
pub proof fn isolation_is_never_unattended(probability: Probability, cfg: Config)
    requires
        reaches(probability.bits, ISOLATE_BITS),
        cfg.policy == (GovernancePolicy {
            max_auto: GovSeverity::Medium,
            require_reversible: true,
        }),
    ensures
        verdict_of(response_ground(probability, cfg)) != Verdict::Auto,
{
}

/// An alert justified by weak evidence is never withheld: raising it disrupts
/// nothing, so it needs no authority.
pub proof fn plain_alerts_are_never_withheld(probability: Probability, cfg: Config)
    requires
        !reaches(probability.bits, CONTROL_BITS),
        !reaches(probability.bits, FREEZE_BITS),
        !reaches(probability.bits, ISOLATE_BITS),
    ensures
        verdict_of(response_ground(probability, cfg)) == Verdict::Auto,
{
}

/// The rules find at most one thing each.
proof fn lemma_at_most(event: TelemetryEvent, facts: Known)
    ensures
        evaluated(event, facts).len() <= 17,
{
}

} // verus!
