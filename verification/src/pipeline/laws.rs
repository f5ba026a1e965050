//! What the engine owes: how a response follows from a probability, what an alert
//! names, and how one event bears on the next.
use super::engine::{
    actor_of, alert_severity, body_of, established, governance_severity, justified, key_of,
    named_rule, named_technique, noted, parent_of, raises, response_ground, responses,
    running_after, strongest, Config, Engine, Proc,
};
use super::rules::Evidence;
use crate::asmr::action::ActionKind;
use crate::asmr::anomaly::StructuralProfile;
use crate::asmr::decision::Probability;
use crate::asmr::governance::{
    verdict_of, AutonomyLevel, GovernancePolicy, Severity as GovSeverity, Verdict,
};
use crate::asmr::novelty::NoveltyModel;
use crate::asmr::observe::ObsId;
use crate::asmr::privacy::minimised;
use crate::asmr::state::{AttrValue, EntityId, EntityKind};
use crate::likelihood::Likelihood;
use crate::model::alert::{Alert, Severity};
use crate::model::event::TelemetryEvent;
use crate::model::host::HostId;
use crate::model::kind::EventKind;
use crate::text::{decimal_text, folded};
use vstd::prelude::*;

verus! {

/// The bit pattern of 0.90.
pub const NINE_TENTHS: u64 = 0x3fec_cccc_cccc_cccd;

/// The bit pattern of 0.98.
pub const NEARLY_CERTAIN: u64 = 0x3fef_5c28_f5c2_8f5c;

/// The bit pattern of 0.995.
pub const CERTAIN: u64 = 0x3fef_d70a_3d70_a3d7;

/// The bit pattern of infinity: no number that is not negative is above it.
pub const UNBOUNDED: u64 = 0x7ff0_0000_0000_0000;

/// More probability never justifies a milder response: of two probabilities the
/// higher one's response is at least as severe, as far up the ladder, and at least
/// as wide, and it is the more alarming alert.
pub proof fn stronger_evidence_is_never_answered_more_mildly(p: u64, q: u64)
    requires
        p <= q <= UNBOUNDED,
    ensures
        responses()[justified(p)].3 <= responses()[justified(q)].3,
        responses()[justified(p)].2.step() <= responses()[justified(q)].2.step(),
        responses()[justified(p)].5 <= responses()[justified(q)].5,
        severity_place(alert_severity(responses()[justified(p)].3)) <= severity_place(
            alert_severity(responses()[justified(q)].3),
        ),
        governance_severity(responses()[justified(p)].3).height() <= governance_severity(
            responses()[justified(q)].3,
        ).height(),
{
}

/// Where a severity stands, from mere information up.
pub open spec fn severity_place(severity: Severity) -> int {
    match severity {
        Severity::Info => 0,
        Severity::Low => 1,
        Severity::Medium => 2,
        Severity::High => 3,
        Severity::Critical => 4,
    }
}

/// A host is isolated from 0.995 on, a process frozen from 0.98 on, a control
/// applied from 0.90 on, and below that an alert raised; what is no number that
/// is not negative raises an alert too.
pub proof fn responses_follow_their_thresholds(bits: u64)
    ensures
        responses()[justified(bits)].2 == ActionKind::Isolate <==> CERTAIN <= bits <= UNBOUNDED,
        responses()[justified(bits)].2 == ActionKind::Freeze <==> NEARLY_CERTAIN <= bits < CERTAIN,
        responses()[justified(bits)].2 == ActionKind::CompensatingControl <==> NINE_TENTHS <= bits
            < NEARLY_CERTAIN,
        responses()[justified(bits)].2 == ActionKind::Alert <==> bits < NINE_TENTHS || bits
            > UNBOUNDED,
{
}

/// Of the responses only isolation cannot be undone, and only those from a control
/// on touch anything.
pub proof fn only_isolation_is_irreversible(bits: u64)
    ensures
        responses()[justified(bits)].4 <==> responses()[justified(bits)].2 != ActionKind::Isolate,
        responses()[justified(bits)].5 == 0 <==> responses()[justified(bits)].2
            == ActionKind::Alert,
        responses()[justified(bits)].2 != ActionKind::Observe,
{
}

/// What an alert promises and how alarming it is, by the probability behind it:
/// its title names the technique and the response, and says where the response
/// waits for approval.
pub proof fn alerts_name_their_response(
    alert: Alert,
    ordinal: nat,
    event: TelemetryEvent,
    said: Seq<Evidence>,
    probability: Probability,
    host: HostId,
    verdict: Verdict,
)
    requires
        raises(alert, ordinal, event, said, probability, host, verdict),
    ensures
        ({
            let bits = probability.bits;
            let waiting = if verdict == Verdict::RequiresApproval {
                " (proposed, awaiting approval)"@
            } else {
                Seq::empty()
            };
            let lead = named_technique(said) + ": "@;
            &&& CERTAIN <= bits <= UNBOUNDED ==> alert.severity == Severity::Critical
                && alert.title@ == lead + ("isolate host"@ + waiting)
            &&& NEARLY_CERTAIN <= bits < CERTAIN ==> alert.severity == Severity::High
                && alert.title@ == lead + ("freeze process"@ + waiting)
            &&& NINE_TENTHS <= bits < NEARLY_CERTAIN ==> alert.severity == Severity::Medium
                && alert.title@ == lead + ("apply compensating control"@ + waiting)
            &&& bits < NINE_TENTHS || bits > UNBOUNDED ==> alert.severity == Severity::Low
                && alert.title@ == lead + ("raise alert"@ + waiting)
        }),
        alert.timestamp == event.timestamp,
        alert.host == host,
        alert.id@ == decimal_text(ordinal),
        alert.rule_id@ == named_rule(said),
        alert.mitre_techniques@.len() == 1 && alert.mitre_techniques@[0]@ == named_technique(said),
        alert.description@ == "p="@ + probability.text@ + " via "@ + named_rule(said) + "; "@
            + body_of(said, said.len()),
{
    let r = responses()[justified(probability.bits)].1;
    assert(r + Seq::<char>::empty() == r);
}

/// Below the lowest threshold a response needs no authority. From there on an
/// observer or an alerter may not take it at all, an approver has to ask, and one
/// who may act under the default policy may apply a control and has to ask for
/// anything stronger.
pub proof fn disruptive_responses_are_governed(probability: Probability, cfg: Config)
    requires
        cfg.policy == (GovernancePolicy {
            max_auto: GovSeverity::Medium,
            require_reversible: true,
        }),
    ensures
        ({
            let bits = probability.bits;
            let verdict = verdict_of(response_ground(probability, cfg));
            if bits < NINE_TENTHS || bits > UNBOUNDED {
                verdict == Verdict::Auto
            } else {
                match cfg.autonomy {
                    AutonomyLevel::Observe | AutonomyLevel::Alert => verdict == Verdict::Denied,
                    AutonomyLevel::Approve => verdict == Verdict::RequiresApproval,
                    AutonomyLevel::Auto => verdict == if bits < NEARLY_CERTAIN {
                        Verdict::Auto
                    } else {
                        Verdict::RequiresApproval
                    },
                }
            }
        }),
{
}

/// Whether every piece of evidence has a ratio of hit to miss.
pub open spec fn all_weighable(said: Seq<Evidence>) -> bool {
    forall|i: int|
        0 <= i < said.len() ==> (#[trigger] said[i]).likelihood.hit > 0 && said[i].likelihood.miss
            > 0
}

proof fn lemma_weaker_chain(a: Likelihood, b: Likelihood, c: Likelihood)
    requires
        a.hit > 0,
        a.miss > 0,
        b.hit > 0,
        b.miss > 0,
        c.hit > 0,
        c.miss > 0,
    ensures
        a.hit * b.miss < b.hit * a.miss && b.hit * c.miss <= c.hit * b.miss ==> a.hit * c.miss
            < c.hit * a.miss,
        a.hit * b.miss <= b.hit * a.miss && b.hit * c.miss <= c.hit * b.miss ==> a.hit * c.miss
            <= c.hit * a.miss,
{
    let (p, q, r, s, t, u) = (
        a.hit as int,
        a.miss as int,
        b.hit as int,
        b.miss as int,
        c.hit as int,
        c.miss as int,
    );
    if p * s <= r * q && r * u <= t * s {
        assert((p * u) * s <= (t * q) * s && (p * s < r * q ==> (p * u) * s < (t * q) * s))
            by (nonlinear_arith)
            requires
                p * s <= r * q,
                r * u <= t * s,
                p > 0,
                q > 0,
                r > 0,
                s > 0,
                t > 0,
                u > 0,
        {
            assert((p * u) * s == (p * s) * u);
            assert((p * s) * u <= (r * q) * u);
            assert((r * q) * u == (r * u) * q);
            assert((r * u) * q <= (t * s) * q);
            assert((t * s) * q == (t * q) * s);
        }
        assert(p * u <= t * q) by (nonlinear_arith)
            requires
                (p * u) * s <= (t * q) * s,
                s > 0,
        ;
        if p * s < r * q {
            assert(p * u < t * q) by (nonlinear_arith)
                requires
                    (p * u) * s < (t * q) * s,
                    s > 0,
            ;
        }
    }
}

/// An alert names the strongest evidence: one of the findings, no weaker than any
/// other, and stronger than every finding behind it.
pub proof fn alerts_name_the_strongest_evidence(said: Seq<Evidence>)
    requires
        said.len() > 0,
        all_weighable(said),
    ensures
        exists|at: int|
            0 <= at < said.len() && named_rule(said) == (#[trigger] said[at]).rule
                && named_technique(said) == said[at].technique && strongest(said) == Some(said[at])
                && (forall|i: int|
                0 <= i < said.len() ==> (#[trigger] said[i]).likelihood.hit
                    * said[at].likelihood.miss <= said[at].likelihood.hit
                    * said[i].likelihood.miss) && (forall|i: int|
                at < i < said.len() ==> (#[trigger] said[i]).likelihood.hit
                    * said[at].likelihood.miss < said[at].likelihood.hit
                    * said[i].likelihood.miss),
    decreases said.len(),
{
    let n = said.len() - 1;
    let front = said.drop_last();
    if n == 0 {
        assert(said[0] == said.last());
        assert(strongest(said) == Some(said[0]));
    } else {
        assert forall|i: int| 0 <= i < front.len() implies (#[trigger] front[i]).likelihood.hit > 0
            && front[i].likelihood.miss > 0 by {
            assert(front[i] == said[i]);
        }
        alerts_name_the_strongest_evidence(front);
        let at = choose|at: int|
            0 <= at < front.len() && named_rule(front) == (#[trigger] front[at]).rule
                && named_technique(front) == front[at].technique && strongest(front) == Some(
                front[at],
            ) && (forall|i: int|
                0 <= i < front.len() ==> (#[trigger] front[i]).likelihood.hit
                    * front[at].likelihood.miss <= front[at].likelihood.hit
                    * front[i].likelihood.miss) && (forall|i: int|
                at < i < front.len() ==> (#[trigger] front[i]).likelihood.hit
                    * front[at].likelihood.miss < front[at].likelihood.hit
                    * front[i].likelihood.miss);
        assert(said[at] == front[at]);
        assert(said[n] == said.last());
        assert(forall|i: int| 0 <= i < front.len() ==> said[i] == #[trigger] front[i]);
        if said.last().likelihood.weaker(&said[at].likelihood) {
            assert forall|i: int| 0 <= i < said.len() implies (#[trigger] said[i]).likelihood.hit
                * said[at].likelihood.miss <= said[at].likelihood.hit * said[i].likelihood.miss by {
                if i < n {
                    assert(front[i] == said[i]);
                }
            }
            assert forall|i: int| at < i < said.len() implies (#[trigger] said[i]).likelihood.hit
                * said[at].likelihood.miss < said[at].likelihood.hit * said[i].likelihood.miss by {
                if i < n {
                    assert(front[i] == said[i]);
                }
            }
            assert(strongest(said) == Some(said[at]));
        } else {
            assert(strongest(said) == Some(said[n]));
            assert forall|i: int| 0 <= i < said.len() implies (#[trigger] said[i]).likelihood.hit
                * said[n].likelihood.miss <= said[n].likelihood.hit * said[i].likelihood.miss by {
                if i < n {
                    assert(front[i] == said[i]);
                    lemma_weaker_chain(
                        said[i].likelihood,
                        said[at].likelihood,
                        said[n].likelihood,
                    );
                }
            }
        }
    }
}

/// An alert without evidence names no technique and no rule of its own.
pub proof fn alerts_without_evidence_are_unclassified()
    ensures
        named_rule(seq![]) == "unclassified"@,
        named_technique(seq![]) == "TA0000"@,
        body_of(seq![], 0) == Seq::<char>::empty(),
{
}

/// An alert's body lists every finding, its technique before its minimised detail,
/// and one finding more adds to the end.
pub proof fn alert_bodies_list_every_finding(said: Seq<Evidence>, last: Evidence)
    ensures
        ({
            let one = last.technique + ": "@ + minimised(last.detail);
            body_of(said.push(last), said.len() + 1) == if said.len() == 0 {
                one
            } else {
                body_of(said, said.len()) + "; "@ + one
            }
        }),
{
    lemma_body_prefix(said.push(last), said, said.len());
}

proof fn lemma_body_prefix(a: Seq<Evidence>, b: Seq<Evidence>, n: nat)
    requires
        n <= a.len(),
        n <= b.len(),
        forall|i: int| 0 <= i < n ==> a[i] == b[i],
    ensures
        body_of(a, n) == body_of(b, n),
    decreases n,
{
    if n > 0 {
        lemma_body_prefix(a, b, (n - 1) as nat);
    }
}

/// How many findings name a rule.
pub open spec fn naming(said: Seq<Evidence>, rule: Seq<char>) -> nat {
    said.filter(|e: Evidence| e.rule == rule).len()
}

/// A rule is on record once it has fired, with one firing for each finding that
/// names it and with the probabilities of the first that did.
pub proof fn firings_are_counted(said: Seq<Evidence>, rule: Seq<char>)
    requires
        said.len() <= u64::MAX,
    ensures
        match noted(None, said, rule) {
            None => naming(said, rule) == 0,
            Some(firing) => firing.firings == naming(said, rule) && naming(said, rule) > 0
                && exists|first: int|
                0 <= first < said.len() && (#[trigger] said[first]).rule == rule && firing.hit
                    == said[first].likelihood.hit && firing.miss == said[first].likelihood.miss
                    && forall|i: int| 0 <= i < first ==> (#[trigger] said[i]).rule != rule,
        },
        naming(said, rule) <= said.len(),
    decreases said.len(),
{
    reveal(Seq::filter);
    if said.len() > 0 {
        let front = said.drop_last();
        firings_are_counted(front, rule);
        assert(forall|i: int| 0 <= i < front.len() ==> said[i] == #[trigger] front[i]);
        match noted(None, front, rule) {
            Some(firing) => {
                let first = choose|first: int|
                    0 <= first < front.len() && (#[trigger] front[first]).rule == rule
                        && firing.hit == front[first].likelihood.hit && firing.miss
                        == front[first].likelihood.miss && forall|i: int|
                        0 <= i < first ==> (#[trigger] front[i]).rule != rule;
                assert(said[first].rule == rule);
                assert forall|i: int| 0 <= i < first implies (#[trigger] said[i]).rule != rule by {
                    assert(front[i].rule != rule);
                }
            },
            None => {
                assert forall|i: int| 0 <= i < front.len() implies (#[trigger] said[i]).rule
                    != rule by {
                    lemma_none_named(front, rule, i);
                }
                assert(said[said.len() - 1] == said.last());
            },
        }
    }
}

proof fn lemma_none_named(said: Seq<Evidence>, rule: Seq<char>, i: int)
    requires
        naming(said, rule) == 0,
        0 <= i < said.len(),
    ensures
        said[i].rule != rule,
    decreases said.len(),
{
    reveal(Seq::filter);
    if i < said.len() - 1 {
        lemma_none_named(said.drop_last(), rule, i);
        assert(said.drop_last()[i] == said[i]);
    } else {
        assert(said[i] == said.last());
    }
}

/// A process that starts is running with no children yet, under its own image; a
/// process that exits is not running; and nothing else that happens starts or ends
/// one.
pub proof fn starts_and_exits_decide_what_runs(
    running: Map<u32, Proc>,
    event: TelemetryEvent,
    entity: u64,
)
    ensures
        match event.kind {
            EventKind::ProcessStart(start) => {
                let after = running_after(running, event, entity);
                &&& after.contains_key(start.pid.0)
                &&& after[start.pid.0].entity == entity
                &&& after[start.pid.0].image == start.executable@
                &&& after[start.pid.0].children == 0
                &&& forall|pid: u32|
                    pid != start.pid.0 ==> (#[trigger] after.contains_key(pid)
                        <==> running.contains_key(pid))
            },
            EventKind::ProcessExit(exit) => {
                let after = running_after(running, event, entity);
                &&& !after.contains_key(exit.pid.0)
                &&& forall|pid: u32|
                    pid != exit.pid.0 ==> (#[trigger] after.contains_key(pid)
                        <==> running.contains_key(pid)) && (running.contains_key(pid)
                        ==> after[pid] == running[pid])
            },
            _ => running_after(running, event, entity) == running,
        },
{
}

/// Siblings are counted before the process itself: the second child of a parent
/// that is running has one sibling more than the first had, and a process without
/// a parent that is running has none.
pub proof fn each_child_has_one_sibling_more(
    running: Map<u32, Proc>,
    novelty: NoveltyModel,
    first: TelemetryEvent,
    second: TelemetryEvent,
    entity: u64,
)
    requires
        first.kind is ProcessStart,
        second.kind is ProcessStart,
    ensures
        ({
            let a = first.kind->ProcessStart_0;
            let b = second.kind->ProcessStart_0;
            let after = running_after(running, first, entity);
            let before = established(running, novelty, first).siblings;
            &&& parent_of(running, a) is Some && a.parent_pid == b.parent_pid && a.pid
                != a.parent_pid->0 && before < u32::MAX ==> established(
                after,
                novelty,
                second,
            ).siblings == before + 1
            &&& parent_of(running, a) is None ==> before == 0
            &&& b.parent_pid == Some(a.pid) ==> established(after, novelty, second).siblings == 0
                && (b.parent_image is None ==> established(after, novelty, second).parent_image
                == Some(a.executable@))
        }),
{
}

/// What is established of a start is what the event says of itself, the parent's
/// image from the event where it names one; of anything else nothing is.
pub proof fn facts_come_from_the_start_itself(
    running: Map<u32, Proc>,
    novelty: NoveltyModel,
    event: TelemetryEvent,
)
    ensures
        ({
            let facts = established(running, novelty, event);
            match event.kind {
                EventKind::ProcessStart(start) => {
                    &&& facts.image == Some(start.executable@)
                    &&& facts.command_line is Some <==> start.command_line is Some
                    &&& start.command_line is Some ==> facts.command_line == Some(
                        start.command_line->0@,
                    )
                    &&& start.parent_image is Some ==> facts.parent_image == Some(
                        start.parent_image->0@,
                    )
                    &&& facts.image_is_novel <==> novelty.seen(
                        crate::text::folded(start.executable@),
                    ) == 0
                },
                _ => facts.image is None && facts.command_line is None && facts.parent_image is None
                    && !facts.image_is_novel && facts.siblings == 0,
            }
        }),
{
}

/// What a process does is put down to the entity its start was given, until it
/// exits and with its exit; what an unknown process does is put down to none.
pub proof fn acts_are_put_down_to_the_process(
    running: Map<u32, Proc>,
    start: TelemetryEvent,
    later: TelemetryEvent,
    entity: u64,
    other: u64,
)
    requires
        start.kind is ProcessStart,
        !(later.kind is ProcessStart),
    ensures
        actor_of(running, start, entity) == entity,
        ({
            let pid = (start.kind->ProcessStart_0).pid.0;
            let after = running_after(running, start, entity);
            &&& !(later.kind is ProcessExit) && later.pid == pid ==> actor_of(after, later, other)
                == entity
            &&& later.kind is ProcessExit && (later.kind->ProcessExit_0).pid.0 == pid ==> actor_of(
                after,
                later,
                other,
            ) == entity
        }),
        !(later.kind is ProcessExit) && !running.contains_key(later.pid) ==> actor_of(
            running,
            later,
            other,
        ) == 0,
        key_of(later) == later.pid,
        key_of(start) == (start.kind->ProcessStart_0).pid.0,
{
}

/// Every event adds one entry to the trace and changes none before it: its place
/// in the count of events, its time to the nanosecond, who acted and what the
/// event is called.
pub proof fn every_event_extends_the_trace(
    before: Engine,
    after: Engine,
    event: TelemetryEvent,
)
    requires
        after.projected(&before, event),
    ensures
        after.path().len() == before.path().len() + 1,
        after.path().drop_last() == before.path(),
        ({
            let step = after.path().last();
            let at = event.timestamp.secs * 1_000_000_000 + event.timestamp.nanos;
            &&& step.id == after.counts().events
            &&& i64::MIN <= at <= i64::MAX ==> step.ts_ns == at
            &&& !(i64::MIN <= at <= i64::MAX) ==> step.ts_ns == 0
            &&& step.actor == actor_of(before.running(), event, after.counts().process_starts)
            &&& step.action == event.kind.name()
            &&& step.target is None
        }),
        after.config() == before.config(),
        after.decisions() == before.decisions(),
{
    assert(after.path().drop_last() == before.path());
}

/// A process that starts becomes an entity of its own: a process, labelled with
/// its image, first and last seen when it started, under an id that none had; its
/// process id is from then on observed as it.
pub proof fn a_start_becomes_an_entity(before: Engine, after: Engine, event: TelemetryEvent)
    requires
        after.projected(&before, event),
        event.kind is ProcessStart,
    ensures
        ({
            let start = event.kind->ProcessStart_0;
            let id = after.counts().process_starts;
            let entity = after.entities()[id];
            let at = event.timestamp.secs * 1_000_000_000 + event.timestamp.nanos;
            &&& id == before.counts().process_starts + 1
            &&& !before.entities().contains_key(id) && after.entities().contains_key(id)
            &&& entity.id == EntityId(id) && entity.kind == EntityKind::Process
            &&& entity.label@ == start.executable@
            &&& entity.first_seen_ns == entity.last_seen_ns
            &&& i64::MIN <= at <= i64::MAX ==> entity.first_seen_ns == at
            &&& after.observed().contains_key(start.pid.0 as u64)
            &&& after.observed()[start.pid.0 as u64] == ObsId(id)
            &&& forall|other: u64|
                other != id && before.entities().contains_key(other) ==> #[trigger]
                after.entities().contains_key(other) && after.entities()[other]
                    == before.entities()[other]
        }),
{
}

/// An entity keeps who started it and as whom, where the event says so, and
/// nothing beside that.
pub proof fn entities_keep_parent_and_user(
    before: Engine,
    after: Engine,
    event: TelemetryEvent,
    name: Seq<char>,
)
    requires
        after.projected(&before, event),
        event.kind is ProcessStart,
    ensures
        ({
            let start = event.kind->ProcessStart_0;
            let attrs = after.entities()[after.counts().process_starts].attrs@;
            &&& attrs.contains_key("parent_pid"@) <==> start.parent_pid is Some
            &&& start.parent_pid is Some ==> attrs["parent_pid"@] == AttrValue::Int(
                (start.parent_pid->0).0 as i64,
            )
            &&& attrs.contains_key("user"@) <==> start.user is Some
            &&& start.user is Some ==> attrs["user"@] is Text && (attrs["user"@]->Text_0)@
                == (start.user->0)@
            &&& attrs.contains_key(name) ==> name == "parent_pid"@ || name == "user"@
        }),
{
    reveal_strlit("parent_pid");
    reveal_strlit("user");
    assert("parent_pid"@.len() != "user"@.len());
}

/// A start is one more sighting of its image, whatever its case, and of no other;
/// and where it has a parent, that the parent's image spawned it is from then on
/// known.
pub proof fn a_start_teaches_its_image_and_its_parent(
    before: Engine,
    after: Engine,
    event: TelemetryEvent,
    image: Seq<char>,
)
    requires
        after.projected(&before, event),
        event.kind is ProcessStart,
    ensures
        ({
            let start = event.kind->ProcessStart_0;
            let own = folded(start.executable@);
            let parent = parent_of(before.running(), start);
            &&& image != own ==> after.images().seen(image) == before.images().seen(image)
            &&& before.images().seen(own) < u32::MAX ==> after.images().seen(own)
                == before.images().seen(own) + 1
            &&& after.images().sightings() == before.images().sightings() + 1
            &&& parent is Some ==> after.structure().has_edge(
                (parent->0.image, start.executable@, "spawned"@),
            )
            &&& start.parent_pid is Some && parent is None ==> after.structure().has_edge(
                ("<unobserved>"@, start.executable@, "spawned"@),
            )
            &&& start.parent_pid is None ==> after.structure() == before.structure()
        }),
{
    let start = event.kind->ProcessStart_0;
    let own = folded(start.executable@);
    assert(after.images().seen(own) == crate::numbers::one_more(before.images().seen(own)));
    assert(after.images().seen(image) == after.images().seen(image));
    if start.parent_pid is Some {
        let edge = super::engine::edge_of(before.running(), start);
        assert(after.structure().has_edge(edge));
    }
}

/// What is no start makes no entity, is no sighting and teaches nothing.
pub proof fn only_starts_are_entities(before: Engine, after: Engine, event: TelemetryEvent)
    requires
        after.projected(&before, event),
        !(event.kind is ProcessStart),
    ensures
        after.entities() == before.entities(),
        after.observed() == before.observed(),
        after.images() == before.images(),
        after.structure() == before.structure(),
        after.counts().process_starts == before.counts().process_starts,
{
}

/// A known relation is familiar, a new one between known actors is half as odd as
/// one with an actor that is new.
pub proof fn oddity_grows_with_what_is_unknown(
    profile: StructuralProfile,
    from: Seq<char>,
    to: Seq<char>,
    label: Seq<char>,
)
    ensures
        ({
            let odd = profile.oddity((from, to, label));
            let known = profile.has_edge((from, to, label));
            let actors = profile.has_node(from) && profile.has_node(to);
            &&& odd == 0 <==> known
            &&& odd == 1 <==> !known && actors
            &&& odd == 2 <==> !known && !actors
        }),
{
}

/// Whatever the policy, an engine that may act takes a response unasked exactly
/// where the policy lets it: a control counts as medium, a freeze as high and an
/// isolation as critical, and an isolation needs a policy that does not insist on
/// undoing.
pub proof fn responses_stay_within_any_policy(probability: Probability, cfg: Config)
    requires
        cfg.autonomy == AutonomyLevel::Auto,
    ensures
        ({
            let bits = probability.bits;
            let auto = verdict_of(response_ground(probability, cfg)) == Verdict::Auto;
            let cap = cfg.policy.max_auto;
            let critical = cap == GovSeverity::Critical;
            let high = critical || cap == GovSeverity::High;
            let medium = high || cap == GovSeverity::Medium;
            &&& NINE_TENTHS <= bits < NEARLY_CERTAIN ==> (auto <==> medium)
            &&& NEARLY_CERTAIN <= bits < CERTAIN ==> (auto <==> high)
            &&& CERTAIN <= bits <= UNBOUNDED ==> (auto <==> critical
                && !cfg.policy.require_reversible)
        }),
{
}

} // verus!
