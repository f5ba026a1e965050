use chaos::asmr::action::{Action, ActionId, ActionKind, ActionSpace};
use chaos::asmr::anomaly::{EdgeKey, StructuralProfile, FAMILIAR, NEW_ACTOR, NEW_RELATION};
use chaos::asmr::compose::{Composition, EdgeKind};
use chaos::asmr::decision::Probability;
use chaos::asmr::governance::{
    govern, ActionRequest, AuditLog, AutonomyLevel, GovernancePolicy, Severity, Verdict,
};
use chaos::asmr::novelty::{coverage_estimate, novelty_rate, NoveltyModel};
use chaos::asmr::observe::{ObsId, ObservationMap};
use chaos::asmr::order::{first_highest, triage_order, Candidate};
use chaos::asmr::privacy::{generalisation_bucket, minimise};
use chaos::asmr::recovery::{weakest_link, RecoveryPlan, RecoveryStep};
use chaos::asmr::scale::{buckets, Level};
use chaos::asmr::state::{
    AttrValue, Entity, EntityId, EntityKind, Projection, StateGap, StateSpace,
};
use chaos::asmr::trace::{EventId, Trace, TraceEvent};
use chaos::asmr::trust::{Trust, TrustLedger};
use chaos::ratio::{Fraction, Ratio};
use chaos::textmap::TextMap;
use std::collections::BTreeSet;

fn value(ratio: Ratio) -> f64 {
    ratio.num as f64 / ratio.den as f64
}

fn share(fraction: Fraction) -> f64 {
    fraction.num as f64 / fraction.den as f64
}

// ---- structural anomaly

fn edge(from: &str, to: &str) -> EdgeKey {
    EdgeKey::new(from, to, "spawned")
}

#[test]
fn score_is_evaluated_before_the_edge_is_taught() {
    let mut p = StructuralProfile::new();
    let e = edge("explorer.exe", "cmd.exe");

    assert!(p.knows_edge(&e) == false);
    assert_eq!(p.score(&e) as f64 / 2.0, 1.0, "both endpoints are new");

    assert!(
        p.observe_edge(e.clone()),
        "first sighting of the edge is new"
    );
    assert_eq!(p.score(&e) as f64 / 2.0, 0.0, "now it is known");

    // A second, different relation between the same two actors.
    let other = EdgeKey::new("explorer.exe", "cmd.exe", "wrote");
    assert_eq!(p.score(&other) as f64 / 2.0, 0.5, "new edge between known actors");
    assert!(p.observe_edge(other.clone()));
    assert!(!p.observe_edge(other), "re-teaching is not novel");
}

#[test]
fn one_unknown_endpoint_is_as_anomalous_as_two() {
    let mut p = StructuralProfile::new();
    p.observe_edge(edge("a", "b"));
    // "a" is known, "z" is not.
    assert_eq!(p.score(&edge("a", "z")) as f64 / 2.0, 1.0);
    // both known
    assert_eq!(p.score(&edge("b", "a")) as f64 / 2.0, 0.5);
}

#[test]
fn out_degree_and_node_bookkeeping() {
    let mut p = StructuralProfile::new();
    p.observe_edge(edge("a", "b"));
    p.observe_edge(edge("a", "c"));
    p.observe_edge(edge("b", "c"));
    assert_eq!(p.out_degree("a"), 2);
    assert_eq!(p.out_degree("b"), 1);
    assert_eq!(p.out_degree("c"), 0);
    assert_eq!(p.edges(), 3);
    assert_eq!(p.nodes(), 3);
    assert!(p.knows_node("b"));
    assert!(!p.knows_node("z"));
}

#[test]
fn fanout_ratio_is_relative_and_bounded() {
    let mut p = StructuralProfile::new();
    p.observe_edge(edge("wide", "a"));
    p.observe_edge(edge("wide", "b"));
    p.observe_edge(edge("wide", "c"));
    p.observe_edge(edge("narrow", "a"));

    assert_eq!(value(p.fanout_ratio("wide")), 1.0);
    assert_eq!(value(p.fanout_ratio("narrow")), 1.0 / 3.0);
    assert_eq!(value(p.fanout_ratio("unknown")), 0.0);
}

#[test]
fn fanout_of_an_empty_profile_is_zero_not_nan() {
    let p = StructuralProfile::new();
    assert_eq!(value(p.fanout_ratio("anything")), 0.0);
    assert_eq!(p.edges(), 0);
}

#[test]
fn an_edge_is_familiar_once_observed() {
    let mut p = StructuralProfile::default();
    assert_eq!(p.score(&edge("x", "y")), NEW_ACTOR);
    p.observe_edge(edge("x", "y"));
    assert_eq!(p.score(&edge("x", "y")), FAMILIAR);
    assert_eq!(p.score(&edge("y", "x")), NEW_RELATION);
}

// ---- composition

/// a -> b -> c, and c -> a (a cycle).
fn chain() -> Composition {
    let mut g = Composition::new();
    g.add_edge(1, 2, EdgeKind::Depends);
    g.add_edge(2, 3, EdgeKind::Depends);
    g.add_edge(3, 1, EdgeKind::Depends);
    g
}

#[test]
fn reachability_is_reflexive_even_at_a_leaf() {
    let mut g = Composition::new();
    g.add_edge(1, 2, EdgeKind::Talks);
    assert_eq!(g.reachable(2), BTreeSet::from([2]));
    assert_eq!(g.reachable(1), BTreeSet::from([1, 2]));
    assert_eq!(
        g.reachable(99),
        BTreeSet::from([99]),
        "unknown nodes are inert"
    );
}

#[test]
fn cycles_terminate_and_reach_the_whole_cycle() {
    let g = chain();
    assert_eq!(g.reachable(1), BTreeSet::from([1, 2, 3]));
    assert_eq!(g.blast_radius(1), 3);
    assert_eq!(g.blast_radius(3), 3);
}

#[test]
fn blast_radius_counts_the_origin() {
    let mut g = Composition::new();
    g.add_edge(1, 2, EdgeKind::Contains);
    assert_eq!(g.blast_radius(1), 2);
    assert_eq!(g.blast_radius(2), 1, "a leaf contains only itself");
}

#[test]
fn isolation_is_about_incoming_edges_only() {
    let mut g = Composition::new();
    g.add_edge(1, 2, EdgeKind::Talks);
    assert!(g.is_isolated(1), "nothing points at 1");
    assert!(!g.is_isolated(2));
    assert!(g.is_isolated(99), "an unknown node has no in-edges");
}

#[test]
fn diamond_does_not_double_count() {
    // 1 -> 2 -> 4, 1 -> 3 -> 4
    let mut g = Composition::new();
    g.add_edge(1, 2, EdgeKind::Depends);
    g.add_edge(1, 3, EdgeKind::Depends);
    g.add_edge(2, 4, EdgeKind::Depends);
    g.add_edge(3, 4, EdgeKind::Depends);
    assert_eq!(g.blast_radius(1), 4);
    assert_eq!(g.edge_count(), 4);
    assert_eq!(g.nodes(), vec![1, 2, 3, 4]);
}

#[test]
fn self_loop_is_handled() {
    let mut g = Composition::new();
    g.add_edge(7, 7, EdgeKind::Contains);
    assert_eq!(g.blast_radius(7), 1);
    assert!(!g.is_isolated(7));
}

#[test]
fn reaching_is_transitive_and_nodes_come_in_order() {
    let mut g = Composition::default();
    g.add_edge(9, 4, EdgeKind::Talks);
    g.add_edge(4, 2, EdgeKind::Talks);
    assert!(g.reachable(9).contains(&2));
    assert!(!g.reachable(2).contains(&9));
    assert_eq!(g.nodes(), vec![2, 4, 9]);
}

// ---- actions

fn space() -> ActionSpace {
    let mut s = ActionSpace::new();
    s.register(Action::new(
        ActionId(1),
        "observe",
        ActionKind::Observe,
        1,
        true,
        1,
        0,
    ));
    s.register(Action::new(
        ActionId(2),
        "alert",
        ActionKind::Alert,
        2,
        true,
        1,
        0,
    ));
    s.register(Action::new(
        ActionId(3),
        "block ip",
        ActionKind::CompensatingControl,
        3,
        true,
        5,
        60,
    ));
    s.register(Action::new(
        ActionId(4),
        "freeze process",
        ActionKind::Freeze,
        4,
        true,
        1,
        0,
    ));
    s.register(Action::new(
        ActionId(5),
        "isolate host",
        ActionKind::Isolate,
        5,
        false,
        500,
        900,
    ));
    s
}

#[test]
fn severity_is_clamped_on_construction() {
    let a = Action::new(ActionId(1), "x", ActionKind::Isolate, 99, false, 1, 0);
    assert_eq!(a.severity, 5);
    let b = Action::new(ActionId(2), "y", ActionKind::Observe, 0, true, 1, 0);
    assert_eq!(b.severity, 1);
}

#[test]
fn admissible_respects_severity_and_reversibility() {
    let s = space();
    assert_eq!(s.admissible(2, false), vec![ActionId(1), ActionId(2)]);
    // Isolate is severity 5 and irreversible, so either filter excludes it.
    assert!(!s.admissible(5, true).contains(&ActionId(5)));
    assert!(s.admissible(5, false).contains(&ActionId(5)));
}

#[test]
fn escalation_ladder_is_ordered_by_kind_then_severity() {
    let s = space();
    assert_eq!(
        s.escalation_ladder(),
        vec![
            ActionId(1),
            ActionId(2),
            ActionId(3),
            ActionId(4),
            ActionId(5)
        ]
    );
}

#[test]
fn disruptive_covers_exactly_the_state_changing_kinds() {
    assert!(!ActionKind::Observe.disruptive());
    assert!(!ActionKind::Enrich.disruptive());
    assert!(!ActionKind::Alert.disruptive());
    assert!(ActionKind::CompensatingControl.disruptive());
    assert!(ActionKind::Freeze.disruptive());
    assert!(ActionKind::Isolate.disruptive());
    assert!(ActionKind::Rollback.disruptive());
}

#[test]
fn a_ladder_registered_upside_down_comes_out_in_order() {
    let mut s = ActionSpace::default();
    assert!(s.is_empty());
    s.register(Action::new(ActionId(9), "isolate", ActionKind::Isolate, 5, false, 1, 0));
    s.register(Action::new(ActionId(8), "loud alert", ActionKind::Alert, 4, true, 1, 0));
    s.register(Action::new(ActionId(7), "alert", ActionKind::Alert, 2, true, 1, 0));
    assert_eq!(s.len(), 3);
    assert_eq!(
        s.escalation_ladder(),
        vec![ActionId(7), ActionId(8), ActionId(9)]
    );
    assert_eq!(s.get(ActionId(8)).unwrap().name, "loud alert");
    assert!(s.get(ActionId(1)).is_none());
}

// ---- governance

fn req(sev: Severity, reversible: bool, disruptive: bool) -> ActionRequest {
    ActionRequest {
        name: "kill_process".into(),
        severity: sev,
        reversible,
        blast_radius: 1,
        disruptive,
    }
}

#[test]
fn ranks_are_totally_ordered_and_permits_is_monotone() {
    assert!(AutonomyLevel::Auto.rank() > AutonomyLevel::Approve.rank());
    assert!(AutonomyLevel::Approve.rank() > AutonomyLevel::Alert.rank());
    assert!(AutonomyLevel::Alert.rank() > AutonomyLevel::Observe.rank());
    assert!(AutonomyLevel::Auto.permits(AutonomyLevel::Observe));
    assert!(AutonomyLevel::Approve.permits(AutonomyLevel::Approve));
    assert!(!AutonomyLevel::Alert.permits(AutonomyLevel::Approve));
    assert_eq!(Severity::Info.rank(), 0);
    assert_eq!(Severity::Critical.rank(), 4);
    assert!(Severity::High.rank() > Severity::Medium.rank());
}

#[test]
fn non_disruptive_actions_never_need_authority() {
    let p = GovernancePolicy::default();
    let r = req(Severity::Critical, false, false);
    assert_eq!(govern(&r, AutonomyLevel::Observe, &p), Verdict::Auto);
    assert_eq!(govern(&r, AutonomyLevel::Alert, &p), Verdict::Auto);
    assert_eq!(govern(&r, AutonomyLevel::Auto, &p), Verdict::Auto);
}

#[test]
fn disruptive_actions_follow_the_autonomy_ladder() {
    let p = GovernancePolicy::default();
    let r = req(Severity::High, true, true);
    assert_eq!(govern(&r, AutonomyLevel::Observe, &p), Verdict::Denied);
    assert_eq!(govern(&r, AutonomyLevel::Alert, &p), Verdict::Denied);
    assert_eq!(
        govern(&r, AutonomyLevel::Approve, &p),
        Verdict::RequiresApproval
    );
    // High exceeds the default max_auto of Medium.
    assert_eq!(
        govern(&r, AutonomyLevel::Auto, &p),
        Verdict::RequiresApproval
    );
}

#[test]
fn auto_level_gates_on_severity_then_reversibility() {
    let p = GovernancePolicy::default();
    assert_eq!(
        govern(&req(Severity::Medium, true, true), AutonomyLevel::Auto, &p),
        Verdict::Auto
    );
    assert_eq!(
        govern(&req(Severity::High, true, true), AutonomyLevel::Auto, &p),
        Verdict::RequiresApproval
    );
    assert_eq!(
        govern(&req(Severity::Low, false, true), AutonomyLevel::Auto, &p),
        Verdict::RequiresApproval
    );
    let lax = GovernancePolicy {
        max_auto: Severity::Critical,
        require_reversible: false,
    };
    assert_eq!(
        govern(
            &req(Severity::Critical, false, true),
            AutonomyLevel::Auto,
            &lax
        ),
        Verdict::Auto
    );
}

#[test]
fn audit_log_appends_one_entry_per_call_with_branch_reason() {
    let p = GovernancePolicy::default();
    let mut log = AuditLog::new();
    assert!(log.is_empty());

    let benign = ActionRequest {
        name: "enrich_entity".into(),
        severity: Severity::Info,
        reversible: true,
        blast_radius: 0,
        disruptive: false,
    };
    assert_eq!(
        log.record(1, &benign, AutonomyLevel::Observe, &p),
        Verdict::Auto
    );
    assert_eq!(log.entries()[0].reason, "not disruptive");
    assert_eq!(log.entries()[0].action.as_str(), "enrich_entity");

    assert_eq!(
        log.record(2, &req(Severity::High, true, true), AutonomyLevel::Auto, &p),
        Verdict::RequiresApproval
    );
    assert_eq!(log.entries()[1].reason, "exceeds max_auto severity");

    assert_eq!(
        log.record(3, &req(Severity::Low, false, true), AutonomyLevel::Auto, &p),
        Verdict::RequiresApproval
    );
    assert_eq!(
        log.entries()[2].reason,
        "irreversible action requires approval"
    );

    assert_eq!(log.len(), 3);
    assert_eq!(log.entries()[0].ts_ns, 1);
    assert_eq!(log.entries()[2].ts_ns, 3);
}

#[test]
fn audit_log_keeps_denied_and_within_policy_reasons() {
    let p = GovernancePolicy::default();
    let mut log = AuditLog::new();
    let r = req(Severity::Low, true, true);
    log.record(5, &r, AutonomyLevel::Observe, &p);
    log.record(6, &r, AutonomyLevel::Auto, &p);
    assert_eq!(log.entries()[0].verdict, Verdict::Denied);
    assert_eq!(log.entries()[0].reason, "observe-only autonomy");
    assert_eq!(log.entries()[1].verdict, Verdict::Auto);
    assert_eq!(log.entries()[1].reason, "within policy");
}

#[test]
fn what_a_lower_level_allows_a_higher_one_allows() {
    let p = GovernancePolicy::default();
    let r = req(Severity::Low, true, true);
    assert_eq!(govern(&r, AutonomyLevel::Approve, &p), Verdict::RequiresApproval);
    assert_eq!(govern(&r, AutonomyLevel::Auto, &p), Verdict::Auto);
}

// ---- novelty

#[test]
fn first_sighting_is_maximally_novel_then_decays() {
    let mut m = NoveltyModel::new();
    assert!(m.is_novel("a.exe"));
    assert_eq!(value(m.score("a.exe")), 1.0);

    assert_eq!(m.observe("a.exe"), 1);
    assert!(!m.is_novel("a.exe"));
    assert_eq!(value(m.score("a.exe")), 0.5);

    assert_eq!(m.observe("a.exe"), 2);
    assert_eq!(value(m.score("a.exe")), 1.0 / 3.0);
}

#[test]
fn bookkeeping_counts_items_and_sightings_separately() {
    let mut m = NoveltyModel::new();
    m.observe("a");
    m.observe("a");
    m.observe("b");
    assert_eq!(m.distinct(), 2);
    assert_eq!(m.total(), 3);
    assert_eq!(m.count("a"), 2);
    assert_eq!(m.count("missing"), 0);
}

#[test]
fn novelty_rate_boundaries() {
    assert_eq!(value(novelty_rate(0, 0)), 0.0);
    assert_eq!(value(novelty_rate(0, 10)), 0.0);
    assert_eq!(value(novelty_rate(10, 10)), 1.0);
    assert_eq!(value(novelty_rate(5, 10)), 0.5);
    // Clamped: a caller passing nonsense must not get a rate above 1.
    assert_eq!(value(novelty_rate(20, 10)), 1.0);
}

#[test]
fn coverage_is_one_until_novelty_is_observed() {
    assert_eq!(share(coverage_estimate(0, 0)), 1.0);
    assert_eq!(share(coverage_estimate(10, 0)), 1.0);
    assert_eq!(share(coverage_estimate(10, 10)), 0.5);
    assert!(share(coverage_estimate(10, 90)) < 0.11);
    assert!(share(coverage_estimate(1, u64::MAX)) > 0.0);
}

#[test]
fn a_saturated_model_stops_claiming_novelty() {
    let mut m = NoveltyModel::new();
    for _ in 0..10 {
        m.observe("seen.exe");
    }
    assert!(!m.is_novel("seen.exe"));
    assert!(value(m.score("seen.exe")) < 0.1);
    assert_eq!(share(coverage_estimate(m.distinct(), 0)), 1.0);
}

#[test]
fn a_relation_adds_the_ends_that_were_not_known() {
    let mut p = StructuralProfile::new();
    assert!(p.observe_edge(edge("a", "a")));
    assert_eq!((p.nodes(), p.edges(), p.out_degree("a")), (1, 1, 1));
    assert!(p.observe_edge(edge("a", "b")));
    assert_eq!((p.nodes(), p.edges(), p.out_degree("a")), (2, 2, 2));
    assert!(!p.observe_edge(edge("a", "b")));
    assert_eq!((p.nodes(), p.edges(), p.out_degree("a")), (2, 2, 3));
    assert!(p.observe_edge(edge("c", "d")));
    assert_eq!((p.nodes(), p.edges(), p.out_degree("c")), (4, 3, 1));
    assert_eq!(p.out_degree("d"), 0);
}

// ---- state

fn ent(id: u64, kind: EntityKind, label: &str, ts: i64) -> Entity {
    Entity {
        id: EntityId(id),
        kind,
        label: label.into(),
        first_seen_ns: ts,
        last_seen_ns: ts,
        attrs: TextMap::new(),
    }
}

#[test]
fn observe_is_idempotent_and_preserves_first_seen() {
    let mut s = StateSpace::new();
    assert!(s.is_empty());
    assert!(s.observe(ent(1, EntityKind::Process, "cmd.exe", 10)));
    assert!(!s.observe(ent(1, EntityKind::Process, "cmd.exe", 20)));
    assert_eq!(s.len(), 1);
    let e = s.get(EntityId(1)).unwrap();
    assert_eq!(e.last_seen_ns, 20);
    assert_eq!(e.first_seen_ns, 10);
    assert!(s.get(EntityId(2)).is_none());
}

#[test]
fn get_mut_mutates_in_place() {
    let mut s = StateSpace::new();
    s.observe(ent(7, EntityKind::User, "alice", 5));
    s.get_mut(EntityId(7)).unwrap().last_seen_ns = 99;
    assert_eq!(s.get(EntityId(7)).unwrap().last_seen_ns, 99);
    assert!(s.get_mut(EntityId(8)).is_none());
    assert_eq!(s.by_kind(EntityKind::User), vec![EntityId(7)]);
}

#[test]
fn an_entity_keeps_its_place_whatever_is_written_into_it() {
    let mut s = StateSpace::new();
    s.observe(ent(7, EntityKind::User, "alice", 5));
    s.observe(ent(9, EntityKind::User, "bob", 5));
    s.get_mut(EntityId(7)).unwrap().id = EntityId(100);
    assert_eq!(s.len(), 2);
    assert_eq!(s.get(EntityId(7)).unwrap().id, EntityId(100));
    assert!(s.get(EntityId(100)).is_none());
    assert_eq!(s.get(EntityId(9)).unwrap().label, "bob");
    assert!(!s.observe(ent(7, EntityKind::User, "alice", 6)));
    assert_eq!(s.get(EntityId(7)).unwrap().last_seen_ns, 6);
}

#[test]
fn entities_are_equal_whatever_order_their_attributes_came_in() {
    let mut a = ent(1, EntityKind::Host, "ws01", 1);
    let mut b = a.clone();
    a.attrs.insert("user", AttrValue::Text("x".into()));
    a.attrs.insert("domain", AttrValue::Int(2));
    b.attrs.insert("domain", AttrValue::Int(1));
    assert_ne!(a, b);
    b.attrs.insert("user", AttrValue::Text("x".into()));
    assert_eq!(b.attrs.insert("domain", AttrValue::Int(2)), Some(AttrValue::Int(1)));
    assert_eq!(a, b);
    let keys: Vec<&str> = a.attrs.entries().iter().map(|(key, _)| key.as_str()).collect();
    assert_eq!(keys, ["domain", "user"]);
}

#[test]
fn a_map_keyed_by_text_is_ascending() {
    let mut map: TextMap<u32> = TextMap::default();
    assert!(map.is_empty());
    for (i, key) in ["b", "", "ba", "a", "b", "\u{e9}", "B"].iter().enumerate() {
        map.insert(key, i as u32);
    }
    assert_eq!(map.len(), 6);
    assert_eq!(map.get("b"), Some(&4));
    assert_eq!(map.get("bb"), None);
    let keys: Vec<&str> = map.entries().iter().map(|(key, _)| key.as_str()).collect();
    assert_eq!(keys, ["", "B", "a", "b", "ba", "\u{e9}"]);
    assert_eq!(map.clone(), map);
}

#[test]
fn fibers_are_the_preimage_of_the_projection() {
    let mut s = StateSpace::new();
    s.observe(ent(1, EntityKind::Process, "cmd.exe", 1));
    s.observe(ent(2, EntityKind::Process, "cmd.exe", 1));
    s.observe(ent(3, EntityKind::File, "cmd.exe", 1));
    let procs = Projection::by_kind(&s, EntityKind::Process);
    assert_eq!(procs, vec![EntityId(1), EntityId(2)]);
    let fiber = Projection::fiber(&s, EntityKind::Process, "cmd.exe");
    assert_eq!(fiber, procs);
    assert!(Projection::fiber(&s, EntityKind::File, "cmd.exe").contains(&EntityId(3)));
    assert!(Projection::fiber(&s, EntityKind::Module, "cmd.exe").is_empty());
}

#[test]
fn attributes_are_typed_and_scoped_to_known_entities() {
    let mut s = StateSpace::new();
    assert!(!s.set_attr(EntityId(9), "x", AttrValue::Flag(true)));
    s.observe(ent(1, EntityKind::Host, "ws01", 1));
    assert!(s.set_attr(EntityId(1), "domain", AttrValue::Text("corp".into())));
    assert!(s.set_attr(EntityId(1), "ports", AttrValue::Int(3)));
    assert_eq!(
        s.attr(EntityId(1), "domain"),
        Some(&AttrValue::Text("corp".into()))
    );
    assert_eq!(s.attr(EntityId(1), "ports"), Some(&AttrValue::Int(3)));
    assert_eq!(s.attr(EntityId(1), "missing"), None);
}

#[test]
fn state_gap_is_saturating_and_never_closes() {
    let g = StateGap::new(10, 4);
    assert_eq!(g.gap(), 6);
    assert!((value(g.coverage()) - 0.4).abs() < 1e-12);
    assert!(g.is_open());
    let over = StateGap::new(3, 9);
    assert_eq!(over.gap(), 0);
    assert_eq!(value(over.coverage()), 1.0);
    let empty = StateGap::new(0, 0);
    assert_eq!(value(empty.coverage()), 1.0);
    assert!(empty.is_open());
}

#[test]
fn entities_come_out_by_id_whatever_order_they_came_in() {
    let mut s = StateSpace::default();
    s.observe(ent(5, EntityKind::File, "b", 1));
    s.observe(ent(2, EntityKind::File, "a", 1));
    s.observe(ent(9, EntityKind::User, "c", 1));
    assert_eq!(s.by_kind(EntityKind::File), vec![EntityId(2), EntityId(5)]);
    assert!(s.set_attr(EntityId(5), "k", AttrValue::Int(1)));
    assert!(s.set_attr(EntityId(5), "k", AttrValue::Int(2)));
    assert_eq!(s.attr(EntityId(5), "k"), Some(&AttrValue::Int(2)));
}

// ---- observation

#[test]
fn observation_map_reports_the_blind_spot() {
    let mut m = ObservationMap::new();
    assert_eq!(value(m.coverage_ratio(0)), 1.0);
    assert_eq!(value(m.blind_spot(0)), 0.0);
    m.observe(1, ObsId(10));
    m.observe(2, ObsId(11));
    m.observe(2, ObsId(12));
    assert_eq!(m.get(1), Some(ObsId(10)));
    assert_eq!(m.get(2), Some(ObsId(12)));
    assert_eq!(m.get(3), None);
    assert_eq!(m.observed_count(), 2);
    assert_eq!(m.unobserved(&[1, 2, 3, 3, 4]), vec![3, 4]);
    assert_eq!(m.unobserved(&[2u64, 3]), vec![3]);
    assert!((value(m.coverage_ratio(4)) - 0.5).abs() < 1e-12);
    assert!((value(m.blind_spot(4)) - 0.5).abs() < 1e-12);
    assert_eq!(value(m.coverage_ratio(1)), 1.0);
}

// ---- minimisation

#[test]
fn generalisation_keeps_only_the_extension() {
    assert_eq!(
        generalisation_bucket(r"C:\work\q3\invoice_2024.xlsx"),
        ".xlsx"
    );
    assert_eq!(generalisation_bucket("/var/log/auth.log"), ".log");
    assert_eq!(generalisation_bucket("C:\\a\\b\\payload.exe"), ".exe");
    // A dot in a directory name must not be mistaken for the extension.
    assert_eq!(generalisation_bucket("C:\\my.dir\\README"), "unknown");
    assert_eq!(generalisation_bucket("noext"), "unknown");
    assert_eq!(generalisation_bucket("trailing."), "unknown");
    assert_eq!(generalisation_bucket(""), "unknown");
}

#[test]
fn no_path_leaves_a_minimised_detail() {
    let kept = minimise(r"svchost.exe image C:\Users\bob\AppData\payload.exe");
    assert!(!kept.contains('\\'));
    assert!(!kept.contains("bob"));
    assert!(kept.contains(".exe"));
}

// ---- history

#[test]
fn a_trace_only_grows() {
    let mut t = Trace::new();
    assert!(t.is_empty());
    t.push(TraceEvent {
        id: EventId(1),
        ts_ns: 5,
        actor: 7,
        action: "spawned".into(),
        target: Some(9),
    });
    t.push(TraceEvent {
        id: EventId(2),
        ts_ns: 6,
        actor: 7,
        action: "wrote".into(),
        target: None,
    });
    assert_eq!(t.len(), 2);
    assert_eq!(t.events()[0].action, "spawned");
    assert_eq!(t.events()[0].target, Some(9));
    assert_eq!(t.events()[1].id, EventId(2));
}

// ---- decisions

#[test]
fn a_probability_is_compared_by_its_bit_pattern() {
    let p = |v: f64| Probability {
        bits: v.to_bits(),
        text: format!("{v}"),
    };
    let bound: f64 = 0.9;
    assert!(p(0.95).at_least(bound.to_bits()));
    assert!(p(0.9).at_least(bound.to_bits()));
    assert!(!p(0.85).at_least(bound.to_bits()));
    assert!(!p(f64::NAN).at_least(bound.to_bits()));
}

// ---- trust

fn trust(v: f64) -> Trust {
    Trust::new(v.to_bits())
}

fn level(t: Trust) -> f64 {
    f64::from_bits(t.get())
}

fn samples() -> [Trust; 4] {
    [Trust::none(), trust(0.25), Trust::unknown(), Trust::full()]
}

#[test]
fn lattice_laws_hold() {
    for a in samples() {
        assert_eq!(a.meet(a), a, "meet must be idempotent");
        assert_eq!(a.join(a), a, "join must be idempotent");
        for b in samples() {
            assert_eq!(a.meet(b), b.meet(a), "meet must commute");
            assert_eq!(a.join(b), b.join(a), "join must commute");
            for c in samples() {
                assert_eq!(a.meet(b).meet(c), a.meet(b.meet(c)), "meet must associate");
                assert_eq!(a.join(b).join(c), a.join(b.join(c)), "join must associate");
            }
        }
    }
}

#[test]
fn meet_is_the_lower_bound_and_join_the_upper() {
    let a = trust(0.3);
    let b = trust(0.7);
    assert_eq!(a.meet(b), a);
    assert_eq!(a.join(b), b);
}

#[test]
fn construction_clamps_out_of_range_and_rejects_nan() {
    assert_eq!(level(trust(2.0)), 1.0);
    assert_eq!(level(trust(-3.0)), 0.0);
    assert_eq!(trust(f64::NAN), Trust::unknown());
}

#[test]
fn the_ends_of_the_line_are_clamped_too() {
    assert_eq!(trust(f64::INFINITY), Trust::full());
    assert_eq!(trust(f64::NEG_INFINITY), Trust::none());
    assert_eq!(trust(-0.0), Trust::none());
    assert_eq!(trust(-f64::NAN), Trust::unknown());
    assert_eq!(Trust::default(), Trust::unknown());
}

fn discounted(ledger: &TrustLedger, source: &str, factor: f64) -> Trust {
    trust(level(ledger.get(source)) * factor.clamp(0.0, 1.0))
}

#[test]
fn ledger_defaults_to_unknown_and_only_degrades() {
    let mut l = TrustLedger::new();
    assert_eq!(l.get("never-seen"), Trust::unknown());
    l.set("edr", Trust::full());
    l.degrade("edr", discounted(&l, "edr", 0.5));
    assert_eq!(level(l.get("edr")), 0.5);
    l.degrade("edr", discounted(&l, "edr", 0.5));
    assert_eq!(level(l.get("edr")), 0.25);
    assert_eq!(l.len(), 1);
    assert!(!l.is_empty());
}

#[test]
fn a_discount_never_restores_trust() {
    let mut l = TrustLedger::default();
    l.set("feed", trust(0.2));
    l.degrade("feed", Trust::full());
    assert_eq!(level(l.get("feed")), 0.2);
    l.degrade("other", Trust::none());
    assert_eq!(l.get("other"), Trust::none());
    assert_eq!(level(l.get("feed")), 0.2);
}

// ---- recovery

fn step(name: &str, seconds: f64, parallel: bool) -> RecoveryStep {
    RecoveryStep::new(name, seconds.to_bits(), parallel)
}

fn mttr_estimate(plan: &RecoveryPlan) -> f64 {
    plan.costly_steps()
        .iter()
        .map(|at| f64::from_bits(plan.steps()[*at].seconds))
        .sum()
}

fn serial_critical_path(plan: &RecoveryPlan) -> f64 {
    plan.steps()
        .iter()
        .map(|step| f64::from_bits(step.seconds))
        .sum()
}

#[test]
fn serial_steps_add_up() {
    let mut p = RecoveryPlan::new();
    p.add(step("triage", 30.0, false));
    p.add(step("rebuild", 600.0, false));
    assert_eq!(mttr_estimate(&p), 630.0);
    assert_eq!(serial_critical_path(&p), 630.0);
    assert_eq!(p.len(), 2);
}

#[test]
fn a_run_of_parallel_steps_costs_only_its_longest() {
    let mut p = RecoveryPlan::new();
    p.add(step("quarantine", 10.0, false));
    p.add(step("scan-a", 5.0, true));
    p.add(step("scan-b", 20.0, true));
    p.add(step("restore", 3.0, false));
    // 10 + max(5, 20) + 3
    assert_eq!(mttr_estimate(&p), 33.0);
    assert_eq!(serial_critical_path(&p), 38.0);
}

#[test]
fn parallel_steps_separated_by_a_serial_one_do_not_overlap() {
    let mut p = RecoveryPlan::new();
    p.add(step("a", 10.0, true));
    p.add(step("barrier", 1.0, false));
    p.add(step("b", 10.0, true));
    // Two separate runs of length 1: 10 + 1 + 10
    assert_eq!(mttr_estimate(&p), 21.0);
}

#[test]
fn an_empty_plan_costs_nothing() {
    let p = RecoveryPlan::new();
    assert_eq!(mttr_estimate(&p), 0.0);
    assert_eq!(serial_critical_path(&p), 0.0);
    assert!(p.is_empty());
}

#[test]
fn negative_durations_are_clamped() {
    let mut p = RecoveryPlan::new();
    p.add(step("bogus", -100.0, false));
    assert_eq!(mttr_estimate(&p), 0.0);
    assert_eq!(serial_critical_path(&p), 0.0);
}

fn weakest(detection: f64, containment: f64, recovery: f64) -> &'static str {
    weakest_link(detection.to_bits(), containment.to_bits(), recovery.to_bits())
}

#[test]
fn resilience_is_a_product_and_names_its_weakest_stage() {
    let score = |detection: f64, containment: f64, recovery: f64| detection * containment * recovery;
    assert!((score(0.9, 0.9, 0.9) - 0.729).abs() < 1e-12);
    assert_eq!(
        weakest(0.9, 0.9, 0.9),
        "detection",
        "ties resolve in pipeline order"
    );

    assert_eq!(weakest(0.99, 0.10, 0.99), "containment");
    assert!(
        score(0.99, 0.10, 0.99) < 0.11,
        "one weak stage dominates: {}",
        score(0.99, 0.10, 0.99)
    );

    // Perfect detection cannot rescue no containment.
    assert_eq!(score(1.0, 0.0, 1.0), 0.0);
    assert_eq!(score(1.0, 1.0, 1.0), 1.0);
    assert_eq!(weakest(0.9, 0.9, 0.1), "recovery");
}

// ---- scales

fn coarsen(values: &[f64], level: Level) -> Vec<f64> {
    buckets(values.len(), level)
        .into_iter()
        .map(|(from, to)| values[from..to].iter().sum::<f64>() / (to - from) as f64)
        .collect()
}

#[test]
fn level_zero_is_the_identity() {
    let v = vec![1.0, 2.0, 3.0];
    assert_eq!(coarsen(&v, Level(0)), v);
    assert_eq!(coarsen(&[], Level(4)), Vec::<f64>::new());
}

#[test]
fn coarsening_averages_within_buckets() {
    let v = vec![1.0, 3.0, 10.0, 20.0, 5.0, 5.0, 5.0, 5.0];
    assert_eq!(coarsen(&v, Level(1)), vec![2.0, 15.0, 5.0, 5.0]);
    assert_eq!(coarsen(&v, Level(2)), vec![8.5, 5.0]);
}

#[test]
fn a_short_tail_bucket_is_not_padded_with_zeros() {
    // Four elements at width 4 -> one bucket, then a ragged remainder.
    let v = vec![2.0, 4.0, 6.0, 8.0, 10.0, 30.0];
    let coarse = coarsen(&v, Level(2));
    assert_eq!(coarse, vec![5.0, 20.0], "tail mean, not (10+30+0+0)/4");
}

#[test]
fn coarsening_conserves_the_total_mass() {
    let v = vec![2.0, 4.0, 6.0, 8.0, 10.0, 30.0];
    for level in [1u8, 2, 3] {
        let coarse = coarsen(&v, Level(level));
        let width = (1usize << level) as f64;
        // Sum(mean_i * bucket_len_i) == Sum(values)
        let recovered: f64 = coarse
            .iter()
            .enumerate()
            .map(|(i, m)| {
                let start = i * width as usize;
                let len = v.len().saturating_sub(start).min(width as usize);
                m * len as f64
            })
            .sum();
        assert!(
            (recovered - v.iter().sum::<f64>()).abs() < 1e-9,
            "level {level}"
        );
    }
}

#[test]
fn the_bucket_width_doubles_at_every_level() {
    assert_eq!(Level(3).rank(), 3);
    assert_eq!(buckets(3_000_000, Level(20))[0], (0, 1_048_576));
    assert_eq!(buckets(3_000_000, Level(21)), vec![(0, 2_097_152), (2_097_152, 3_000_000)]);
    assert_eq!(buckets(3_000_000, Level(22)), vec![(0, 3_000_000)]);
    assert_eq!(buckets(3_000_000, Level(255)), vec![(0, 3_000_000)]);
    assert_eq!(buckets(usize::MAX, Level(255)), vec![(0, usize::MAX)]);
    assert!(buckets(0, Level(255)).is_empty());
}

// ---- orders

/// A number as a key that orders like it.
fn key(number: f64) -> i64 {
    let bits = (number + 0.0).to_bits() as i64;
    if bits < 0 {
        i64::MIN - bits
    } else {
        bits
    }
}

struct Item {
    id: u64,
    utility: f64,
    cost: f64,
}

fn density(item: &Item) -> f64 {
    if item.cost <= 0.0 {
        f64::INFINITY
    } else {
        item.utility / item.cost
    }
}

/// Takes what fits, in the library's order.
fn select(items: &[Item], budget: f64) -> Vec<u64> {
    let candidates: Vec<Candidate> = items
        .iter()
        .map(|item| Candidate {
            density: key(density(item)),
            id: item.id,
        })
        .collect();
    let mut remaining = budget.max(0.0);
    let mut chosen = Vec::new();
    for at in triage_order(&candidates) {
        let item = &items[at];
        if item.cost <= 0.0 {
            chosen.push(item.id);
        } else if item.cost <= remaining {
            remaining -= item.cost;
            chosen.push(item.id);
        }
    }
    chosen
}

fn triage() -> Vec<Item> {
    // density: 10/1 = 10, 1/1 = 1, 100/100 = 1, 6/3 = 2
    [(1, 10.0, 1.0), (2, 1.0, 1.0), (3, 100.0, 100.0), (4, 6.0, 3.0)]
        .into_iter()
        .map(|(id, utility, cost)| Item { id, utility, cost })
        .collect()
}

#[test]
fn select_prefers_higher_density() {
    assert_eq!(select(&triage(), 1.0), vec![1]);
    assert_eq!(select(&triage(), 4.0), vec![1, 4]);
}

#[test]
fn select_never_exceeds_the_budget() {
    let t = triage();
    // Densities are 10, 2, 1, 1. At a budget of 5 the greedy pass takes
    // item 1 (cost 1), item 4 (cost 3), then item 2 (cost 1) exactly fills
    // what is left; item 3 costs 100 and is never affordable.
    let chosen = select(&t, 5.0);
    assert_eq!(chosen, vec![1, 4, 2]);

    let spent: f64 = chosen
        .iter()
        .map(|id| t.iter().find(|i| i.id == *id).unwrap().cost)
        .sum();
    assert!(spent <= 5.0, "spent {spent} of a 5.0 budget");
    assert_eq!(spent, 5.0, "the budget should be spent exactly here");
}

#[test]
fn zero_cost_items_are_always_taken_and_ties_break_by_id() {
    let t = vec![
        Item {
            id: 9,
            utility: 0.0,
            cost: 0.0,
        },
        Item {
            id: 3,
            utility: 5.0,
            cost: 1.0,
        },
        Item {
            id: 7,
            utility: 5.0,
            cost: 1.0,
        },
    ];
    // 3 and 7 have equal density, so ascending id wins.
    assert_eq!(select(&t, 1.0), vec![9, 3]);
}

#[test]
fn empty_and_exhausted_budgets() {
    assert!(select(&triage(), 0.0).is_empty());
    assert_eq!(select(&[], 100.0), Vec::<u64>::new());
    assert_eq!(select(&triage(), -5.0), Vec::<u64>::new());
}

#[test]
fn the_first_of_the_highest_is_picked() {
    assert_eq!(first_highest(&[]), None);
    assert_eq!(first_highest(&[3, 7, 7, -1]), Some(1));
    assert_eq!(first_highest(&[5, 5, 5]), Some(0));
    let weights = [0.25, 0.75, 0.75];
    let keys: Vec<i64> = weights.iter().map(|w| key(*w)).collect();
    assert_eq!(first_highest(&keys), Some(1));
}

#[test]
fn equal_candidates_keep_their_places() {
    let same = Candidate { density: 4, id: 2 };
    let denser = Candidate { density: 5, id: 9 };
    assert_eq!(triage_order(&[same, same, denser]), vec![2, 0, 1]);
}
