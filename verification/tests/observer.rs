use chaos::ratio::Fraction;
use chaos::observer::config::{ObserverConfig, MILLISECOND, SECOND};
use chaos::observer::metrics::{Counters, Heartbeat, MetricsSnapshot};
use chaos::observer::runtime::{Action, Happened, Run, RunOutcome, RunStop};

fn value(fraction: Fraction) -> f64 {
    fraction.num as f64 / fraction.den as f64
}

fn for_test() -> ObserverConfig {
    ObserverConfig {
        batch: 16,
        poll: 5 * MILLISECOND,
        flush: 50 * MILLISECOND,
        report: 50 * MILLISECOND,
        deadline: Some(200 * MILLISECOND),
        idle_timeout: None,
        quiet: true,
    }
}

// ---- config

#[test]
fn the_default_is_a_deployment() {
    let c = ObserverConfig::default();
    assert!(c.deadline.is_none(), "no deadline by default");
    assert!(c.idle_timeout.is_none(), "silence is not failure");
    assert!(!c.quiet);
    assert_eq!(c.batch, 4096);
}

#[test]
fn for_duration_sets_only_the_deadline() {
    let c = ObserverConfig::for_duration(30);
    assert_eq!(c.deadline, Some(30 * SECOND));
    assert_eq!(c.batch, ObserverConfig::default().batch);
    assert_eq!(c.flush, ObserverConfig::default().flush);
}

// ---- metrics

#[test]
fn counters_round_trip_through_a_snapshot() {
    let mut c = Counters::default();
    Counters::bump(&mut c.raw_seen, 100);
    Counters::bump(&mut c.scored, 90);
    Counters::bump(&mut c.alerts, 3);
    Counters::bump(&mut c.shipped, 88);
    Counters::bump(&mut c.dropped, 2);

    let s = c.snapshot();
    assert_eq!(s.raw_seen, 100);
    assert_eq!(s.scored, 90);
    assert_eq!(s.alerts, 3);
    assert_eq!(s.shipped, 88);
    assert_eq!(s.dropped, 2);
}

#[test]
fn an_idle_run_reports_full_coverage_not_nan() {
    let s = MetricsSnapshot::default();
    assert_eq!(value(s.coverage()), 1.0);
    assert_eq!(value(s.eps(SECOND)), 0.0);
    assert_eq!(value(s.eps(0)), 0.0);
}

#[test]
fn coverage_is_the_fraction_that_made_it_through() {
    let s = MetricsSnapshot {
        raw_seen: 100,
        scored: 25,
        ..Default::default()
    };
    assert!((value(s.coverage()) - 0.25).abs() < 1e-12);
}

#[test]
fn the_heartbeat_names_the_numbers_it_prints() {
    let h = Heartbeat {
        events: 42,
        eps: format!("{:.0}", 100.5),
        alerts: 3,
        shipped: 41,
        pending: 1,
        unmapped: 900,
        undecodable: 0,
    };
    let line = h.line();
    assert!(line.contains("events"));
    assert!(line.contains("alerts"));
    assert!(line.contains("unmapped"));
    assert!(line.contains("undecodable"));
    // The number an operator reads to decide whether the host is quiet or
    // the sensor is broken.
    assert!(line.contains("900"));
}

#[test]
fn the_heartbeat_keeps_its_columns() {
    let h = Heartbeat {
        events: 42,
        eps: "7".to_string(),
        alerts: 123_456,
        shipped: 41,
        pending: 1,
        unmapped: 900,
        undecodable: 0,
    };
    assert_eq!(
        h.line(),
        "  live   events         42         7/s  alerts 123456  shipped         41  \
         pending      1  unmapped     900  undecodable       0"
    );
}

#[test]
fn a_rate_is_events_over_seconds() {
    let s = MetricsSnapshot {
        scored: 30,
        ..Default::default()
    };
    assert_eq!(value(s.eps(2 * SECOND)), 15.0);
    assert_eq!(value(s.eps(500 * MILLISECOND)), 60.0);
}

// ---- the loop

/// A world in which each look at the clock takes a millisecond.
struct World {
    clock: u128,
    pending: u64,
    failing: bool,
    stop_at: Option<u128>,
    scored: u64,
    emitted: u64,
    written: u64,
    flushed: u64,
    printed: u64,
    released: bool,
}

fn world(pending: u64) -> World {
    World {
        clock: 0,
        pending,
        failing: false,
        stop_at: None,
        scored: 0,
        emitted: 0,
        written: 0,
        flushed: 0,
        printed: 0,
        released: false,
    }
}

impl World {
    fn now(&mut self) -> u128 {
        self.clock += MILLISECOND;
        self.clock
    }

    /// Performs what the run asks for until it is over.
    fn drive(&mut self, config: ObserverConfig, has_sink: bool) -> RunOutcome {
        let mut run = Run::new(config, has_sink);
        let mut batch = 0u64;
        loop {
            let happened = match run.doing {
                Action::Look => {
                    let now = self.now();
                    let requested = self.stop_at.is_some_and(|at| now >= at);
                    Happened::Looked { now, requested }
                }
                Action::Pull { max, .. } => {
                    if self.failing {
                        Happened::PullFailed {
                            reason: "source temporarily unavailable: the disk went away".into(),
                        }
                    } else {
                        batch = self.pending.min(max as u64);
                        self.pending -= batch;
                        Happened::Pulled {
                            said: batch,
                            held: batch,
                            now: self.now(),
                        }
                    }
                }
                Action::Score => {
                    let mut alerts = 0;
                    for _ in 0..batch {
                        if self.scored % 10 == 0 {
                            alerts += 1;
                        }
                        self.scored += 1;
                    }
                    self.emitted += alerts;
                    Happened::Scored {
                        alerts,
                        unmapped: 0,
                        undecodable: 0,
                    }
                }
                Action::Ship => {
                    self.written += batch;
                    Happened::Shipped { accepted: true }
                }
                Action::Tick => Happened::Ticked { now: self.now() },
                Action::Flush => {
                    self.flushed += 1;
                    let began = self.now();
                    Happened::Flushed {
                        began,
                        now: self.now(),
                        failed: false,
                        restated: 0,
                    }
                }
                Action::Report { print } => {
                    if print {
                        self.printed += 1;
                    }
                    Happened::Reported { now: self.now() }
                }
                Action::Shutdown => {
                    self.released = true;
                    Happened::ShutDown { failed: false }
                }
                Action::End => break,
            };
            run.step(happened);
        }
        run.outcome(self.clock, 0, 0).expect("the run is over")
    }
}

#[test]
fn a_bounded_run_ends_on_its_deadline() {
    let mut w = world(10_000);
    let outcome = w.drive(for_test(), true);
    assert_eq!(outcome.stop, RunStop::Deadline);
    assert!(outcome.wall >= 200 * MILLISECOND);
    assert!(outcome.metrics.scored > 0);
    assert!(value(outcome.eps()) > 0.0);
}

#[test]
fn stopping_the_handle_ends_the_run() {
    let mut w = world(u64::MAX);
    w.stop_at = Some(50 * MILLISECOND);
    let config = ObserverConfig {
        deadline: None,
        ..for_test()
    };
    let outcome = w.drive(config, false);
    assert_eq!(outcome.stop, RunStop::Requested);
}

#[test]
fn a_source_that_fails_stops_the_run() {
    let mut w = world(0);
    w.failing = true;
    let outcome = w.drive(for_test(), false);
    match outcome.stop {
        RunStop::SourceFailed(msg) => assert!(msg.contains("disk")),
        other => panic!("expected a source failure, got {other:?}"),
    }
    assert_eq!(outcome.metrics.source_errors, 1);
}

#[test]
fn an_idle_timeout_ends_a_run_that_stays_quiet() {
    let mut w = world(0);
    let config = ObserverConfig {
        deadline: None,
        idle_timeout: Some(50 * MILLISECOND),
        ..for_test()
    };
    let outcome = w.drive(config, false);
    assert_eq!(outcome.stop, RunStop::Idle);
}

#[test]
fn the_accounting_closes_on_a_completed_run() {
    // The property the counters exist for: every raw event the source
    // produced is either scored or accounted for in the source's own
    // unmapped/undecodable counters.
    let mut w = world(200);
    let outcome = w.drive(for_test(), true);
    let m = &outcome.metrics;
    assert_eq!(
        m.raw_seen,
        m.scored + outcome.unmapped + outcome.undecodable
    );
}

#[test]
fn the_accounting_closes_at_every_moment_of_a_run() {
    let mut run = Run::new(for_test(), true);
    let mut told = (0, 0);
    for (count, unmapped, undecodable, accepted) in
        [(3, 2, 0, true), (0, 2, 0, true), (16, 7, 4, false), (1, 7, 5, true)]
    {
        let mut happened = vec![
            Happened::Looked { now: 0, requested: false },
            Happened::Pulled { said: count, held: count, now: 0 },
            Happened::Scored { alerts: 0, unmapped, undecodable },
        ];
        if count > 0 {
            happened.push(Happened::Shipped { accepted });
        }
        happened.push(Happened::Ticked { now: 0 });
        for one in happened {
            if let Happened::Scored { unmapped, undecodable, .. } = &one {
                told = (*unmapped, *undecodable);
            }
            run.step(one);
            let c = &run.counters;
            assert_eq!(c.raw_seen, told.0 + told.1 + c.scored);
            let handing_over = if run.doing == Action::Ship { run.batch } else { 0 };
            assert_eq!(c.scored, c.shipped + c.dropped + handing_over);
        }
        assert_eq!(run.doing, Action::Look);
    }
    assert_eq!(run.counters.raw_seen, 32);
    assert_eq!(run.counters.scored, 20);
    assert_eq!(run.counters.dropped, 16);
}

#[test]
fn alerts_reach_the_emitter() {
    let mut w = world(100);
    let outcome = w.drive(for_test(), true);
    // One in ten events fires, so roughly ten alerts.
    assert!(outcome.metrics.alerts >= 5, "{:?}", outcome.metrics);
    assert_eq!(outcome.metrics.alerts, w.emitted);
}

#[test]
fn a_run_with_no_sink_still_scores() {
    // The diagnostic mode: no `--ship`, no sink, alerts still surface.
    let mut w = world(100);
    let outcome = w.drive(for_test(), false);
    assert!(outcome.metrics.scored > 0);
    assert_eq!(outcome.metrics.shipped, 0);
    assert_eq!(outcome.metrics.dropped, outcome.metrics.scored);
}

#[test]
fn what_was_scored_was_shipped_and_the_source_was_released() {
    let mut w = world(100);
    let outcome = w.drive(
        ObserverConfig {
            quiet: false,
            ..for_test()
        },
        true,
    );
    assert_eq!(outcome.metrics.scored, 100);
    assert_eq!(outcome.metrics.shipped, 100);
    assert_eq!(w.written, 100);
    assert_eq!(outcome.metrics.flush_count, w.flushed);
    assert!(w.flushed >= 2);
    assert!(w.printed > 0);
    assert!(w.released);
}

#[test]
fn a_refusing_sink_drops_and_a_failing_flush_is_counted() {
    let mut run = Run::new(for_test(), true);
    assert_eq!(
        run.step(Happened::Looked {
            now: 1,
            requested: false
        }),
        Action::Pull {
            max: 16,
            timeout: 5 * MILLISECOND
        }
    );
    assert_eq!(run.step(Happened::Pulled { said: 3, held: 3, now: 2 }), Action::Score);
    assert_eq!(
        run.step(Happened::Scored {
            alerts: 1,
            unmapped: 4,
            undecodable: 2
        }),
        Action::Ship
    );
    assert_eq!(run.counters.raw_seen, 9);
    assert_eq!(run.step(Happened::Shipped { accepted: false }), Action::Tick);
    assert_eq!(run.counters.dropped, 3);
    assert_eq!(
        run.step(Happened::Ticked {
            now: 60 * MILLISECOND
        }),
        Action::Flush
    );
    assert_eq!(
        run.step(Happened::Flushed {
            began: 60 * MILLISECOND,
            now: 61 * MILLISECOND,
            failed: true,
            restated: 5
        }),
        Action::Report { print: false }
    );
    assert_eq!(run.counters.sink_errors, 1);
    assert_eq!(run.counters.restated, 5);
    // What does not answer the action changes nothing.
    assert_eq!(
        run.step(Happened::Shipped { accepted: true }),
        Action::Report { print: false }
    );
    assert!(run.outcome(0, 0, 0).is_none());
}

#[test]
fn a_stop_has_a_name() {
    assert_eq!(RunStop::Deadline.as_str(), "deadline");
    assert_eq!(RunStop::Requested.as_str(), "requested");
    assert_eq!(RunStop::Idle.as_str(), "idle");
    assert_eq!(RunStop::SourceFailed("x".into()).as_str(), "source failed");
}

#[test]
fn the_deadline_comes_before_a_request_and_a_request_before_silence() {
    let config = ObserverConfig {
        deadline: Some(100),
        idle_timeout: Some(10),
        ..for_test()
    };
    let run = Run::new(config, true);
    assert_eq!(run.stop_due(100, true), Some(RunStop::Deadline));
    assert_eq!(run.stop_due(50, true), Some(RunStop::Requested));
    assert_eq!(run.stop_due(50, false), Some(RunStop::Idle));
    assert_eq!(run.stop_due(9, false), None);
}

#[test]
fn the_idle_clock_follows_what_the_source_says() {
    for (said, held, idle_from) in [(0, 2, 0), (2, 0, 7), (1, 1, 7), (0, 0, 0)] {
        let mut run = Run::new(for_test(), true);
        run.step(Happened::Looked { now: 1, requested: false });
        run.step(Happened::Pulled { said, held, now: 7 });
        assert_eq!(run.last_event, idle_from);
        assert_eq!(run.batch, held);
    }
}
