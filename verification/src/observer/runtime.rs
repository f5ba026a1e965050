//! What the loop does next.
use super::config::ObserverConfig;
use super::metrics::{nothing_counted, rate_over, Counters, MetricsSnapshot};
use crate::ratio::Fraction;
use vstd::prelude::*;

verus! {

/// Why a run ended.
#[derive(Debug, Clone, PartialEq, Eq)]
pub enum RunStop {
    /// The deadline elapsed.
    Deadline,
    /// A stop was asked for.
    Requested,
    /// No event for the idle timeout. Off unless configured.
    Idle,
    /// The source returned an error. A source that fails once usually fails
    /// every time, so it is not tried again.
    SourceFailed(String),
}

impl RunStop {
    pub fn as_str(&self) -> (name: &'static str)
        ensures
            name@ == match self {
                RunStop::Deadline => "deadline"@,
                RunStop::Requested => "requested"@,
                RunStop::Idle => "idle"@,
                RunStop::SourceFailed(_) => "source failed"@,
            },
    {
        match self {
            RunStop::Deadline => "deadline",
            RunStop::Requested => "requested",
            RunStop::Idle => "idle",
            RunStop::SourceFailed(_) => "source failed",
        }
    }
}

/// What a run leaves behind.
#[derive(Debug)]
pub struct RunOutcome {
    pub stop: RunStop,
    /// Nanoseconds from the first iteration to the last.
    pub wall: u128,
    /// Every counter the loop maintains.
    pub metrics: MetricsSnapshot,
    /// Events the source saw that the translator did not score.
    pub unmapped: u64,
    /// Events that were a scored shape but could not be decoded.
    pub undecodable: u64,
}

impl RunOutcome {
    /// Events per second over the whole run.
    pub fn eps(&self) -> (rate: Fraction)
        ensures
            rate == rate_over(self.metrics.scored, self.wall),
            rate.den > 0,
    {
        self.metrics.eps(self.wall)
    }
}

/// What the loop is to do.
#[derive(Debug, Clone, Copy, PartialEq, Eq, Structural)]
pub enum Action {
    /// Read the clock and the stop flag.
    Look,
    /// Pull up to `max` events, waiting no longer than `timeout` for the first.
    Pull { max: usize, timeout: u128 },
    /// Score every event pulled, emitting the alerts, and read what the source
    /// did not translate.
    Score,
    /// Hand the events scored to the sink.
    Ship,
    /// Let the scorer do what follows from its batch, and read the clock.
    Tick,
    /// Flush the sink, restate what the scorer has coalesced, and read the
    /// clock.
    Flush,
    /// Print the heartbeat if `print` is set, and read the clock.
    Report { print: bool },
    /// Release the source.
    Shutdown,
    /// The run is over.
    End,
}

/// What happened when the loop did it. Times are nanoseconds since the run
/// began.
#[derive(Debug)]
pub enum Happened {
    Looked { now: u128, requested: bool },
    /// The source says that it delivered `said` events, and the batch holds
    /// `held`.
    Pulled { said: u64, held: u64, now: u128 },
    PullFailed { reason: String },
    Scored { alerts: u64, unmapped: u64, undecodable: u64 },
    Shipped { accepted: bool },
    Ticked { now: u128 },
    Flushed { began: u128, now: u128, failed: bool, restated: u64 },
    Reported { now: u128 },
    ShutDown { failed: bool },
}

/// A run, between two actions.
#[derive(Debug)]
pub struct Run {
    pub config: ObserverConfig,
    pub has_sink: bool,
    /// What the loop is doing.
    pub doing: Action,
    pub last_event: u128,
    pub last_flush: u128,
    pub last_report: u128,
    /// How many events were pulled and are not yet shipped or dropped.
    pub batch: u64,
    pub counters: Counters,
    pub stop: Option<RunStop>,
}

/// Whether at least `span` has passed between two times.
pub open spec fn elapsed(since: u128, now: u128, span: u128) -> bool {
    now - since >= span
}

/// The stop that is due at a moment: the deadline first, then a request, then
/// silence.
pub open spec fn due_stop(run: Run, now: u128, requested: bool) -> Option<RunStop> {
    if run.config.deadline is Some && elapsed(0, now, run.config.deadline->0) {
        Some(RunStop::Deadline)
    } else if requested {
        Some(RunStop::Requested)
    } else if run.config.idle_timeout is Some && elapsed(
        run.last_event,
        now,
        run.config.idle_timeout->0,
    ) {
        Some(RunStop::Idle)
    } else {
        None
    }
}

/// What the loop does once nothing is left to flush.
pub open spec fn after_flush(run: Run, now: u128) -> Action {
    if run.stop is Some {
        Action::Shutdown
    } else if elapsed(run.last_report, now, run.config.report) {
        Action::Report { print: !run.config.quiet }
    } else {
        Action::Look
    }
}

/// The run after something happened. What does not answer the action that was
/// asked for changes nothing.
pub open spec fn advanced(run: Run, happened: Happened) -> Run {
    let c = run.counters;
    match (run.doing, happened) {
        (Action::Look, Happened::Looked { now, requested }) => {
            let stop = due_stop(run, now, requested);
            Run {
                doing: if stop is Some {
                    Action::Flush
                } else {
                    Action::Pull { max: run.config.batch, timeout: run.config.poll }
                },
                stop,
                ..run
            }
        },
        (Action::Pull { .. }, Happened::Pulled { said, held, now }) => Run {
            doing: Action::Score,
            last_event: if said > 0 {
                now
            } else {
                run.last_event
            },
            batch: held,
            ..run
        },
        (Action::Pull { .. }, Happened::PullFailed { reason }) => Run {
            doing: Action::Flush,
            stop: Some(RunStop::SourceFailed(reason)),
            counters: Counters { source_errors: c.source_errors.wrapping_add(1), ..c },
            ..run
        },
        (Action::Score, Happened::Scored { alerts, unmapped, undecodable }) => {
            let seen = unmapped + undecodable + c.scored + run.batch;
            Run {
                doing: if run.has_sink && run.batch > 0 {
                    Action::Ship
                } else {
                    Action::Tick
                },
                batch: if run.has_sink {
                    run.batch
                } else {
                    0
                },
                counters: Counters {
                    alerts: c.alerts.wrapping_add(alerts),
                    scored: c.scored.wrapping_add(run.batch),
                    raw_seen: if seen > c.raw_seen {
                        seen as u64
                    } else {
                        c.raw_seen
                    },
                    dropped: if run.has_sink {
                        c.dropped
                    } else {
                        c.dropped.wrapping_add(run.batch)
                    },
                    ..c
                },
                ..run
            }
        },
        (Action::Ship, Happened::Shipped { accepted }) => Run {
            doing: Action::Tick,
            batch: 0,
            counters: if accepted {
                Counters { shipped: c.shipped.wrapping_add(run.batch), ..c }
            } else {
                Counters { dropped: c.dropped.wrapping_add(run.batch), ..c }
            },
            ..run
        },
        (Action::Tick, Happened::Ticked { now }) => Run {
            doing: if elapsed(run.last_flush, now, run.config.flush) {
                Action::Flush
            } else {
                after_flush(run, now)
            },
            ..run
        },
        (Action::Flush, Happened::Flushed { began, now, failed, restated }) => Run {
            doing: after_flush(run, now),
            last_flush: began,
            counters: Counters {
                sink_errors: if failed {
                    c.sink_errors.wrapping_add(1)
                } else {
                    c.sink_errors
                },
                restated: c.restated.wrapping_add(restated),
                flush_count: c.flush_count.wrapping_add(1),
                ..c
            },
            ..run
        },
        (Action::Report { .. }, Happened::Reported { now }) => Run {
            doing: Action::Look,
            last_report: now,
            ..run
        },
        (Action::Shutdown, Happened::ShutDown { failed }) => Run {
            doing: Action::End,
            counters: if failed {
                Counters { source_errors: c.source_errors.wrapping_add(1), ..c }
            } else {
                c
            },
            ..run
        },
        _ => run,
    }
}

/// Whether what the source and the scorer report can be added up.
pub open spec fn countable(run: Run, happened: Happened) -> bool {
    match happened {
        Happened::Scored { alerts, unmapped, undecodable } => unmapped + undecodable
            + run.counters.scored + run.batch <= u64::MAX,
        _ => true,
    }
}

fn has_elapsed(since: u128, now: u128, span: u128) -> (yes: bool)
    ensures
        yes == elapsed(since, now, span),
{
    if now >= since {
        now - since >= span
    } else {
        false
    }
}

impl Run {
    /// A run that has done nothing yet.
    pub fn new(config: ObserverConfig, has_sink: bool) -> (run: Run)
        ensures
            run == (Run {
                config,
                has_sink,
                doing: Action::Look,
                last_event: 0,
                last_flush: 0,
                last_report: 0,
                batch: 0,
                counters: nothing_counted(),
                stop: None,
            }),
            settled(run),
            closed_over(run, (0, 0)),
    {
        Run {
            config,
            has_sink,
            doing: Action::Look,
            last_event: 0,
            last_flush: 0,
            last_report: 0,
            batch: 0,
            counters: Counters::default(),
            stop: None,
        }
    }

    /// Which stop is due.
    pub fn stop_due(&self, now: u128, requested: bool) -> (stop: Option<RunStop>)
        ensures
            stop == due_stop(*self, now, requested),
    {
        match self.config.deadline {
            Some(deadline) => {
                if has_elapsed(0, now, deadline) {
                    return Some(RunStop::Deadline);
                }
            },
            None => {},
        }
        if requested {
            return Some(RunStop::Requested);
        }
        match self.config.idle_timeout {
            Some(idle) => {
                if has_elapsed(self.last_event, now, idle) {
                    return Some(RunStop::Idle);
                }
            },
            None => {},
        }
        None
    }

    fn next_after_flush(&self, now: u128) -> (action: Action)
        ensures
            action == after_flush(*self, now),
    {
        if self.stop.is_some() {
            Action::Shutdown
        } else if has_elapsed(self.last_report, now, self.config.report) {
            Action::Report { print: !self.config.quiet }
        } else {
            Action::Look
        }
    }

    /// Takes in what happened and returns what to do next.
    pub fn step(&mut self, happened: Happened) -> (action: Action)
        requires
            countable(*old(self), happened),
        ensures
            *final(self) == advanced(*old(self), happened),
            action == final(self).doing,
    {
        match (self.doing, happened) {
            (Action::Look, Happened::Looked { now, requested }) => {
                self.stop = self.stop_due(now, requested);
                self.doing = if self.stop.is_some() {
                    Action::Flush
                } else {
                    Action::Pull { max: self.config.batch, timeout: self.config.poll }
                };
            },
            (Action::Pull { .. }, Happened::Pulled { said, held, now }) => {
                if said > 0 {
                    self.last_event = now;
                }
                self.batch = held;
                self.doing = Action::Score;
            },
            (Action::Pull { .. }, Happened::PullFailed { reason }) => {
                Counters::bump(&mut self.counters.source_errors, 1);
                self.stop = Some(RunStop::SourceFailed(reason));
                self.doing = Action::Flush;
            },
            (Action::Score, Happened::Scored { alerts, unmapped, undecodable }) => {
                let seen: u64 = unmapped + undecodable + self.counters.scored + self.batch;
                Counters::bump(&mut self.counters.alerts, alerts);
                Counters::bump(&mut self.counters.scored, self.batch);
                if seen > self.counters.raw_seen {
                    self.counters.raw_seen = seen;
                }
                self.doing = if self.has_sink && self.batch > 0 {
                    Action::Ship
                } else {
                    Action::Tick
                };
                if !self.has_sink {
                    Counters::bump(&mut self.counters.dropped, self.batch);
                    self.batch = 0;
                }
            },
            (Action::Ship, Happened::Shipped { accepted }) => {
                if accepted {
                    Counters::bump(&mut self.counters.shipped, self.batch);
                } else {
                    Counters::bump(&mut self.counters.dropped, self.batch);
                }
                self.batch = 0;
                self.doing = Action::Tick;
            },
            (Action::Tick, Happened::Ticked { now }) => {
                self.doing = if has_elapsed(self.last_flush, now, self.config.flush) {
                    Action::Flush
                } else {
                    self.next_after_flush(now)
                };
            },
            (Action::Flush, Happened::Flushed { began, now, failed, restated }) => {
                if failed {
                    Counters::bump(&mut self.counters.sink_errors, 1);
                }
                Counters::bump(&mut self.counters.restated, restated);
                Counters::bump(&mut self.counters.flush_count, 1);
                self.last_flush = began;
                self.doing = self.next_after_flush(now);
            },
            (Action::Report { .. }, Happened::Reported { now }) => {
                self.last_report = now;
                self.doing = Action::Look;
            },
            (Action::Shutdown, Happened::ShutDown { failed }) => {
                if failed {
                    Counters::bump(&mut self.counters.source_errors, 1);
                }
                self.doing = Action::End;
            },
            _ => {},
        }
        self.doing
    }

    /// What the run leaves behind; nothing while it is not over.
    pub fn outcome(self, wall: u128, unmapped: u64, undecodable: u64) -> (outcome: Option<
        RunOutcome,
    >)
        ensures
            match outcome {
                Some(o) => self.doing is End && self.stop == Some(o.stop) && o.wall == wall
                    && o.metrics == self.counters.reading() && o.unmapped == unmapped
                    && o.undecodable == undecodable,
                None => !(self.doing is End) || self.stop is None,
            },
    {
        let metrics = self.counters.snapshot();
        match (self.doing, self.stop) {
            (Action::End, Some(stop)) => Some(
                RunOutcome { stop, wall, metrics, unmapped, undecodable },
            ),
            _ => None,
        }
    }
}

/// What holds of a run at every moment: every event scored was shipped, dropped,
/// or is being handed over; and a run that is ending was flushed after its last
/// batch.
pub open spec fn settled(run: Run) -> bool {
    let c = run.counters;
    &&& c.shipped + c.dropped + (if run.doing is Ship {
        run.batch as int
    } else {
        0
    }) == c.scored
    &&& (run.doing is Shutdown || run.doing is End) ==> run.stop is Some
    &&& (run.doing is Flush || run.doing is Shutdown || run.doing is End || run.stop is None)
}

/// Every event that reaches the scorer is accounted for, whatever the source and
/// the sink do: at every moment what was scored is what was shipped, what was
/// dropped, and what is being handed over. And a run ends only with a reason.
pub proof fn every_scored_event_is_accounted_for(run: Run, happened: Happened)
    requires
        settled(run),
        countable(run, happened),
    ensures
        settled(advanced(run, happened)),
{
}

/// Whether the accounting of a run closes over how many events the source says
/// it did not translate, unmapped and undecodable: every raw event is one of
/// those, or was scored.
pub open spec fn closed_over(run: Run, told: (u64, u64)) -> bool {
    run.counters.raw_seen == told.0 + told.1 + run.counters.scored
}

/// What the source has last said it did not translate, unmapped and undecodable,
/// after something happened.
pub open spec fn told_by(run: Run, happened: Happened, told: (u64, u64)) -> (u64, u64) {
    match (run.doing, happened) {
        (Action::Score, Happened::Scored { unmapped, undecodable, .. }) => (unmapped, undecodable),
        _ => told,
    }
}

/// Whether what happened is sound: it can be added up, and what the source says
/// it did not translate does not go down.
pub open spec fn sound(run: Run, happened: Happened, told: (u64, u64)) -> bool {
    let next = told_by(run, happened, told);
    countable(run, happened) && told.0 + told.1 <= next.0 + next.1
}

/// Every raw event falls into exactly one bucket, at every moment: whatever
/// happens next, the events seen are those unmapped, those undecodable and those
/// scored, if they were before.
pub proof fn the_accounting_closes(run: Run, happened: Happened, told: (u64, u64))
    requires
        closed_over(run, told),
        sound(run, happened, told),
    ensures
        closed_over(advanced(run, happened), told_by(run, happened, told)),
{
}

/// A run, and what its source has last said, after a whole sequence of things
/// happened.
pub open spec fn after_all(run: Run, told: (u64, u64), all: Seq<Happened>) -> (Run, (u64, u64))
    decreases all.len(),
{
    if all.len() == 0 {
        (run, told)
    } else {
        let (before, said) = after_all(run, told, all.drop_last());
        (advanced(before, all.last()), told_by(before, all.last(), said))
    }
}

/// Whether each of a sequence of things was sound when it happened.
pub open spec fn all_sound(run: Run, told: (u64, u64), all: Seq<Happened>) -> bool
    decreases all.len(),
{
    all.len() == 0 || {
        let (before, said) = after_all(run, told, all.drop_last());
        all_sound(run, told, all.drop_last()) && sound(before, all.last(), said)
    }
}

/// Whatever happens in the course of a run, however long, and a completed one
/// among them: every raw event was unmapped, undecodable or scored, and every
/// scored one was shipped, dropped or is being handed over.
pub proof fn a_whole_run_is_accounted_for(run: Run, told: (u64, u64), all: Seq<Happened>)
    requires
        settled(run),
        closed_over(run, told),
        all_sound(run, told, all),
    ensures
        settled(after_all(run, told, all).0),
        closed_over(after_all(run, told, all).0, after_all(run, told, all).1),
    decreases all.len(),
{
    if all.len() > 0 {
        let (before, said) = after_all(run, told, all.drop_last());
        a_whole_run_is_accounted_for(run, told, all.drop_last());
        every_scored_event_is_accounted_for(before, all.last());
        the_accounting_closes(before, all.last(), said);
    }
}

/// Silence is not an ending: a source that returns nothing goes on being asked.
pub proof fn silence_is_not_failure(run: Run, now: u128)
    requires
        run.doing is Pull,
    ensures
        advanced(run, Happened::Pulled { said: 0, held: 0, now }).stop == run.stop,
        advanced(run, Happened::Pulled { said: 0, held: 0, now }).doing is Score,
        run.config.idle_timeout is None && run.config.deadline is None ==> due_stop(
            run,
            now,
            false,
        ) is None,
{
}

/// A source that fails stops the run, after one more flush and with the failure
/// counted.
pub proof fn a_failed_source_stops_the_run(run: Run, reason: String)
    requires
        run.doing is Pull,
        run.counters.source_errors < u64::MAX,
    ensures
        ({
            let after = advanced(run, Happened::PullFailed { reason });
            &&& after.stop == Some(RunStop::SourceFailed(reason))
            &&& after.doing is Flush
            &&& after.counters.source_errors == run.counters.source_errors + 1
        }),
{
}

/// A run that is to stop is flushed, then the source is released, then it ends.
pub proof fn a_stopping_run_is_flushed_and_released(
    run: Run,
    began: u128,
    now: u128,
    failed: bool,
    restated: u64,
    lost: bool,
)
    requires
        run.doing is Flush,
        run.stop is Some,
    ensures
        ({
            let flushed = advanced(run, Happened::Flushed { began, now, failed, restated });
            let over = advanced(flushed, Happened::ShutDown { failed: lost });
            &&& flushed.doing is Shutdown
            &&& over.doing is End
            &&& over.stop == run.stop
        }),
{
}

/// A run stops at its deadline, whatever else; short of it, when it is asked to;
/// and unasked only after as much silence as it was configured to bear.
pub proof fn stops_come_in_their_order(run: Run, now: u128, requested: bool)
    ensures
        ({
            let stop = due_stop(run, now, requested);
            let over = run.config.deadline is Some && now >= run.config.deadline->0;
            let silent = run.config.idle_timeout is Some && now >= run.last_event
                + run.config.idle_timeout->0;
            &&& stop == Some(RunStop::Deadline) <==> over
            &&& stop == Some(RunStop::Requested) <==> requested && !over
            &&& stop == Some(RunStop::Idle) <==> silent && !requested && !over
            &&& stop is None <==> !over && !requested && !silent
        }),
{
}

/// Having looked, the loop asks for as many events as a batch holds and waits for
/// the first no longer than configured, unless a stop is due: then it flushes.
pub proof fn looking_leads_to_pulling_or_to_the_end(run: Run, now: u128, requested: bool)
    requires
        run.doing is Look,
    ensures
        ({
            let next = advanced(run, Happened::Looked { now, requested });
            &&& next.stop == due_stop(run, now, requested)
            &&& next.stop is None ==> next.doing == Action::Pull {
                max: run.config.batch,
                timeout: run.config.poll,
            }
            &&& next.stop is Some ==> next.doing == Action::Flush
            &&& next.counters == run.counters && next.batch == run.batch
            &&& next.last_event == run.last_event && next.last_flush == run.last_flush
        }),
{
}

/// What was pulled is scored, and a source that delivered something has broken
/// its silence.
pub proof fn deliveries_break_the_silence(run: Run, said: u64, held: u64, now: u128)
    requires
        run.doing is Pull,
    ensures
        ({
            let next = advanced(run, Happened::Pulled { said, held, now });
            &&& next.doing == Action::Score
            &&& next.batch == held
            &&& said > 0 ==> next.last_event == now
            &&& said == 0 ==> next.last_event == run.last_event
            &&& next.counters == run.counters && next.stop == run.stop
        }),
{
}

/// Every event of a batch is scored, and its alerts are counted; with a sink the
/// batch is shipped, without one it is dropped.
pub proof fn batches_are_scored_whole(run: Run, alerts: u64, unmapped: u64, undecodable: u64)
    requires
        run.doing is Score,
        unmapped + undecodable + run.counters.scored + run.batch <= u64::MAX,
        run.counters.alerts + alerts <= u64::MAX,
        run.counters.dropped + run.batch <= u64::MAX,
    ensures
        ({
            let next = advanced(run, Happened::Scored { alerts, unmapped, undecodable });
            &&& next.counters.scored == run.counters.scored + run.batch
            &&& next.counters.alerts == run.counters.alerts + alerts
            &&& run.has_sink ==> next.counters.dropped == run.counters.dropped && next.batch
                == run.batch
            &&& !run.has_sink ==> next.counters.dropped == run.counters.dropped + run.batch
                && next.batch == 0
            &&& next.doing == Action::Ship <==> run.has_sink && run.batch > 0
            &&& next.doing == Action::Tick <==> !run.has_sink || run.batch == 0
            &&& next.counters.shipped == run.counters.shipped && next.stop == run.stop
            &&& next.counters.raw_seen >= run.counters.raw_seen
        }),
{
}

/// A batch that the sink takes counts as shipped, one that it refuses as dropped,
/// and either way it is gone.
pub proof fn batches_are_shipped_or_dropped(run: Run, accepted: bool)
    requires
        run.doing is Ship,
        run.counters.shipped + run.batch <= u64::MAX,
        run.counters.dropped + run.batch <= u64::MAX,
    ensures
        ({
            let next = advanced(run, Happened::Shipped { accepted });
            &&& next.counters.shipped == run.counters.shipped + (if accepted {
                run.batch as int
            } else {
                0
            })
            &&& next.counters.dropped == run.counters.dropped + (if accepted {
                0
            } else {
                run.batch as int
            })
            &&& next.batch == 0
            &&& next.doing == Action::Tick
            &&& next.stop == run.stop
        }),
{
}

/// The sink is flushed as often as configured; between flushes the heartbeat is
/// due as often as configured, printed unless the run is quiet; and otherwise the
/// loop looks again.
pub proof fn flushes_and_reports_come_when_due(run: Run, now: u128)
    requires
        run.doing is Tick,
        run.stop is None,
    ensures
        ({
            let next = advanced(run, Happened::Ticked { now });
            let flush = now >= run.last_flush + run.config.flush;
            let report = now >= run.last_report + run.config.report;
            &&& next.doing == Action::Flush <==> flush
            &&& next.doing is Report <==> !flush && report
            &&& next.doing is Report ==> (next.doing->print <==> !run.config.quiet)
            &&& next.doing == Action::Look <==> !flush && !report
            &&& next.counters == run.counters
        }),
{
}

/// A flush is counted, with what was restated and whether it failed, and the next
/// one is due from when it began.
pub proof fn flushes_are_counted(
    run: Run,
    began: u128,
    now: u128,
    failed: bool,
    restated: u64,
)
    requires
        run.doing is Flush,
        run.counters.sink_errors < u64::MAX,
        run.counters.flush_count < u64::MAX,
        run.counters.restated + restated <= u64::MAX,
    ensures
        ({
            let next = advanced(run, Happened::Flushed { began, now, failed, restated });
            let report = now >= run.last_report + run.config.report;
            &&& next.counters.flush_count == run.counters.flush_count + 1
            &&& next.counters.restated == run.counters.restated + restated
            &&& failed ==> next.counters.sink_errors == run.counters.sink_errors + 1
            &&& !failed ==> next.counters.sink_errors == run.counters.sink_errors
            &&& next.last_flush == began
            &&& next.stop == run.stop
            &&& run.stop is None ==> (next.doing is Report <==> report)
            &&& run.stop is None ==> (next.doing == Action::Look <==> !report)
        }),
{
}

/// Having reported, the loop looks again, and the next heartbeat is due from then.
pub proof fn reports_start_the_interval_again(run: Run, now: u128)
    requires
        run.doing is Report,
    ensures
        ({
            let next = advanced(run, Happened::Reported { now });
            &&& next.doing == Action::Look
            &&& next.last_report == now
            &&& next.counters == run.counters && next.stop == run.stop
        }),
{
}

/// A source that cannot be released is counted as a failure of the source, and the
/// run ends all the same.
pub proof fn a_lost_source_is_counted(run: Run, failed: bool)
    requires
        run.doing is Shutdown,
        run.counters.source_errors < u64::MAX,
    ensures
        ({
            let next = advanced(run, Happened::ShutDown { failed });
            &&& next.doing == Action::End
            &&& failed ==> next.counters.source_errors == run.counters.source_errors + 1
            &&& !failed ==> next.counters == run.counters
            &&& next.stop == run.stop
        }),
{
}

/// Once a run is over, nothing changes it.
pub proof fn a_run_that_is_over_stays_over(run: Run, happened: Happened)
    requires
        run.doing is End,
    ensures
        advanced(run, happened) == run,
{
}

} // verus!
