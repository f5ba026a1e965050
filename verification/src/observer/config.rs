//! When the loop pulls, flushes, reports, and stops.
use vstd::prelude::*;

verus! {

/// Nanoseconds in a millisecond.
pub const MILLISECOND: u128 = 1_000_000;

/// Nanoseconds in a second.
pub const SECOND: u128 = 1_000_000_000;

/// How the observer schedules its work. Spans are in nanoseconds.
///
/// A run that bounds itself is a diagnostic; one that runs until stopped is a
/// deployment.
#[derive(Debug, Clone, Copy, PartialEq, Eq, Structural)]
pub struct ObserverConfig {
    /// Wire events pulled from the source per iteration.
    pub batch: usize,
    /// How long the source may wait for its first event.
    pub poll: u128,
    /// How often the sink is flushed.
    pub flush: u128,
    /// How often the heartbeat is printed.
    pub report: u128,
    /// Stop after this long; `None` runs until stopped.
    pub deadline: Option<u128>,
    /// Stop after this long with no events. `None` never stops on silence: a
    /// host that is quiet is not a host that is dead.
    pub idle_timeout: Option<u128>,
    /// Suppress the heartbeat.
    pub quiet: bool,
}

/// A deployment: no deadline, and silence is not failure.
pub open spec fn deployment() -> ObserverConfig {
    ObserverConfig {
        batch: 4096,
        poll: 250_000_000,
        flush: 2_000_000_000,
        report: 2_000_000_000,
        deadline: None,
        idle_timeout: None,
        quiet: false,
    }
}

impl Default for ObserverConfig {
    fn default() -> (config: ObserverConfig)
        ensures
            config == deployment(),
    {
        ObserverConfig {
            batch: 4096,
            poll: 250 * MILLISECOND,
            flush: 2 * SECOND,
            report: 2 * SECOND,
            deadline: None,
            idle_timeout: None,
            quiet: false,
        }
    }
}

impl ObserverConfig {
    /// Runs until the deadline elapses: only the deadline differs from the
    /// default.
    pub fn for_duration(seconds: u64) -> (config: ObserverConfig)
        ensures
            config == (ObserverConfig {
                deadline: Some((seconds * SECOND) as u128),
                ..deployment()
            }),
    {
        let base = ObserverConfig::default();
        ObserverConfig { deadline: Some(seconds as u128 * SECOND), ..base }
    }
}

/// A deployment runs until it is stopped, however quiet its host is; it pulls four
/// thousand and ninety-six events at a time, waits a quarter of a second for the
/// first, and flushes and reports every two seconds.
pub proof fn deployments_run_until_they_are_stopped()
    ensures
        deployment().deadline is None,
        deployment().idle_timeout is None,
        !deployment().quiet,
        deployment().batch == 4096,
        deployment().poll == 250_000_000,
        deployment().flush == 2_000_000_000,
        deployment().report == 2_000_000_000,
{
}

} // verus!
