//! What was actually observed, and how much of the universe that is.
use crate::numbers::{add_rising, rising};
use crate::ratio::Ratio;
use std::collections::BTreeMap;
use vstd::prelude::*;

verus! {

/// Stable handle for a recorded observation.
#[derive(Debug, Clone, Copy, PartialEq, Eq, PartialOrd, Ord, Structural)]
pub struct ObsId(pub u64);

/// The partial observation map; unobserved entities are simply absent.
#[derive(Debug, Clone)]
pub struct ObservationMap {
    seen: BTreeMap<u64, ObsId>,
}

/// A count of a universe, kept within it.
pub open spec fn covered(count: nat, universe: nat) -> nat {
    if count > universe {
        universe
    } else {
        count
    }
}

impl ObservationMap {
    /// The latest observation of each entity.
    pub closed spec fn latest(&self) -> Map<u64, ObsId> {
        self.seen@
    }

    pub fn new() -> (map: ObservationMap)
        ensures
            map.latest() == Map::<u64, ObsId>::empty(),
    {
        ObservationMap { seen: BTreeMap::new() }
    }

    /// Records the latest observation of an entity, in place of any earlier one.
    pub fn observe(&mut self, entity: u64, obs: ObsId)
        ensures
            final(self).latest() == old(self).latest().insert(entity, obs),
    {
        self.seen.insert(entity, obs);
    }

    /// The latest observation of an entity, if any.
    pub fn get(&self, entity: u64) -> (obs: Option<ObsId>)
        ensures
            obs == if self.latest().contains_key(entity) {
                Some(self.latest()[entity])
            } else {
                None
            },
    {
        match self.seen.get(&entity) {
            Some(obs) => Some(*obs),
            None => None,
        }
    }

    /// Number of distinct entities observed at least once.
    pub fn observed_count(&self) -> (n: usize)
        ensures
            n == self.latest().len(),
    {
        self.seen.len()
    }

    /// Universe members with no observation, in ascending order, each once
    /// however often the universe names it.
    pub fn unobserved(&self, universe: &[u64]) -> (missing: Vec<u64>)
        ensures
            rising(missing@),
            forall|e: u64| #[trigger]
                missing@.contains(e) == (universe@.contains(e) && !self.latest().contains_key(e)),
    {
        let mut out: Vec<u64> = Vec::new();
        let mut i: usize = 0;
        while i < universe.len()
            invariant
                i <= universe@.len(),
                rising(out@),
                forall|e: u64| #[trigger]
                    out@.contains(e) == (universe@.take(i as int).contains(e)
                        && !self.latest().contains_key(e)),
            decreases universe@.len() - i,
        {
            let e: u64 = universe[i];
            let ghost before = out@;
            if !self.seen.contains_key(&e) {
                add_rising(&mut out, e);
            }
            proof {
                let now = universe@.take(i + 1);
                let was = universe@.take(i as int);
                assert(now == was.push(e));
                assert forall|x: u64| #[trigger] out@.contains(x) == (now.contains(x)
                    && !self.latest().contains_key(x)) by {
                    assert(before.contains(x) == (was.contains(x) && !self.latest().contains_key(
                        x,
                    )));
                    if was.contains(x) {
                        let k = choose|k: int| 0 <= k < was.len() && was[k] == x;
                        assert(now[k] == x);
                    }
                    if x == e {
                        assert(now[was.len() as int] == x);
                    }
                    if now.contains(x) && x != e {
                        let k = choose|k: int| 0 <= k < now.len() && now[k] == x;
                        assert(was[k] == x);
                    }
                }
            }
            i += 1;
        }
        assert(universe@.take(i as int) == universe@);
        out
    }

    /// Observed fraction of a universe of known size; one when it is empty.
    pub fn coverage_ratio(&self, universe_size: usize) -> (ratio: Ratio)
        ensures
            ratio.wf(),
            ratio == self.coverage(universe_size),
    {
        if universe_size == 0 {
            Ratio { num: 1, den: 1 }
        } else {
            let count: usize = self.observed_count();
            Ratio {
                num: if count > universe_size {
                    universe_size as u64
                } else {
                    count as u64
                },
                den: universe_size as u64,
            }
        }
    }

    /// Observed fraction of a universe.
    pub open spec fn coverage(&self, universe_size: usize) -> Ratio {
        if universe_size == 0 {
            Ratio { num: 1, den: 1 }
        } else {
            Ratio {
                num: covered(self.latest().len(), universe_size as nat) as u64,
                den: universe_size as u64,
            }
        }
    }

    /// The blind spot: what coverage leaves of one.
    pub fn blind_spot(&self, universe_size: usize) -> (ratio: Ratio)
        ensures
            ratio.wf(),
            ratio == self.coverage(universe_size).complement(),
    {
        let covered = self.coverage_ratio(universe_size);
        Ratio { num: covered.den - covered.num, den: covered.den }
    }
}

impl Default for ObservationMap {
    fn default() -> (map: ObservationMap)
        ensures
            map.latest() == Map::<u64, ObsId>::empty(),
    {
        ObservationMap::new()
    }
}

} // verus!
