//! What the run observed, and what that is worth.
use crate::asmr::observe::ObservationMap;
use crate::ratio::Ratio;
use crate::text::texts_are_ordered;
use crate::textmap::{by_key, keys_rise, lemma_by_key, TextMap};
use vstd::prelude::*;

verus! {

/// One rule's observed firing behaviour, its claimed probabilities in
/// ten-thousandths.
#[derive(Debug, Clone, Copy, PartialEq, Eq, Structural)]
pub struct RuleFiring {
    pub firings: u64,
    /// Probability that the rule fires on a compromised host, as it claims.
    pub hit: u32,
    /// Probability that the rule fires on a clean host, as it claims.
    pub miss: u32,
}

/// Running counters for one pipeline instance.
#[derive(Debug)]
pub struct Metrics {
    pub events: u64,
    pub process_starts: u64,
    pub findings: u64,
    pub alerts: u64,
    pub abstained: u64,
    /// Repeat firings folded into an earlier alert instead of emitted again.
    pub suppressed: u64,
    /// Firings that never cleared the severity floor: counted, not published.
    pub below_floor: u64,
    /// Findings withheld by governance before they could become alerts.
    pub withheld_by_policy: u64,
    /// Sensitive fields replaced by minimisation before leaving the host.
    pub redacted_fields: u64,
    /// What each rule that fired claims and how often it did, in ascending order
    /// of the rules.
    pub by_rule: TextMap<RuleFiring>,
}

impl Metrics {
    /// How often a rule fired, and what it claims.
    pub open spec fn firing(&self, rule: Seq<char>) -> Option<RuleFiring> {
        if self.by_rule@.contains_key(rule) {
            Some(self.by_rule@[rule])
        } else {
            None
        }
    }

    /// How often a rule fired.
    pub open spec fn fired(&self, rule: Seq<char>) -> u64 {
        match self.firing(rule) {
            Some(f) => f.firings,
            None => 0,
        }
    }

    /// The rules that fired at all.
    pub open spec fn fired_rules(&self) -> Set<Seq<char>> {
        Set::new(|rule: Seq<char>| self.fired(rule) > 0)
    }

    /// No rule fired more often than there were findings.
    pub open spec fn wf(&self) -> bool {
        forall|rule: Seq<char>| #[trigger]
            self.by_rule@.contains_key(rule) ==> self.by_rule@[rule].firings <= self.findings
    }

    pub fn new() -> (metrics: Metrics)
        ensures
            metrics.wf(),
            metrics.events == 0,
            metrics.process_starts == 0,
            metrics.findings == 0,
            metrics.alerts == 0,
            metrics.abstained == 0,
            metrics.suppressed == 0,
            metrics.below_floor == 0,
            metrics.withheld_by_policy == 0,
            metrics.redacted_fields == 0,
            metrics.by_rule@ == Map::<Seq<char>, RuleFiring>::empty(),
    {
        Metrics {
            events: 0,
            process_starts: 0,
            findings: 0,
            alerts: 0,
            abstained: 0,
            suppressed: 0,
            below_floor: 0,
            withheld_by_policy: 0,
            redacted_fields: 0,
            by_rule: TextMap::new(),
        }
    }

    /// How often a rule fired, and what it claims.
    pub fn rule(&self, rule: &str) -> (firing: Option<RuleFiring>)
        ensures
            firing == self.firing(rule@),
    {
        match self.by_rule.get(rule) {
            Some(firing) => Some(*firing),
            None => None,
        }
    }

    /// Records one firing of a rule. A rule keeps the probabilities it claimed
    /// when it first fired.
    pub fn record_finding(&mut self, rule: &str, hit: u32, miss: u32)
        requires
            old(self).wf(),
            old(self).findings < u64::MAX,
        ensures
            final(self).wf(),
            *final(self) == (Metrics {
                findings: (old(self).findings + 1) as u64,
                by_rule: final(self).by_rule,
                ..*old(self)
            }),
            final(self).by_rule@ == old(self).by_rule@.insert(
                rule@,
                match old(self).firing(rule@) {
                    Some(f) => RuleFiring { firings: (f.firings + 1) as u64, ..f },
                    None => RuleFiring { firings: 1, hit, miss },
                },
            ),
            final(self).fired(rule@) == old(self).fired(rule@) + 1,
            final(self).fired_rules() == old(self).fired_rules().insert(rule@),
    {
        self.findings = self.findings + 1;
        let firing = match self.rule(rule) {
            Some(held) => RuleFiring { firings: held.firings + 1, ..held },
            None => RuleFiring { firings: 1, hit, miss },
        };
        let _earlier = self.by_rule.insert(rule, firing);
        assert(self.fired_rules() =~= old(self).fired_rules().insert(rule@));
    }

    /// How many rules fired at all.
    pub fn rules_fired(&self) -> (n: usize)
        ensures
            n == self.fired_rules().len(),
            self.fired_rules().finite(),
    {
        let all = self.by_rule.entries();
        let ghost mut counted: Set<Seq<char>> = Set::empty();
        let mut n: usize = 0;
        let mut i: usize = 0;
        while i < all.len()
            invariant
                i <= all@.len(),
                n <= i,
                keys_rise(all@),
                counted.finite(),
                counted.len() == n,
                forall|rule: Seq<char>| #[trigger]
                    counted.contains(rule) ==> exists|k: int|
                        0 <= k < i && (#[trigger] all@[k]).0@ == rule && all@[k].1.firings > 0,
                forall|k: int|
                    0 <= k < i && (#[trigger] all@[k]).1.firings > 0 ==> counted.contains(
                        all@[k].0@,
                    ),
            decreases all@.len() - i,
        {
            if all[i].1.firings > 0 {
                proof {
                    let rule = all@[i as int].0@;
                    if counted.contains(rule) {
                        let k = choose|k: int|
                            0 <= k < i && (#[trigger] all@[k]).0@ == rule && all@[k].1.firings > 0;
                        texts_are_ordered(all@[k].0@, rule);
                    }
                    counted = counted.insert(rule);
                }
                n += 1;
            }
            i += 1;
        }
        proof {
            lemma_by_key(all@);
            assert forall|rule: Seq<char>| #[trigger]
                counted.contains(rule) == self.fired_rules().contains(rule) by {
                if counted.contains(rule) {
                    let k = choose|k: int|
                        0 <= k < i && (#[trigger] all@[k]).0@ == rule && all@[k].1.firings > 0;
                    assert(by_key(all@).contains_key(all@[k].0@));
                }
                if self.fired(rule) > 0 {
                    assert(by_key(all@).contains_key(rule));
                    let k = choose|k: int| 0 <= k < all@.len() && (#[trigger] all@[k]).0@ == rule;
                    assert(by_key(all@).contains_key(all@[k].0@));
                }
            }
            assert(counted =~= self.fired_rules());
        }
        n
    }
}

impl Clone for Metrics {
    fn clone(&self) -> (copy: Metrics)
        ensures
            copy == (Metrics { by_rule: copy.by_rule, ..*self }),
            copy.by_rule@ == self.by_rule@,
    {
        let by_rule = self.by_rule.clone();
        assert(by_rule@ =~= self.by_rule@);
        Metrics {
            events: self.events,
            process_starts: self.process_starts,
            findings: self.findings,
            alerts: self.alerts,
            abstained: self.abstained,
            suppressed: self.suppressed,
            below_floor: self.below_floor,
            withheld_by_policy: self.withheld_by_policy,
            redacted_fields: self.redacted_fields,
            by_rule,
        }
    }
}

impl Default for Metrics {
    fn default() -> (metrics: Metrics)
        ensures
            metrics.wf(),
            metrics.events == 0,
            metrics.process_starts == 0,
            metrics.findings == 0,
            metrics.alerts == 0,
            metrics.abstained == 0,
            metrics.suppressed == 0,
            metrics.below_floor == 0,
            metrics.withheld_by_policy == 0,
            metrics.redacted_fields == 0,
            metrics.by_rule@ == Map::<Seq<char>, RuleFiring>::empty(),
    {
        Metrics::new()
    }
}

/// What the run is worth, apart from what is measured in bits.
#[derive(Debug, Clone)]
pub struct Observation {
    pub metrics: Metrics,
    /// Entities projected into the state space.
    pub entities: usize,
    /// Distinct executables seen.
    pub distinct_images: usize,
    /// Distinct structural edges seen.
    pub known_edges: usize,
    /// Fraction of the entity universe never observed.
    pub blind_spot: Ratio,
}

impl Observation {
    /// Fraction of the entity universe that was observed.
    pub fn coverage(&self) -> (ratio: Ratio)
        requires
            self.blind_spot.wf(),
        ensures
            ratio == self.blind_spot.complement(),
            ratio.wf(),
    {
        Ratio { num: self.blind_spot.den - self.blind_spot.num, den: self.blind_spot.den }
    }
}

/// Assembles a report from the engine's live pieces. A universe nothing was
/// projected into is fully covered, not fully blind.
pub fn build(
    metrics: &Metrics,
    observe: &ObservationMap,
    entities: usize,
    distinct_images: usize,
    known_edges: usize,
) -> (report: Observation)
    ensures
        report.metrics == (Metrics { by_rule: report.metrics.by_rule, ..*metrics }),
        report.metrics.by_rule@ == metrics.by_rule@,
        report.entities == entities,
        report.distinct_images == distinct_images,
        report.known_edges == known_edges,
        report.blind_spot == observe.coverage(entities).complement(),
        report.blind_spot.wf(),
{
    Observation {
        metrics: metrics.clone(),
        entities,
        distinct_images,
        known_edges,
        blind_spot: observe.blind_spot(entities),
    }
}

} // verus!
