//! The way back: which steps of a recovery cost time, and where it is weakest.
//!
//! Durations and scores are given as the bit patterns of numbers that are not
//! negative, which order as the numbers do. Adding them up is the caller's.
use crate::model::value::INFINITY_BITS;
use vstd::prelude::*;

verus! {

/// One step of a recovery procedure.
#[derive(Debug, Clone, PartialEq)]
pub struct RecoveryStep {
    pub name: String,
    /// The bit pattern of the estimated seconds.
    pub seconds: u64,
    pub parallel: bool,
}

/// A bit pattern kept to numbers that are not negative: what is negative, or not
/// a number, is zero.
pub open spec fn not_negative(bits: u64) -> u64 {
    if bits <= INFINITY_BITS {
        bits
    } else {
        0
    }
}

impl RecoveryStep {
    pub fn new(name: &str, seconds: u64, parallel: bool) -> (step: RecoveryStep)
        ensures
            step.name@ == name@,
            step.seconds == not_negative(seconds),
            step.parallel == parallel,
    {
        RecoveryStep {
            name: name.to_string(),
            seconds: if seconds <= INFINITY_BITS {
                seconds
            } else {
                0
            },
            parallel,
        }
    }
}

/// An ordered recovery procedure.
#[derive(Debug, Clone)]
pub struct RecoveryPlan {
    steps: Vec<RecoveryStep>,
}

/// Whether every step from `from` up to `to` is parallel.
pub open spec fn all_parallel(steps: Seq<RecoveryStep>, from: int, to: int) -> bool {
    forall|i: int| from <= i < to ==> (#[trigger] steps[i]).parallel
}

/// Whether two steps belong to one run of parallel steps.
pub open spec fn same_run(steps: Seq<RecoveryStep>, a: int, b: int) -> bool {
    if a <= b {
        all_parallel(steps, a, b + 1)
    } else {
        all_parallel(steps, b, a + 1)
    }
}

/// Whether a step costs time: a serial step does, and of a run of parallel steps
/// only the longest, the first of them where several are.
pub open spec fn costs(steps: Seq<RecoveryStep>, at: int) -> bool {
    !steps[at].parallel || forall|other: int|
        0 <= other < steps.len() && other != at && same_run(steps, at, other) ==> if other < at {
            (#[trigger] steps[other]).seconds < steps[at].seconds
        } else {
            steps[other].seconds <= steps[at].seconds
        }
}

impl RecoveryPlan {
    pub closed spec fn all(&self) -> Seq<RecoveryStep> {
        self.steps@
    }

    pub fn new() -> (plan: RecoveryPlan)
        ensures
            plan.all() == Seq::<RecoveryStep>::empty(),
    {
        RecoveryPlan { steps: Vec::new() }
    }

    pub fn add(&mut self, s: RecoveryStep)
        ensures
            final(self).all() == old(self).all().push(s),
    {
        self.steps.push(s);
    }

    pub fn len(&self) -> (n: usize)
        ensures
            n == self.all().len(),
    {
        self.steps.len()
    }

    pub fn is_empty(&self) -> (empty: bool)
        ensures
            empty == (self.all().len() == 0),
    {
        self.steps.len() == 0
    }

    /// The steps, in order.
    pub fn steps(&self) -> (steps: &[RecoveryStep])
        ensures
            steps@ == self.all(),
    {
        self.steps.as_slice()
    }

    /// The positions of the steps that the mean time to recover is the sum of,
    /// in order. A run of parallel steps, rather than each step, is the unit:
    /// two parallel steps with a serial one between them cannot overlap.
    #[verifier::loop_isolation(false)]
    pub fn costly_steps(&self) -> (at: Vec<usize>)
        ensures
            forall|i: int, j: int| 0 <= i < j < at@.len() ==> at@[i] < at@[j],
            forall|i: int| 0 <= i < at@.len() ==> (#[trigger] at@[i]) < self.all().len(),
            forall|k: int|
                0 <= k < self.all().len() ==> #[trigger] costs(self.all(), k) == at@.contains(
                    k as usize,
                ),
    {
        let ghost steps = self.all();
        let mut out: Vec<usize> = Vec::new();
        let mut i: usize = 0;
        while i < self.steps.len()
            invariant
                i <= steps.len(),
                steps == self.steps@,
                0 < i < steps.len() ==> !(steps[i - 1].parallel && steps[i as int].parallel),
                forall|a: int, b: int| 0 <= a < b < out@.len() ==> out@[a] < out@[b],
                forall|a: int| 0 <= a < out@.len() ==> (#[trigger] out@[a]) < i,
                forall|k: int|
                    0 <= k < i ==> #[trigger] costs(steps, k) == out@.contains(k as usize),
            decreases steps.len() - i,
        {
            let ghost before = out@;
            if !self.steps[i].parallel {
                out.push(i);
                proof {
                    assert(out@[before.len() as int] == i);
                    lemma_kept(steps, before, out@, i as int);
                    assert forall|k: int| 0 <= k < i + 1 implies #[trigger] costs(steps, k)
                        == out@.contains(k as usize) by {
                        if k < i {
                            assert(costs(steps, k) == before.contains(k as usize));
                        }
                    }
                }
                i += 1;
            } else {
                let start: usize = i;
                let mut best: usize = i;
                let mut end: usize = i + 1;
                while end < self.steps.len() && self.steps[end].parallel
                    invariant
                        start <= best < end <= steps.len(),
                        all_parallel(steps, start as int, end as int),
                        forall|k: int|
                            start <= k < best ==> (#[trigger] steps[k]).seconds
                                < steps[best as int].seconds,
                        forall|k: int|
                            best <= k < end ==> (#[trigger] steps[k]).seconds
                                <= steps[best as int].seconds,
                    decreases steps.len() - end,
                {
                    if self.steps[end].seconds > self.steps[best].seconds {
                        best = end;
                    }
                    end += 1;
                }
                out.push(best);
                proof {
                    assert(out@[before.len() as int] == best);
                    lemma_kept(steps, before, out@, best as int);
                    assert forall|k: int| start <= k < end implies #[trigger] costs(steps, k) == (k
                        == best) by {
                        lemma_run_costs(steps, start as int, end as int, best as int, k);
                    }
                    assert forall|k: int| 0 <= k < end implies #[trigger] costs(steps, k)
                        == out@.contains(k as usize) by {
                        if k < start {
                            assert(costs(steps, k) == before.contains(k as usize));
                        } else if before.contains(k as usize) {
                            let a = choose|a: int| 0 <= a < before.len() && before[a] == k as usize;
                            assert(before[a] < start);
                        }
                    }
                }
                i = end;
            }
        }
        out
    }
}

proof fn lemma_kept(steps: Seq<RecoveryStep>, before: Seq<usize>, after: Seq<usize>, added: int)
    requires
        0 <= added <= usize::MAX,
        after == before.push(added as usize),
    ensures
        forall|k: usize| #[trigger] after.contains(k) == (k == added || before.contains(k)),
{
    assert forall|k: usize| #[trigger] after.contains(k) == (k == added || before.contains(k)) by {
        if before.contains(k) {
            let a = choose|a: int| 0 <= a < before.len() && before[a] == k;
            assert(after[a] == k);
        }
        if k == added {
            assert(after[before.len() as int] == k);
        }
        if after.contains(k) && k != added {
            let a = choose|a: int| 0 <= a < after.len() && after[a] == k;
            assert(before[a] == k);
        }
    }
}

/// In a maximal run, only the first longest step costs time.
proof fn lemma_run_costs(steps: Seq<RecoveryStep>, start: int, end: int, best: int, k: int)
    requires
        0 <= start <= best < end <= steps.len(),
        start <= k < end,
        all_parallel(steps, start, end),
        start > 0 ==> !steps[start - 1].parallel,
        end < steps.len() ==> !steps[end].parallel,
        forall|i: int| start <= i < best ==> (#[trigger] steps[i]).seconds < steps[best].seconds,
        forall|i: int| best <= i < end ==> (#[trigger] steps[i]).seconds <= steps[best].seconds,
    ensures
        costs(steps, k) == (k == best),
{
    assert(steps[k].parallel);
    if k == best {
        assert forall|other: int|
            0 <= other < steps.len() && other != best && same_run(steps, best, other) implies if other
            < best {
            (#[trigger] steps[other]).seconds < steps[best].seconds
        } else {
            steps[other].seconds <= steps[best].seconds
        } by {
            if other < start {
                assert(steps[start - 1].parallel);
            }
            if other >= end {
                assert(steps[end].parallel);
            }
        }
    } else {
        assert(same_run(steps, k, best));
        assert(steps[best].seconds >= steps[k].seconds);
    }
}

impl Default for RecoveryPlan {
    fn default() -> (plan: RecoveryPlan)
        ensures
            plan.all() == Seq::<RecoveryStep>::empty(),
    {
        RecoveryPlan::new()
    }
}

/// The weakest of the three stages, as the bit patterns of their scores; of
/// equally weak ones the one an incident comes to first.
pub fn weakest_link(detection: u64, containment: u64, recovery: u64) -> (stage: &'static str)
    ensures
        stage@ == if detection <= containment && detection <= recovery {
            "detection"@
        } else if containment <= recovery {
            "containment"@
        } else {
            "recovery"@
        },
{
    if detection <= containment && detection <= recovery {
        "detection"
    } else if containment <= recovery {
        "containment"
    } else {
        "recovery"
    }
}

/// Every step that waits for nothing else costs its time; of steps that run side
/// by side two never both do, and one of them does that takes at least as long as
/// any.
pub proof fn the_longest_of_a_run_is_what_it_costs(steps: Seq<RecoveryStep>, at: int)
    requires
        0 <= at < steps.len(),
    ensures
        !steps[at].parallel ==> costs(steps, at),
        steps[at].parallel ==> exists|k: int| #[trigger]
            costs(steps, k) && 0 <= k < steps.len() && same_run(steps, at, k)
                && steps[k].seconds >= steps[at].seconds,
        forall|k: int|
            0 <= k < steps.len() && k != at && same_run(steps, at, k) && costs(steps, at)
                ==> !#[trigger] costs(steps, k),
{
    if steps[at].parallel {
        let start = lemma_run_start(steps, at);
        let end = lemma_run_end(steps, at);
        assert(all_parallel(steps, start, end)) by {
            assert forall|i: int| start <= i < end implies (#[trigger] steps[i]).parallel by {}
        }
        let best = lemma_longest(steps, start, end);
        lemma_run_costs(steps, start, end, best, best);
        assert(same_run(steps, at, best));
        assert(steps[best].seconds >= steps[at].seconds);
    }
    assert forall|k: int|
        0 <= k < steps.len() && k != at && same_run(steps, at, k) && costs(
            steps,
            at,
        ) implies !#[trigger] costs(steps, k) by {
        assert(steps[at].parallel && steps[k].parallel);
        assert(same_run(steps, k, at));
    }
}

/// Where the run of a parallel step starts.
proof fn lemma_run_start(steps: Seq<RecoveryStep>, at: int) -> (start: int)
    requires
        0 <= at < steps.len(),
        steps[at].parallel,
    ensures
        0 <= start <= at,
        all_parallel(steps, start, at + 1),
        start > 0 ==> !steps[start - 1].parallel,
    decreases at,
{
    if at > 0 && steps[at - 1].parallel {
        lemma_run_start(steps, at - 1)
    } else {
        at
    }
}

/// Where the run of a parallel step ends.
proof fn lemma_run_end(steps: Seq<RecoveryStep>, at: int) -> (end: int)
    requires
        0 <= at < steps.len(),
        steps[at].parallel,
    ensures
        at < end <= steps.len(),
        all_parallel(steps, at, end),
        end < steps.len() ==> !steps[end].parallel,
    decreases steps.len() - at,
{
    if at + 1 < steps.len() && steps[at + 1].parallel {
        lemma_run_end(steps, at + 1)
    } else {
        at + 1
    }
}

/// The first of the longest steps of a run.
proof fn lemma_longest(steps: Seq<RecoveryStep>, start: int, end: int) -> (best: int)
    requires
        0 <= start < end <= steps.len(),
    ensures
        start <= best < end,
        forall|i: int| start <= i < best ==> (#[trigger] steps[i]).seconds < steps[best].seconds,
        forall|i: int| best <= i < end ==> (#[trigger] steps[i]).seconds <= steps[best].seconds,
    decreases end - start,
{
    if start + 1 == end {
        start
    } else {
        let best = lemma_longest(steps, start, end - 1);
        if steps[end - 1].seconds > steps[best].seconds {
            end - 1
        } else {
            best
        }
    }
}

} // verus!
