//! How surprising an item is, given everything seen so far.
use crate::numbers::one_more;
use crate::ratio::{Fraction, Ratio};
use crate::textmap::TextMap;
use vstd::prelude::*;

verus! {

/// Counts of everything seen so far.
#[derive(Debug, Clone)]
pub struct NoveltyModel {
    counts: TextMap<u32>,
    total: u64,
}

impl NoveltyModel {
    /// How often an item was seen.
    pub closed spec fn seen(&self, item: Seq<char>) -> u32 {
        if self.counts@.contains_key(item) {
            self.counts@[item]
        } else {
            0
        }
    }

    /// How many different items were seen.
    pub closed spec fn variety(&self) -> nat {
        self.counts@.len()
    }

    /// How many sightings there were.
    pub closed spec fn sightings(&self) -> u64 {
        self.total
    }

    /// Every item that is counted was seen at least once.
    pub closed spec fn wf(&self) -> bool {
        forall|item: Seq<char>| #[trigger]
            self.counts@.contains_key(item) ==> self.counts@[item] > 0
    }

    pub fn new() -> (model: NoveltyModel)
        ensures
            model.wf(),
            model.variety() == 0,
            model.sightings() == 0,
            forall|item: Seq<char>| #[trigger] model.seen(item) == 0,
    {
        NoveltyModel { counts: TextMap::new(), total: 0 }
    }

    /// Records a sighting and returns the item's new count.
    pub fn observe(&mut self, item: &str) -> (count: u32)
        requires
            old(self).wf(),
            old(self).sightings() < u64::MAX,
        ensures
            final(self).wf(),
            count == one_more(old(self).seen(item@)),
            final(self).sightings() == old(self).sightings() + 1,
            final(self).variety() == old(self).variety() + (if old(self).seen(item@) == 0 {
                1int
            } else {
                0int
            }),
            forall|other: Seq<char>| #[trigger]
                final(self).seen(other) == if other == item@ {
                    count
                } else {
                    old(self).seen(other)
                },
    {
        self.total = self.total + 1;
        let count: u32 = self.count(item).saturating_add(1);
        let _earlier = self.counts.insert(item, count);
        count
    }

    pub fn count(&self, item: &str) -> (n: u32)
        ensures
            n == self.seen(item@),
    {
        match self.counts.get(item) {
            Some(n) => *n,
            None => 0,
        }
    }

    pub fn distinct(&self) -> (n: usize)
        ensures
            n == self.variety(),
    {
        self.counts.len()
    }

    pub fn total(&self) -> (n: u64)
        ensures
            n == self.sightings(),
    {
        self.total
    }

    pub fn is_novel(&self, item: &str) -> (novel: bool)
        ensures
            novel == (self.seen(item@) == 0),
    {
        self.count(item) == 0
    }

    /// One for an item never seen, then one over one more than its count: the
    /// drop from the first to the second sighting is the informative one.
    pub fn score(&self, item: &str) -> (ratio: Ratio)
        ensures
            ratio == (Ratio { num: 1, den: (1 + self.seen(item@)) as u64 }),
            ratio.wf(),
    {
        Ratio { num: 1, den: 1 + self.count(item) as u64 }
    }
}

impl Default for NoveltyModel {
    fn default() -> (model: NoveltyModel)
        ensures
            model.wf(),
            model.variety() == 0,
            model.sightings() == 0,
            forall|item: Seq<char>| #[trigger] model.seen(item) == 0,
    {
        NoveltyModel::new()
    }
}

/// Share of sightings that were first sightings: zero where there were none,
/// and never above one.
pub fn novelty_rate(novel: u64, total: u64) -> (ratio: Ratio)
    ensures
        ratio.wf(),
        ratio == if total == 0 {
            Ratio { num: 0, den: 1 }
        } else if novel > total {
            Ratio { num: total, den: total }
        } else {
            Ratio { num: novel, den: total }
        },
{
    if total == 0 {
        Ratio { num: 0, den: 1 }
    } else if novel > total {
        Ratio { num: total, den: total }
    } else {
        Ratio { num: novel, den: total }
    }
}

/// Of the distinct items seen plus the novel sightings that kept arriving, the
/// fraction that is the seen part; one where there is neither.
pub fn coverage_estimate(distinct: usize, novel_sightings: u64) -> (fraction: Fraction)
    ensures
        0 < fraction.den,
        fraction.num <= fraction.den,
        fraction == if distinct + novel_sightings == 0 {
            Fraction { num: 1, den: 1 }
        } else {
            Fraction { num: distinct as u128, den: (distinct + novel_sightings) as u128 }
        },
{
    let den: u128 = distinct as u128 + novel_sightings as u128;
    if den == 0 {
        Fraction { num: 1, den: 1 }
    } else {
        Fraction { num: distinct as u128, den }
    }
}

} // verus!
