//! Looking at one quantity at several scales.
use vstd::prelude::*;

verus! {

/// A scale index. Level 0 is the raw stream; each increment doubles the bucket
/// width.
#[derive(Debug, Clone, Copy, PartialEq, Eq, Structural)]
pub struct Level(pub u8);

impl Level {
    pub fn rank(&self) -> (rank: u8)
        ensures
            rank == self.0,
    {
        self.0
    }
}

/// The width of a bucket at a level: two to the level.
pub open spec fn bucket_width(level: nat) -> nat
    decreases level,
{
    if level == 0 {
        1
    } else {
        2 * bucket_width((level - 1) as nat)
    }
}

/// The bucket that starts at `from`: as wide as the level says, but for a last
/// one that holds only what is left.
pub open spec fn bucket_end(from: nat, len: nat, width: nat) -> nat {
    if from + width <= len {
        from + width
    } else {
        len
    }
}

/// Whether buckets cut `len` values, in order, into runs of a width, each value
/// in exactly one bucket and only the last bucket short.
pub open spec fn cuts(buckets: Seq<(usize, usize)>, len: nat, width: nat) -> bool {
    &&& forall|i: int|
        0 <= i < buckets.len() ==> {
            let bucket = #[trigger] buckets[i];
            &&& bucket.0 == i * width
            &&& bucket.1 == bucket_end(bucket.0 as nat, len, width)
            &&& bucket.0 < bucket.1
        }
    &&& len <= buckets.len() * width
    &&& buckets.len() > 0 ==> (buckets.len() - 1) * width < len
}

proof fn lemma_width_grows(a: nat, b: nat)
    requires
        a <= b,
    ensures
        1 <= bucket_width(a) <= bucket_width(b),
    decreases b,
{
    if b > 0 {
        if a < b {
            lemma_width_grows(a, (b - 1) as nat);
        } else {
            lemma_width_grows((b - 1) as nat, (b - 1) as nat);
        }
    }
}

/// The width of a level, or some width that no run of `len` values exceeds where
/// the level's own is no smaller than that run.
fn width_of(level: Level, len: usize) -> (width: usize)
    ensures
        width >= 1,
        width == bucket_width(level.0 as nat) || (width >= len && bucket_width(level.0 as nat)
            >= len),
{
    let mut width: usize = 1;
    let mut i: u8 = 0;
    while i < level.0
        invariant
            i <= level.0,
            width >= 1,
            width == bucket_width(i as nat),
        decreases level.0 - i,
    {
        if width >= len {
            proof {
                lemma_width_grows(i as nat, level.0 as nat);
            }
            return width;
        }
        if width > usize::MAX / 2 {
            proof {
                lemma_width_grows((i + 1) as nat, level.0 as nat);
            }
            return len;
        }
        width = width * 2;
        i += 1;
    }
    width
}

proof fn lemma_one_bucket(buckets: Seq<(usize, usize)>, len: nat, width: nat, wider: nat)
    requires
        cuts(buckets, len, width),
        len <= width,
        len <= wider,
    ensures
        cuts(buckets, len, wider),
{
    if buckets.len() > 0 {
        assert(buckets.len() == 1) by (nonlinear_arith)
            requires
                (buckets.len() - 1) * width < len,
                len <= width,
                buckets.len() > 0,
        ;
        assert(buckets[0].0 == 0 * width);
    } else {
        assert(buckets.len() * width == 0) by (nonlinear_arith)
            requires
                buckets.len() == 0,
        ;
    }
}

/// The buckets that a level cuts `len` values into, as positions. A short last
/// bucket holds what is left rather than being padded.
pub fn buckets(len: usize, level: Level) -> (cut: Vec<(usize, usize)>)
    ensures
        cuts(cut@, len as nat, bucket_width(level.0 as nat)),
{
    let width: usize = width_of(level, len);
    let mut out: Vec<(usize, usize)> = Vec::new();
    let mut from: usize = 0;
    assert(0 * width == 0) by (nonlinear_arith);
    while from < len
        invariant
            width >= 1,
            from <= len,
            from < len ==> from == out@.len() * width,
            from == len ==> len <= out@.len() * width,
            out@.len() > 0 ==> (out@.len() - 1) * width < len,
            forall|i: int|
                0 <= i < out@.len() ==> {
                    let bucket = #[trigger] out@[i];
                    &&& bucket.0 == i * width
                    &&& bucket.1 == bucket_end(bucket.0 as nat, len as nat, width as nat)
                    &&& bucket.0 < bucket.1
                },
        decreases len - from,
    {
        let to: usize = if len - from >= width {
            from + width
        } else {
            len
        };
        let ghost n = out@.len();
        out.push((from, to));
        proof {
            assert((n + 1) * width == n * width + width) by (nonlinear_arith);
        }
        from = to;
    }
    proof {
        if width != bucket_width(level.0 as nat) {
            lemma_one_bucket(out@, len as nat, width as nat, bucket_width(level.0 as nat));
        }
    }
    out
}

/// No value is lost or counted twice: every position falls in exactly one
/// bucket.
pub proof fn every_position_is_in_one_bucket(
    cut: Seq<(usize, usize)>,
    len: nat,
    width: nat,
    at: nat,
)
    requires
        cuts(cut, len, width),
        width > 0,
        at < len,
    ensures
        ({
            let i = at as int / width as int;
            &&& 0 <= i < cut.len()
            &&& cut[i].0 <= at < cut[i].1
        }),
        forall|j: int|
            0 <= j < cut.len() && (#[trigger] cut[j]).0 <= at < cut[j].1 ==> j == at as int
                / width as int,
{
    let w = width as int;
    let i = at as int / w;
    assert(i * w <= at < i * w + w && 0 <= i) by (nonlinear_arith)
        requires
            w > 0,
            i == at as int / w,
            0 <= at,
    ;
    assert(i < cut.len()) by (nonlinear_arith)
        requires
            w > 0,
            i * w <= at,
            at < cut.len() * w,
    ;
    assert(cut[i].0 == i * width);
    assert forall|j: int|
        0 <= j < cut.len() && (#[trigger] cut[j]).0 <= at < cut[j].1 implies j == i by {
        assert(j * w <= at < j * w + w);
        assert(j == i) by (nonlinear_arith)
            requires
                w > 0,
                j * w <= at < j * w + w,
                i * w <= at < i * w + w,
        ;
    }
}

} // verus!
