//! The supervision policy: whether a sensor is alive and how to bring it back.
//!
//! Everything here takes its inputs by argument; the clock, the process and the
//! waiting are the caller's.
use crate::ratio::Ratio;
use vstd::arithmetic::power::pow;
use vstd::prelude::*;

verus! {

/// A number as `n` bytes, the lowest first.
pub open spec fn le_bytes(x: nat, n: nat) -> Seq<u8>
    decreases n,
{
    if n == 0 {
        seq![]
    } else {
        seq![(x % 256) as u8] + le_bytes(x / 256, (n - 1) as nat)
    }
}

/// The number bytes spell, the lowest first.
pub open spec fn le_value(bytes: Seq<u8>) -> nat
    decreases bytes.len(),
{
    if bytes.len() == 0 {
        0
    } else {
        bytes[0] as nat + 256 * le_value(bytes.drop_first())
    }
}

/// How many numbers `n` bytes can spell.
pub open spec fn byte_range(n: nat) -> nat
    decreases n,
{
    if n == 0 {
        1
    } else {
        256 * byte_range((n - 1) as nat)
    }
}

proof fn lemma_le_round_trip(x: nat, n: nat)
    requires
        x < byte_range(n),
    ensures
        le_bytes(x, n).len() == n,
        le_value(le_bytes(x, n)) == x,
    decreases n,
{
    if n > 0 {
        let rest = le_bytes(x / 256, (n - 1) as nat);
        lemma_le_round_trip(x / 256, (n - 1) as nat);
        assert(le_bytes(x, n).drop_first() == rest);
        assert(le_bytes(x, n)[0] == (x % 256) as u8);
    }
}

proof fn lemma_le_value_bound(bytes: Seq<u8>)
    ensures
        le_value(bytes) < byte_range(bytes.len()),
    decreases bytes.len(),
{
    if bytes.len() > 0 {
        lemma_le_value_bound(bytes.drop_first());
    }
}

proof fn lemma_eight_bytes()
    ensures
        byte_range(8) == 0x1_0000_0000_0000_0000,
{
    reveal_with_fuel(byte_range, 9);
}

/// A signed number as the unsigned number with the same bytes.
pub open spec fn unsigned(x: int) -> nat {
    if x < 0 {
        (x + 0x1_0000_0000_0000_0000) as nat
    } else {
        x as nat
    }
}

/// The signed number with the same bytes as an unsigned one.
pub open spec fn signed(x: nat) -> int {
    if x >= 0x8000_0000_0000_0000 {
        x - 0x1_0000_0000_0000_0000
    } else {
        x as int
    }
}

fn push_le(out: &mut Vec<u8>, x: u64)
    ensures
        final(out)@ == old(out)@ + le_bytes(x as nat, 8),
{
    let ghost start = out@;
    let ghost whole = le_bytes(x as nat, 8);
    let mut rest: u64 = x;
    let mut i: usize = 0;
    while i < 8
        invariant
            i <= 8,
            whole == le_bytes(x as nat, 8),
            out@ + le_bytes(rest as nat, (8 - i) as nat) == start + whole,
        decreases 8 - i,
    {
        let ghost before = out@;
        let ghost tail = le_bytes((rest / 256) as nat, (7 - i) as nat);
        assert(le_bytes(rest as nat, (8 - i) as nat) == seq![(rest % 256) as u8] + tail);
        out.push((rest % 256) as u8);
        assert(out@ + tail == before + (seq![(rest % 256) as u8] + tail));
        rest = rest / 256;
        i += 1;
    }
    assert(out@ + le_bytes(rest as nat, 0) == out@);
}

fn read_le(bytes: &[u8], from: usize) -> (x: u64)
    requires
        from + 8 <= bytes@.len(),
    ensures
        x == le_value(bytes@.subrange(from as int, from + 8)),
{
    let held: usize = bytes.len();
    let mut x: u64 = 0;
    let mut i: usize = 8;
    assert(bytes@.subrange(from + 8, from + 8).len() == 0);
    while i > 0
        invariant
            i <= 8,
            held == bytes@.len(),
            from + 8 <= held,
            x == le_value(bytes@.subrange(from + i, from + 8)),
        decreases i,
    {
        i -= 1;
        let ghost part = bytes@.subrange(from + i, from + 8);
        proof {
            assert(part.drop_first() == bytes@.subrange(from + i + 1, from + 8));
            assert(part[0] == bytes@[from + i]);
            lemma_le_value_bound(part);
            lemma_range_grows(part.len(), 8);
            lemma_eight_bytes();
        }
        x = bytes[from + i] as u64 + 256 * x;
    }
    x
}

proof fn lemma_range_grows(a: nat, b: nat)
    requires
        a <= b,
    ensures
        byte_range(a) <= byte_range(b),
    decreases b - a,
{
    if a < b {
        lemma_range_grows(a, (b - 1) as nat);
    }
}

/// A sensor's liveness record: how far it has got, and when.
#[derive(Debug, Clone, Copy, PartialEq, Eq, Structural)]
pub struct Heartbeat {
    /// Increasing within one sensor process. A smaller value than the last one
    /// seen means the process was replaced.
    pub seq: u64,
    /// Wall-clock milliseconds, written by the sensor.
    pub at_millis: i64,
}

impl Heartbeat {
    /// The sixteen bytes of a record: the sequence number, then the time, each
    /// with the lowest byte first.
    pub open spec fn layout(&self) -> Seq<u8> {
        le_bytes(self.seq as nat, 8) + le_bytes(unsigned(self.at_millis as int), 8)
    }

    /// Packs the record into its sixteen bytes.
    pub fn encode(&self) -> (bytes: [u8; 16])
        ensures
            bytes@ == self.layout(),
    {
        let stamp: u64 = if self.at_millis < 0 {
            (self.at_millis as i128 + 0x1_0000_0000_0000_0000) as u64
        } else {
            self.at_millis as u64
        };
        let mut out: Vec<u8> = Vec::new();
        push_le(&mut out, self.seq);
        push_le(&mut out, stamp);
        proof {
            lemma_eight_bytes();
            lemma_le_round_trip(self.seq as nat, 8);
            lemma_le_round_trip(stamp as nat, 8);
        }
        assert(out@.len() == 16);
        let bytes: [u8; 16] = [
            out[0],
            out[1],
            out[2],
            out[3],
            out[4],
            out[5],
            out[6],
            out[7],
            out[8],
            out[9],
            out[10],
            out[11],
            out[12],
            out[13],
            out[14],
            out[15],
        ];
        assert(bytes@ == out@);
        assert(out@ == self.layout());
        bytes
    }

    /// Reads a record. `None` for fewer than sixteen bytes: a supervisor must
    /// not act on a torn record. Bytes past the record are ignored.
    pub fn decode(bytes: &[u8]) -> (heartbeat: Option<Heartbeat>)
        ensures
            match heartbeat {
                Some(h) => bytes@.len() >= 16 && h.seq == le_value(bytes@.subrange(0, 8))
                    && h.at_millis == signed(le_value(bytes@.subrange(8, 16))),
                None => bytes@.len() < 16,
            },
    {
        if bytes.len() < 16 {
            return None;
        }
        let seq: u64 = read_le(bytes, 0);
        let stamp: u64 = read_le(bytes, 8);
        let at_millis: i64 = if stamp >= 0x8000_0000_0000_0000 {
            (stamp as i128 - 0x1_0000_0000_0000_0000) as i64
        } else {
            stamp as i64
        };
        Some(Heartbeat { seq, at_millis })
    }
}

/// What is read back from a record's bytes, whatever follows them, is the
/// record.
pub proof fn heartbeats_round_trip(heartbeat: Heartbeat, beyond: Seq<u8>)
    ensures
        ({
            let bytes = heartbeat.layout() + beyond;
            &&& bytes.len() >= 16
            &&& le_value(bytes.subrange(0, 8)) == heartbeat.seq
            &&& signed(le_value(bytes.subrange(8, 16))) == heartbeat.at_millis
        }),
{
    let bytes = heartbeat.layout() + beyond;
    let stamp = unsigned(heartbeat.at_millis as int);
    lemma_eight_bytes();
    lemma_le_round_trip(heartbeat.seq as nat, 8);
    lemma_le_round_trip(stamp, 8);
    assert(bytes.subrange(0, 8) == le_bytes(heartbeat.seq as nat, 8));
    assert(bytes.subrange(8, 16) == le_bytes(stamp, 8));
}

/// A number kept within the signed 64-bit range.
pub open spec fn saturated(x: int) -> int {
    if x > i64::MAX {
        i64::MAX as int
    } else if x < i64::MIN {
        i64::MIN as int
    } else {
        x
    }
}

fn saturating_sum(a: i64, b: i64) -> (sum: i64)
    ensures
        sum == saturated(a + b),
{
    let wide: i128 = a as i128 + b as i128;
    if wide > i64::MAX as i128 {
        i64::MAX
    } else if wide < i64::MIN as i128 {
        i64::MIN
    } else {
        wide as i64
    }
}

/// How often a heartbeat is expected, and how much slack to allow past that
/// before calling it late.
#[derive(Debug, Clone, Copy, PartialEq, Eq, Structural)]
pub struct Cadence {
    /// Expected gap between heartbeats.
    pub interval_millis: i64,
    /// Extra slack past the interval.
    pub grace_millis: i64,
}

impl Cadence {
    /// A cadence. A negative grace becomes zero: grace is slack, and negative
    /// slack would put the deadline before the interval it qualifies.
    pub fn new(interval_millis: i64, grace_millis: i64) -> (cadence: Cadence)
        ensures
            cadence.interval_millis == interval_millis,
            cadence.grace_millis == if grace_millis < 0 {
                0
            } else {
                grace_millis
            },
    {
        Cadence {
            interval_millis,
            grace_millis: if grace_millis < 0 {
                0
            } else {
                grace_millis
            },
        }
    }

    pub open spec fn deadline(&self) -> int {
        saturated(self.interval_millis + self.grace_millis)
    }

    /// The age at which a heartbeat stops being alive. Absurd spans cap rather
    /// than wrap.
    pub fn deadline_millis(&self) -> (millis: i64)
        ensures
            millis == self.deadline(),
    {
        saturating_sum(self.interval_millis, self.grace_millis)
    }
}

/// A judgement about a sensor, taken at a moment.
#[derive(Debug, Clone, Copy, PartialEq, Eq, Structural)]
pub enum Liveness {
    /// A heartbeat arrived within the deadline.
    Alive,
    /// A heartbeat arrived, but too long ago.
    Stale,
    /// No heartbeat has ever arrived.
    NeverSeen,
}

/// The judgement at a moment. The deadline itself still counts as alive.
pub open spec fn judged(now: int, last: Option<Heartbeat>, cadence: Cadence) -> Liveness {
    match last {
        None => Liveness::NeverSeen,
        Some(beat) => if now <= saturated(beat.at_millis + cadence.deadline()) {
            Liveness::Alive
        } else {
            Liveness::Stale
        },
    }
}

impl Liveness {
    /// Judges the sensor at `now_millis`. A sensor that has never beaten has not
    /// died, and a clock that has gone backwards is no evidence of a missed
    /// beat.
    pub fn judge(now_millis: i64, last: Option<Heartbeat>, cadence: Cadence) -> (liveness: Liveness)
        ensures
            liveness == judged(now_millis as int, last, cadence),
    {
        match last {
            None => Liveness::NeverSeen,
            Some(beat) => {
                if now_millis <= saturating_sum(beat.at_millis, cadence.deadline_millis()) {
                    Liveness::Alive
                } else {
                    Liveness::Stale
                }
            },
        }
    }

    /// Whether the sensor was alive.
    pub fn is_alive(&self) -> (yes: bool)
        ensures
            yes == (*self == Liveness::Alive),
    {
        matches!(self, Liveness::Alive)
    }
}

/// A sensor that is alive now was alive at every earlier moment since its last
/// beat: time alone only ever takes liveness away.
pub proof fn liveness_only_lapses(now: int, later: int, last: Option<Heartbeat>, cadence: Cadence)
    requires
        now <= later,
        judged(later, last, cadence) == Liveness::Alive,
    ensures
        judged(now, last, cadence) == Liveness::Alive,
{
}

/// With a cadence that is not negative, a clock that has gone backwards reads as
/// alive.
pub proof fn a_backwards_clock_reads_alive(now: int, beat: Heartbeat, cadence: Cadence)
    requires
        now <= beat.at_millis,
        cadence.interval_millis >= 0,
        cadence.grace_millis >= 0,
    ensures
        judged(now, Some(beat), cadence) == Liveness::Alive,
{
}

/// How to space out restarts.
#[derive(Debug, Clone, Copy, PartialEq, Eq, Structural)]
pub struct RestartPolicy {
    /// Delay before the first restart.
    pub base_millis: i64,
    /// Delay no restart will wait longer than.
    pub ceiling_millis: i64,
    /// Restarts allowed before giving up.
    pub max_attempts: u32,
}

/// A power of two.
pub open spec fn doubled(n: nat) -> nat
    decreases n,
{
    if n == 0 {
        1
    } else {
        2 * doubled((n - 1) as nat)
    }
}

proof fn lemma_doubled_grows(a: nat, b: nat)
    requires
        a <= b,
    ensures
        1 <= doubled(a) <= doubled(b),
    decreases b,
{
    if a < b {
        lemma_doubled_grows(a, (b - 1) as nat);
    } else if b > 0 {
        lemma_doubled_grows((b - 1) as nat, (b - 1) as nat);
    }
}

proof fn lemma_doubled_63()
    ensures
        doubled(63) == 0x8000_0000_0000_0000,
{
    reveal_with_fuel(doubled, 64);
}

fn power_of_two(n: u32) -> (p: i64)
    ensures
        p == saturated(doubled(n as nat) as int),
{
    if n >= 63 {
        proof {
            lemma_doubled_63();
            lemma_doubled_grows(63, n as nat);
        }
        return i64::MAX;
    }
    let mut p: i64 = 1;
    let mut i: u32 = 0;
    while i < n
        invariant
            i <= n < 63,
            p == doubled(i as nat),
        decreases n - i,
    {
        proof {
            lemma_doubled_63();
            lemma_doubled_grows((i + 1) as nat, 62);
            assert(doubled(63) == 2 * doubled(62));
        }
        p = p * 2;
        i += 1;
    }
    proof {
        lemma_doubled_63();
        lemma_doubled_grows(n as nat, 62);
        assert(doubled(63) == 2 * doubled(62));
    }
    p
}

impl RestartPolicy {
    /// The delay before an attempt: the base doubled once per earlier attempt,
    /// capped by what a count of milliseconds can hold and by the ceiling.
    pub open spec fn delay(&self, attempt: nat) -> int {
        let wait = saturated(self.base_millis * saturated(doubled(attempt) as int));
        if wait < self.ceiling_millis {
            wait
        } else {
            self.ceiling_millis as int
        }
    }

    /// The delay before attempt `attempt`, doubling from the base and never past
    /// the ceiling. Attempt 0 is the first restart and takes the base delay.
    pub fn delay_millis(&self, attempt: u32) -> (millis: i64)
        ensures
            millis == self.delay(attempt as nat),
    {
        let factor: i64 = power_of_two(attempt);
        let base: i128 = self.base_millis as i128;
        let times: i128 = factor as i128;
        assert(-0x8000_0000_0000_0000 * 0x8000_0000_0000_0000 <= base * times <= 0x8000_0000_0000_0000
            * 0x8000_0000_0000_0000) by (nonlinear_arith)
            requires
                -0x8000_0000_0000_0000 <= base <= 0x7fff_ffff_ffff_ffff,
                -0x8000_0000_0000_0000 <= times <= 0x7fff_ffff_ffff_ffff,
        ;
        let wide: i128 = base * times;
        let wait: i64 = if wide > i64::MAX as i128 {
            i64::MAX
        } else if wide < i64::MIN as i128 {
            i64::MIN
        } else {
            wide as i64
        };
        if wait < self.ceiling_millis {
            wait
        } else {
            self.ceiling_millis
        }
    }

    /// Whether attempt `attempt` is within budget. The attempt that reaches the
    /// budget is refused.
    pub fn should_restart(&self, attempt: u32) -> (yes: bool)
        ensures
            yes == (attempt < self.max_attempts),
    {
        attempt < self.max_attempts
    }
}

/// No restart waits longer than the ceiling, and with a base that is not
/// negative a later attempt never waits less than an earlier one.
pub proof fn delays_are_capped_and_grow(policy: RestartPolicy, a: nat, b: nat)
    requires
        a <= b,
    ensures
        policy.delay(b) <= policy.ceiling_millis,
        policy.base_millis >= 0 ==> policy.delay(a) <= policy.delay(b),
{
    lemma_doubled_grows(a, b);
    let x = saturated(doubled(a) as int);
    let y = saturated(doubled(b) as int);
    if policy.base_millis >= 0 {
        assert(policy.base_millis * x <= policy.base_millis * y) by (nonlinear_arith)
            requires
                policy.base_millis >= 0,
                x <= y,
        ;
    }
}

/// What a supervision window saw: beats observed, beats missed, restarts.
#[derive(Debug, Clone, Copy, PartialEq, Eq, Structural)]
pub struct Duty {
    /// Heartbeats that arrived within the deadline.
    pub observed: u64,
    /// Deadlines that passed with no heartbeat.
    pub missed: u64,
    /// Restarts triggered during the window.
    pub restarts: u64,
}

impl Default for Duty {
    fn default() -> (duty: Duty)
        ensures
            duty == (Duty { observed: 0, missed: 0, restarts: 0 }),
    {
        Duty { observed: 0, missed: 0, restarts: 0 }
    }
}

impl Duty {
    /// Counts a heartbeat that arrived on time.
    pub fn record_beat(&mut self)
        requires
            old(self).observed < u64::MAX,
        ensures
            *final(self) == (Duty { observed: (old(self).observed + 1) as u64, ..*old(self) }),
    {
        self.observed = self.observed + 1;
    }

    /// Counts a deadline that passed with no heartbeat.
    pub fn record_miss(&mut self)
        requires
            old(self).missed < u64::MAX,
        ensures
            *final(self) == (Duty { missed: (old(self).missed + 1) as u64, ..*old(self) }),
    {
        self.missed = self.missed + 1;
    }

    /// Counts a restart triggered during the window.
    pub fn record_restart(&mut self)
        requires
            old(self).restarts < u64::MAX,
        ensures
            *final(self) == (Duty { restarts: (old(self).restarts + 1) as u64, ..*old(self) }),
    {
        self.restarts = self.restarts + 1;
    }

    /// Fraction of expected beats that arrived. A window that expected none is
    /// fully available: no data is not no availability.
    pub fn availability(&self) -> (ratio: Ratio)
        requires
            self.observed + self.missed <= u64::MAX,
        ensures
            ratio.wf(),
            ratio == if self.observed + self.missed == 0 {
                Ratio { num: 1, den: 1 }
            } else {
                Ratio { num: self.observed, den: (self.observed + self.missed) as u64 }
            },
    {
        let expected: u64 = self.observed + self.missed;
        if expected == 0 {
            Ratio { num: 1, den: 1 }
        } else {
            Ratio { num: self.observed, den: expected }
        }
    }
}

/// A record holds its sequence number first and its time behind it, each with the
/// lowest byte first and a negative time as what it leaves of the whole range.
pub proof fn records_put_the_lowest_byte_first(heartbeat: Heartbeat, i: nat)
    requires
        i < 8,
    ensures
        heartbeat.layout().len() == 16,
        heartbeat.layout()[i as int] == (heartbeat.seq as int / pow(256, i)) % 256,
        heartbeat.layout()[8 + i as int] == ((heartbeat.at_millis as int
            % 0x1_0000_0000_0000_0000) / pow(256, i)) % 256,
{
    let stamp = unsigned(heartbeat.at_millis as int);
    lemma_le_byte(heartbeat.seq as nat, 8, i);
    lemma_le_byte(stamp, 8, i);
    assert(stamp == heartbeat.at_millis as int % 0x1_0000_0000_0000_0000);
}

proof fn lemma_le_byte(x: nat, n: nat, i: nat)
    requires
        i < n,
    ensures
        le_bytes(x, n).len() == n,
        le_bytes(x, n)[i as int] == (x as int / pow(256, i)) % 256,
    decreases n,
{
    reveal(pow);
    let rest = le_bytes(x / 256, (n - 1) as nat);
    if i > 0 {
        lemma_le_byte(x / 256, (n - 1) as nat, (i - 1) as nat);
        assert(le_bytes(x, n)[i as int] == rest[i - 1]);
        vstd::arithmetic::power::lemma_pow_positive(256, (i - 1) as nat);
        vstd::arithmetic::div_mod::lemma_div_denominator(
            x as int,
            256,
            pow(256, (i - 1) as nat),
        );
        assert(pow(256, i) == 256 * pow(256, (i - 1) as nat));
    } else {
        assert(pow(256, 0) == 1);
        if n > 1 {
            lemma_le_byte(x / 256, (n - 1) as nat, 0);
        }
    }
}

/// A sensor is alive as long as the interval and the grace have not passed since
/// its last beat, stale from then on, and has never been seen where it has never
/// beaten.
pub proof fn a_sensor_lives_for_an_interval_and_its_grace(
    now: i64,
    last: Option<Heartbeat>,
    cadence: Cadence,
)
    ensures
        judged(now as int, last, cadence) == Liveness::NeverSeen <==> last is None,
        last is Some && cadence.interval_millis >= 0 && cadence.grace_millis >= 0
            && last->0.at_millis >= 0 ==> (judged(now as int, last, cadence) == Liveness::Alive
            <==> now <= last->0.at_millis + cadence.interval_millis + cadence.grace_millis),
{
}

/// The first restart waits the base, and each further one twice as long as the
/// one before, until the ceiling is reached.
pub proof fn delays_double(policy: RestartPolicy, attempt: nat)
    requires
        policy.base_millis >= 0,
    ensures
        policy.base_millis <= policy.ceiling_millis ==> policy.delay(0) == policy.base_millis,
        policy.delay(attempt + 1) < policy.ceiling_millis ==> policy.delay(attempt + 1) == 2
            * policy.delay(attempt),
{
    let base = policy.base_millis as int;
    let once = doubled(attempt) as int;
    let twice = doubled(attempt + 1) as int;
    lemma_doubled_grows(attempt, attempt + 1);
    assert(twice == 2 * once);
    if policy.delay(attempt + 1) < policy.ceiling_millis {
        if base > 0 {
            if twice > i64::MAX {
                assert(base * i64::MAX >= i64::MAX) by (nonlinear_arith)
                    requires
                        base >= 1,
                ;
            }
            assert(twice <= i64::MAX);
            assert(base * twice == 2 * (base * once)) by (nonlinear_arith)
                requires
                    twice == 2 * once,
            ;
        } else {
            assert(base * saturated(twice) == 0) by (nonlinear_arith)
                requires
                    base == 0,
            ;
            assert(base * saturated(once) == 0) by (nonlinear_arith)
                requires
                    base == 0,
            ;
        }
        assert(0 <= base * saturated(once)) by (nonlinear_arith)
            requires
                base >= 0,
                saturated(once) >= 0,
        ;
    }
    assert(base * saturated(doubled(0) as int) == base) by (nonlinear_arith)
        requires
            saturated(doubled(0) as int) == 1,
    ;
}

} // verus!
