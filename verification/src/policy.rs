use vstd::prelude::*;
use vstd::arithmetic::div_mod::{
    lemma_basic_div, lemma_div_multiples_vanish_fancy, lemma_fundamental_div_mod,
    lemma_mod_division_less_than_divisor, lemma_mod_multiples_vanish, lemma_small_div_converse,
    lemma_small_mod,
};
use vstd::arithmetic::mul::lemma_mul_is_distributive_add;

verus! {

/// Determines how a schedule runs: on every driver tick, or once per full
/// period of accumulated elapsed time.
///
/// All times are in nanoseconds. `Fixed(rate, accumulator)` holds the tick
/// period `rate` (positive, immutable after creation) and the elapsed time
/// `accumulator` not yet consumed by a pass.
#[derive(Debug, Copy, Clone, PartialEq, Eq, Structural)]
pub enum ScheduleType {
    /// Run exactly one pass on every driver tick.
    Always,
    /// Run once per `rate` nanoseconds of accumulated elapsed time.
    Fixed(u64, u64),
}

impl ScheduleType {
    /// A policy is well formed when a `Fixed` period is positive.
    pub open spec fn wf(self) -> bool {
        self matches ScheduleType::Fixed(rate, _) ==> rate > 0
    }

    /// The accumulator holds less than one full period: no leftover time
    /// large enough to trigger another pass.
    pub open spec fn drained(self) -> bool {
        self matches ScheduleType::Fixed(rate, acc) ==> acc < rate
    }

    /// The same policy with its accumulator cleared but its parameters kept:
    /// what a freshly built dummy instance carries.
    pub open spec fn reset_spec(self) -> ScheduleType {
        match self {
            ScheduleType::Always => ScheduleType::Always,
            ScheduleType::Fixed(rate, _) => ScheduleType::Fixed(rate, 0),
        }
    }

    /// What one `advance` call does: the policy afterwards and the number of
    /// passes due. `Always` runs exactly once and never changes. `Fixed`
    /// ignores non-positive elapsed time; otherwise it accumulates, owes one
    /// pass per full period, and keeps the remainder.
    pub open spec fn advance_spec(self, elapsed: int) -> (ScheduleType, int) {
        match self {
            ScheduleType::Always => (self, 1),
            ScheduleType::Fixed(rate, acc) => {
                if elapsed <= 0 {
                    (self, 0)
                } else {
                    (
                        ScheduleType::Fixed(rate, (((acc + elapsed) % (rate as int)) as u64)),
                        (acc + elapsed) / (rate as int),
                    )
                }
            },
        }
    }

    /// The observable progress towards the next pass, as the exact fraction
    /// `numerator / denominator`, clamped to at most one.
    pub open spec fn progress_spec(self) -> (u64, u64) {
        match self {
            ScheduleType::Always => (1u64, 1u64),
            ScheduleType::Fixed(rate, acc) => {
                if acc < rate {
                    (acc, rate)
                } else {
                    (rate, rate)
                }
            },
        }
    }

    /// Feed one clock reading into the policy and return how many passes are
    /// now due. Catch-up semantics: every full period that elapsed is owed a
    /// pass in this single call; only the remainder stays in the accumulator.
    pub fn advance(&mut self, elapsed: i64) -> (n: u64)
        requires
            old(self).wf(),
            *old(self) matches ScheduleType::Fixed(_, acc) ==> (elapsed > 0 ==> acc + elapsed
                <= u64::MAX),
        ensures
            final(self).wf(),
            (*final(self), n as int) == old(self).advance_spec(elapsed as int),
            *old(self) is Always ==> n == 1 && *final(self) == *old(self),
            *old(self) is Fixed && elapsed <= 0 ==> n == 0 && *final(self) == *old(self),
            *old(self) is Fixed && elapsed > 0 ==> final(self).drained(),
            *old(self) matches ScheduleType::Fixed(rate, _) ==> (*final(self)
                matches ScheduleType::Fixed(rate2, _) && rate2 == rate),
    {
        match *self {
            ScheduleType::Always => 1,
            ScheduleType::Fixed(rate, acc) => {
                if elapsed <= 0 {
                    0
                } else {
                    let total: u64 = acc + (elapsed as u64);
                    let n: u64 = total / rate;
                    let rest: u64 = total % rate;
                    proof {
                        lemma_mod_division_less_than_divisor(total as int, rate as int);
                    }
                    *self = ScheduleType::Fixed(rate, rest);
                    n
                }
            },
        }
    }

    /// The progress fraction as an exact pair `(numerator, denominator)`:
    /// `Always` is always at one; `Fixed` is the accumulated share of the
    /// period, clamped to at most one. Purely observational.
    pub fn frame_percent(&self) -> (r: (u64, u64))
        requires
            self.wf(),
        ensures
            r == self.progress_spec(),
            0 < r.1,
            r.0 <= r.1,
    {
        match *self {
            ScheduleType::Always => (1, 1),
            ScheduleType::Fixed(rate, acc) => {
                if acc < rate {
                    (acc, rate)
                } else {
                    (rate, rate)
                }
            },
        }
    }
}

/// Dividing `x + y` by `r` in two steps - first `x`, then the remainder
/// together with `y` - yields the same quotient sum and the same final
/// remainder as dividing in one step.
proof fn lemma_div_mod_add(x: int, y: int, r: int)
    requires
        0 <= x,
        0 <= y,
        0 < r,
    ensures
        (x + y) / r == x / r + (x % r + y) / r,
        (x + y) % r == (x % r + y) % r,
{
    let q = x / r;
    let m = x % r;
    let z = m + y;
    lemma_fundamental_div_mod(x, r);
    lemma_mod_division_less_than_divisor(x, r);
    lemma_fundamental_div_mod(z, r);
    lemma_mod_division_less_than_divisor(z, r);
    assert(r * (q + z / r) == r * q + r * (z / r)) by {
        lemma_mul_is_distributive_add(r, q, z / r);
    }
    assert(x + y == r * (q + z / r) + z % r);
    lemma_div_multiples_vanish_fancy(q + z / r, z % r, r);
    assert((x + y) / r == q + z / r);
    lemma_mod_multiples_vanish(q, z, r);
    assert(x + y == r * q + z);
    assert((x + y) % r == z % r);
}

/// Splitting elapsed time across two `advance` calls reaches the same policy
/// state and the same total run count as delivering it in one call.
pub proof fn lemma_advance_additive(s: ScheduleType, e1: int, e2: int)
    requires
        s.wf(),
        s is Fixed,
        0 <= e1,
        0 <= e2,
    ensures
        ({
            let (s1, n1) = s.advance_spec(e1);
            let (s2, n2) = s1.advance_spec(e2);
            let (s3, n3) = s.advance_spec(e1 + e2);
            s2 == s3 && n1 + n2 == n3
        }),
{
    let rate = s->Fixed_0;
    let acc = s->Fixed_1;
    if e1 > 0 && e2 > 0 {
        lemma_mod_division_less_than_divisor(acc + e1, rate as int);
        lemma_div_mod_add(acc + e1, e2, rate as int);
    }
}

/// The sum of a sequence of elapsed readings.
pub open spec fn sum_seq(es: Seq<int>) -> int
    decreases es.len(),
{
    if es.len() == 0 {
        0
    } else {
        es[0] + sum_seq(es.subrange(1, es.len() as int))
    }
}

/// Delivering a whole sequence of clock readings to a policy, one `advance`
/// call each, in order: the policy afterwards and the total run count.
pub open spec fn advance_all(s: ScheduleType, es: Seq<int>) -> (ScheduleType, int)
    decreases es.len(),
{
    if es.len() == 0 {
        (s, 0)
    } else {
        let (s1, n1) = s.advance_spec(es[0]);
        let (s2, n2) = advance_all(s1, es.subrange(1, es.len() as int));
        (s2, n1 + n2)
    }
}

proof fn lemma_sum_nonneg(es: Seq<int>)
    requires
        forall|i: int| 0 <= i < es.len() ==> es[i] >= 0,
    ensures
        sum_seq(es) >= 0,
    decreases es.len(),
{
    if es.len() > 0 {
        lemma_sum_nonneg(es.subrange(1, es.len() as int));
    }
}

/// Accumulator correctness: however non-negative elapsed time summing to `T`
/// is split across `advance` calls, a drained `Fixed` policy produces a total
/// run count of exactly `floor((accumulator + T) / rate)` and ends with
/// accumulator `(accumulator + T) % rate`.
pub proof fn lemma_fixed_catch_up(rate: u64, acc: u64, es: Seq<int>)
    requires
        0 < rate,
        acc < rate,
        forall|i: int| 0 <= i < es.len() ==> es[i] >= 0,
    ensures
        ({
            let t = sum_seq(es);
            advance_all(ScheduleType::Fixed(rate, acc), es) == (
                ScheduleType::Fixed(rate, (((acc + t) % (rate as int)) as u64)),
                (acc + t) / (rate as int),
            )
        }),
    decreases es.len(),
{
    let t = sum_seq(es);
    lemma_sum_nonneg(es);
    if es.len() == 0 {
        lemma_small_mod(acc as nat, rate as nat);
        lemma_basic_div(acc as int, rate as int);
    } else {
        let e0 = es[0];
        let tail = es.subrange(1, es.len() as int);
        let t1 = sum_seq(tail);
        lemma_sum_nonneg(tail);
        assert(t == e0 + t1);
        if e0 <= 0 {
            lemma_fixed_catch_up(rate, acc, tail);
        } else {
            lemma_mod_division_less_than_divisor(acc + e0, rate as int);
            let m1: u64 = (((acc + e0) % (rate as int)) as u64);
            lemma_fixed_catch_up(rate, m1, tail);
            lemma_div_mod_add(acc + e0, t1, rate as int);
        }
    }
}

/// Progress is monotone across any number of ticks that together fire no
/// pass: delivering the readings one `advance` call at a time never lowers
/// the fraction while the total run count stays zero.
pub proof fn lemma_progress_monotonic_all(rate: u64, acc: u64, es: Seq<int>)
    requires
        0 < rate,
        acc < rate,
        forall|i: int| 0 <= i < es.len() ==> es[i] >= 0,
    ensures
        ({
            let (s1, n) = advance_all(ScheduleType::Fixed(rate, acc), es);
            let (p0, q0) = ScheduleType::Fixed(rate, acc).progress_spec();
            let (p1, q1) = s1.progress_spec();
            n == 0 ==> q1 == q0 && p1 >= p0
        }),
{
    lemma_fixed_catch_up(rate, acc, es);
    lemma_sum_nonneg(es);
    let t = sum_seq(es);
    if (acc + t) / (rate as int) == 0 {
        lemma_small_div_converse(acc + t, rate as int);
        lemma_small_mod((acc + t) as nat, rate as nat);
    }
}

/// Progress is monotone while no pass fires, and lands strictly below one
/// whole period immediately after a pass fires.
pub proof fn lemma_progress_monotonic(s: ScheduleType, e: int)
    requires
        s.wf(),
        s is Fixed,
        s.drained(),
        0 <= e,
    ensures
        ({
            let (s1, n) = s.advance_spec(e);
            let (p0, q0) = s.progress_spec();
            let (p1, q1) = s1.progress_spec();
            &&& q1 == q0
            &&& n == 0 ==> p1 >= p0
            &&& n > 0 ==> p1 < q1
        }),
{
    let rate = s->Fixed_0;
    let acc = s->Fixed_1;
    if e > 0 {
        lemma_mod_division_less_than_divisor(acc + e, rate as int);
        let (s1, n) = s.advance_spec(e);
        if n == 0 {
            lemma_small_div_converse(acc + e, rate as int);
            lemma_small_mod((acc + e) as nat, rate as nat);
        }
    }
}

} // verus!

