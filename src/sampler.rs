//! The power sampler's clock: each tick integrates power over the wall-clock
//! time since the previous tick, not over the nominal period.

use vstd::prelude::*;
use crate::sensor::{energy_increment, sampled, PowerModel};

verus! {

/// Nanoseconds from `last` to `now` on a monotonic clock; a clock that
/// appears to step back gives zero.
pub open spec fn clock_step(last: int, now: int) -> int {
    if now >= last {
        now - last
    } else {
        0
    }
}

/// The power state after samples of constant `power_uw` taken at the clock
/// readings `times`, the previous tick having been at `last`.
pub open spec fn sampled_at(m: PowerModel, power_uw: int, last: int, times: Seq<int>) -> PowerModel
    decreases times.len(),
{
    if times.len() == 0 {
        m
    } else {
        sampled_at(
            sampled(m, power_uw, clock_step(last, times[0])),
            power_uw,
            times[0],
            times.skip(1),
        )
    }
}

/// Clock readings that never step back from `last`.
pub open spec fn ascending_from(last: int, times: Seq<int>) -> bool {
    &&& forall|i: int| 0 <= i < times.len() ==> last <= #[trigger] times[i]
    &&& forall|i: int, j: int| 0 <= i <= j < times.len() ==> times[i] <= times[j]
}

/// Remembers when the power sensors were last sampled.
pub struct PowerSampler {
    last_read_ns: u64,
}

impl View for PowerSampler {
    type V = int;

    closed spec fn view(&self) -> int {
        self.last_read_ns as int
    }
}

impl PowerSampler {
    /// A sampler started at clock reading `now_ns`.
    pub fn new(now_ns: u64) -> (r: PowerSampler)
        ensures
            r@ == now_ns,
    {
        PowerSampler { last_read_ns: now_ns }
    }

    /// A tick at clock reading `now_ns`: returns the nanoseconds elapsed
    /// since the previous tick, over which each sensor is then sampled.
    pub fn tick(&mut self, now_ns: u64) -> (elapsed_ns: u64)
        ensures
            elapsed_ns == clock_step(old(self)@, now_ns as int),
            final(self)@ == now_ns,
    {
        let elapsed_ns = if now_ns >= self.last_read_ns {
            now_ns - self.last_read_ns
        } else {
            0
        };
        self.last_read_ns = now_ns;
        elapsed_ns
    }
}

/// Energy integration is linear in time for constant power: sampling a
/// constant `power_uw` at any ascending clock readings adds exactly
/// `power_uw` times the time from the first tick's start to the last tick,
/// whatever the jitter between ticks.
pub proof fn lemma_constant_power_energy(m: PowerModel, power_uw: int, last: int, times: Seq<int>)
    requires
        times.len() > 0,
        ascending_from(last, times),
    ensures
        sampled_at(m, power_uw, last, times).energy_fj == m.energy_fj + energy_increment(
            power_uw,
            times.last() - last,
        ),
        sampled_at(m, power_uw, last, times).power_uw == power_uw,
    decreases times.len(),
{
    let m1 = sampled(m, power_uw, clock_step(last, times[0]));
    assert(sampled_at(m, power_uw, last, times) == sampled_at(
        m1,
        power_uw,
        times[0],
        times.skip(1),
    ));
    assert(times[0] >= last);
    if times.len() == 1 {
        assert(times.skip(1).len() == 0);
        assert(sampled_at(m1, power_uw, times[0], times.skip(1)) == m1);
    } else {
        let rest = times.skip(1);
        assert(ascending_from(times[0], rest)) by {
            assert forall|i: int| 0 <= i < rest.len() implies times[0] <= #[trigger] rest[i] by {
                assert(rest[i] == times[i + 1]);
            }
            assert forall|i: int, j: int| 0 <= i <= j < rest.len() implies rest[i] <= rest[j] by {
                assert(rest[i] == times[i + 1]);
                assert(rest[j] == times[j + 1]);
            }
        }
        lemma_constant_power_energy(m1, power_uw, times[0], rest);
        assert(rest.last() == times.last());
        assert(times[0] >= last);
        let a = times[0] - last;
        let b = times.last() - times[0];
        assert(power_uw * a + power_uw * b == power_uw * (a + b)) by (nonlinear_arith);
    }
}

/// With ticks exactly `period_ns` apart, `n` ticks of constant `power_uw`
/// add `power_uw * n * period_ns`.
pub proof fn lemma_constant_power_fixed_period(
    m: PowerModel,
    power_uw: int,
    start: int,
    period_ns: nat,
    n: nat,
)
    requires
        n > 0,
    ensures
        sampled_at(
            m,
            power_uw,
            start,
            Seq::new(n, |i: int| start + (i + 1) * period_ns),
        ).energy_fj == m.energy_fj + energy_increment(power_uw, (n * period_ns) as int),
{
    let times = Seq::new(n, |i: int| start + (i + 1) * period_ns);
    assert(ascending_from(start, times)) by {
        assert forall|i: int| 0 <= i < times.len() implies start <= #[trigger] times[i] by {
            assert((i + 1) * period_ns >= 0) by (nonlinear_arith)
                requires
                    i >= 0,
            ;
        }
        assert forall|i: int, j: int| 0 <= i <= j < times.len() implies times[i] <= times[j] by {
            assert((i + 1) * period_ns <= (j + 1) * period_ns) by (nonlinear_arith)
                requires
                    0 <= i <= j,
            ;
        }
    }
    lemma_constant_power_energy(m, power_uw, start, times);
    assert(times.last() - start == n * period_ns);
}

} // verus!
