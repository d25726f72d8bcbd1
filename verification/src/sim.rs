//! Fixed-step clock of the simulation.
//!
//! Wall time goes in, whole steps come out. Time is counted in
//! nanoseconds, as in `std::time::Duration`.

use vstd::prelude::*;

verus! {

/// Nanoseconds in the longest `Duration`.
pub const MAX_NANOS: u128 = 18_446_744_073_709_551_615_999_999_999;

/// One 60 Hz step.
pub const DEFAULT_STEP: u128 = 16_666_667;

/// Steps that one call may run unless the game says otherwise.
pub const DEFAULT_MAX_STEPS: u32 = 8;

/// Wall time banked toward the next step.
#[derive(Clone, Copy, Debug, PartialEq, Eq, Structural)]
pub struct StepClock {
    /// Nanoseconds carried to the next call.
    pub accumulator: u128,
    /// Step size. Zero stops the clock.
    pub step: u128,
    /// Most steps per call, at least one. Caps catch-up after a hitch:
    /// whole steps beyond it are dropped.
    pub max_steps: u32,
}

/// Steps that `total` banked nanoseconds are good for.
pub open spec fn steps_due(total: int, step: int, max_steps: int) -> int {
    let whole = total / step;
    let most = if max_steps < 1 {
        1
    } else {
        max_steps
    };
    if whole < most {
        whole
    } else {
        most
    }
}

impl StepClock {
    pub fn new(step: u128) -> (c: StepClock)
        ensures
            c.accumulator == 0,
            c.step == step,
            c.max_steps == DEFAULT_MAX_STEPS,
    {
        StepClock { accumulator: 0, step, max_steps: DEFAULT_MAX_STEPS }
    }

    /// 60 Hz clock.
    pub fn with_default_step() -> (c: StepClock)
        ensures
            c.accumulator == 0,
            c.step == DEFAULT_STEP,
            c.max_steps == DEFAULT_MAX_STEPS,
    {
        StepClock::new(DEFAULT_STEP)
    }

    /// Bank `dt` and take out the steps to run now. What is carried on
    /// stays below one step, whether or not the cap was hit.
    pub fn advance(&mut self, dt: u128) -> (ran: u32)
        requires
            old(self).step != 0 ==> old(self).accumulator + dt <= MAX_NANOS,
        ensures
            final(self).step == old(self).step,
            final(self).max_steps == old(self).max_steps,
            old(self).step == 0 ==> ran == 0 && final(self).accumulator == old(self).accumulator,
            old(self).step != 0 ==> {
                let total = old(self).accumulator + dt;
                &&& ran == steps_due(total, old(self).step as int, old(self).max_steps as int)
                &&& final(self).accumulator == total % (old(self).step as int)
            },
    {
        if self.step == 0 {
            return 0;
        }
        let total: u128 = self.accumulator + dt;
        let whole: u128 = total / self.step;
        let most: u32 = if self.max_steps < 1 {
            1
        } else {
            self.max_steps
        };
        self.accumulator = total % self.step;
        if whole < most as u128 {
            whole as u32
        } else {
            most
        }
    }

    /// Unconsumed nanoseconds.
    pub fn leftover(&self) -> (nanos: u128)
        ensures
            nanos == self.accumulator,
    {
        self.accumulator
    }

    /// Blend position between two steps as a fraction `(over, under)` of
    /// whole numbers: `0/1` for a stopped clock, never above `1/1`.
    pub fn blend(&self) -> (parts: (u128, u128))
        ensures
            self.step == 0 ==> parts == (0u128, 1u128),
            self.step != 0 && self.accumulator <= self.step ==> parts == (self.accumulator, self.step),
            self.step != 0 && self.accumulator > self.step ==> parts == (self.step, self.step),
    {
        if self.step == 0 {
            (0, 1)
        } else if self.accumulator <= self.step {
            (self.accumulator, self.step)
        } else {
            (self.step, self.step)
        }
    }
}

/// Unless the cap was hit, no time is lost: what was banked is what the
/// steps took plus what is carried on.
pub proof fn law_no_time_is_lost(total: int, step: int, max_steps: int)
    requires
        0 <= total,
        0 < step,
        total / step <= max_steps,
    ensures
        total == steps_due(total, step, max_steps) * step + total % step,
{
    vstd::arithmetic::div_mod::lemma_fundamental_div_mod(total, step);
    assert(step * (total / step) == (total / step) * step) by (nonlinear_arith);
    if max_steps < 1 {
        assert(total / step >= 0) by {
            vstd::arithmetic::div_mod::lemma_div_pos_is_pos(total, step);
        }
    }
}

/// A running clock never runs more than its cap, carries less than one step
/// on, and moves as soon as a whole step is banked.
pub proof fn law_catch_up_is_capped(total: int, step: int, max_steps: int)
    requires
        0 <= total,
        0 < step,
        0 <= max_steps,
    ensures
        0 <= steps_due(total, step, max_steps) <= (if max_steps < 1 {
            1
        } else {
            max_steps
        }),
        0 <= total % step < step,
        total >= step ==> steps_due(total, step, max_steps) >= 1,
        total < step ==> steps_due(total, step, max_steps) == 0,
{
    vstd::arithmetic::div_mod::lemma_div_pos_is_pos(total, step);
    vstd::arithmetic::div_mod::lemma_mod_bound(total, step);
    if total >= step {
        vstd::arithmetic::div_mod::lemma_div_is_ordered(step, total, step);
        vstd::arithmetic::div_mod::lemma_div_by_self(step);
    } else {
        vstd::arithmetic::div_mod::lemma_basic_div(total, step);
    }
}

/// Splitting a span of time over two calls runs the same steps, as long as
/// neither call hits the cap.
pub proof fn law_split_calls_run_the_same_steps(
    carried: int,
    first: int,
    second: int,
    step: int,
    max_steps: int,
)
    requires
        0 <= carried,
        0 <= first,
        0 <= second,
        0 < step,
        (carried + first + second) / step <= max_steps,
    ensures
        ({
            let rest = (carried + first) % step;
            &&& steps_due(carried + first, step, max_steps) + steps_due(rest + second, step, max_steps)
                == steps_due(carried + first + second, step, max_steps)
            &&& (rest + second) % step == (carried + first + second) % step
        }),
{
    let a = carried + first;
    let q = a / step;
    let rest = a % step;
    vstd::arithmetic::div_mod::lemma_fundamental_div_mod(a, step);
    vstd::arithmetic::div_mod::lemma_mod_bound(a, step);
    vstd::arithmetic::div_mod::lemma_div_pos_is_pos(a, step);
    vstd::arithmetic::div_mod::lemma_hoist_over_denominator(rest + second, q, step as nat);
    assert(a + second == rest + second + q * step) by (nonlinear_arith)
        requires
            a == step * q + rest,
    ;
    vstd::arithmetic::div_mod::lemma_mod_multiples_vanish(q, rest + second, step);
    assert(step * q + (rest + second) == a + second) by (nonlinear_arith)
        requires
            a == step * q + rest,
    ;
    vstd::arithmetic::div_mod::lemma_div_pos_is_pos(rest + second, step);
}

/// A clock steps sixty times a second unless told otherwise, and catches up
/// by eight steps at most.
pub proof fn law_clocks_start_at_sixty_hertz()
    ensures
        DEFAULT_STEP * 60 >= 1_000_000_000,
        (DEFAULT_STEP - 1) * 60 < 1_000_000_000,
        DEFAULT_MAX_STEPS == 8,
{
}

/// No step runs before its time is full, one runs as soon as it is, and a
/// call runs one step at least of those that are due even where none are
/// allowed.
pub proof fn law_steps_run_when_due(total: int, step: int, max_steps: int)
    requires
        total >= 0,
        step > 0,
    ensures
        total < step ==> steps_due(total, step, max_steps) == 0,
        step <= total ==> steps_due(total, step, max_steps) >= 1,
        max_steps >= 1 && max_steps * step <= total ==> steps_due(total, step, max_steps)
            == max_steps,
        max_steps <= 1 ==> steps_due(total, step, max_steps) <= 1,
        steps_due(total, step, max_steps) * step <= total,
{
    let q = total / step;
    vstd::arithmetic::div_mod::lemma_fundamental_div_mod(total, step);
    vstd::arithmetic::div_mod::lemma_mod_bound(total, step);
    assert(total < step ==> q <= 0) by (nonlinear_arith)
        requires
            total == step * q + total % step,
            0 <= total % step < step,
            step > 0,
            total >= 0,
    ;
    assert(q >= 0) by {
        vstd::arithmetic::div_mod::lemma_div_pos_is_pos(total, step);
    }
    assert(step <= total ==> q >= 1) by (nonlinear_arith)
        requires
            total == step * q + total % step,
            0 <= total % step < step,
            step > 0,
    ;
    assert(max_steps * step <= total ==> q >= max_steps) by (nonlinear_arith)
        requires
            total == step * q + total % step,
            0 <= total % step < step,
            step > 0,
    ;
    let n = steps_due(total, step, max_steps);
    assert(n * step <= q * step) by (nonlinear_arith)
        requires
            n <= q,
            step > 0,
    ;
    assert(q * step == step * q) by (nonlinear_arith);
}

} // verus!
