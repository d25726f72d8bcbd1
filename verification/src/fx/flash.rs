//! Fullscreen flash: a one-shot color overlay that fades.

use vstd::prelude::*;

verus! {

/// Hit flash, damage tint, pickup glow: one timer, varied by color.
/// Durations are 100 Hz quanta.
#[derive(Clone, Copy, Debug, PartialEq, Eq)]
pub struct Flash<C> {
    pub color: C,
    pub remaining_ticks: i32,
    pub total_ticks: i32,
}

/// Quanta of a flash asked to last `ticks`: at least one.
pub open spec fn flash_length(ticks: i32) -> i32 {
    if ticks < 1 {
        1
    } else {
        ticks
    }
}

/// Quanta left of `remaining` after `ticks` more.
pub open spec fn flash_left(remaining: int, ticks: int) -> int {
    if ticks <= 0 {
        remaining
    } else if remaining - ticks < 0 {
        0
    } else {
        remaining - ticks
    }
}

impl<C> Flash<C> {
    /// An idle flash.
    pub fn idle(color: C) -> (f: Flash<C>)
        ensures
            f == (Flash { color, remaining_ticks: 0, total_ticks: 0 }),
    {
        Flash { color, remaining_ticks: 0, total_ticks: 0 }
    }

    /// Start over with `color` for `duration_ticks` quanta, at least one.
    pub fn trigger(&mut self, color: C, duration_ticks: i32)
        ensures
            *final(self) == (Flash {
                color,
                remaining_ticks: flash_length(duration_ticks),
                total_ticks: flash_length(duration_ticks),
            }),
    {
        let duration: i32 = if duration_ticks < 1 {
            1
        } else {
            duration_ticks
        };
        *self = Flash { color, remaining_ticks: duration, total_ticks: duration };
    }

    /// Advance by whole quanta. Nothing at or below zero extends a flash.
    pub fn tick(&mut self, ticks: i32)
        ensures
            final(self).color == old(self).color,
            final(self).total_ticks == old(self).total_ticks,
            final(self).remaining_ticks == flash_left(old(self).remaining_ticks as int, ticks as int),
    {
        if ticks <= 0 {
            return;
        }
        let left: i64 = self.remaining_ticks as i64 - ticks as i64;
        self.remaining_ticks = if left < 0 {
            0
        } else {
            left as i32
        };
    }

    pub fn active(&self) -> (r: bool)
        ensures
            r == (self.remaining_ticks > 0),
    {
        self.remaining_ticks > 0
    }

    /// Position in the fade as `(remaining, total)` with `total` at least
    /// one; `None` while idle, so that the overlay can be skipped.
    pub fn fade(&self) -> (r: Option<(i32, i32)>)
        ensures
            self.remaining_ticks <= 0 ==> r is None,
            self.remaining_ticks > 0 ==> r == Some(
                (self.remaining_ticks, flash_length(self.total_ticks)),
            ),
    {
        if !self.active() {
            return None;
        }
        let total: i32 = if self.total_ticks < 1 {
            1
        } else {
            self.total_ticks
        };
        Some((self.remaining_ticks, total))
    }
}

/// A triggered flash ends after exactly its length, however the quanta are
/// spread over two calls.
pub proof fn law_flash_ends_on_time(duration: i32, first: int, second: int)
    requires
        0 <= first,
        0 <= second,
    ensures
        flash_left(flash_left(flash_length(duration) as int, first), second) == flash_left(
            flash_length(duration) as int,
            first + second,
        ),
        flash_left(flash_length(duration) as int, first) > 0 <==> first < flash_length(duration),
{
}

/// A flash lasts as long as it was asked to, one tick at least; ticks count
/// it down to zero and no further, and what is no step leaves it alone.
pub proof fn law_flashes_count_down(duration: i32, remaining: int, ticks: int)
    requires
        remaining >= 0,
    ensures
        duration >= 1 ==> flash_length(duration) == duration,
        duration < 1 ==> flash_length(duration) == 1,
        ticks <= 0 ==> flash_left(remaining, ticks) == remaining,
        0 < ticks <= remaining ==> flash_left(remaining, ticks) == remaining - ticks,
        ticks > remaining ==> ticks > 0 ==> flash_left(remaining, ticks) == 0,
{
}

} // verus!
