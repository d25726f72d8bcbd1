//! Lives of effects: which steps count, and what a life may be.

use crate::scalar::Scalar;
use vstd::prelude::*;

verus! {

/// Shortest life of a floating number: 0.01 seconds.
pub const LEAST_LIFE: u32 = 0x3c23_d70a;

/// Life of a floating number that asks for no usable one: 0.8 seconds.
pub const NUMBER_LIFE: u32 = 0x3f4c_cccd;

/// Above this, 5.0, a stored lifetime is in 100 Hz quanta.
pub const MOST_SECONDS: u32 = 0x40a0_0000;

/// A step of `dt` seconds moves time on.
pub open spec fn forward(dt: Scalar) -> bool {
    dt.finite() && (Scalar { bits: 0 }).lt(dt)
}

/// Whether a step of `dt` seconds moves time on.
pub fn advances(dt: Scalar) -> (r: bool)
    ensures
        r == forward(dt),
{
    dt.is_finite() && Scalar::zero().less(dt)
}

/// Whether a step of `dt` seconds ages a decal of that life: one without an
/// end never ages.
pub fn ages_decal(dt: Scalar, life: Scalar) -> (r: bool)
    ensures
        r == (forward(dt) && life.finite()),
{
    advances(dt) && life.is_finite()
}

/// What a floating number lives for that asks for so much.
pub open spec fn lives_for(asked: Scalar) -> Scalar {
    if asked.finite() {
        asked.larger(Scalar { bits: LEAST_LIFE })
    } else {
        Scalar { bits: NUMBER_LIFE }
    }
}

/// Life that a floating number gets.
pub fn number_life(asked: Scalar) -> (life: Scalar)
    ensures
        life == lives_for(asked),
{
    if asked.is_finite() {
        asked.max(Scalar::from_bits(LEAST_LIFE))
    } else {
        Scalar::from_bits(NUMBER_LIFE)
    }
}

/// Fade that a decal gets.
pub fn decal_fade(asked: Scalar) -> (fade: Scalar)
    ensures
        fade == if asked.finite() {
            asked.larger(Scalar { bits: 0 })
        } else {
            Scalar { bits: 0 }
        },
{
    if asked.is_finite() {
        asked.max(Scalar::zero())
    } else {
        Scalar::zero()
    }
}

/// Whether a stored lifetime, with its jitter, is in 100 Hz quanta and not
/// in seconds.
pub fn stored_in_ticks(base: Scalar, range: Scalar) -> (r: bool)
    ensures
        r == ((Scalar { bits: MOST_SECONDS }).lt(base) || (Scalar { bits: MOST_SECONDS }).lt(
            range,
        )),
{
    Scalar::from_bits(MOST_SECONDS).less(base) || Scalar::from_bits(MOST_SECONDS).less(range)
}

/// Whether a value with that jitter needs a random draw.
pub fn jitters(range: Scalar) -> (r: bool)
    ensures
        r == !range.le(Scalar { bits: 0 }),
{
    !range.at_most(Scalar::zero())
}

/// A floating number always lives, and never without end.
pub proof fn law_numbers_live_and_end(asked: Scalar)
    ensures
        lives_for(asked).finite(),
        (Scalar { bits: 0 }).lt(lives_for(asked)),
{
    assert((Scalar { bits: LEAST_LIFE }).finite()) by {
        assert(LEAST_LIFE & 0x7fff_ffff == LEAST_LIFE) by (bit_vector);
    }
}

/// A number lives as long as it was asked to, a hundredth of a second at
/// least, and eight tenths where that is no finite time. A step counts only
/// if it is finite and above zero. Five seconds are the most that a time is
/// taken to be in seconds.
pub proof fn law_lives_are_kept_or_mended(asked: Scalar, dt: Scalar)
    ensures
        asked.finite() && (Scalar { bits: 0x3c23_d70a }).le(asked) ==> lives_for(asked) == asked,
        asked.finite() && asked.lt(Scalar { bits: 0x3c23_d70a }) ==> lives_for(asked).bits
            == 0x3c23_d70a,
        !asked.finite() ==> lives_for(asked).bits == 0x3f4c_cccd,
        forward(dt) <==> dt.finite() && dt.rank() > 0,
        MOST_SECONDS == 0x40a0_0000,
{
}

} // verus!
