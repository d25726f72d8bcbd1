//! Screen shake: impact memory between nothing and one.

use crate::scalar::Scalar;
use vstd::prelude::*;

verus! {

/// Decay per second by default: 1.5, so that a full shake drains in two
/// thirds of a second.
pub const TRAUMA_DECAY: u32 = 0x3fc0_0000;

/// Farthest displacement by default: 20 pixels.
pub const SHAKE_PIXELS: u32 = 0x41a0_0000;

/// Farthest roll by default: ten degrees, in radians.
pub const SHAKE_ROLL: u32 = 0x3e32_b8c2;

/// Speed along the noise by default: 20 units per second.
pub const SHAKE_SPEED: u32 = 0x41a0_0000;

/// Noise seed by default.
pub const SHAKE_SEED: u32 = 1337;

/// Full shake, the number 1.
pub const FULL_SHAKE: u32 = 0x3f80_0000;

/// Impact memory and how it shows.
#[derive(Clone, Copy, Debug, PartialEq, Eq, Structural)]
pub struct Trauma {
    /// From 0, still, to 1, a full shake.
    pub amount: Scalar,
    pub decay_per_sec: Scalar,
    pub max_translation_px: Scalar,
    pub max_roll_rad: Scalar,
    pub noise_speed: Scalar,
    pub seed: u32,
}

/// No impact yet, with that noise.
pub open spec fn untouched(seed: u32) -> Trauma {
    Trauma {
        amount: Scalar { bits: 0 },
        decay_per_sec: Scalar { bits: TRAUMA_DECAY },
        max_translation_px: Scalar { bits: SHAKE_PIXELS },
        max_roll_rad: Scalar { bits: SHAKE_ROLL },
        noise_speed: Scalar { bits: SHAKE_SPEED },
        seed,
    }
}

/// The memory after an impact brought it to `sum`.
pub open spec fn hit(sum: Scalar) -> Scalar {
    sum.clamped(Scalar { bits: 0 }, Scalar { bits: FULL_SHAKE })
}

/// The memory after decay took it to `lowered`.
pub open spec fn drained(amount: Scalar, ticks: i32, lowered: Scalar) -> Scalar {
    if ticks <= 0 {
        amount
    } else {
        lowered.larger(Scalar { bits: 0 })
    }
}

impl Default for Trauma {
    fn default() -> (t: Trauma)
        ensures
            t == untouched(SHAKE_SEED),
    {
        Trauma::with_seed(SHAKE_SEED)
    }
}

impl Trauma {
    pub fn new() -> (t: Trauma)
        ensures
            t == untouched(SHAKE_SEED),
    {
        Trauma::with_seed(SHAKE_SEED)
    }

    /// With another noise seed; the same seed replays the same shake.
    pub fn with_seed(seed: u32) -> (t: Trauma)
        ensures
            t == untouched(seed),
    {
        Trauma {
            amount: Scalar::zero(),
            decay_per_sec: Scalar::from_bits(TRAUMA_DECAY),
            max_translation_px: Scalar::from_bits(SHAKE_PIXELS),
            max_roll_rad: Scalar::from_bits(SHAKE_ROLL),
            noise_speed: Scalar::from_bits(SHAKE_SPEED),
            seed,
        }
    }

    /// Add impact, up to a full shake; `sum` is the amount with the impact.
    pub fn add(&mut self, sum: Scalar)
        ensures
            *final(self) == (Trauma { amount: hit(sum), ..*old(self) }),
    {
        self.amount = sum.clamp(Scalar::zero(), Scalar::one());
    }

    /// Decay over `ticks` of the 100 Hz clock; `lowered` is the amount less
    /// the decay over that time. No ticks change nothing.
    pub fn decay(&mut self, ticks: i32, lowered: Scalar)
        ensures
            *final(self) == (Trauma { amount: drained(old(self).amount, ticks, lowered), ..*old(self) }),
    {
        if ticks > 0 {
            self.amount = lowered.max(Scalar::zero());
        }
    }
}

/// Whether a squared amount shakes anything at all.
pub fn shakes(squared: Scalar) -> (r: bool)
    ensures
        r == !squared.le(Scalar { bits: 0 }),
{
    !squared.at_most(Scalar::zero())
}

/// The memory never leaves 0 to 1: not by impacts, and not by a decay that
/// does not raise it.
pub proof fn law_trauma_stays_in_range(amount: Scalar, sum: Scalar, ticks: i32, lowered: Scalar)
    requires
        (Scalar { bits: 0 }).le(amount),
        amount.le(Scalar { bits: FULL_SHAKE }),
        !sum.nan(),
        lowered.le(amount),
    ensures
        (Scalar { bits: 0 }).le(hit(sum)),
        hit(sum).le(Scalar { bits: FULL_SHAKE }),
        (Scalar { bits: 0 }).le(drained(amount, ticks, lowered)),
        drained(amount, ticks, lowered).le(amount),
{
    assert(0x3f80_0000u32 & 0x7fff_ffff == 0x3f80_0000) by (bit_vector);
}

/// A hit sets the trauma to the sum it comes to, within `0 ..= 1`; time
/// lowers it to what it is handed, not below zero, and no time does
/// nothing.
pub proof fn law_hits_add_and_time_lowers(
    amount: Scalar,
    sum: Scalar,
    ticks: i32,
    lowered: Scalar,
)
    ensures
        (Scalar { bits: 0 }).le(sum) && sum.le(Scalar { bits: 0x3f80_0000 }) ==> hit(sum) == sum,
        (Scalar { bits: 0x3f80_0000 }).lt(sum) ==> hit(sum).bits == 0x3f80_0000,
        sum.lt(Scalar { bits: 0 }) ==> hit(sum).bits == 0,
        ticks <= 0 ==> drained(amount, ticks, lowered) == amount,
        ticks > 0 && (Scalar { bits: 0 }).le(lowered) ==> drained(amount, ticks, lowered)
            == lowered,
        ticks > 0 && lowered.lt(Scalar { bits: 0 }) ==> drained(amount, ticks, lowered).bits == 0,
{
}

/// A camera starts still, loses one and a half of its trauma a second, and
/// shakes by twenty pixels and ten degrees at most, with its own seed.
pub proof fn law_cameras_start_still(seed: u32)
    ensures
        untouched(seed).amount.bits == 0,
        untouched(seed).decay_per_sec.bits == 0x3fc0_0000,
        untouched(seed).max_translation_px.bits == 0x41a0_0000,
        untouched(seed).max_roll_rad.bits == 0x3e32_b8c2,
        untouched(seed).noise_speed.bits == 0x41a0_0000,
        untouched(seed).seed == seed,
        SHAKE_SEED == 1337,
{
}

} // verus!
