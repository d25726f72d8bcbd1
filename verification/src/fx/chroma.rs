//! Chromatic split amount that decays.

use crate::scalar::Scalar;
use vstd::prelude::*;

verus! {

/// Linear decay per second by default: the number 2.
pub const DEFAULT_DECAY: u32 = 0x4000_0000;

#[derive(Clone, Copy, Debug, PartialEq, Eq, Structural)]
pub struct Chroma {
    /// Current split amount.
    pub strength: Scalar,
    /// Linear decay per second.
    pub decay_per_sec: Scalar,
}

impl Default for Chroma {
    fn default() -> (c: Chroma)
        ensures
            c == (Chroma {
                strength: Scalar { bits: 0 },
                decay_per_sec: Scalar { bits: DEFAULT_DECAY },
            }),
    {
        Chroma { strength: Scalar::zero(), decay_per_sec: Scalar::from_bits(DEFAULT_DECAY) }
    }
}

/// The strength after a pulse: the stronger one, and never below zero for a
/// negative pulse.
pub open spec fn pulsed(strength: Scalar, pulse: Scalar) -> Scalar {
    strength.larger(pulse.larger(Scalar { bits: 0 }))
}

impl Chroma {
    pub fn new() -> (c: Chroma)
        ensures
            c == (Chroma {
                strength: Scalar { bits: 0 },
                decay_per_sec: Scalar { bits: DEFAULT_DECAY },
            }),
    {
        Chroma::default()
    }

    /// Fire a pulse. Overlapping pulses keep the stronger one; a negative
    /// one counts as zero.
    pub fn pulse(&mut self, strength: Scalar)
        ensures
            final(self).decay_per_sec == old(self).decay_per_sec,
            final(self).strength == pulsed(old(self).strength, strength),
    {
        self.strength = self.strength.max(strength.max(Scalar::zero()));
    }

    /// Decay over `dt` seconds to `lowered`, the strength minus the decay
    /// over that time. A step that is not finite or not positive changes
    /// nothing.
    pub fn tick_secs(&mut self, dt: Scalar, lowered: Scalar)
        ensures
            final(self).decay_per_sec == old(self).decay_per_sec,
            !dt.finite() || dt.le(Scalar { bits: 0 }) ==> final(self).strength
                == old(self).strength,
            dt.finite() && !dt.le(Scalar { bits: 0 }) ==> final(self).strength == lowered.larger(
                Scalar { bits: 0 },
            ),
    {
        if !dt.is_finite() || dt.at_most(Scalar::zero()) {
            return;
        }
        self.strength = lowered.max(Scalar::zero());
    }

    /// Amount to show; zero shows nothing.
    pub fn amount(&self) -> (a: Scalar)
        ensures
            a == self.strength.larger(Scalar { bits: 0 }),
    {
        self.strength.max(Scalar::zero())
    }

    pub fn active(&self) -> (r: bool)
        ensures
            r == (Scalar { bits: 0 }).lt(self.strength),
    {
        Scalar::zero().less(self.strength)
    }
}

/// Pulses do not cancel each other, and neither order nor repetition
/// matters to what shows.
pub proof fn law_pulses_keep_the_strongest(s: Scalar, a: Scalar, b: Scalar)
    requires
        !s.nan(),
        !a.nan(),
        !b.nan(),
    ensures
        pulsed(pulsed(s, a), b).eqv(pulsed(pulsed(s, b), a)),
        pulsed(pulsed(s, a), a).eqv(pulsed(s, a)),
        s.le(pulsed(pulsed(s, a), b)),
        a.le(pulsed(pulsed(s, a), b)),
        b.le(pulsed(pulsed(s, a), b)),
{
}

/// A pulse raises the strength to its own, lowers it never, and counts as
/// none where it is negative. The split decays by two a second at first.
pub proof fn law_pulses_raise(strength: Scalar, pulse: Scalar)
    requires
        (Scalar { bits: 0 }).le(strength),
    ensures
        strength.lt(pulse) ==> pulsed(strength, pulse) == pulse,
        pulse.le(strength) ==> pulsed(strength, pulse) == strength,
        pulse.nan() ==> pulsed(strength, pulse) == strength,
        DEFAULT_DECAY == 0x4000_0000,
{
}

} // verus!
