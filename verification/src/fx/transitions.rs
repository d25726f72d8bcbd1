//! State transitions: cover, uncover, and the blocking in between.
//!
//! Step a transition on the ungated clock every frame. Gating its step on
//! [`TransitionFx::blocking`] would deadlock it.

use crate::scalar::Scalar;
use vstd::prelude::*;

verus! {

/// Seconds per half: the number 0.4.
pub const HALF_SECS: u32 = 0x3ecc_cccd;

/// 100 Hz quanta per half.
pub const HALF_TICKS: i32 = 40;

/// Custom id by convention for spiral-vortex wipes.
pub const VORTEX_CUSTOM_ID: u8 = 1;

/// What the transition looks like. Timing and blocking are the same for
/// all; only the renderer reads the visual.
#[derive(Clone, Copy, Debug, PartialEq, Eq, Structural)]
pub enum TransitionVisual {
    Fade,
    Custom(u8),
}

impl Default for TransitionVisual {
    fn default() -> (v: TransitionVisual)
        ensures
            v == TransitionVisual::Fade,
    {
        TransitionVisual::Fade
    }
}

#[derive(Clone, Copy, Debug, PartialEq, Eq, Structural)]
pub enum Phase {
    Idle,
    Cover,
    Uncover,
}

#[derive(Clone, Copy, Debug, PartialEq, Eq, Structural)]
pub struct TransitionFx {
    pub phase: Phase,
    /// Seconds into the current half.
    pub t_secs: Scalar,
    /// Visual of the current cycle, or of the last one.
    pub kind: TransitionVisual,
    /// Visual that [`TransitionFx::begin`] uses.
    pub default_kind: TransitionVisual,
}

pub open spec fn half() -> Scalar {
    Scalar { bits: HALF_SECS }
}

/// The phase after the one that just ran out.
pub open spec fn next_phase(p: Phase) -> Phase {
    match p {
        Phase::Cover => Phase::Uncover,
        Phase::Uncover => Phase::Idle,
        Phase::Idle => Phase::Idle,
    }
}

/// The transition after a step of `dt` seconds that brings its time within
/// the half to `reached`.
pub open spec fn stepped(m: TransitionFx, dt: Scalar, reached: Scalar) -> TransitionFx {
    if !dt.finite() || dt.le(Scalar { bits: 0 }) || m.phase == Phase::Idle {
        m
    } else if half().le(reached) {
        TransitionFx { phase: next_phase(m.phase), t_secs: Scalar { bits: 0 }, ..m }
    } else {
        TransitionFx { t_secs: reached, ..m }
    }
}

/// A cycle begun with the visual `kind`.
pub open spec fn begun(m: TransitionFx, kind: TransitionVisual) -> TransitionFx {
    TransitionFx { phase: Phase::Cover, t_secs: Scalar { bits: 0 }, kind, ..m }
}

impl Default for TransitionFx {
    fn default() -> (t: TransitionFx)
        ensures
            t == (TransitionFx {
                phase: Phase::Idle,
                t_secs: Scalar { bits: 0 },
                kind: TransitionVisual::Fade,
                default_kind: TransitionVisual::Fade,
            }),
    {
        TransitionFx {
            phase: Phase::Idle,
            t_secs: Scalar::zero(),
            kind: TransitionVisual::Fade,
            default_kind: TransitionVisual::Fade,
        }
    }
}

impl TransitionFx {
    pub fn new() -> (t: TransitionFx)
        ensures
            t == (TransitionFx {
                phase: Phase::Idle,
                t_secs: Scalar { bits: 0 },
                kind: TransitionVisual::Fade,
                default_kind: TransitionVisual::Fade,
            }),
    {
        TransitionFx::default()
    }

    /// Start a cover and uncover cycle with the default visual.
    pub fn begin(&mut self)
        ensures
            *final(self) == begun(*old(self), old(self).default_kind),
    {
        self.begin_with(self.default_kind);
    }

    /// Start a cycle with `kind`.
    pub fn begin_with(&mut self, kind: TransitionVisual)
        ensures
            *final(self) == begun(*old(self), kind),
    {
        self.phase = Phase::Cover;
        self.t_secs = Scalar::zero();
        self.kind = kind;
    }

    /// Start a cycle with the custom visual `id`.
    pub fn begin_custom(&mut self, id: u8)
        ensures
            *final(self) == begun(*old(self), TransitionVisual::Custom(id)),
    {
        self.begin_with(TransitionVisual::Custom(id));
    }

    /// Start a vortex wipe.
    pub fn begin_vortex(&mut self)
        ensures
            *final(self) == begun(*old(self), TransitionVisual::Custom(VORTEX_CUSTOM_ID)),
    {
        self.begin_custom(VORTEX_CUSTOM_ID);
    }

    /// Visual of the current cycle, or of the last one.
    pub fn kind(&self) -> (k: TransitionVisual)
        ensures
            k == self.kind,
    {
        self.kind
    }

    pub fn is_custom(&self, id: u8) -> (r: bool)
        ensures
            r == (self.kind == TransitionVisual::Custom(id)),
    {
        match self.kind {
            TransitionVisual::Custom(v) => v == id,
            TransitionVisual::Fade => false,
        }
    }

    pub fn is_vortex(&self) -> (r: bool)
        ensures
            r == (self.kind == TransitionVisual::Custom(VORTEX_CUSTOM_ID)),
    {
        self.is_custom(VORTEX_CUSTOM_ID)
    }

    pub fn blocking(&self) -> (r: bool)
        ensures
            r == (self.phase != Phase::Idle),
    {
        self.phase != Phase::Idle
    }

    /// Advance by `dt` seconds; `reached` is `t_secs` plus
    /// `dt`. A step that is not finite or not positive changes nothing.
    pub fn step_secs(&mut self, dt: Scalar, reached: Scalar)
        ensures
            *final(self) == stepped(*old(self), dt, reached),
    {
        if !dt.is_finite() || dt.at_most(Scalar::zero()) {
            return;
        }
        let half = Scalar::from_bits(HALF_SECS);
        match self.phase {
            Phase::Idle => {},
            Phase::Cover => {
                self.t_secs = reached;
                if half.at_most(reached) {
                    self.phase = Phase::Uncover;
                    self.t_secs = Scalar::zero();
                }
            },
            Phase::Uncover => {
                self.t_secs = reached;
                if half.at_most(reached) {
                    self.phase = Phase::Idle;
                    self.t_secs = Scalar::zero();
                }
            },
        }
    }
}

/// A begun cycle blocks until two halves have run out, and no longer: each
/// step that fills a half moves on by one phase, whatever the visual.
pub proof fn law_cycle_unblocks_after_two_halves(
    m: TransitionFx,
    kind: TransitionVisual,
    dt: Scalar,
    reached: Scalar,
    dt2: Scalar,
    reached2: Scalar,
)
    requires
        dt.finite(),
        (Scalar { bits: 0 }).lt(dt),
        half().le(reached),
        dt2.finite(),
        (Scalar { bits: 0 }).lt(dt2),
        half().le(reached2),
    ensures
        begun(m, kind).phase == Phase::Cover,
        stepped(begun(m, kind), dt, reached).phase == Phase::Uncover,
        stepped(stepped(begun(m, kind), dt, reached), dt2, reached2).phase == Phase::Idle,
{
}

/// A step that does not fill the half keeps a transition blocking, and an
/// idle one stays idle.
pub proof fn law_short_step_keeps_the_phase(m: TransitionFx, dt: Scalar, reached: Scalar)
    requires
        !half().le(reached),
    ensures
        stepped(m, dt, reached).phase == m.phase,
        stepped(m, dt, reached).kind == m.kind,
{
}

/// A transition covers and then uncovers, four tenths of a second each, and
/// is idle after. A step within a half moves the time in it; one that fills
/// the half starts the next at zero. The visual stays all the way.
pub proof fn law_transitions_cover_and_uncover(m: TransitionFx, dt: Scalar, reached: Scalar)
    requires
        dt.finite(),
        (Scalar { bits: 0 }).lt(dt),
        !reached.nan(),
    ensures
        ({
            let s = stepped(m, dt, reached);
            let full = Scalar { bits: 0x3ecc_cccd };
            &&& s.kind == m.kind && s.default_kind == m.default_kind
            &&& m.phase is Idle ==> s == m
            &&& !(m.phase is Idle) && reached.lt(full) ==> s.phase == m.phase && s.t_secs == reached
            &&& m.phase is Cover && full.le(reached) ==> s.phase is Uncover && s.t_secs.bits == 0
            &&& m.phase is Uncover && full.le(reached) ==> s.phase is Idle && s.t_secs.bits == 0
        }),
{
}

/// Beginning a transition covers from the start with the visual asked for,
/// whatever ran before, and keeps the default one.
pub proof fn law_beginnings_cover_from_the_start(m: TransitionFx, kind: TransitionVisual)
    ensures
        begun(m, kind).phase is Cover,
        begun(m, kind).t_secs.bits == 0,
        begun(m, kind).kind == kind,
        begun(m, kind).default_kind == m.default_kind,
        HALF_TICKS == 40,
{
}

} // verus!
