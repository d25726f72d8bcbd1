//! The split between ungated effects and gated gameplay.

use vstd::prelude::*;

verus! {

/// Outcome of one gated frame: how many gameplay ticks ran and whether the
/// frame was blocked. Effects advance either way.
#[derive(Clone, Copy, Debug, PartialEq, Eq, Structural)]
pub struct FxTick {
    pub ran: u32,
    pub blocked: bool,
}

impl Default for FxTick {
    fn default() -> (t: FxTick)
        ensures
            t == (FxTick { ran: 0, blocked: false }),
    {
        FxTick { ran: 0, blocked: false }
    }
}

/// Gate of one frame: effects step first and always, then either gameplay
/// ticks or, in a blocked frame, input edges are cleared, so that a pause
/// never fires an edge twice. Stateless: callers keep their own clock.
pub struct SimDriver;

impl SimDriver {
    /// Step the effects, and only then either the ticks or the clearing: both
    /// may rely on what the effects have done.
    pub fn frame<Fx: FnOnce(), Tick: FnOnce(), Clear: FnOnce()>(
        step_fx: Fx,
        blocked: bool,
        tick_sim: Tick,
        clear_edges: Clear,
    ) -> (t: FxTick)
        requires
            call_requires(step_fx, ()),
            call_ensures(step_fx, (), ()) ==> if blocked {
                call_requires(clear_edges, ())
            } else {
                call_requires(tick_sim, ())
            },
        ensures
            call_ensures(step_fx, (), ()),
            blocked ==> call_ensures(clear_edges, (), ()),
            !blocked ==> call_ensures(tick_sim, (), ()),
            t.blocked == blocked,
            t.ran == if blocked {
                0u32
            } else {
                1u32
            },
    {
        step_fx();
        if blocked {
            clear_edges();
            FxTick { ran: 0, blocked: true }
        } else {
            tick_sim();
            FxTick { ran: 1, blocked: false }
        }
    }
}

} // verus!
