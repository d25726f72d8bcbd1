//! Polled hardware levels applied to staged ones.

use crate::input::actions;
use crate::input::held;
use crate::input::reconcile_held;
use std::collections::HashSet;
use std::hash::Hash;
use vstd::prelude::*;

verus! {

/// What the platform polls each frame: names of the key positions that are
/// down, window focus, and the mouse buttons.
#[derive(Clone, Debug)]
pub struct PolledLevels {
    pub held_keys: Vec<String>,
    pub window_focused: bool,
    pub mouse_primary: bool,
    pub mouse_secondary: bool,
}

/// Bring staged levels in line with the polled ones. Without window focus
/// everything is let go; with it, keys are reconciled and mouse buttons that
/// are up are dropped.
pub fn apply_scheduler_levels<C: Eq + Hash + Clone>(
    staged_held: &mut HashSet<C>,
    lmb_held: &mut bool,
    rmb_held: &mut bool,
    window_focused: &mut bool,
    polled: &PolledLevels,
    code_for: impl Fn(&str) -> Option<C>,
    names_for: impl Fn(&C) -> Option<&'static [&'static str]>,
)
    requires
        actions::lawful::<C>(),
        forall|s: &str| #[trigger] call_requires(code_for, (s,)),
        forall|c: &C| #[trigger] call_requires(names_for, (c,)),
    ensures
        *final(window_focused) == polled.window_focused,
        polled.window_focused ==> held::reconciled(
            old(staged_held)@,
            final(staged_held)@,
            polled.held_keys@,
            code_for,
            names_for,
        ),
        !polled.window_focused ==> final(staged_held)@ == Set::<C>::empty(),
        *final(lmb_held) == (*old(lmb_held) && polled.window_focused && polled.mouse_primary),
        *final(rmb_held) == (*old(rmb_held) && polled.window_focused && polled.mouse_secondary),
{
    if !polled.window_focused {
        staged_held.clear();
        *lmb_held = false;
        *rmb_held = false;
        *window_focused = false;
        return ;
    }
    *window_focused = true;
    reconcile_held(staged_held, &polled.held_keys, code_for, names_for);
    if !polled.mouse_primary {
        *lmb_held = false;
    }
    if !polled.mouse_secondary {
        *rmb_held = false;
    }
}

} // verus!
