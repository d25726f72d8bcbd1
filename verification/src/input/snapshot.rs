//! Plain per-frame snapshots of pointer, pad and touch.

use crate::scalar::Scalar;
use vstd::prelude::*;

verus! {

#[derive(Clone, Copy, Debug, PartialEq, Eq, Structural)]
pub struct MouseState {
    pub left_held: bool,
    pub left_pressed: bool,
    pub right_held: bool,
    pub right_pressed: bool,
}

impl Default for MouseState {
    fn default() -> (m: Self)
        ensures
            m == (MouseState {
                left_held: false,
                left_pressed: false,
                right_held: false,
                right_pressed: false,
            }),
    {
        MouseState {
            left_held: false,
            left_pressed: false,
            right_held: false,
            right_pressed: false,
        }
    }
}

/// Deflection of a stick.
#[derive(Clone, Copy, Debug, PartialEq, Eq, Structural)]
pub struct Stick {
    pub x: Scalar,
    pub y: Scalar,
}

/// A stick at rest.
pub open spec fn centered() -> Stick {
    Stick { x: Scalar { bits: 0 }, y: Scalar { bits: 0 } }
}

impl Default for Stick {
    fn default() -> (s: Self)
        ensures
            s == centered(),
    {
        Stick { x: Scalar::zero(), y: Scalar::zero() }
    }
}

#[derive(Clone, Copy, Debug, PartialEq, Eq, Structural)]
pub struct GamepadState {
    pub left_stick: Stick,
    pub right_stick: Stick,
    pub right_trigger_held: bool,
    pub right_trigger_pressed: bool,
    pub left_trigger_held: bool,
    pub left_trigger_pressed: bool,
    pub south_pressed: bool,
    pub east_pressed: bool,
    pub dpad_left_pressed: bool,
    pub dpad_up_pressed: bool,
    pub dpad_right_pressed: bool,
    pub north_pressed: bool,
}

impl Default for GamepadState {
    fn default() -> (g: Self)
        ensures
            g == (GamepadState {
                left_stick: centered(),
                right_stick: centered(),
                right_trigger_held: false,
                right_trigger_pressed: false,
                left_trigger_held: false,
                left_trigger_pressed: false,
                south_pressed: false,
                east_pressed: false,
                dpad_left_pressed: false,
                dpad_up_pressed: false,
                dpad_right_pressed: false,
                north_pressed: false,
            }),
    {
        GamepadState {
            left_stick: Stick::default(),
            right_stick: Stick::default(),
            right_trigger_held: false,
            right_trigger_pressed: false,
            left_trigger_held: false,
            left_trigger_pressed: false,
            south_pressed: false,
            east_pressed: false,
            dpad_left_pressed: false,
            dpad_up_pressed: false,
            dpad_right_pressed: false,
            north_pressed: false,
        }
    }
}

/// A finger: where it came down, where it is, whether it is new.
#[derive(Clone, Copy, Debug, PartialEq, Eq)]
pub struct TouchContact<P> {
    pub start: P,
    pub pos: P,
    pub just_pressed: bool,
}

impl<P: Default> Default for TouchContact<P> {
    fn default() -> (t: Self)
        ensures
            call_ensures(P::default, (), t.start),
            call_ensures(P::default, (), t.pos),
            !t.just_pressed,
    {
        TouchContact { start: P::default(), pos: P::default(), just_pressed: false }
    }
}

/// A stick at rest points nowhere.
pub proof fn law_resting_sticks_are_centered()
    ensures
        centered().x.bits == 0,
        centered().y.bits == 0,
{
}

} // verus!
