//! Keys, buttons and axes as plain values.

use crate::text;
use vstd::prelude::*;

verus! {

/// A logical key: what the active layout makes of a press.
#[derive(Clone, Copy, Debug, PartialEq, Eq, Hash, Structural)]
pub enum Key {
    Character(char),
    Enter,
    Tab,
    Backspace,
    Delete,
    Insert,
    Escape,
    ArrowLeft,
    ArrowRight,
    ArrowUp,
    ArrowDown,
    Home,
    End,
    PageUp,
    PageDown,
    Space,
    ShiftLeft,
    ShiftRight,
    /// Function key, 1 to 12.
    F(u8),
    Unknown,
}

/// Modifier keys held with a key.
#[derive(Clone, Copy, Debug, PartialEq, Eq, Hash, Structural)]
pub struct Modifiers {
    pub shift: bool,
    pub ctrl: bool,
    pub alt: bool,
    pub meta: bool,
    pub command: bool,
}

/// No modifier held.
pub open spec fn no_modifiers() -> Modifiers {
    Modifiers { shift: false, ctrl: false, alt: false, meta: false, command: false }
}

impl Default for Modifiers {
    fn default() -> (m: Self)
        ensures
            m == no_modifiers(),
    {
        Modifiers { shift: false, ctrl: false, alt: false, meta: false, command: false }
    }
}

/// A key with its modifiers.
#[derive(Clone, Copy, Debug, PartialEq, Eq, Hash, Structural)]
pub struct KeyChord {
    pub key: Key,
    pub modifiers: Modifiers,
}

impl KeyChord {
    pub fn new(key: Key, modifiers: Modifiers) -> (c: Self)
        ensures
            c == (KeyChord { key, modifiers }),
    {
        KeyChord { key, modifiers }
    }
}

/// The W3C `code` name of the key position that a name is read as.
pub uninterp spec fn position_code(name: Seq<char>) -> Seq<char>;

/// ASCII letters and digits, at least one.
pub open spec fn plain(code: Seq<char>) -> bool {
    &&& code.len() > 0
    &&& forall|i: int|
        0 <= i < code.len() ==> {
            let c = #[trigger] code[i];
            ||| 'A' <= c <= 'Z'
            ||| 'a' <= c <= 'z'
            ||| '0' <= c <= '9'
        }
}

/// `repose_core`'s `PhysicalKey::from_name`, read back with
/// `PhysicalKey::name`: the position a name stands for, as its canonical
/// W3C code. Unknown names become `Unidentified`. Claimed of it: the code
/// is a function of the name, it is made of ASCII letters and digits, and
/// every code it gives stands for itself.
#[verifier::external_body]
fn read_position(name: &str) -> (code: &'static str)
    ensures
        code@ == position_code(name@),
        position_code(code@) == code@,
        plain(code@),
{
    repose_core::input::PhysicalKey::from_name(name).name()
}

/// A key position, layout-independent, by its W3C `code` (`KeyW`,
/// `Digit1`, `Space`, ...).
#[derive(Clone, Copy, Debug, PartialEq, Eq, Hash)]
pub struct PhysicalKey {
    pub code: &'static str,
}

impl View for PhysicalKey {
    type V = Seq<char>;

    open spec fn view(&self) -> Seq<char> {
        self.code@
    }
}

/// The code is one that names are read as.
pub open spec fn canonical(code: Seq<char>) -> bool {
    position_code(code) == code && plain(code)
}

impl PhysicalKey {
    /// The position a W3C code name stands for. Unknown names map to
    /// `Unidentified`: every physical press has a position, even when the
    /// platform cannot name it.
    pub fn from_name(name: &str) -> (k: Self)
        ensures
            k@ == position_code(name@),
            canonical(k@),
    {
        PhysicalKey { code: read_position(name) }
    }

    /// W3C code name.
    pub fn name(&self) -> (s: &'static str)
        ensures
            s@ == self@,
    {
        self.code
    }

    /// Whether both are the same position.
    pub fn same(&self, other: &PhysicalKey) -> (r: bool)
        ensures
            r == (self@ == other@),
    {
        text::str_eq(self.code, other.code)
    }
}

/// Mouse buttons; touch counts as primary.
#[derive(Clone, Copy, Debug, PartialEq, Eq, Hash, Structural)]
pub enum PointerButton {
    Primary,
    Secondary,
    Tertiary,
}

/// Standard-layout gamepad buttons.
#[derive(Clone, Copy, Debug, PartialEq, Eq, Hash, Structural)]
pub enum GamepadButton {
    South,
    East,
    West,
    North,
    Start,
    Select,
    LeftShoulder,
    RightShoulder,
    LeftStick,
    RightStick,
    DPadUp,
    DPadDown,
    DPadLeft,
    DPadRight,
}

/// Analog axes. Sticks report -1..1, triggers 0..1.
#[derive(Clone, Copy, Debug, PartialEq, Eq, Hash, Structural)]
pub enum GamepadAxis {
    LeftStickX,
    LeftStickY,
    RightStickX,
    RightStickY,
    LeftTrigger,
    RightTrigger,
}

/// Number of axes.
pub const AXES: usize = 6;

/// Place of an axis among the axes.
pub open spec fn axis_index(axis: GamepadAxis) -> int {
    match axis {
        GamepadAxis::LeftStickX => 0,
        GamepadAxis::LeftStickY => 1,
        GamepadAxis::RightStickX => 2,
        GamepadAxis::RightStickY => 3,
        GamepadAxis::LeftTrigger => 4,
        GamepadAxis::RightTrigger => 5,
    }
}

impl GamepadAxis {
    pub fn index(self) -> (i: usize)
        ensures
            i == axis_index(self),
            i < AXES,
    {
        match self {
            GamepadAxis::LeftStickX => 0,
            GamepadAxis::LeftStickY => 1,
            GamepadAxis::RightStickX => 2,
            GamepadAxis::RightStickY => 3,
            GamepadAxis::LeftTrigger => 4,
            GamepadAxis::RightTrigger => 5,
        }
    }
}

/// Every axis has a place of its own among the axes.
pub proof fn law_axes_have_places(a: GamepadAxis, b: GamepadAxis)
    ensures
        0 <= axis_index(a) < AXES,
        axis_index(a) == axis_index(b) ==> a == b,
{
}

/// Without modifiers none is held.
pub proof fn law_no_modifiers_are_held()
    ensures
        !no_modifiers().shift,
        !no_modifiers().ctrl,
        !no_modifiers().alt,
        !no_modifiers().meta,
        !no_modifiers().command,
{
}

} // verus!
