//! Physical inputs (keys, mouse buttons, pad buttons, axes) bound to game
//! actions, for fixed-tick simulations.

pub mod actions;
pub mod aim;
pub mod binding;
pub mod codec;
pub mod glyph;
pub mod held;
pub mod keymap;
pub mod keys;
pub mod remap;
pub mod snapshot;
pub mod state;

pub use actions::{ActionLike, ActionMap};
pub use aim::{AimTracker, StagedClick};
pub use binding::Binding;
pub use codec::{decode_keymap_entry, encode_keymap_entry, threshold_text};
pub use glyph::{chord_for_physical, glyph_for_physical};
pub use held::reconcile_held;
pub use keymap::{Keymap, KeymapCapture, KeymapDevice, KeymapEntry, KeymapRow};
pub use keys::{
    GamepadAxis, GamepadButton, Key, KeyChord, Modifiers, PhysicalKey, PointerButton,
};
pub use remap::RemapSession;
pub use snapshot::{GamepadState, MouseState, Stick, TouchContact};
pub use state::{ActionState, Drive};
