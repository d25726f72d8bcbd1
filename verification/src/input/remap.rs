//! Rebind gestures: arm an action, and the next input becomes its entry.

use super::actions;
use super::keymap::{self, Keymap, KeymapCapture, KeymapDevice, KeymapEntry};
use super::keys::{self, Key, KeyChord, Modifiers, PhysicalKey, PointerButton};
use crate::text::{self, to_lower};
use std::hash::Hash;
use vstd::prelude::*;

verus! {

#[derive(Clone, Debug)]
pub struct RemapSession<A> {
    pub map: Keymap<A>,
    pub capture: Option<KeymapCapture<A>>,
}

impl<A: Clone + Eq + Hash> Default for RemapSession<A> {
    fn default() -> (s: Self)
        ensures
            s.map@.keyboard == Map::<A, KeymapEntry>::empty(),
            s.map@.gamepad == Map::<A, KeymapEntry>::empty(),
            s.capture is None,
    {
        RemapSession { map: Keymap::new(), capture: None }
    }
}

/// The chord a key is captured as: the named keys that can be bound, and
/// characters in lower case; other keys are not captured.
pub open spec fn capture_chord(key: Key) -> Option<KeyChord> {
    let plain = keys::no_modifiers();
    match key {
        Key::Space | Key::Tab | Key::Enter | Key::Escape | Key::ShiftLeft
        | Key::ShiftRight => Some(KeyChord { key, modifiers: plain }),
        Key::Character(c) => Some(
            KeyChord { key: Key::Character(text::lower(c)), modifiers: plain },
        ),
        _ => None,
    }
}

impl<A: Clone + Eq + Hash> RemapSession<A> {
    /// What a resolved gesture does: nothing when none is armed.
    pub open spec fn resolves(&self, after: &Self, pressed: Option<KeymapEntry>, r: bool) -> bool {
        &&& r == self.capture is Some
        &&& after.capture is None
        &&& after.map@ == match self.capture {
            Some(c) => keymap::captured(self.map@, c, pressed),
            None => self.map@,
        }
    }

    /// Nothing happened.
    pub open spec fn unchanged(&self, after: &Self) -> bool {
        after.map@ == self.map@ && after.capture == self.capture
    }

    pub fn armed(&self) -> (r: bool)
        ensures
            r == self.capture is Some,
    {
        self.capture.is_some()
    }

    pub fn begin(&mut self, action: A, device: KeymapDevice)
        ensures
            final(self).map == old(self).map,
            final(self).capture == Some(KeymapCapture { action, device }),
    {
        self.capture = Some(self.map.begin_capture(action, device));
    }

    pub fn cancel(&mut self)
        ensures
            final(self).map == old(self).map,
            final(self).capture is None,
    {
        self.capture = None;
    }

    pub fn resolve(&mut self, pressed: Option<KeymapEntry>) -> (r: bool)
        requires
            actions::lawful::<A>(),
        ensures
            old(self).resolves(final(self), pressed, r),
    {
        match self.capture.take() {
            Some(capture) => {
                self.map.resolve_capture(&capture, pressed);
                true
            },
            None => false,
        }
    }

    pub fn resolve_physical(&mut self, key: PhysicalKey) -> (r: bool)
        requires
            actions::lawful::<A>(),
        ensures
            old(self).resolves(final(self), Some(KeymapEntry::Physical(key)), r),
    {
        self.resolve(Some(KeymapEntry::Physical(key)))
    }

    /// Resolve with a logical key; keys that cannot be bound leave the
    /// gesture armed.
    pub fn resolve_key(&mut self, key: &Key) -> (r: bool)
        requires
            actions::lawful::<A>(),
        ensures
            match capture_chord(*key) {
                Some(chord) => old(self).resolves(final(self), Some(KeymapEntry::Key(chord)), r),
                None => !r && old(self).unchanged(final(self)),
            },
    {
        let key: Key = match *key {
            Key::Space => Key::Space,
            Key::Tab => Key::Tab,
            Key::Enter => Key::Enter,
            Key::Escape => Key::Escape,
            Key::ShiftLeft => Key::ShiftLeft,
            Key::ShiftRight => Key::ShiftRight,
            Key::Character(c) => Key::Character(to_lower(c)),
            _ => {
                return false;
            },
        };
        self.resolve(Some(KeymapEntry::Key(KeyChord::new(key, Modifiers::default()))))
    }

    /// Resolve with a mouse button; only a keyboard/mouse gesture takes one.
    pub fn resolve_mouse(&mut self, left: bool) -> (r: bool)
        requires
            actions::lawful::<A>(),
        ensures
            match old(self).capture {
                Some(c) => if c.device == KeymapDevice::KeyboardMouse {
                    old(self).resolves(
                        final(self),
                        Some(
                            KeymapEntry::Mouse(
                                if left {
                                    PointerButton::Primary
                                } else {
                                    PointerButton::Secondary
                                },
                            ),
                        ),
                        r,
                    )
                } else {
                    !r && old(self).unchanged(final(self))
                },
                None => !r && old(self).unchanged(final(self)),
            },
    {
        let entry = if left {
            KeymapEntry::Mouse(PointerButton::Primary)
        } else {
            KeymapEntry::Mouse(PointerButton::Secondary)
        };
        let takes = match &self.capture {
            Some(c) => c.device == KeymapDevice::KeyboardMouse,
            None => false,
        };
        if takes {
            self.resolve(Some(entry))
        } else {
            false
        }
    }
}

/// Keys that can be captured are characters, in lower case, and the few
/// that games bind by name; they are captured without modifiers, and the
/// rest are not captured at all.
pub proof fn law_captured_keys_are_plain(key: Key)
    ensures
        capture_chord(key) matches Some(c) ==> !c.modifiers.shift && !c.modifiers.ctrl
            && !c.modifiers.alt && !c.modifiers.meta && !c.modifiers.command,
        key matches Key::Character(c) ==> (capture_chord(key) matches Some(chord) && chord.key
            == Key::Character(text::lower(c))),
        key is Space || key is Tab || key is Enter || key is Escape || key is ShiftLeft
            || key is ShiftRight ==> (capture_chord(key) matches Some(chord) && chord.key == key),
        key is F || key is Unknown || key is Backspace || key is Delete || key is Insert
            || key is Home || key is End || key is PageUp || key is PageDown || key is ArrowLeft
            || key is ArrowRight || key is ArrowUp || key is ArrowDown ==> capture_chord(key)
            is None,
{
}

/// A gesture resolves exactly if one is armed, and is spent by it: the side
/// of its device has the pressed entry for its action, and the other side,
/// as every other action, stays. Without one nothing moves.
pub proof fn law_gestures_are_spent<A: Clone + Eq + Hash>(
    before: RemapSession<A>,
    after: RemapSession<A>,
    pressed: KeymapEntry,
    r: bool,
    other: A,
)
    requires
        before.resolves(&after, Some(pressed), r),
    ensures
        r <==> before.capture is Some,
        after.capture is None,
        before.capture is None ==> after.map@ == before.map@,
        before.capture matches Some(c) ==> {
            &&& c.device is Gamepad ==> after.map@.gamepad[c.action] == pressed
                && after.map@.keyboard == before.map@.keyboard
            &&& c.device is KeyboardMouse ==> after.map@.keyboard[c.action] == pressed
                && after.map@.gamepad == before.map@.gamepad
            &&& other != c.action ==> keymap::entry_in(after.map@.keyboard, other)
                == keymap::entry_in(before.map@.keyboard, other) && keymap::entry_in(
                after.map@.gamepad,
                other,
            ) == keymap::entry_in(before.map@.gamepad, other)
        },
        after.unchanged(&after),
        before.unchanged(&after) ==> before.capture is None,
{
}

} // verus!
