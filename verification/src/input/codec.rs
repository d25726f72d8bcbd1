//! Text form of keymap entries, readable in a save file: `W`,
//! `Shift+Space`, `phys:KeyW`, `MouseLeft`, `PadSouth`,
//! `AxisLeftTrigger@0.5`.
//!
//! Logical keys and key positions keep different forms, so both survive a
//! save. Text without a prefix reads as a logical key where one has that
//! name and as a position otherwise.
//!
//! The number in an axis entry is written and read by the caller:
//! [`threshold_text`] finds it.

use super::keymap::KeymapEntry;
use super::keys::{
    self, GamepadAxis, GamepadButton, Key, KeyChord, Modifiers, PhysicalKey, PointerButton,
};
use crate::scalar::Scalar;
use crate::text::{self, parse_byte, str_eq, strip_prefix, to_lower, to_upper, trim};
use vstd::prelude::*;
use vstd::string::{StrSliceExecFns, StringExecFns};

verus! {

/// A keymap entry with its key position as characters.
pub enum EntryModel {
    Unbound,
    Key(KeyChord),
    Physical(Seq<char>),
    Mouse(PointerButton),
    Pad(GamepadButton),
    Axis { axis: GamepadAxis, threshold: Scalar },
}

impl View for KeymapEntry {
    type V = EntryModel;

    open spec fn view(&self) -> EntryModel {
        match *self {
            KeymapEntry::Unbound => EntryModel::Unbound,
            KeymapEntry::Key(c) => EntryModel::Key(c),
            KeymapEntry::Physical(k) => EntryModel::Physical(k@),
            KeymapEntry::Mouse(b) => EntryModel::Mouse(b),
            KeymapEntry::Pad(b) => EntryModel::Pad(b),
            KeymapEntry::Axis { axis, threshold } => EntryModel::Axis { axis, threshold },
        }
    }
}

// ---------------------------------------------------------------------
// Writing
// ---------------------------------------------------------------------

/// Decimal digits of a byte.
pub open spec fn byte_text(n: u8) -> Seq<char> {
    let d = |k: int| ('0' as u32 + k) as char;
    if n >= 100 {
        seq![d(n as int / 100), d(n as int / 10 % 10), d(n as int % 10)]
    } else if n >= 10 {
        seq![d(n as int / 10), d(n as int % 10)]
    } else {
        seq![d(n as int)]
    }
}

pub open spec fn key_text(key: Key) -> Seq<char> {
    match key {
        Key::Character(c) => if c == ' ' {
            "Space"@
        } else {
            seq![text::upper(c)]
        },
        Key::Enter => "Enter"@,
        Key::Tab => "Tab"@,
        Key::Backspace => "Backspace"@,
        Key::Delete => "Delete"@,
        Key::Insert => "Insert"@,
        Key::Escape => "Escape"@,
        Key::ArrowLeft => "ArrowLeft"@,
        Key::ArrowRight => "ArrowRight"@,
        Key::ArrowUp => "ArrowUp"@,
        Key::ArrowDown => "ArrowDown"@,
        Key::Home => "Home"@,
        Key::End => "End"@,
        Key::PageUp => "PageUp"@,
        Key::PageDown => "PageDown"@,
        Key::Space => "Space"@,
        Key::ShiftLeft => "ShiftLeft"@,
        Key::ShiftRight => "ShiftRight"@,
        Key::F(n) => seq!['F'] + byte_text(n),
        Key::Unknown => Seq::empty(),
    }
}

/// The modifiers, each followed by `+`.
pub open spec fn modifier_text(m: Modifiers) -> Seq<char> {
    (if m.ctrl {
        "Ctrl+"@
    } else {
        Seq::empty()
    }) + (if m.shift {
        "Shift+"@
    } else {
        Seq::empty()
    }) + (if m.alt {
        "Alt+"@
    } else {
        Seq::empty()
    }) + (if m.meta {
        "Meta+"@
    } else {
        Seq::empty()
    })
}

pub open spec fn chord_text(c: KeyChord) -> Seq<char> {
    modifier_text(c.modifiers) + key_text(c.key)
}

pub open spec fn pad_text(b: GamepadButton) -> Seq<char> {
    match b {
        GamepadButton::South => "South"@,
        GamepadButton::East => "East"@,
        GamepadButton::West => "West"@,
        GamepadButton::North => "North"@,
        GamepadButton::Start => "Start"@,
        GamepadButton::Select => "Select"@,
        GamepadButton::LeftShoulder => "LeftShoulder"@,
        GamepadButton::RightShoulder => "RightShoulder"@,
        GamepadButton::LeftStick => "LeftStick"@,
        GamepadButton::RightStick => "RightStick"@,
        GamepadButton::DPadUp => "DPadUp"@,
        GamepadButton::DPadDown => "DPadDown"@,
        GamepadButton::DPadLeft => "DPadLeft"@,
        GamepadButton::DPadRight => "DPadRight"@,
    }
}

pub open spec fn axis_text(a: GamepadAxis) -> Seq<char> {
    match a {
        GamepadAxis::LeftStickX => "LeftStickX"@,
        GamepadAxis::LeftStickY => "LeftStickY"@,
        GamepadAxis::RightStickX => "RightStickX"@,
        GamepadAxis::RightStickY => "RightStickY"@,
        GamepadAxis::LeftTrigger => "LeftTrigger"@,
        GamepadAxis::RightTrigger => "RightTrigger"@,
    }
}

pub open spec fn mouse_text(b: PointerButton) -> Seq<char> {
    match b {
        PointerButton::Primary => "MouseLeft"@,
        PointerButton::Secondary => "MouseRight"@,
        PointerButton::Tertiary => "MouseMiddle"@,
    }
}

/// The text of an entry; `number` is that of an axis entry's threshold.
pub open spec fn entry_text(entry: EntryModel, number: Seq<char>) -> Seq<char> {
    match entry {
        EntryModel::Unbound => Seq::empty(),
        EntryModel::Key(c) => chord_text(c),
        EntryModel::Physical(code) => "phys:"@ + code,
        EntryModel::Mouse(b) => mouse_text(b),
        EntryModel::Pad(b) => "Pad"@ + pad_text(b),
        EntryModel::Axis { axis, threshold: _ } => "Axis"@ + axis_text(axis) + "@"@ + number,
    }
}

fn push_byte(out: &mut String, n: u8)
    ensures
        final(out)@ == old(out)@ + byte_text(n),
{
    let ghost before = out@;
    if n >= 100 {
        out.push((48 + n / 100) as char);
    }
    if n >= 10 {
        out.push((48 + n / 10 % 10) as char);
    }
    out.push((48 + n % 10) as char);
    assert(out@ =~= before + byte_text(n));
}

fn push_key(out: &mut String, key: Key)
    ensures
        final(out)@ == old(out)@ + key_text(key),
{
    let ghost before = out@;
    match key {
        Key::Character(c) => {
            if c == ' ' {
                out.append("Space");
            } else {
                out.push(to_upper(c));
                assert(out@ =~= before + key_text(key));
            }
        },
        Key::Enter => {
            out.append("Enter");
        },
        Key::Tab => {
            out.append("Tab");
        },
        Key::Backspace => {
            out.append("Backspace");
        },
        Key::Delete => {
            out.append("Delete");
        },
        Key::Insert => {
            out.append("Insert");
        },
        Key::Escape => {
            out.append("Escape");
        },
        Key::ArrowLeft => {
            out.append("ArrowLeft");
        },
        Key::ArrowRight => {
            out.append("ArrowRight");
        },
        Key::ArrowUp => {
            out.append("ArrowUp");
        },
        Key::ArrowDown => {
            out.append("ArrowDown");
        },
        Key::Home => {
            out.append("Home");
        },
        Key::End => {
            out.append("End");
        },
        Key::PageUp => {
            out.append("PageUp");
        },
        Key::PageDown => {
            out.append("PageDown");
        },
        Key::Space => {
            out.append("Space");
        },
        Key::ShiftLeft => {
            out.append("ShiftLeft");
        },
        Key::ShiftRight => {
            out.append("ShiftRight");
        },
        Key::F(n) => {
            out.push('F');
            push_byte(out, n);
            assert(out@ =~= before + key_text(key));
        },
        Key::Unknown => {
            assert(out@ =~= before + key_text(key));
        },
    }
}

fn encode_chord(chord: &KeyChord) -> (out: String)
    ensures
        out@ == chord_text(*chord),
{
    let mut out = String::new();
    if chord.modifiers.ctrl {
        out.append("Ctrl+");
    }
    if chord.modifiers.shift {
        out.append("Shift+");
    }
    if chord.modifiers.alt {
        out.append("Alt+");
    }
    if chord.modifiers.meta {
        out.append("Meta+");
    }
    assert(out@ =~= modifier_text(chord.modifiers));
    push_key(&mut out, chord.key);
    out
}

fn pad_name(button: GamepadButton) -> (s: &'static str)
    ensures
        s@ == pad_text(button),
{
    match button {
        GamepadButton::South => "South",
        GamepadButton::East => "East",
        GamepadButton::West => "West",
        GamepadButton::North => "North",
        GamepadButton::Start => "Start",
        GamepadButton::Select => "Select",
        GamepadButton::LeftShoulder => "LeftShoulder",
        GamepadButton::RightShoulder => "RightShoulder",
        GamepadButton::LeftStick => "LeftStick",
        GamepadButton::RightStick => "RightStick",
        GamepadButton::DPadUp => "DPadUp",
        GamepadButton::DPadDown => "DPadDown",
        GamepadButton::DPadLeft => "DPadLeft",
        GamepadButton::DPadRight => "DPadRight",
    }
}

fn axis_name(axis: GamepadAxis) -> (s: &'static str)
    ensures
        s@ == axis_text(axis),
{
    match axis {
        GamepadAxis::LeftStickX => "LeftStickX",
        GamepadAxis::LeftStickY => "LeftStickY",
        GamepadAxis::RightStickX => "RightStickX",
        GamepadAxis::RightStickY => "RightStickY",
        GamepadAxis::LeftTrigger => "LeftTrigger",
        GamepadAxis::RightTrigger => "RightTrigger",
    }
}

/// The text of an entry. `number` is the text of an axis entry's threshold;
/// other entries do not use it.
pub fn encode_keymap_entry(entry: &KeymapEntry, number: &str) -> (out: String)
    ensures
        out@ == entry_text(entry@, number@),
{
    let mut out = String::new();
    match *entry {
        KeymapEntry::Unbound => {},
        KeymapEntry::Key(chord) => {
            return encode_chord(&chord);
        },
        KeymapEntry::Physical(key) => {
            out.append("phys:");
            out.append(key.name());
            assert(out@ =~= entry_text(entry@, number@));
        },
        KeymapEntry::Mouse(button) => {
            match button {
                PointerButton::Primary => {
                    out.append("MouseLeft");
                },
                PointerButton::Secondary => {
                    out.append("MouseRight");
                },
                PointerButton::Tertiary => {
                    out.append("MouseMiddle");
                },
            }
            assert(out@ =~= entry_text(entry@, number@));
        },
        KeymapEntry::Pad(button) => {
            out.append("Pad");
            out.append(pad_name(button));
            assert(out@ =~= entry_text(entry@, number@));
        },
        KeymapEntry::Axis { axis, threshold: _ } => {
            out.append("Axis");
            out.append(axis_name(axis));
            out.append("@");
            out.append(number);
            assert(out@ =~= entry_text(entry@, number@));
        },
    }
    out
}

// ---------------------------------------------------------------------
// Reading
// ---------------------------------------------------------------------

/// The keys that go by a name.
pub open spec fn named_key(text: Seq<char>) -> Option<Key> {
    if text == "Enter"@ {
        Some(Key::Enter)
    } else if text == "Tab"@ {
        Some(Key::Tab)
    } else if text == "Backspace"@ {
        Some(Key::Backspace)
    } else if text == "Delete"@ {
        Some(Key::Delete)
    } else if text == "Insert"@ {
        Some(Key::Insert)
    } else if text == "Escape"@ {
        Some(Key::Escape)
    } else if text == "ArrowLeft"@ {
        Some(Key::ArrowLeft)
    } else if text == "ArrowRight"@ {
        Some(Key::ArrowRight)
    } else if text == "ArrowUp"@ {
        Some(Key::ArrowUp)
    } else if text == "ArrowDown"@ {
        Some(Key::ArrowDown)
    } else if text == "Home"@ {
        Some(Key::Home)
    } else if text == "End"@ {
        Some(Key::End)
    } else if text == "PageUp"@ {
        Some(Key::PageUp)
    } else if text == "PageDown"@ {
        Some(Key::PageDown)
    } else if text == "Space"@ {
        Some(Key::Space)
    } else if text == "ShiftLeft"@ {
        Some(Key::ShiftLeft)
    } else if text == "ShiftRight"@ {
        Some(Key::ShiftRight)
    } else {
        None
    }
}

/// The key a text names: by name, as a function key, or as a character.
pub open spec fn key_of(text: Seq<char>) -> Option<Key> {
    if named_key(text) is Some {
        named_key(text)
    } else if text::begins_with(text, seq!['F']) && (text::byte_value(text.skip(1)) matches Some(
        n,
    ) && 1 <= n <= 12) {
        Some(Key::F(text::byte_value(text.skip(1))->0 as u8))
    } else if text.len() == 1 {
        Some(Key::Character(text::lower(text[0])))
    } else {
        None
    }
}

/// The chord a text names: modifiers, then a key.
pub open spec fn chord_of(text: Seq<char>, m: Modifiers) -> Option<KeyChord>
    decreases text.len(),
{
    if text::begins_with(text, "Ctrl+"@) && "Ctrl+"@.len() > 0 {
        chord_of(text.skip("Ctrl+"@.len() as int), Modifiers { ctrl: true, ..m })
    } else if text::begins_with(text, "Shift+"@) && "Shift+"@.len() > 0 {
        chord_of(text.skip("Shift+"@.len() as int), Modifiers { shift: true, ..m })
    } else if text::begins_with(text, "Alt+"@) && "Alt+"@.len() > 0 {
        chord_of(text.skip("Alt+"@.len() as int), Modifiers { alt: true, ..m })
    } else if text::begins_with(text, "Meta+"@) && "Meta+"@.len() > 0 {
        chord_of(text.skip("Meta+"@.len() as int), Modifiers { meta: true, ..m })
    } else {
        match key_of(text) {
            Some(key) => Some(KeyChord { key, modifiers: m }),
            None => None,
        }
    }
}

pub open spec fn pad_named(text: Seq<char>) -> Option<GamepadButton> {
    if text == "South"@ {
        Some(GamepadButton::South)
    } else if text == "East"@ {
        Some(GamepadButton::East)
    } else if text == "West"@ {
        Some(GamepadButton::West)
    } else if text == "North"@ {
        Some(GamepadButton::North)
    } else if text == "Start"@ {
        Some(GamepadButton::Start)
    } else if text == "Select"@ {
        Some(GamepadButton::Select)
    } else if text == "LeftShoulder"@ {
        Some(GamepadButton::LeftShoulder)
    } else if text == "RightShoulder"@ {
        Some(GamepadButton::RightShoulder)
    } else if text == "LeftStick"@ {
        Some(GamepadButton::LeftStick)
    } else if text == "RightStick"@ {
        Some(GamepadButton::RightStick)
    } else if text == "DPadUp"@ {
        Some(GamepadButton::DPadUp)
    } else if text == "DPadDown"@ {
        Some(GamepadButton::DPadDown)
    } else if text == "DPadLeft"@ {
        Some(GamepadButton::DPadLeft)
    } else if text == "DPadRight"@ {
        Some(GamepadButton::DPadRight)
    } else {
        None
    }
}

pub open spec fn axis_named(text: Seq<char>) -> Option<GamepadAxis> {
    if text == "LeftStickX"@ {
        Some(GamepadAxis::LeftStickX)
    } else if text == "LeftStickY"@ {
        Some(GamepadAxis::LeftStickY)
    } else if text == "RightStickX"@ {
        Some(GamepadAxis::RightStickX)
    } else if text == "RightStickY"@ {
        Some(GamepadAxis::RightStickY)
    } else if text == "LeftTrigger"@ {
        Some(GamepadAxis::LeftTrigger)
    } else if text == "RightTrigger"@ {
        Some(GamepadAxis::RightTrigger)
    } else {
        None
    }
}

/// Place of the first `@`.
pub open spec fn first_at(s: Seq<char>, i: int) -> bool {
    &&& 0 <= i < s.len()
    &&& s[i] == '@'
    &&& forall|j: int| 0 <= j < i ==> s[j] != '@'
}

/// The axis and the number text of an axis entry.
pub open spec fn axis_split(text: Seq<char>) -> Option<(GamepadAxis, Seq<char>)> {
    if text::begins_with(text, "Axis"@) {
        let rest = text.skip("Axis"@.len() as int);
        if exists|i: int| first_at(rest, i) {
            let i = choose|i: int| first_at(rest, i);
            match axis_named(rest.take(i)) {
                Some(axis) => Some((axis, rest.skip(i + 1))),
                None => None,
            }
        } else {
            None
        }
    } else {
        None
    }
}

/// The position a code names, unless it is unknown.
pub open spec fn known_position(code: Seq<char>) -> Option<Seq<char>> {
    let at = keys::position_code(code);
    if at != "Unidentified"@ || code == "Unidentified"@ {
        Some(at)
    } else {
        None
    }
}

/// The entry a text without outer white space stands for. `threshold` is
/// what the number of an axis entry reads as, if it is one.
pub open spec fn trimmed_entry(text: Seq<char>, threshold: Option<Scalar>) -> EntryModel {
    if text.len() == 0 {
        EntryModel::Unbound
    } else if text == "MouseLeft"@ {
        EntryModel::Mouse(PointerButton::Primary)
    } else if text == "MouseRight"@ {
        EntryModel::Mouse(PointerButton::Secondary)
    } else if text == "MouseMiddle"@ {
        EntryModel::Mouse(PointerButton::Tertiary)
    } else if text::begins_with(text, "Pad"@) && pad_named(
        text.skip("Pad"@.len() as int),
    ) is Some {
        EntryModel::Pad(pad_named(text.skip("Pad"@.len() as int))->0)
    } else if axis_split(text) is Some && threshold is Some {
        EntryModel::Axis { axis: (axis_split(text)->0).0, threshold: threshold->0 }
    } else if text::begins_with(text, "phys:"@) && known_position(
        text.skip("phys:"@.len() as int),
    ) is Some {
        EntryModel::Physical(known_position(text.skip("phys:"@.len() as int))->0)
    } else if chord_of(text, keys::no_modifiers()) is Some {
        EntryModel::Key(chord_of(text, keys::no_modifiers())->0)
    } else if known_position(text) is Some {
        EntryModel::Physical(known_position(text)->0)
    } else {
        EntryModel::Unbound
    }
}

/// The entry a text stands for.
pub open spec fn entry_of(text: Seq<char>, threshold: Option<Scalar>) -> EntryModel {
    trimmed_entry(text::trimmed(text), threshold)
}

fn decode_named(text: &str) -> (r: Option<Key>)
    ensures
        r == named_key(text@),
{
    if str_eq(text, "Enter") {
        Some(Key::Enter)
    } else if str_eq(text, "Tab") {
        Some(Key::Tab)
    } else if str_eq(text, "Backspace") {
        Some(Key::Backspace)
    } else if str_eq(text, "Delete") {
        Some(Key::Delete)
    } else if str_eq(text, "Insert") {
        Some(Key::Insert)
    } else if str_eq(text, "Escape") {
        Some(Key::Escape)
    } else if str_eq(text, "ArrowLeft") {
        Some(Key::ArrowLeft)
    } else if str_eq(text, "ArrowRight") {
        Some(Key::ArrowRight)
    } else if str_eq(text, "ArrowUp") {
        Some(Key::ArrowUp)
    } else if str_eq(text, "ArrowDown") {
        Some(Key::ArrowDown)
    } else if str_eq(text, "Home") {
        Some(Key::Home)
    } else if str_eq(text, "End") {
        Some(Key::End)
    } else if str_eq(text, "PageUp") {
        Some(Key::PageUp)
    } else if str_eq(text, "PageDown") {
        Some(Key::PageDown)
    } else if str_eq(text, "Space") {
        Some(Key::Space)
    } else if str_eq(text, "ShiftLeft") {
        Some(Key::ShiftLeft)
    } else if str_eq(text, "ShiftRight") {
        Some(Key::ShiftRight)
    } else {
        None
    }
}

fn decode_key(text: &str) -> (r: Option<Key>)
    ensures
        r == key_of(text@),
{
    let named = decode_named(text);
    if named.is_some() {
        return named;
    }
    proof {
        reveal_strlit("F");
        assert("F"@ =~= seq!['F']);
    }
    if let Some(rest) = strip_prefix(text, "F") {
        if let Some(n) = parse_byte(rest) {
            if n >= 1 && n <= 12 {
                return Some(Key::F(n));
            }
        }
    }
    if text.unicode_len() == 1 {
        Some(Key::Character(to_lower(text.get_char(0))))
    } else {
        None
    }
}

fn decode_chord(text: &str) -> (r: Option<KeyChord>)
    ensures
        r == chord_of(text@, keys::no_modifiers()),
{
    let mut rest = text;
    let mut m = Modifiers::default();
    proof {
        reveal_strlit("Ctrl+");
        reveal_strlit("Shift+");
        reveal_strlit("Alt+");
        reveal_strlit("Meta+");
    }
    loop
        invariant
            chord_of(text@, keys::no_modifiers()) == chord_of(rest@, m),
            "Ctrl+"@.len() == 5,
            "Shift+"@.len() == 6,
            "Alt+"@.len() == 4,
            "Meta+"@.len() == 5,
        decreases rest@.len(),
    {
        if let Some(tail) = strip_prefix(rest, "Ctrl+") {
            m.ctrl = true;
            rest = tail;
        } else if let Some(tail) = strip_prefix(rest, "Shift+") {
            m.shift = true;
            rest = tail;
        } else if let Some(tail) = strip_prefix(rest, "Alt+") {
            m.alt = true;
            rest = tail;
        } else if let Some(tail) = strip_prefix(rest, "Meta+") {
            m.meta = true;
            rest = tail;
        } else {
            return match decode_key(rest) {
                Some(key) => Some(KeyChord { key, modifiers: m }),
                None => None,
            };
        }
    }
}

fn decode_pad_button(text: &str) -> (r: Option<GamepadButton>)
    ensures
        r == pad_named(text@),
{
    if str_eq(text, "South") {
        Some(GamepadButton::South)
    } else if str_eq(text, "East") {
        Some(GamepadButton::East)
    } else if str_eq(text, "West") {
        Some(GamepadButton::West)
    } else if str_eq(text, "North") {
        Some(GamepadButton::North)
    } else if str_eq(text, "Start") {
        Some(GamepadButton::Start)
    } else if str_eq(text, "Select") {
        Some(GamepadButton::Select)
    } else if str_eq(text, "LeftShoulder") {
        Some(GamepadButton::LeftShoulder)
    } else if str_eq(text, "RightShoulder") {
        Some(GamepadButton::RightShoulder)
    } else if str_eq(text, "LeftStick") {
        Some(GamepadButton::LeftStick)
    } else if str_eq(text, "RightStick") {
        Some(GamepadButton::RightStick)
    } else if str_eq(text, "DPadUp") {
        Some(GamepadButton::DPadUp)
    } else if str_eq(text, "DPadDown") {
        Some(GamepadButton::DPadDown)
    } else if str_eq(text, "DPadLeft") {
        Some(GamepadButton::DPadLeft)
    } else if str_eq(text, "DPadRight") {
        Some(GamepadButton::DPadRight)
    } else {
        None
    }
}

fn decode_axis(text: &str) -> (r: Option<GamepadAxis>)
    ensures
        r == axis_named(text@),
{
    if str_eq(text, "LeftStickX") {
        Some(GamepadAxis::LeftStickX)
    } else if str_eq(text, "LeftStickY") {
        Some(GamepadAxis::LeftStickY)
    } else if str_eq(text, "RightStickX") {
        Some(GamepadAxis::RightStickX)
    } else if str_eq(text, "RightStickY") {
        Some(GamepadAxis::RightStickY)
    } else if str_eq(text, "LeftTrigger") {
        Some(GamepadAxis::LeftTrigger)
    } else if str_eq(text, "RightTrigger") {
        Some(GamepadAxis::RightTrigger)
    } else {
        None
    }
}

fn split_axis(text: &str) -> (r: Option<(GamepadAxis, &str)>)
    ensures
        match r {
            Some((axis, number)) => axis_split(text@) == Some((axis, number@)),
            None => axis_split(text@) is None,
        },
{
    let rest = match strip_prefix(text, "Axis") {
        Some(rest) => rest,
        None => {
            return None;
        },
    };
    let chars = text::chars_of(rest);
    let n: usize = chars.len();
    let mut i: usize = 0;
    while i < n && chars[i] != '@'
        invariant
            i <= n,
            n == chars@.len(),
            forall|j: int| 0 <= j < i ==> chars@[j] != '@',
        decreases n - i,
    {
        i += 1;
    }
    if i == n {
        assert forall|k: int| !first_at(rest@, k) by {}
        return None;
    }
    proof {
        assert(first_at(rest@, i as int));
        let c = choose|c: int| first_at(rest@, c);
        assert(first_at(rest@, c));
        assert(c == i);
        assert(rest@.subrange(0, i as int) =~= rest@.take(i as int));
        assert(rest@.subrange(i + 1, n as int) =~= rest@.skip(i + 1));
    }
    match decode_axis(rest.substring_char(0, i)) {
        Some(axis) => Some((axis, rest.substring_char(i + 1, n))),
        None => None,
    }
}

/// The number text of an axis entry, for the caller to read; `None` when
/// the text is no axis entry.
pub fn threshold_text(text: &str) -> (r: Option<&str>)
    ensures
        match r {
            Some(number) => axis_split(text::trimmed(text@)) matches Some(split)
                && split.1 == number@,
            None => axis_split(text::trimmed(text@)) is None,
        },
{
    match split_axis(trim(text)) {
        Some((_, number)) => Some(number),
        None => None,
    }
}

fn decode_position(text: &str) -> (r: Option<PhysicalKey>)
    ensures
        match r {
            Some(k) => known_position(text@) == Some(k@),
            None => known_position(text@) is None,
        },
{
    let key = PhysicalKey::from_name(text);
    if !str_eq(key.name(), "Unidentified") || str_eq(text, "Unidentified") {
        Some(key)
    } else {
        None
    }
}

/// The entry a text stands for; text that is no entry is unbound.
/// `threshold` is what [`threshold_text`] of the same text reads as, `None`
/// when it is no number.
pub fn decode_keymap_entry(text: &str, threshold: Option<Scalar>) -> (r: KeymapEntry)
    ensures
        r@ == entry_of(text@, threshold),
{
    let text = trim(text);
    if text.is_empty() {
        return KeymapEntry::Unbound;
    }
    if str_eq(text, "MouseLeft") {
        return KeymapEntry::Mouse(PointerButton::Primary);
    }
    if str_eq(text, "MouseRight") {
        return KeymapEntry::Mouse(PointerButton::Secondary);
    }
    if str_eq(text, "MouseMiddle") {
        return KeymapEntry::Mouse(PointerButton::Tertiary);
    }
    if let Some(name) = strip_prefix(text, "Pad") {
        if let Some(button) = decode_pad_button(name) {
            return KeymapEntry::Pad(button);
        }
    }
    if let Some((axis, _)) = split_axis(text) {
        if let Some(threshold) = threshold {
            return KeymapEntry::Axis { axis, threshold };
        }
    }
    if let Some(name) = strip_prefix(text, "phys:") {
        if let Some(key) = decode_position(name) {
            return KeymapEntry::Physical(key);
        }
    }
    if let Some(chord) = decode_chord(text) {
        return KeymapEntry::Key(chord);
    }
    if let Some(key) = decode_position(text) {
        return KeymapEntry::Physical(key);
    }
    KeymapEntry::Unbound
}

// ---------------------------------------------------------------------
// Laws
// ---------------------------------------------------------------------

/// A key whose text can be read back: characters in lower case that are no
/// white space, function keys 1 to 12, and every key that has a name.
pub open spec fn writable_key(key: Key) -> bool {
    match key {
        Key::Character(c) => !text::is_space(c) && text::lower(c) == c,
        Key::F(n) => 1 <= n <= 12,
        Key::Unknown => false,
        _ => true,
    }
}

/// An entry whose text can be read back; `number` is the text of an axis
/// entry's threshold.
pub open spec fn writable(entry: EntryModel, number: Seq<char>) -> bool {
    match entry {
        EntryModel::Key(c) => writable_key(c.key) && !c.modifiers.command,
        EntryModel::Physical(code) => keys::canonical(code),
        EntryModel::Axis { axis: _, threshold: _ } => number.len() > 0 && !text::is_space(
            number.last(),
        ),
        _ => true,
    }
}

/// Reading back what was written gives the entry again. The number of an
/// axis entry comes back to the caller as it was written.
pub proof fn law_entries_round_trip(entry: EntryModel, number: Seq<char>)
    requires
        writable(entry, number),
    ensures
        entry matches EntryModel::Axis { axis, threshold } ==> axis_split(
            text::trimmed(entry_text(entry, number)),
        ) == Some((axis, number)) && entry_of(entry_text(entry, number), Some(threshold)) == entry,
        !(entry is Axis) ==> forall|t: Option<Scalar>|
            #[trigger] entry_of(entry_text(entry, number), t) == entry,
{
    let text = entry_text(entry, number);
    match entry {
        EntryModel::Unbound => {
            text::law_trim_keeps(text);
        },
        EntryModel::Key(c) => {
            lemma_chord_text(c);
            text::law_trim_keeps(text);
        },
        EntryModel::Physical(code) => {
            lemma_position_text(code);
        },
        EntryModel::Mouse(b) => {
            reveal_strlit("MouseLeft");
            reveal_strlit("MouseRight");
            reveal_strlit("MouseMiddle");
            text::law_trim_keeps(text);
        },
        EntryModel::Pad(b) => {
            lemma_pad_text(b);
        },
        EntryModel::Axis { axis, threshold } => {
            lemma_axis_text(axis, number);
        },
    }
}

/// Logical keys and key positions never share a text.
pub proof fn law_logical_and_physical_differ(c: KeyChord, code: Seq<char>, number: Seq<char>)
    requires
        writable(EntryModel::Key(c), number),
        writable(EntryModel::Physical(code), number),
    ensures
        entry_text(EntryModel::Key(c), number) != entry_text(EntryModel::Physical(code), number),
{
    law_entries_round_trip(EntryModel::Key(c), number);
    law_entries_round_trip(EntryModel::Physical(code), number);
    let t: Option<Scalar> = None;
    assert(entry_of(entry_text(EntryModel::Key(c), number), t) == EntryModel::Key(c));
    assert(entry_of(entry_text(EntryModel::Physical(code), number), t) == EntryModel::Physical(
        code,
    ));
}

proof fn lemma_not_prefix(s: Seq<char>, p: Seq<char>, i: int)
    requires
        0 <= i < p.len(),
        s.len() <= i || s[i] != p[i],
    ensures
        !text::begins_with(s, p),
{
    if text::begins_with(s, p) {
        assert(s.take(p.len() as int)[i] == p[i]);
    }
}

proof fn lemma_prefix(p: Seq<char>, rest: Seq<char>)
    ensures
        text::begins_with(p + rest, p),
        (p + rest).skip(p.len() as int) == rest,
{
    assert((p + rest).take(p.len() as int) =~= p);
    assert((p + rest).skip(p.len() as int) =~= rest);
}

/// A key's name is read as that key.
proof fn lemma_named_key(key: Key)
    requires
        key != Key::Unknown,
        !(key is Character),
        !(key is F),
    ensures
        named_key(key_text(key)) == Some(key),
{
    reveal_strlit("Enter");
    reveal_strlit("Tab");
    reveal_strlit("Backspace");
    reveal_strlit("Delete");
    reveal_strlit("Insert");
    reveal_strlit("Escape");
    reveal_strlit("ArrowLeft");
    reveal_strlit("ArrowRight");
    reveal_strlit("ArrowUp");
    reveal_strlit("ArrowDown");
    reveal_strlit("Home");
    reveal_strlit("End");
    reveal_strlit("PageUp");
    reveal_strlit("PageDown");
    reveal_strlit("Space");
    reveal_strlit("ShiftLeft");
    reveal_strlit("ShiftRight");
    assert("Enter"@.len() == 5);
    assert("Tab"@.len() == 3);
    assert("Backspace"@.len() == 9);
    assert("Delete"@.len() == 6);
    assert("Insert"@.len() == 6);
    assert("Escape"@.len() == 6);
    assert("ArrowLeft"@.len() == 9);
    assert("ArrowRight"@.len() == 10);
    assert("ArrowUp"@.len() == 7);
    assert("ArrowDown"@.len() == 9);
    assert("Home"@.len() == 4);
    assert("End"@.len() == 3);
    assert("PageUp"@.len() == 6);
    assert("PageDown"@.len() == 8);
    assert("Space"@.len() == 5);
    assert("ShiftLeft"@.len() == 9);
    assert("ShiftRight"@.len() == 10);
    assert("Enter"@[0] != "Space"@[0]);
    assert("Tab"@[0] != "End"@[0]);
    assert("Backspace"@[0] != "ArrowLeft"@[0]);
    assert("Backspace"@[0] != "ArrowDown"@[0]);
    assert("Backspace"@[0] != "ShiftLeft"@[0]);
    assert("Delete"@[0] != "Insert"@[0]);
    assert("Delete"@[0] != "Escape"@[0]);
    assert("Delete"@[0] != "PageUp"@[0]);
    assert("Insert"@[0] != "Escape"@[0]);
    assert("Insert"@[0] != "PageUp"@[0]);
    assert("Escape"@[0] != "PageUp"@[0]);
    assert("ArrowLeft"@[5] != "ArrowDown"@[5]);
    assert("ArrowLeft"@[0] != "ShiftLeft"@[0]);
    assert("ArrowRight"@[0] != "ShiftRight"@[0]);
    assert("ArrowDown"@[0] != "ShiftLeft"@[0]);
}

/// Text that is no key's name.
proof fn lemma_no_name(text: Seq<char>)
    requires
        text.len() == 1 || (text.len() > 1 && text[0] == 'F'),
    ensures
        named_key(text) is None,
{
    reveal_strlit("Enter");
    reveal_strlit("Tab");
    reveal_strlit("Backspace");
    reveal_strlit("Delete");
    reveal_strlit("Insert");
    reveal_strlit("Escape");
    reveal_strlit("ArrowLeft");
    reveal_strlit("ArrowRight");
    reveal_strlit("ArrowUp");
    reveal_strlit("ArrowDown");
    reveal_strlit("Home");
    reveal_strlit("End");
    reveal_strlit("PageUp");
    reveal_strlit("PageDown");
    reveal_strlit("Space");
    reveal_strlit("ShiftLeft");
    reveal_strlit("ShiftRight");
}

proof fn lemma_key_text(key: Key)
    requires
        writable_key(key),
    ensures
        key_of(key_text(key)) == Some(key),
        key_text(key).len() > 0,
        !text::is_space(key_text(key)[0]),
        !text::is_space(key_text(key).last()),
{
    let text = key_text(key);
    match key {
        Key::Character(c) => {
            text::law_case_round_trip(c);
            lemma_no_name(text);
            assert(text.skip(1) =~= Seq::<char>::empty());
            assert(!text::all_digits(text.skip(1)));
        },
        Key::F(n) => {
            lemma_no_name(text);
            let digits = byte_text(n);
            assert(text.take(1) =~= seq!['F']);
            assert(text.skip(1) =~= digits);
            assert(digits.last() as u32 - '0' as u32 == n as int % 10);
            assert(Seq::<char>::empty().len() == 0);
            assert(text::digits_value(Seq::<char>::empty()) == 0);
            if n >= 10 {
                let tens = digits.drop_last();
                assert(tens =~= seq![('0' as u32 + n as int / 10) as char]);
                assert(tens.drop_last() =~= Seq::<char>::empty());
                assert(tens.last() as u32 - '0' as u32 == n as int / 10);
                assert(text::digits_value(tens) == n as int / 10);
                assert(text::digits_value(digits) == n as int / 10 * 10 + n as int % 10);
            } else {
                assert(digits.drop_last() =~= Seq::<char>::empty());
                assert(text::digits_value(digits) == n as int % 10);
            }
            assert(text::all_digits(digits));
        },
        _ => {
            lemma_named_key(key);
            reveal_strlit("Enter");
            reveal_strlit("Tab");
            reveal_strlit("Backspace");
            reveal_strlit("Delete");
            reveal_strlit("Insert");
            reveal_strlit("Escape");
            reveal_strlit("ArrowLeft");
            reveal_strlit("ArrowRight");
            reveal_strlit("ArrowUp");
            reveal_strlit("ArrowDown");
            reveal_strlit("Home");
            reveal_strlit("End");
            reveal_strlit("PageUp");
            reveal_strlit("PageDown");
            reveal_strlit("Space");
            reveal_strlit("ShiftLeft");
            reveal_strlit("ShiftRight");
        },
    }
}

/// No key's text begins with a modifier.
proof fn lemma_key_no_modifier(key: Key)
    requires
        writable_key(key),
    ensures
        !text::begins_with(key_text(key), "Ctrl+"@),
        !text::begins_with(key_text(key), "Shift+"@),
        !text::begins_with(key_text(key), "Alt+"@),
        !text::begins_with(key_text(key), "Meta+"@),
        !text::begins_with(key_text(key), "Axis"@),
        !text::begins_with(key_text(key), "Pad"@),
        !text::begins_with(key_text(key), "phys:"@),
        key_text(key) != "MouseLeft"@,
        key_text(key) != "MouseRight"@,
        key_text(key) != "MouseMiddle"@,
{
    reveal_strlit("Ctrl+");
    reveal_strlit("Shift+");
    reveal_strlit("Alt+");
    reveal_strlit("Meta+");
    reveal_strlit("Axis");
    reveal_strlit("Pad");
    reveal_strlit("phys:");
    reveal_strlit("MouseLeft");
    reveal_strlit("MouseRight");
    reveal_strlit("MouseMiddle");
    reveal_strlit("Enter");
    reveal_strlit("Tab");
    reveal_strlit("Backspace");
    reveal_strlit("Delete");
    reveal_strlit("Insert");
    reveal_strlit("Escape");
    reveal_strlit("ArrowLeft");
    reveal_strlit("ArrowRight");
    reveal_strlit("ArrowUp");
    reveal_strlit("ArrowDown");
    reveal_strlit("Home");
    reveal_strlit("End");
    reveal_strlit("PageUp");
    reveal_strlit("PageDown");
    reveal_strlit("Space");
    reveal_strlit("ShiftLeft");
    reveal_strlit("ShiftRight");
    let text = key_text(key);
    lemma_not_prefix(text, "Ctrl+"@, if text.len() == 1 { 1 } else { 0 });
    lemma_not_prefix(text, "Meta+"@, if text.len() == 1 { 1 } else { 0 });
    lemma_not_prefix(text, "phys:"@, if text.len() == 1 { 1 } else { 0 });
    lemma_not_prefix(text, "Alt+"@, if text.len() > 1 && text[0] != 'A' { 0 } else { 1 });
    lemma_not_prefix(text, "Axis"@, if text.len() > 1 && text[0] != 'A' { 0 } else { 1 });
    lemma_not_prefix(
        text,
        "Shift+"@,
        if text.len() > 1 && text[0] != 'S' {
            0
        } else if text.len() > 1 && text[1] == 'h' {
            5
        } else {
            1
        },
    );
    lemma_not_prefix(
        text,
        "Pad"@,
        if text.len() > 1 && text[0] != 'P' {
            0
        } else {
            2
        },
    );
}

/// Modifiers in front of a key are read back.
proof fn lemma_chord_of(c: KeyChord)
    requires
        writable_key(c.key),
        !c.modifiers.command,
    ensures
        chord_of(chord_text(c), keys::no_modifiers()) == Some(c),
        chord_text(c).len() > 0,
        !text::is_space(chord_text(c)[0]),
        !text::is_space(chord_text(c).last()),
        has_modifier(c.modifiers) ==> chord_text(c).len() > 1 && modifier_head(
            chord_text(c)[0],
            chord_text(c)[1],
        ),
{
    reveal_strlit("Ctrl+");
    reveal_strlit("Shift+");
    reveal_strlit("Alt+");
    reveal_strlit("Meta+");
    let key = key_text(c.key);
    lemma_key_text(c.key);
    lemma_key_no_modifier(c.key);
    let m = c.modifiers;
    let n0 = keys::no_modifiers();
    let n1 = Modifiers { ctrl: m.ctrl, ..n0 };
    let n2 = Modifiers { shift: m.shift, ..n1 };
    let n3 = Modifiers { alt: m.alt, ..n2 };
    let n4 = Modifiers { meta: m.meta, ..n3 };
    assert(n4 == m);
    assert(chord_of(key, m) == Some(c));
    let t3 = if m.meta {
        "Meta+"@ + key
    } else {
        key
    };
    if m.meta {
        lemma_prefix("Meta+"@, key);
        lemma_not_prefix(t3, "Ctrl+"@, 0);
        lemma_not_prefix(t3, "Shift+"@, 0);
        lemma_not_prefix(t3, "Alt+"@, 0);
    }
    assert(chord_of(t3, n3) == Some(c));
    let t2 = if m.alt {
        "Alt+"@ + t3
    } else {
        t3
    };
    if m.alt {
        lemma_prefix("Alt+"@, t3);
        lemma_not_prefix(t2, "Ctrl+"@, 0);
        lemma_not_prefix(t2, "Shift+"@, 0);
    }
    assert(chord_of(t2, n2) == Some(c));
    let t1 = if m.shift {
        "Shift+"@ + t2
    } else {
        t2
    };
    if m.shift {
        lemma_prefix("Shift+"@, t2);
        lemma_not_prefix(t1, "Ctrl+"@, 0);
    }
    assert(chord_of(t1, n1) == Some(c));
    let t0 = if m.ctrl {
        "Ctrl+"@ + t1
    } else {
        t1
    };
    if m.ctrl {
        lemma_prefix("Ctrl+"@, t1);
    }
    assert(chord_of(t0, n0) == Some(c));
    assert(chord_text(c) =~= t0);
    assert(t0.last() == key.last());
}

/// The first two characters of a modifier.
spec fn modifier_head(a: char, b: char) -> bool {
    ||| a == 'C' && b == 't'
    ||| a == 'S' && b == 'h'
    ||| a == 'A' && b == 'l'
    ||| a == 'M' && b == 'e'
}

/// Some modifier that is written down.
spec fn has_modifier(m: Modifiers) -> bool {
    m.ctrl || m.shift || m.alt || m.meta
}

/// A chord's text is read as a chord and as nothing else.
proof fn lemma_chord_text(c: KeyChord)
    requires
        writable_key(c.key),
        !c.modifiers.command,
    ensures
        forall|t: Option<Scalar>| #[trigger] trimmed_entry(chord_text(c), t) == EntryModel::Key(c),
        chord_text(c).len() > 0,
        !text::is_space(chord_text(c)[0]),
        !text::is_space(chord_text(c).last()),
{
    lemma_chord_of(c);
    lemma_key_no_modifier(c.key);
    let m = c.modifiers;
    let t0 = chord_text(c);
    reveal_strlit("Axis");
    reveal_strlit("Pad");
    reveal_strlit("phys:");
    reveal_strlit("MouseLeft");
    reveal_strlit("MouseRight");
    reveal_strlit("MouseMiddle");
    if has_modifier(m) {
        lemma_not_prefix(t0, "Axis"@, if t0[0] == 'A' { 1 } else { 0 });
        lemma_not_prefix(t0, "Pad"@, 0);
        lemma_not_prefix(t0, "phys:"@, 0);
        assert(t0[1] != 'o');
        assert("MouseLeft"@[1] == 'o');
        assert("MouseRight"@[1] == 'o');
        assert("MouseMiddle"@[1] == 'o');
    } else {
        assert(t0 =~= key_text(c.key));
    }
}

proof fn lemma_position_text(code: Seq<char>)
    requires
        keys::canonical(code),
    ensures
        forall|t: Option<Scalar>|
            #[trigger] entry_of("phys:"@ + code, t) == EntryModel::Physical(code),
{
    reveal_strlit("phys:");
    reveal_strlit("Pad");
    reveal_strlit("Axis");
    reveal_strlit("MouseLeft");
    reveal_strlit("MouseRight");
    reveal_strlit("MouseMiddle");
    let text = "phys:"@ + code;
    lemma_prefix("phys:"@, code);
    lemma_not_prefix(text, "Pad"@, 0);
    lemma_not_prefix(text, "Axis"@, 0);
    assert(text.last() == code[code.len() - 1]);
    text::law_trim_keeps(text);
}

proof fn lemma_pad_named(b: GamepadButton)
    ensures
        pad_named(pad_text(b)) == Some(b),
        pad_text(b).len() > 0,
        !text::is_space(pad_text(b).last()),
{
    reveal_strlit("South");
    reveal_strlit("East");
    reveal_strlit("West");
    reveal_strlit("North");
    reveal_strlit("Start");
    reveal_strlit("Select");
    reveal_strlit("LeftShoulder");
    reveal_strlit("RightShoulder");
    reveal_strlit("LeftStick");
    reveal_strlit("RightStick");
    reveal_strlit("DPadUp");
    reveal_strlit("DPadDown");
    reveal_strlit("DPadLeft");
    reveal_strlit("DPadRight");
    assert("South"@.len() == 5);
    assert("East"@.len() == 4);
    assert("West"@.len() == 4);
    assert("North"@.len() == 5);
    assert("Start"@.len() == 5);
    assert("Select"@.len() == 6);
    assert("LeftShoulder"@.len() == 12);
    assert("RightShoulder"@.len() == 13);
    assert("LeftStick"@.len() == 9);
    assert("RightStick"@.len() == 10);
    assert("DPadUp"@.len() == 6);
    assert("DPadDown"@.len() == 8);
    assert("DPadLeft"@.len() == 8);
    assert("DPadRight"@.len() == 9);
    assert("South"@[0] != "North"@[0]);
    assert("South"@[1] != "Start"@[1]);
    assert("East"@[0] != "West"@[0]);
    assert("North"@[0] != "Start"@[0]);
    assert("Select"@[0] != "DPadUp"@[0]);
    assert("LeftStick"@[0] != "DPadRight"@[0]);
    assert("DPadDown"@[4] != "DPadLeft"@[4]);
}

proof fn lemma_axis_named(axis: GamepadAxis)
    ensures
        axis_named(axis_text(axis)) == Some(axis),
        forall|j: int| 0 <= j < axis_text(axis).len() ==> axis_text(axis)[j] != '@',
{
    reveal_strlit("LeftStickX");
    reveal_strlit("LeftStickY");
    reveal_strlit("RightStickX");
    reveal_strlit("RightStickY");
    reveal_strlit("LeftTrigger");
    reveal_strlit("RightTrigger");
    assert("LeftStickX"@[9] != "LeftStickY"@[9]);
    assert("RightStickX"@[10] != "RightStickY"@[10]);
    assert("RightStickX"@[0] != "LeftTrigger"@[0]);
    assert("RightStickY"@[0] != "LeftTrigger"@[0]);
}

proof fn lemma_pad_text(b: GamepadButton)
    ensures
        forall|t: Option<Scalar>|
            #[trigger] entry_of("Pad"@ + pad_text(b), t) == EntryModel::Pad(b),
{
    reveal_strlit("Pad");
    reveal_strlit("MouseLeft");
    reveal_strlit("MouseRight");
    reveal_strlit("MouseMiddle");
    lemma_pad_named(b);
    let text = "Pad"@ + pad_text(b);
    lemma_prefix("Pad"@, pad_text(b));
    assert(text.last() == pad_text(b).last());
    text::law_trim_keeps(text);
}

proof fn lemma_axis_text(axis: GamepadAxis, number: Seq<char>)
    requires
        number.len() > 0,
        !text::is_space(number.last()),
    ensures
        axis_split(text::trimmed("Axis"@ + axis_text(axis) + "@"@ + number)) == Some(
            (axis, number),
        ),
        forall|t: Scalar|
            #[trigger] entry_of("Axis"@ + axis_text(axis) + "@"@ + number, Some(t))
                == (EntryModel::Axis { axis, threshold: t }),
{
    reveal_strlit("Axis");
    reveal_strlit("Pad");
    reveal_strlit("@");
    reveal_strlit("MouseLeft");
    reveal_strlit("MouseRight");
    reveal_strlit("MouseMiddle");
    lemma_axis_named(axis);
    let name = axis_text(axis);
    let text = "Axis"@ + name + "@"@ + number;
    let rest = name + "@"@ + number;
    assert(text =~= "Axis"@ + rest);
    lemma_prefix("Axis"@, rest);
    lemma_not_prefix(text, "Pad"@, 0);
    assert(text.last() == number.last());
    text::law_trim_keeps(text);
    let i = name.len() as int;
    assert(rest[i] == '@');
    assert forall|j: int| 0 <= j < i implies rest[j] != '@' by {
        assert(rest[j] == name[j]);
    }
    assert(first_at(rest, i));
    let c = choose|c: int| first_at(rest, c);
    assert(first_at(rest, c));
    assert(c == i);
    assert(rest.take(i) =~= name);
    assert(rest.skip(i + 1) =~= number);
    assert(axis_named(name) == Some(axis));
}

/// Modifiers are written in front of the key, control first, then shift,
/// alt and meta, each as its name with a plus; without any there is only
/// the key.
pub proof fn law_modifiers_are_written_in_order(m: Modifiers, key: Key)
    ensures
        modifier_text(keys::no_modifiers()).len() == 0,
        m.ctrl && !m.shift && !m.alt && !m.meta ==> modifier_text(m) == "Ctrl+"@,
        !m.ctrl && m.shift && !m.alt && !m.meta ==> modifier_text(m) == "Shift+"@,
        !m.ctrl && !m.shift && m.alt && !m.meta ==> modifier_text(m) == "Alt+"@,
        !m.ctrl && !m.shift && !m.alt && m.meta ==> modifier_text(m) == "Meta+"@,
        m.ctrl ==> modifier_text(m) == "Ctrl+"@ + modifier_text(Modifiers { ctrl: false, ..m }),
        !m.ctrl && m.shift ==> modifier_text(m) == "Shift+"@ + modifier_text(
            Modifiers { shift: false, ..m },
        ),
        !m.ctrl && !m.shift && m.alt ==> modifier_text(m) == "Alt+"@ + modifier_text(
            Modifiers { alt: false, ..m },
        ),
        chord_text(KeyChord { key, modifiers: m }) == modifier_text(m) + key_text(key),
{
    let none = Seq::<char>::empty();
    assert(modifier_text(keys::no_modifiers()) =~= none);
    if m.ctrl {
        assert(modifier_text(m) =~= "Ctrl+"@ + modifier_text(Modifiers { ctrl: false, ..m }));
    } else if m.shift {
        assert(modifier_text(m) =~= "Shift+"@ + modifier_text(Modifiers { shift: false, ..m }));
    } else if m.alt {
        assert(modifier_text(m) =~= "Alt+"@ + modifier_text(Modifiers { alt: false, ..m }));
    }
    if m.ctrl && !m.shift && !m.alt && !m.meta {
        assert(modifier_text(m) =~= "Ctrl+"@);
    }
    if !m.ctrl && m.shift && !m.alt && !m.meta {
        assert(modifier_text(m) =~= "Shift+"@);
    }
    if !m.ctrl && !m.shift && m.alt && !m.meta {
        assert(modifier_text(m) =~= "Alt+"@);
    }
    if !m.ctrl && !m.shift && !m.alt && m.meta {
        assert(modifier_text(m) =~= "Meta+"@);
    }
}

/// Every kind of entry has its mark on the wire: nothing for none, `phys:`
/// before a position, `Pad` before a button, `Axis` before an axis with its
/// threshold behind an `@`, and mouse buttons by their side.
pub proof fn law_entries_carry_their_mark(
    code: Seq<char>,
    b: GamepadButton,
    axis: GamepadAxis,
    threshold: Scalar,
    number: Seq<char>,
)
    ensures
        entry_text(EntryModel::Unbound, number).len() == 0,
        entry_text(EntryModel::Physical(code), number) == "phys:"@ + code,
        entry_text(EntryModel::Pad(b), number) == "Pad"@ + pad_text(b),
        entry_text(EntryModel::Axis { axis, threshold }, number) == "Axis"@ + axis_text(axis) + "@"@
            + number,
        entry_text(EntryModel::Mouse(PointerButton::Primary), number) == "MouseLeft"@,
        entry_text(EntryModel::Mouse(PointerButton::Secondary), number) == "MouseRight"@,
        entry_text(EntryModel::Mouse(PointerButton::Tertiary), number) == "MouseMiddle"@,
{
}

/// Buttons are written by their names: those of the face by their place,
/// those of the cross behind `DPad`, and the paired ones behind their side.
pub proof fn law_buttons_are_written_by_name()
    ensures
        pad_text(GamepadButton::South) == "South"@,
        pad_text(GamepadButton::East) == "East"@,
        pad_text(GamepadButton::West) == "West"@,
        pad_text(GamepadButton::North) == "North"@,
        pad_text(GamepadButton::Start) == "Start"@,
        pad_text(GamepadButton::Select) == "Select"@,
        pad_text(GamepadButton::LeftShoulder) == "Left"@ + "Shoulder"@,
        pad_text(GamepadButton::RightShoulder) == "Right"@ + "Shoulder"@,
        pad_text(GamepadButton::LeftStick) == "Left"@ + "Stick"@,
        pad_text(GamepadButton::RightStick) == "Right"@ + "Stick"@,
        pad_text(GamepadButton::DPadUp) == "DPad"@ + "Up"@,
        pad_text(GamepadButton::DPadDown) == "DPad"@ + "Down"@,
        pad_text(GamepadButton::DPadLeft) == "DPad"@ + "Left"@,
        pad_text(GamepadButton::DPadRight) == "DPad"@ + "Right"@,
{
    reveal_strlit("Left");
    reveal_strlit("Right");
    reveal_strlit("Shoulder");
    reveal_strlit("Stick");
    reveal_strlit("DPad");
    reveal_strlit("Up");
    reveal_strlit("Down");
    reveal_strlit("LeftShoulder");
    reveal_strlit("RightShoulder");
    reveal_strlit("LeftStick");
    reveal_strlit("RightStick");
    reveal_strlit("DPadUp");
    reveal_strlit("DPadDown");
    reveal_strlit("DPadLeft");
    reveal_strlit("DPadRight");
    assert("LeftShoulder"@ =~= "Left"@ + "Shoulder"@);
    assert("RightShoulder"@ =~= "Right"@ + "Shoulder"@);
    assert("LeftStick"@ =~= "Left"@ + "Stick"@);
    assert("RightStick"@ =~= "Right"@ + "Stick"@);
    assert("DPadUp"@ =~= "DPad"@ + "Up"@);
    assert("DPadDown"@ =~= "DPad"@ + "Down"@);
    assert("DPadLeft"@ =~= "DPad"@ + "Left"@);
    assert("DPadRight"@ =~= "DPad"@ + "Right"@);
}

/// Axes are written by their side, what they are, and their direction.
pub proof fn law_axes_are_written_by_name()
    ensures
        axis_text(GamepadAxis::LeftStickX) == "Left"@ + "StickX"@,
        axis_text(GamepadAxis::LeftStickY) == "Left"@ + "StickY"@,
        axis_text(GamepadAxis::RightStickX) == "Right"@ + "StickX"@,
        axis_text(GamepadAxis::RightStickY) == "Right"@ + "StickY"@,
        axis_text(GamepadAxis::LeftTrigger) == "Left"@ + "Trigger"@,
        axis_text(GamepadAxis::RightTrigger) == "Right"@ + "Trigger"@,
{
    reveal_strlit("Left");
    reveal_strlit("Right");
    reveal_strlit("StickX");
    reveal_strlit("StickY");
    reveal_strlit("Trigger");
    reveal_strlit("LeftStickX");
    reveal_strlit("LeftStickY");
    reveal_strlit("RightStickX");
    reveal_strlit("RightStickY");
    reveal_strlit("LeftTrigger");
    reveal_strlit("RightTrigger");
    assert("LeftStickX"@ =~= "Left"@ + "StickX"@);
    assert("LeftStickY"@ =~= "Left"@ + "StickY"@);
    assert("RightStickX"@ =~= "Right"@ + "StickX"@);
    assert("RightStickY"@ =~= "Right"@ + "StickY"@);
    assert("LeftTrigger"@ =~= "Left"@ + "Trigger"@);
    assert("RightTrigger"@ =~= "Right"@ + "Trigger"@);
}

/// A key that has a name is written by the name of the position that gives
/// it, so that both read as the same key; characters are written in upper
/// case, and function keys behind an `F`.
pub proof fn law_keys_are_written_by_name(key: Key, c: char, n: u8)
    ensures
        !(key is Character) && !(key is F) && !(key is Unknown) ==> super::glyph::named_position(
            key_text(key),
        ) == Some(key),
        c != ' ' ==> key_text(Key::Character(c)) == seq![text::upper(c)],
        key_text(Key::Character(' ')) == key_text(Key::Space),
        key_text(Key::F(n)).len() >= 2 && key_text(Key::F(n))[0] == 'F',
        n < 10 ==> key_text(Key::F(n)).len() == 2 && key_text(Key::F(n))[1] as u32 - '0' as u32
            == n,
        key_text(Key::Unknown).len() == 0,
{
    if !(key is Character) && !(key is F) && !(key is Unknown) {
        lemma_named_key(key);
        super::glyph::law_named_positions_are_read(key_text(key));
    }
}

} // verus!
