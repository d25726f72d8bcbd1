//! What a key position types on the default layout, and the chord it is
//! captured as.

use super::keys::{self, Key, KeyChord, Modifiers, PhysicalKey};
use crate::text::{self, str_eq, strip_prefix, to_lower};
use vstd::prelude::*;
use vstd::string::StrSliceExecFns;

verus! {

/// What follows `Key` or `Digit` in a code.
pub open spec fn code_tail(code: Seq<char>) -> Option<Seq<char>> {
    if text::begins_with(code, "Key"@) {
        Some(code.skip("Key"@.len() as int))
    } else if text::begins_with(code, "Digit"@) {
        Some(code.skip("Digit"@.len() as int))
    } else {
        None
    }
}

/// The punctuation positions.
pub open spec fn punctuation_of(code: Seq<char>) -> Option<char> {
    if code == "Backquote"@ {
        Some('`')
    } else if code == "Minus"@ {
        Some('-')
    } else if code == "Equal"@ {
        Some('=')
    } else if code == "BracketLeft"@ {
        Some('[')
    } else if code == "BracketRight"@ {
        Some(']')
    } else if code == "Backslash"@ {
        Some('\\')
    } else if code == "Semicolon"@ {
        Some(';')
    } else if code == "Quote"@ {
        Some('\'')
    } else if code == "Comma"@ {
        Some(',')
    } else if code == "Period"@ {
        Some('.')
    } else if code == "Slash"@ {
        Some('/')
    } else {
        None
    }
}

/// The character a position types: letters and digits by their code, and
/// the punctuation keys.
pub open spec fn glyph_of(code: Seq<char>) -> Option<char> {
    match code_tail(code) {
        Some(tail) => if tail.len() == 1 {
            Some(text::lower(tail[0]))
        } else {
            None
        },
        None => punctuation_of(code),
    }
}

/// The positions that are captured as a named key.
pub open spec fn named_position(code: Seq<char>) -> Option<Key> {
    if code == "Space"@ {
        Some(Key::Space)
    } else if code == "Tab"@ {
        Some(Key::Tab)
    } else if code == "ShiftLeft"@ {
        Some(Key::ShiftLeft)
    } else if code == "ShiftRight"@ {
        Some(Key::ShiftRight)
    } else if code == "ArrowUp"@ {
        Some(Key::ArrowUp)
    } else if code == "ArrowDown"@ {
        Some(Key::ArrowDown)
    } else if code == "ArrowLeft"@ {
        Some(Key::ArrowLeft)
    } else if code == "ArrowRight"@ {
        Some(Key::ArrowRight)
    } else if code == "Enter"@ {
        Some(Key::Enter)
    } else if code == "Escape"@ {
        Some(Key::Escape)
    } else if code == "Backspace"@ {
        Some(Key::Backspace)
    } else if code == "Delete"@ {
        Some(Key::Delete)
    } else if code == "Insert"@ {
        Some(Key::Insert)
    } else if code == "Home"@ {
        Some(Key::Home)
    } else if code == "End"@ {
        Some(Key::End)
    } else if code == "PageUp"@ {
        Some(Key::PageUp)
    } else if code == "PageDown"@ {
        Some(Key::PageDown)
    } else {
        None
    }
}

/// The chord a position is captured as, without modifiers.
pub open spec fn position_chord(code: Seq<char>) -> Option<KeyChord> {
    let plain = keys::no_modifiers();
    match named_position(code) {
        Some(key) => Some(KeyChord { key, modifiers: plain }),
        None => match glyph_of(code) {
            Some(c) => Some(KeyChord { key: Key::Character(c), modifiers: plain }),
            None => None,
        },
    }
}

fn punctuation(name: &str) -> (r: Option<char>)
    ensures
        r == punctuation_of(name@),
{
    if str_eq(name, "Backquote") {
        Some('`')
    } else if str_eq(name, "Minus") {
        Some('-')
    } else if str_eq(name, "Equal") {
        Some('=')
    } else if str_eq(name, "BracketLeft") {
        Some('[')
    } else if str_eq(name, "BracketRight") {
        Some(']')
    } else if str_eq(name, "Backslash") {
        Some('\\')
    } else if str_eq(name, "Semicolon") {
        Some(';')
    } else if str_eq(name, "Quote") {
        Some('\'')
    } else if str_eq(name, "Comma") {
        Some(',')
    } else if str_eq(name, "Period") {
        Some('.')
    } else if str_eq(name, "Slash") {
        Some('/')
    } else {
        None
    }
}

fn named(name: &str) -> (r: Option<Key>)
    ensures
        r == named_position(name@),
{
    if str_eq(name, "Space") {
        Some(Key::Space)
    } else if str_eq(name, "Tab") {
        Some(Key::Tab)
    } else if str_eq(name, "ShiftLeft") {
        Some(Key::ShiftLeft)
    } else if str_eq(name, "ShiftRight") {
        Some(Key::ShiftRight)
    } else if str_eq(name, "ArrowUp") {
        Some(Key::ArrowUp)
    } else if str_eq(name, "ArrowDown") {
        Some(Key::ArrowDown)
    } else if str_eq(name, "ArrowLeft") {
        Some(Key::ArrowLeft)
    } else if str_eq(name, "ArrowRight") {
        Some(Key::ArrowRight)
    } else if str_eq(name, "Enter") {
        Some(Key::Enter)
    } else if str_eq(name, "Escape") {
        Some(Key::Escape)
    } else if str_eq(name, "Backspace") {
        Some(Key::Backspace)
    } else if str_eq(name, "Delete") {
        Some(Key::Delete)
    } else if str_eq(name, "Insert") {
        Some(Key::Insert)
    } else if str_eq(name, "Home") {
        Some(Key::Home)
    } else if str_eq(name, "End") {
        Some(Key::End)
    } else if str_eq(name, "PageUp") {
        Some(Key::PageUp)
    } else if str_eq(name, "PageDown") {
        Some(Key::PageDown)
    } else {
        None
    }
}

/// The character a key position types on the default layout.
pub fn glyph_for_physical(key: PhysicalKey) -> (r: Option<char>)
    ensures
        r == glyph_of(key@),
{
    let name = key.name();
    let tail = match strip_prefix(name, "Key") {
        Some(tail) => Some(tail),
        None => strip_prefix(name, "Digit"),
    };
    match tail {
        Some(tail) => if tail.unicode_len() == 1 {
            Some(to_lower(tail.get_char(0)))
        } else {
            None
        },
        None => punctuation(name),
    }
}

/// Capture helper: a key position as a plain (no-modifier) [`KeyChord`], so
/// any key with a name or a glyph is capturable.
pub fn chord_for_physical(key: PhysicalKey) -> (r: Option<KeyChord>)
    ensures
        r == position_chord(key@),
{
    match named(key.name()) {
        Some(k) => Some(KeyChord::new(k, Modifiers::default())),
        None => match glyph_for_physical(key) {
            Some(c) => Some(KeyChord::new(Key::Character(c), Modifiers::default())),
            None => None,
        },
    }
}

/// The position of a letter or a digit types that letter, in lower case, or
/// that digit.
pub proof fn law_letters_and_digits_type_themselves(c: char)
    ensures
        glyph_of("Key"@.push(c)) == Some(text::lower(c)),
        glyph_of("Digit"@.push(c)) == Some(text::lower(c)),
{
    reveal_strlit("Key");
    reveal_strlit("Digit");
    let (a, b) = ("Key"@.push(c), "Digit"@.push(c));
    assert(a.take(3) =~= "Key"@);
    assert(a.skip(3) =~= seq![c]);
    assert(b.take(5) =~= "Digit"@);
    assert(b.skip(5) =~= seq![c]);
    if text::begins_with(b, "Key"@) {
        assert(b.take(3)[0] == "Key"@[0]);
    }
}

/// A position that has a name of its own, as the wire format has it, is
/// captured as that key.
pub proof fn law_named_positions_are_read(code: Seq<char>)
    ensures
        named_position(code) == super::codec::named_key(code),
{
    reveal_strlit("Enter");
    reveal_strlit("Tab");
    reveal_strlit("Backspace");
    reveal_strlit("Delete");
    reveal_strlit("Insert");
    reveal_strlit("Escape");
    reveal_strlit("ArrowLeft");
    reveal_strlit("ArrowRight");
    reveal_strlit("ArrowUp");
    reveal_strlit("ArrowDown");
    reveal_strlit("Home");
    reveal_strlit("End");
    reveal_strlit("PageUp");
    reveal_strlit("PageDown");
    reveal_strlit("Space");
    reveal_strlit("ShiftLeft");
    reveal_strlit("ShiftRight");
    assert("Enter"@.len() == 5);
    assert("Tab"@.len() == 3);
    assert("Backspace"@.len() == 9);
    assert("Delete"@.len() == 6);
    assert("Insert"@.len() == 6);
    assert("Escape"@.len() == 6);
    assert("ArrowLeft"@.len() == 9);
    assert("ArrowRight"@.len() == 10);
    assert("ArrowUp"@.len() == 7);
    assert("ArrowDown"@.len() == 9);
    assert("Home"@.len() == 4);
    assert("End"@.len() == 3);
    assert("PageUp"@.len() == 6);
    assert("PageDown"@.len() == 8);
    assert("Space"@.len() == 5);
    assert("ShiftLeft"@.len() == 9);
    assert("ShiftRight"@.len() == 10);
    assert("Enter"@[0] != "Space"@[0]);
    assert("Tab"@[0] != "End"@[0]);
    assert("Backspace"@[0] != "ArrowLeft"@[0]);
    assert("Backspace"@[0] != "ArrowDown"@[0]);
    assert("Backspace"@[0] != "ShiftLeft"@[0]);
    assert("Delete"@[0] != "Insert"@[0]);
    assert("Delete"@[0] != "Escape"@[0]);
    assert("Delete"@[0] != "PageUp"@[0]);
    assert("Insert"@[0] != "Escape"@[0]);
    assert("Insert"@[0] != "PageUp"@[0]);
    assert("Escape"@[0] != "PageUp"@[0]);
    assert("ArrowLeft"@[5] != "ArrowDown"@[5]);
    assert("ArrowLeft"@[0] != "ShiftLeft"@[0]);
    assert("ArrowRight"@[0] != "ShiftRight"@[0]);
    assert("ArrowDown"@[0] != "ShiftLeft"@[0]);
}

/// A position is captured without modifiers: as the key it names, or else
/// as the character it types, and as nothing where it does neither.
pub proof fn law_positions_are_captured_plain(code: Seq<char>)
    ensures
        position_chord(code) matches Some(c) ==> !c.modifiers.shift && !c.modifiers.ctrl
            && !c.modifiers.alt && !c.modifiers.meta && !c.modifiers.command,
        named_position(code) matches Some(key) ==> (position_chord(code) matches Some(c) && c.key
            == key),
        named_position(code) is None ==> (glyph_of(code) matches Some(g) ==> (position_chord(
            code,
        ) matches Some(c) && c.key == Key::Character(g))),
        named_position(code) is None && glyph_of(code) is None ==> position_chord(code) is None,
{
}

proof fn lemma_no_tail(code: Seq<char>)
    requires
        code.len() > 0,
        code[0] != 'K',
        code[0] != 'D',
    ensures
        code_tail(code) is None,
{
    reveal_strlit("Key");
    reveal_strlit("Digit");
    if text::begins_with(code, "Key"@) {
        assert(code.take(3)[0] == 'K');
    }
    if text::begins_with(code, "Digit"@) {
        assert(code.take(5)[0] == 'D');
    }
}

/// The positions beside the letters and digits type the mark they are named
/// after.
pub proof fn law_punctuation_types_its_mark()
    ensures
        glyph_of("Backquote"@) == Some('`'),
        glyph_of("Minus"@) == Some('-'),
        glyph_of("Equal"@) == Some('='),
        glyph_of("BracketLeft"@) == Some('['),
        glyph_of("BracketRight"@) == Some(']'),
        glyph_of("Backslash"@) == Some('\\'),
        glyph_of("Semicolon"@) == Some(';'),
        glyph_of("Quote"@) == Some('\''),
        glyph_of("Comma"@) == Some(','),
        glyph_of("Period"@) == Some('.'),
        glyph_of("Slash"@) == Some('/'),
{
    reveal_strlit("Backquote");
    reveal_strlit("Minus");
    reveal_strlit("Equal");
    reveal_strlit("BracketLeft");
    reveal_strlit("BracketRight");
    reveal_strlit("Backslash");
    reveal_strlit("Semicolon");
    reveal_strlit("Quote");
    reveal_strlit("Comma");
    reveal_strlit("Period");
    reveal_strlit("Slash");
    assert("Minus"@[0] != "Equal"@[0]);
    assert("Backquote"@[4] != "Backslash"@[4]);
    assert("Backquote"@[0] != "Semicolon"@[0]);
    assert("Backslash"@[0] != "Semicolon"@[0]);
    assert("Minus"@[0] != "Quote"@[0]);
    assert("Equal"@[0] != "Quote"@[0]);
    assert("Minus"@[0] != "Comma"@[0]);
    assert("Equal"@[0] != "Comma"@[0]);
    assert("Quote"@[0] != "Comma"@[0]);
    assert("Minus"@[0] != "Slash"@[0]);
    assert("Equal"@[0] != "Slash"@[0]);
    assert("Quote"@[0] != "Slash"@[0]);
    assert("Comma"@[0] != "Slash"@[0]);
    lemma_no_tail("Backquote"@);
    lemma_no_tail("Minus"@);
    lemma_no_tail("Equal"@);
    lemma_no_tail("BracketLeft"@);
    lemma_no_tail("BracketRight"@);
    lemma_no_tail("Backslash"@);
    lemma_no_tail("Semicolon"@);
    lemma_no_tail("Quote"@);
    lemma_no_tail("Comma"@);
    lemma_no_tail("Period"@);
    lemma_no_tail("Slash"@);
}

} // verus!
