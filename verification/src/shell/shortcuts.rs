//! Game shortcuts: pause, restart and confirm as one-shot edges.

use crate::input::keys;
use crate::input::{Key, KeyChord, Modifiers};
use crate::text::str_eq;
use vstd::prelude::*;

verus! {

#[derive(Clone, Copy, Debug, PartialEq, Eq, Structural)]
pub struct ShortcutEdges {
    pub pause: bool,
    pub restart: bool,
    pub confirm: bool,
}

/// No edge pending.
pub open spec fn no_edges() -> ShortcutEdges {
    ShortcutEdges { pause: false, restart: false, confirm: false }
}

impl Default for ShortcutEdges {
    fn default() -> (e: Self)
        ensures
            e == no_edges(),
    {
        ShortcutEdges { pause: false, restart: false, confirm: false }
    }
}

/// The chords of the game shortcuts, each with the action it fires.
pub fn game_shortcut_map(
    pause: &'static str,
    restart: &'static str,
    confirm: &'static str,
) -> (map: Vec<(KeyChord, &'static str)>)
    ensures
        map@ == seq![
            (
                KeyChord {
                    key: Key::Escape,
                    modifiers: keys::no_modifiers(),
                },
                pause,
            ),
            (
                KeyChord {
                    key: Key::Character('r'),
                    modifiers: keys::no_modifiers(),
                },
                restart,
            ),
            (
                KeyChord {
                    key: Key::Enter,
                    modifiers: keys::no_modifiers(),
                },
                confirm,
            ),
        ],
{
    let mut map: Vec<(KeyChord, &'static str)> = Vec::new();
    map.push((KeyChord::new(Key::Escape, Modifiers::default()), pause));
    map.push((KeyChord::new(Key::Character('r'), Modifiers::default()), restart));
    map.push((KeyChord::new(Key::Enter, Modifiers::default()), confirm));
    map
}

/// Edges before anything was pressed, for long-lived sharing.
pub fn shared_edges() -> (edges: ShortcutEdges)
    ensures
        edges == no_edges(),
{
    ShortcutEdges::default()
}

/// Stage the edge of a fired action. Returns whether it was one of the three
/// names; where two names are the same, the first one takes it.
pub fn shortcut_fired(
    edges: &mut ShortcutEdges,
    fired: &str,
    pause: &str,
    restart: &str,
    confirm: &str,
) -> (handled: bool)
    ensures
        handled == (fired@ == pause@ || fired@ == restart@ || fired@ == confirm@),
        *final(edges) == if fired@ == pause@ {
            ShortcutEdges { pause: true, ..*old(edges) }
        } else if fired@ == restart@ {
            ShortcutEdges { restart: true, ..*old(edges) }
        } else if fired@ == confirm@ {
            ShortcutEdges { confirm: true, ..*old(edges) }
        } else {
            *old(edges)
        },
{
    if str_eq(fired, pause) {
        edges.pause = true;
        true
    } else if str_eq(fired, restart) {
        edges.restart = true;
        true
    } else if str_eq(fired, confirm) {
        edges.confirm = true;
        true
    } else {
        false
    }
}

/// Take the pending edges: pause, restart, confirm.
pub fn take(edges: &mut ShortcutEdges) -> (r: (bool, bool, bool))
    ensures
        r == (old(edges).pause, old(edges).restart, old(edges).confirm),
        *final(edges) == no_edges(),
{
    let r = (edges.pause, edges.restart, edges.confirm);
    *edges = ShortcutEdges::default();
    r
}

/// Without edges none of the shortcuts fires.
pub proof fn law_no_edges_are_pending()
    ensures
        !no_edges().pause,
        !no_edges().restart,
        !no_edges().confirm,
{
}

} // verus!
