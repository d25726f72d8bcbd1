//! Remappable controls: one keyboard/mouse entry and one gamepad entry per
//! action.

use super::actions::{self, ActionMap};
use super::binding::{self, Binding};
use super::keys::{GamepadAxis, GamepadButton, KeyChord, PhysicalKey, PointerButton};
use crate::scalar::Scalar;
use std::collections::HashMap;
use std::hash::{Hash, Hasher};
use vstd::prelude::*;

verus! {

/// One side of a remappable control: what the keyboard/mouse entry or the
/// gamepad entry currently holds.
#[derive(Clone, Copy, Debug)]
pub enum KeymapEntry {
    Unbound,
    Key(KeyChord),
    Physical(PhysicalKey),
    Mouse(PointerButton),
    Pad(GamepadButton),
    Axis { axis: GamepadAxis, threshold: Scalar },
}

/// The entries hold the same input.
pub open spec fn same_entry(a: KeymapEntry, b: KeymapEntry) -> bool {
    match (binding::entry_binding(a), binding::entry_binding(b)) {
        (Some(x), Some(y)) => binding::same_binding(x, y),
        (None, None) => true,
        _ => false,
    }
}

impl PartialEq for KeymapEntry {
    fn eq(&self, other: &Self) -> (r: bool) {
        match (Binding::from_entry(self), Binding::from_entry(other)) {
            (Some(x), Some(y)) => x.same(&y),
            (None, None) => true,
            _ => false,
        }
    }
}

impl vstd::std_specs::cmp::PartialEqSpecImpl for KeymapEntry {
    open spec fn obeys_eq_spec() -> bool {
        true
    }

    open spec fn eq_spec(&self, other: &Self) -> bool {
        same_entry(*self, *other)
    }
}

impl Eq for KeymapEntry {

}

impl Hash for KeymapEntry {
    fn hash<H: Hasher>(&self, state: &mut H) {
        match Binding::from_entry(self) {
            Some(b) => {
                binding::absorb(&true, state);
                binding::absorb(&b, state);
            },
            None => binding::absorb(&false, state),
        }
    }
}

impl Default for KeymapEntry {
    fn default() -> (e: Self)
        ensures
            e == KeymapEntry::Unbound,
    {
        KeymapEntry::Unbound
    }
}

/// Which side of a control a rebind gesture writes.
#[derive(Clone, Copy, Debug, PartialEq, Eq, Hash, Structural)]
pub enum KeymapDevice {
    KeyboardMouse,
    Gamepad,
}

/// Pending rebind gesture: which action, which side, armed by the options
/// screen and resolved by the next pressed input.
#[derive(Clone, Debug, PartialEq, Eq, Hash)]
pub struct KeymapCapture<A> {
    pub action: A,
    pub device: KeymapDevice,
}

/// Serializable row: one action name plus both entries as strings. Games
/// map `action` back to their enum; the strings stay readable in the save
/// file.
#[derive(Clone, Debug, PartialEq, Eq)]
pub struct KeymapRow {
    pub action: String,
    pub keyboard: String,
    pub gamepad: String,
}

/// Per-action remappable bindings: a keyboard/mouse entry plus a gamepad
/// entry.
#[derive(Clone, Debug)]
pub struct Keymap<A> {
    keyboard: HashMap<A, KeymapEntry>,
    gamepad: HashMap<A, KeymapEntry>,
}

/// What a keymap holds.
#[verifier::reject_recursive_types(A)]
pub struct KeymapModel<A> {
    pub keyboard: Map<A, KeymapEntry>,
    pub gamepad: Map<A, KeymapEntry>,
}

impl<A> View for Keymap<A> {
    type V = KeymapModel<A>;

    closed spec fn view(&self) -> KeymapModel<A> {
        KeymapModel { keyboard: self.keyboard@, gamepad: self.gamepad@ }
    }
}

/// The entry of an action, unbound where there is none.
pub open spec fn entry_in<A>(side: Map<A, KeymapEntry>, action: A) -> KeymapEntry {
    if side.contains_key(action) {
        side[action]
    } else {
        KeymapEntry::Unbound
    }
}

/// The bindings of an action's two entries, keyboard first.
pub open spec fn entry_bindings<A>(m: KeymapModel<A>, action: A) -> Seq<Binding> {
    let first = match binding::entry_binding(entry_in(m.keyboard, action)) {
        Some(b) => seq![b],
        None => Seq::empty(),
    };
    match binding::entry_binding(entry_in(m.gamepad, action)) {
        Some(b) => first.push(b),
        None => first,
    }
}

/// The bindings an action map made from the keymap has for an action: those
/// of its entries, once for each side that lists the action.
pub open spec fn mapped_bindings<A>(m: KeymapModel<A>, action: A) -> Seq<Binding> {
    (if m.keyboard.contains_key(action) {
        entry_bindings(m, action)
    } else {
        Seq::empty()
    }) + (if m.gamepad.contains_key(action) {
        entry_bindings(m, action)
    } else {
        Seq::empty()
    })
}

/// Keys of one side, each once.
fn side_actions<A: Clone + Eq + Hash>(side: &HashMap<A, KeymapEntry>) -> (out: Vec<A>)
    requires
        actions::lawful::<A>(),
    ensures
        out@.no_duplicates(),
        forall|a: A| #[trigger] out@.contains(a) <==> side@.contains_key(a),
{
    broadcast use vstd::std_specs::hash::group_hash_axioms;

    let mut out: Vec<A> = Vec::new();
    let ghost keys = side@.dom();
    for k in it: side.keys()
        invariant
            actions::lawful::<A>(),
            it.seq().unref().to_set() == keys,
            it.seq().no_duplicates(),
            out@ == it.seq().unref().take(it.index() as int),
            it.index() == it.seq().len() ==> out@ == it.seq().unref(),
            out@.no_duplicates(),
    {
        let a: A = k.clone();
        assert(call_ensures(A::clone, (k,), a));
        proof {
            assert(*k == it.seq().unref()[it.index() as int]);
            assert forall|j: int| 0 <= j < out@.len() implies out@[j] != a by {
                assert(out@[j] == it.seq().unref()[j]);
                assert(it.seq()[j] != it.seq()[it.index() as int]);
            }
        }
        out.push(a);
        proof {
            assert(out@ =~= it.seq().unref().take(it.index() + 1));
            assert(it.index() + 1 == it.seq().len() ==> out@ =~= it.seq().unref());
        }
    }
    proof {
        assert(out@.to_set() == keys);
        assert forall|a: A| #[trigger] out@.contains(a) <==> side@.contains_key(a) by {
            assert(out@.contains(a) <==> out@.to_set().contains(a));
        }
    }
    out
}

impl<A: Clone + Eq + Hash> Keymap<A> {
    pub fn new() -> (m: Self)
        ensures
            m@.keyboard == Map::<A, KeymapEntry>::empty(),
            m@.gamepad == Map::<A, KeymapEntry>::empty(),
    {
        Self { keyboard: HashMap::new(), gamepad: HashMap::new() }
    }

    pub fn set_keyboard(&mut self, action: A, entry: KeymapEntry)
        requires
            actions::lawful::<A>(),
        ensures
            final(self)@ == (KeymapModel {
                keyboard: old(self)@.keyboard.insert(action, entry),
                ..old(self)@
            }),
    {
        broadcast use vstd::std_specs::hash::group_hash_axioms;

        self.keyboard.insert(action, entry);
    }

    pub fn set_gamepad(&mut self, action: A, entry: KeymapEntry)
        requires
            actions::lawful::<A>(),
        ensures
            final(self)@ == (KeymapModel {
                gamepad: old(self)@.gamepad.insert(action, entry),
                ..old(self)@
            }),
    {
        broadcast use vstd::std_specs::hash::group_hash_axioms;

        self.gamepad.insert(action, entry);
    }

    pub fn keyboard(&self, action: &A) -> (e: KeymapEntry)
        requires
            actions::lawful::<A>(),
        ensures
            e == entry_in(self@.keyboard, *action),
    {
        broadcast use vstd::std_specs::hash::group_hash_axioms;

        match self.keyboard.get(action) {
            Some(e) => *e,
            None => KeymapEntry::Unbound,
        }
    }

    pub fn gamepad(&self, action: &A) -> (e: KeymapEntry)
        requires
            actions::lawful::<A>(),
        ensures
            e == entry_in(self@.gamepad, *action),
    {
        broadcast use vstd::std_specs::hash::group_hash_axioms;

        match self.gamepad.get(action) {
            Some(e) => *e,
            None => KeymapEntry::Unbound,
        }
    }

    /// Active entry for an action: the gamepad side when a pad drives and
    /// that side is bound, else the keyboard side.
    pub fn active(&self, action: &A, gamepad: bool) -> (e: KeymapEntry)
        requires
            actions::lawful::<A>(),
        ensures
            e == if gamepad && !(entry_in(self@.gamepad, *action) is Unbound) {
                entry_in(self@.gamepad, *action)
            } else {
                entry_in(self@.keyboard, *action)
            },
    {
        if gamepad {
            let entry = self.gamepad(action);
            match entry {
                KeymapEntry::Unbound => {},
                _ => {
                    return entry;
                },
            }
        }
        self.keyboard(action)
    }

    /// Begin a rebind gesture for `action` on `device`.
    pub fn begin_capture(&self, action: A, device: KeymapDevice) -> (c: KeymapCapture<A>)
        ensures
            c == (KeymapCapture { action, device }),
    {
        KeymapCapture { action, device }
    }

    /// Resolve a capture with the next pressed input, which overwrites that
    /// side; `None` clears it.
    pub fn resolve_capture(&mut self, capture: &KeymapCapture<A>, pressed: Option<KeymapEntry>)
        requires
            actions::lawful::<A>(),
        ensures
            final(self)@ == captured(old(self)@, *capture, pressed),
    {
        broadcast use vstd::std_specs::hash::group_hash_axioms;

        let entry = match pressed {
            Some(e) => e,
            None => KeymapEntry::Unbound,
        };
        let action: A = capture.action.clone();
        assert(call_ensures(A::clone, (&capture.action,), action));
        match capture.device {
            KeymapDevice::KeyboardMouse => {
                self.keyboard.insert(action, entry);
            },
            KeymapDevice::Gamepad => {
                self.gamepad.insert(action, entry);
            },
        }
    }

    /// The actions of the keyboard side, then those of the gamepad side; an
    /// action with both comes twice. In no particular order on each side.
    pub fn actions(&self) -> (out: Vec<A>)
        requires
            actions::lawful::<A>(),
        ensures
            exists|n: int| #[trigger] split_at_sides(self@, out@, n),
    {
        let mut out = side_actions(&self.keyboard);
        let ghost first = out@;
        let mut second = side_actions(&self.gamepad);
        let ghost rest = second@;
        out.append(&mut second);
        proof {
            assert(out@.take(first.len() as int) =~= first);
            assert(out@.skip(first.len() as int) =~= rest);
            assert(split_at_sides(self@, out@, first.len() as int));
        }
        out
    }

    pub fn to_action_map(&self) -> (out: ActionMap<A>)
        requires
            actions::lawful::<A>(),
        ensures
            out@.contexts == Map::<A, Set<Seq<char>>>::empty(),
            forall|a: A|
                #[trigger] actions::bindings_of(out@, a) == mapped_bindings(self@, a),
    {
        let mut out = ActionMap::new();
        let keyboard = side_actions(&self.keyboard);
        assert forall|a: A| #[trigger] actions::bindings_of(out@, a) == Seq::<
            Binding,
        >::empty() by {}
        self.bind_all(&mut out, &keyboard);
        let ghost half = out@;
        let gamepad = side_actions(&self.gamepad);
        self.bind_all(&mut out, &gamepad);
        proof {
            assert forall|a: A| #[trigger] actions::bindings_of(out@, a) == mapped_bindings(
                self@,
                a,
            ) by {
                assert(keyboard@.contains(a) <==> self@.keyboard.contains_key(a));
                assert(gamepad@.contains(a) <==> self@.gamepad.contains_key(a));
                assert(actions::bindings_of(half, a) == if keyboard@.contains(a) {
                    Seq::<Binding>::empty() + entry_bindings(self@, a)
                } else {
                    Seq::<Binding>::empty()
                });
                assert(actions::bindings_of(out@, a) =~= mapped_bindings(self@, a));
            }
        }
        out
    }

    /// Bind the entries of every action of `list`.
    fn bind_all(&self, out: &mut ActionMap<A>, list: &Vec<A>)
        requires
            actions::lawful::<A>(),
            list@.no_duplicates(),
        ensures
            final(out)@.contexts == old(out)@.contexts,
            forall|a: A| #[trigger]
                actions::bindings_of(final(out)@, a) == if list@.contains(a) {
                    actions::bindings_of(old(out)@, a) + entry_bindings(self@, a)
                } else {
                    actions::bindings_of(old(out)@, a)
                },
    {
        let ghost before = out@;
        let mut i: usize = 0;
        while i < list.len()
            invariant
                i <= list@.len(),
                actions::lawful::<A>(),
                list@.no_duplicates(),
                out@.contexts == before.contexts,
                forall|a: A| #[trigger]
                    actions::bindings_of(out@, a) == if list@.take(i as int).contains(a) {
                        actions::bindings_of(before, a) + entry_bindings(self@, a)
                    } else {
                        actions::bindings_of(before, a)
                    },
            decreases list@.len() - i,
        {
            let ghost x = list@[i as int];
            let ghost start = out@;
            let ghost seen = list@.take(i as int);
            proof {
                assert(!seen.contains(x)) by {
                    if seen.contains(x) {
                        let k = choose|k: int| 0 <= k < seen.len() && seen[k] == x;
                        assert(list@[k] == list@[i as int]);
                    }
                }
                assert(actions::bindings_of(start, x) == actions::bindings_of(before, x));
            }
            let keyboard = self.keyboard(&list[i]);
            if let Some(b) = Binding::from_entry(&keyboard) {
                let copy: A = list[i].clone();
                assert(call_ensures(A::clone, (&x,), copy));
                out.bind(copy, b);
            }
            let ghost half = out@;
            let gamepad = self.gamepad(&list[i]);
            if let Some(b) = Binding::from_entry(&gamepad) {
                let copy: A = list[i].clone();
                assert(call_ensures(A::clone, (&x,), copy));
                out.bind(copy, b);
            }
            proof {
                assert(actions::bindings_of(out@, x) =~= actions::bindings_of(start, x)
                    + entry_bindings(self@, x));
                assert(list@.take(i + 1) =~= seen.push(x));
                assert forall|a: A| #[trigger] actions::bindings_of(out@, a)
                    == if list@.take(i + 1).contains(a) {
                    actions::bindings_of(before, a) + entry_bindings(self@, a)
                } else {
                    actions::bindings_of(before, a)
                } by {
                    if a == x {
                        assert(list@.take(i + 1)[i as int] == x);
                    } else {
                        assert(actions::bindings_of(half, a) == actions::bindings_of(
                            start,
                            a,
                        ));
                        assert(actions::bindings_of(out@, a) == actions::bindings_of(
                            start,
                            a,
                        ));
                        if seen.contains(a) {
                            let k = choose|k: int| 0 <= k < seen.len() && seen[k] == a;
                            assert(seen.push(x)[k] == a);
                        }
                        if seen.push(x).contains(a) {
                            let k = choose|k: int|
                                0 <= k < seen.push(x).len() && seen.push(x)[k] == a;
                            assert(seen[k] == a);
                        }
                    }
                }
            }
            i += 1;
        }
        assert(list@.take(i as int) =~= list@);
    }

    /// Like [`to_action_map`](Keymap::to_action_map), with the actions of
    /// `gameplay` and `menu` in the contexts of those names.
    pub fn to_action_map_contexts(&self, gameplay: &[A], menu: &[A]) -> (out: ActionMap<A>)
        requires
            actions::lawful::<A>(),
        ensures
            forall|a: A|
                #[trigger] actions::bindings_of(out@, a) == mapped_bindings(self@, a),
            forall|a: A| #[trigger]
                out@.contexts.contains_key(a) <==> gameplay@.contains(a) || menu@.contains(a),
            forall|a: A, n: Seq<char>| #[trigger]
                context_holds(out@, a, n) <==> (n == "gameplay"@ && gameplay@.contains(a)) || (n
                    == "menu"@ && menu@.contains(a)),
    {
        let mut out = self.to_action_map();
        let ghost plain = out@;
        put_in_context(&mut out, "gameplay", gameplay);
        put_in_context(&mut out, "menu", menu);
        assert forall|a: A| #[trigger] actions::bindings_of(out@, a) == mapped_bindings(
            self@,
            a,
        ) by {
            assert(actions::bindings_of(out@, a) == actions::bindings_of(plain, a));
        }
        out
    }
}

/// The action is a member of the context.
pub open spec fn context_holds<A>(
    m: actions::ActionMapModel<A>,
    action: A,
    name: Seq<char>,
) -> bool {
    m.contexts.contains_key(action) && m.contexts[action].contains(name)
}

/// `out` lists the keyboard side's actions in its first `n` places and the
/// gamepad side's in the others, each once per side.
pub open spec fn split_at_sides<A>(m: KeymapModel<A>, out: Seq<A>, n: int) -> bool {
    &&& 0 <= n <= out.len()
    &&& out.take(n).no_duplicates()
    &&& out.skip(n).no_duplicates()
    &&& forall|a: A| #[trigger] out.take(n).contains(a) <==> m.keyboard.contains_key(a)
    &&& forall|a: A| #[trigger] out.skip(n).contains(a) <==> m.gamepad.contains_key(a)
}

/// The keymap after a capture was resolved.
pub open spec fn captured<A>(
    m: KeymapModel<A>,
    capture: KeymapCapture<A>,
    pressed: Option<KeymapEntry>,
) -> KeymapModel<A> {
    let entry = match pressed {
        Some(e) => e,
        None => KeymapEntry::Unbound,
    };
    match capture.device {
        KeymapDevice::KeyboardMouse => KeymapModel {
            keyboard: m.keyboard.insert(capture.action, entry),
            ..m
        },
        KeymapDevice::Gamepad => KeymapModel {
            gamepad: m.gamepad.insert(capture.action, entry),
            ..m
        },
    }
}

fn put_in_context<A: Clone + Eq + Hash>(out: &mut ActionMap<A>, name: &str, list: &[A])
    requires
        actions::lawful::<A>(),
    ensures
        final(out)@.bindings == old(out)@.bindings,
        forall|a: A| #[trigger]
            final(out)@.contexts.contains_key(a) <==> old(out)@.contexts.contains_key(a)
                || list@.contains(a),
        forall|a: A, n: Seq<char>| #[trigger]
            context_holds(final(out)@, a, n) <==> context_holds(old(out)@, a, n) || (n == name@
                && list@.contains(a)),
{
    let ghost before = out@;
    let mut i: usize = 0;
    while i < list.len()
        invariant
            i <= list@.len(),
            actions::lawful::<A>(),
            out@.bindings == before.bindings,
            forall|a: A| #[trigger]
                out@.contexts.contains_key(a) <==> before.contexts.contains_key(a) || list@.take(
                    i as int,
                ).contains(a),
            forall|a: A, n: Seq<char>| #[trigger]
                context_holds(out@, a, n) <==> context_holds(before, a, n) || (n == name@
                    && list@.take(i as int).contains(a)),
        decreases list@.len() - i,
    {
        let ghost x = list@[i as int];
        let ghost start = out@;
        let ghost seen = list@.take(i as int);
        let copy: A = list[i].clone();
        assert(call_ensures(A::clone, (&x,), copy));
        out.in_context(name, copy);
        proof {
            assert(list@.take(i + 1) =~= seen.push(x));
            assert forall|a: A| #[trigger] seen.push(x).contains(a) <==> (seen.contains(a) || a
                == x) by {
                if seen.contains(a) {
                    let k = choose|k: int| 0 <= k < seen.len() && seen[k] == a;
                    assert(seen.push(x)[k] == a);
                }
                if a == x {
                    assert(seen.push(x)[i as int] == a);
                }
                if seen.push(x).contains(a) {
                    let k = choose|k: int| 0 <= k < seen.push(x).len() && seen.push(x)[k] == a;
                    if k < i {
                        assert(seen[k] == a);
                    }
                }
            }
            assert forall|a: A, n: Seq<char>| #[trigger] context_holds(out@, a, n) <==> (
            context_holds(before, a, n) || (n == name@ && list@.take(i + 1).contains(a))) by {
                assert(context_holds(start, a, n) <==> context_holds(before, a, n) || (n == name@
                    && seen.contains(a)));
            }
        }
        i += 1;
    }
    assert(list@.take(i as int) =~= list@);
}

/// Resolving a capture writes one entry: the other side, and every other
/// action, stay as they are.
pub proof fn law_capture_writes_one_side<A>(
    m: KeymapModel<A>,
    capture: KeymapCapture<A>,
    pressed: Option<KeymapEntry>,
    other: A,
)
    ensures
        capture.device == KeymapDevice::KeyboardMouse ==> captured(m, capture, pressed).gamepad
            == m.gamepad,
        capture.device == KeymapDevice::Gamepad ==> captured(m, capture, pressed).keyboard
            == m.keyboard,
        other != capture.action ==> entry_in(captured(m, capture, pressed).keyboard, other)
            == entry_in(m.keyboard, other) && entry_in(captured(m, capture, pressed).gamepad, other)
            == entry_in(m.gamepad, other),
{
}

/// The entry that a side has for an action is the one that was set, and
/// none where nothing was; a captured input replaces it on the side of its
/// device, and an empty capture clears it.
pub proof fn law_captures_are_what_was_pressed<A>(
    m: KeymapModel<A>,
    capture: KeymapCapture<A>,
    pressed: Option<KeymapEntry>,
)
    ensures
        ({
            let after = captured(m, capture, pressed);
            let side = if capture.device is Gamepad {
                after.gamepad
            } else {
                after.keyboard
            };
            &&& side.contains_key(capture.action)
            &&& pressed matches Some(e) ==> side[capture.action] == e && entry_in(
                side,
                capture.action,
            ) == e
            &&& pressed is None ==> side[capture.action] is Unbound
        }),
        forall|a: A|
            !m.keyboard.contains_key(a) ==> #[trigger] entry_in(m.keyboard, a) is Unbound,
{
}

/// An action is bound to the source of its keyboard entry and to that of
/// its gamepad entry, the keyboard's first, and to nothing where both are
/// empty or missing.
pub proof fn law_both_sides_bind<A>(m: KeymapModel<A>, action: A)
    ensures
        ({
            let keyboard = binding::entry_binding(entry_in(m.keyboard, action));
            let gamepad = binding::entry_binding(entry_in(m.gamepad, action));
            let all = mapped_bindings(m, action);
            &&& m.keyboard.contains_key(action) || m.gamepad.contains_key(action) ==> {
                &&& keyboard matches Some(b) ==> all.len() > 0 && all[0] == b
                &&& gamepad matches Some(b) ==> all.contains(b)
                &&& keyboard is None ==> (gamepad matches Some(b) ==> all[0] == b)
                &&& forall|i: int|
                    0 <= i < all.len() ==> Some(#[trigger] all[i]) == keyboard || Some(all[i])
                        == gamepad
            }
            &&& keyboard is None && gamepad is None ==> all.len() == 0
            &&& !m.keyboard.contains_key(action) && !m.gamepad.contains_key(action) ==> all.len()
                == 0
        }),
{
    let gamepad = binding::entry_binding(entry_in(m.gamepad, action));
    let one = entry_bindings(m, action);
    let all = mapped_bindings(m, action);
    if let Some(b) = gamepad {
        assert(one[one.len() - 1] == b);
        if m.keyboard.contains_key(action) {
            assert(all[one.len() - 1] == b);
        } else if m.gamepad.contains_key(action) {
            assert(all =~= one);
        }
    }
}

/// Entries are the same exactly if both are empty or both stand for the
/// same source.
pub proof fn law_entries_compare_by_source(a: KeymapEntry, b: KeymapEntry)
    ensures
        a is Unbound && b is Unbound ==> same_entry(a, b),
        a is Unbound != b is Unbound ==> !same_entry(a, b),
        a matches KeymapEntry::Key(x) ==> b matches KeymapEntry::Key(y) ==> (same_entry(a, b)
            <==> x == y),
        a matches KeymapEntry::Physical(x) ==> b matches KeymapEntry::Physical(y) ==> (same_entry(
            a,
            b,
        ) <==> x@ == y@),
        a matches KeymapEntry::Mouse(x) ==> b matches KeymapEntry::Mouse(y) ==> (same_entry(a, b)
            <==> x == y),
        a matches KeymapEntry::Pad(x) ==> b matches KeymapEntry::Pad(y) ==> (same_entry(a, b)
            <==> x == y),
        a is Key && b is Physical ==> !same_entry(a, b),
        a is Mouse && b is Pad ==> !same_entry(a, b),
{
}

} // verus!
