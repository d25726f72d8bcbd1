//! Physical input bindings: one action fires from many inputs.

use super::keymap::KeymapEntry;
use super::keys::{GamepadAxis, GamepadButton, KeyChord, PhysicalKey, PointerButton};
use crate::scalar::Scalar;
use std::hash::{Hash, Hasher};
use vstd::prelude::*;

verus! {

/// One physical source that can drive an action. Many-to-one: several
/// bindings can point at the same action (keyboard + pad + axis).
#[derive(Clone, Copy, Debug)]
pub enum Binding {
    /// Keyboard chord (key + modifiers).
    Key(KeyChord),
    /// Key position, whatever the layout makes of it.
    Physical(PhysicalKey),
    /// Mouse button press.
    Mouse(PointerButton),
    /// Gamepad button press.
    Pad(GamepadButton),
    /// Analog axis crossing. Active while `value >= threshold` for a
    /// positive threshold, `value <= threshold` for a negative one, so
    /// `-0.5` on `LeftStickX` means "pushed left past half".
    Axis { axis: GamepadAxis, threshold: Scalar },
}

/// A binding with its key position as characters.
pub enum BindingModel {
    Key(KeyChord),
    Physical(Seq<char>),
    Mouse(PointerButton),
    Pad(GamepadButton),
    Axis { axis: GamepadAxis, threshold: Scalar },
}

impl View for Binding {
    type V = BindingModel;

    open spec fn view(&self) -> BindingModel {
        match *self {
            Binding::Key(c) => BindingModel::Key(c),
            Binding::Physical(k) => BindingModel::Physical(k@),
            Binding::Mouse(b) => BindingModel::Mouse(b),
            Binding::Pad(b) => BindingModel::Pad(b),
            Binding::Axis { axis, threshold } => BindingModel::Axis { axis, threshold },
        }
    }
}

/// The bindings are the same source.
pub open spec fn same_binding(a: Binding, b: Binding) -> bool {
    match (a, b) {
        (Binding::Key(x), Binding::Key(y)) => x == y,
        (Binding::Physical(x), Binding::Physical(y)) => x@ == y@,
        (Binding::Mouse(x), Binding::Mouse(y)) => x == y,
        (Binding::Pad(x), Binding::Pad(y)) => x == y,
        (
            Binding::Axis { axis: x, threshold: t },
            Binding::Axis { axis: y, threshold: u },
        ) => x == y && t.eqv(u),
        _ => false,
    }
}

impl PartialEq for Binding {
    fn eq(&self, other: &Self) -> (r: bool) {
        self.same(other)
    }
}

impl vstd::std_specs::cmp::PartialEqSpecImpl for Binding {
    open spec fn obeys_eq_spec() -> bool {
        true
    }

    open spec fn eq_spec(&self, other: &Self) -> bool {
        same_binding(*self, *other)
    }
}

impl Eq for Binding {

}

impl Hash for Binding {
    fn hash<H: Hasher>(&self, state: &mut H) {
        match self {
            Binding::Key(c) => {
                absorb(&0u8, state);
                absorb(c, state);
            },
            Binding::Physical(k) => {
                absorb(&1u8, state);
                absorb(k, state);
            },
            Binding::Mouse(b) => {
                absorb(&2u8, state);
                absorb(b, state);
            },
            Binding::Pad(b) => {
                absorb(&3u8, state);
                absorb(b, state);
            },
            Binding::Axis { axis, threshold } => {
                absorb(&4u8, state);
                absorb(axis, state);
                absorb(&hashed_threshold(*threshold), state);
            },
        }
    }
}

/// What an axis threshold feeds to a hasher: both zeros count as one.
pub open spec fn threshold_word(threshold: Scalar) -> u32 {
    if threshold.eqv(Scalar { bits: 0 }) {
        0
    } else {
        threshold.bits
    }
}

/// What an axis threshold feeds to a hasher: both zeros count as one.
pub(crate) fn hashed_threshold(threshold: Scalar) -> (word: u32)
    ensures
        word == threshold_word(threshold),
{
    if threshold.same(Scalar::zero()) {
        0
    } else {
        threshold.bits
    }
}

/// Thresholds that compare equal feed the same word to a hasher.
pub proof fn law_equal_thresholds_hash_alike(t: Scalar, u: Scalar)
    ensures
        t.eqv(u) ==> threshold_word(t) == threshold_word(u),
{
}

/// Feeds a part to a hasher through the standard `Hash::hash`. Nothing is
/// claimed of the hasher's state.
#[verifier::external_body]
pub(crate) fn absorb<T: Hash, H: Hasher>(part: &T, state: &mut H) {
    part.hash(state);
}

/// The binding is one of the list.
pub open spec fn bound(list: Seq<Binding>, b: Binding) -> bool {
    exists|i: int| 0 <= i < list.len() && same_binding(#[trigger] list[i], b)
}

/// The axis holds past the threshold. A zero threshold means any deflection
/// at all, so a centered stick never holds an action forever.
pub open spec fn past_threshold(threshold: Scalar, value: Scalar) -> bool {
    let zero = Scalar { bits: 0 };
    &&& value.finite()
    &&& if threshold.eqv(zero) {
        !value.eqv(zero)
    } else if zero.lt(threshold) {
        threshold.le(value)
    } else {
        value.le(threshold)
    }
}

/// The source a keymap entry stands for; an empty entry is none.
pub open spec fn entry_binding(entry: KeymapEntry) -> Option<Binding> {
    match entry {
        KeymapEntry::Unbound => None,
        KeymapEntry::Key(c) => Some(Binding::Key(c)),
        KeymapEntry::Physical(k) => Some(Binding::Physical(k)),
        KeymapEntry::Mouse(b) => Some(Binding::Mouse(b)),
        KeymapEntry::Pad(b) => Some(Binding::Pad(b)),
        KeymapEntry::Axis { axis, threshold } => Some(Binding::Axis { axis, threshold }),
    }
}

impl Binding {
    /// Whether both are the same source.
    pub fn same(&self, other: &Binding) -> (r: bool)
        ensures
            r == same_binding(*self, *other),
    {
        match (self, other) {
            (Binding::Key(x), Binding::Key(y)) => *x == *y,
            (Binding::Physical(x), Binding::Physical(y)) => x.same(y),
            (Binding::Mouse(x), Binding::Mouse(y)) => *x == *y,
            (Binding::Pad(x), Binding::Pad(y)) => *x == *y,
            (
                Binding::Axis { axis: x, threshold: t },
                Binding::Axis { axis: y, threshold: u },
            ) => *x == *y && t.same(*u),
            _ => false,
        }
    }

    /// Whether `list` holds this source.
    pub fn is_in(&self, list: &Vec<Binding>) -> (r: bool)
        ensures
            r == bound(list@, *self),
    {
        let mut i: usize = 0;
        while i < list.len()
            invariant
                i <= list@.len(),
                forall|j: int| 0 <= j < i ==> !same_binding(#[trigger] list@[j], *self),
            decreases list@.len() - i,
        {
            if list[i].same(self) {
                return true;
            }
            i += 1;
        }
        false
    }

    /// True while the latest axis value holds past the threshold.
    pub fn axis_active(threshold: Scalar, value: Scalar) -> (r: bool)
        ensures
            r == past_threshold(threshold, value),
    {
        let zero = Scalar::zero();
        if !value.is_finite() {
            return false;
        }
        if threshold.same(zero) {
            !value.same(zero)
        } else if zero.less(threshold) {
            threshold.at_most(value)
        } else {
            value.at_most(threshold)
        }
    }

    /// The source a keymap entry stands for; `None` for an empty entry.
    pub fn from_entry(entry: &KeymapEntry) -> (r: Option<Binding>)
        ensures
            r == entry_binding(*entry),
    {
        match *entry {
            KeymapEntry::Unbound => None,
            KeymapEntry::Key(c) => Some(Binding::Key(c)),
            KeymapEntry::Physical(k) => Some(Binding::Physical(k)),
            KeymapEntry::Mouse(b) => Some(Binding::Mouse(b)),
            KeymapEntry::Pad(b) => Some(Binding::Pad(b)),
            KeymapEntry::Axis { axis, threshold } => Some(Binding::Axis { axis, threshold }),
        }
    }
}

/// Being the same source is symmetric and transitive.
pub proof fn law_same_binding(a: Binding, b: Binding, c: Binding)
    ensures
        same_binding(a, b) ==> same_binding(b, a),
        same_binding(a, b) && same_binding(b, c) ==> same_binding(a, c),
        !(a is Axis) ==> same_binding(a, a),
{
}

/// An axis holds at its threshold and anywhere beyond it, on the
/// threshold's side of zero and on no other; a threshold of zero holds for
/// every deflection and not at rest; what is not a finite value never
/// holds, nor does a threshold that is not a number.
pub proof fn law_thresholds_hold_beyond(threshold: Scalar, value: Scalar)
    ensures
        ({
            let zero = Scalar { bits: 0 };
            &&& !value.finite() ==> !past_threshold(threshold, value)
            &&& threshold.nan() ==> !past_threshold(threshold, value)
            &&& value.finite() && zero.lt(threshold) ==> (past_threshold(threshold, value)
                <==> value.rank() >= threshold.rank())
            &&& value.finite() && threshold.lt(zero) ==> (past_threshold(threshold, value)
                <==> value.rank() <= threshold.rank())
            &&& value.finite() && threshold.eqv(zero) ==> (past_threshold(threshold, value)
                <==> value.rank() != 0)
        }),
{
}

/// Two bindings are the same source exactly if they are of one kind and
/// name the same input there: chords, positions by their code, buttons, and
/// axes with thresholds that compare equal.
pub proof fn law_sources_are_told_apart(a: Binding, b: Binding)
    ensures
        same_binding(a, b) ==> a is Key == b is Key && a is Physical == b is Physical && a is Mouse
            == b is Mouse && a is Pad == b is Pad && a is Axis == b is Axis,
        !(a is Axis) ==> (same_binding(a, b) <==> a@ == b@),
        a matches Binding::Axis { axis, threshold } ==> (same_binding(a, b)
            <==> (b matches Binding::Axis { axis: other, threshold: at } && other == axis
            && threshold.eqv(at))),
{
}

/// A keymap entry stands for a source of its own kind, with what the entry
/// names; only an empty one stands for none, and different entries stand
/// for different sources.
pub proof fn law_entries_stand_for_their_sources(entry: KeymapEntry, other: KeymapEntry)
    ensures
        entry_binding(entry) is None <==> entry is Unbound,
        entry matches KeymapEntry::Key(c) ==> entry_binding(entry) == Some(Binding::Key(c)),
        entry matches KeymapEntry::Physical(k) ==> entry_binding(entry) == Some(
            Binding::Physical(k),
        ),
        entry matches KeymapEntry::Mouse(b) ==> entry_binding(entry) == Some(Binding::Mouse(b)),
        entry matches KeymapEntry::Pad(b) ==> entry_binding(entry) == Some(Binding::Pad(b)),
        entry matches KeymapEntry::Axis { axis, threshold } ==> entry_binding(entry) == Some(
            Binding::Axis { axis, threshold },
        ),
        entry_binding(entry) == entry_binding(other) ==> entry == other,
{
}

/// A threshold is fed to a hasher by its own bits, and either zero as the
/// positive one, so that thresholds that differ are fed as different words.
pub proof fn law_thresholds_hash_by_their_bits(t: Scalar, u: Scalar)
    ensures
        t.rank() != 0 || t.nan() ==> threshold_word(t) == t.bits,
        !t.nan() && t.rank() == 0 ==> threshold_word(t) == 0,
        !t.nan() && !u.nan() && threshold_word(t) == threshold_word(u) ==> t.eqv(u),
{
}

/// A list binds what was put into it, besides what it bound before; an
/// empty one binds nothing.
pub proof fn law_lists_bind_their_members(list: Seq<Binding>, put: Binding, b: Binding)
    ensures
        !bound(Seq::empty(), b),
        bound(list.push(put), b) <==> bound(list, b) || same_binding(put, b),
{
    let all = list.push(put);
    if bound(list, b) {
        let i = choose|i: int| 0 <= i < list.len() && same_binding(#[trigger] list[i], b);
        assert(same_binding(all[i], b));
    }
    if same_binding(put, b) {
        assert(same_binding(all[list.len() as int], b));
    }
    if bound(all, b) {
        let i = choose|i: int| 0 <= i < all.len() && same_binding(#[trigger] all[i], b);
        if i < list.len() {
            assert(same_binding(list[i], b));
        }
    }
}

} // verus!
