//! Per-tick action state: levels, edges, consumption, mocking.

use super::actions::{self, holds_name, ActionMap};
use super::binding::{self, Binding};
use super::keys::{self, GamepadAxis, GamepadButton, KeyChord, PhysicalKey, PointerButton, AXES};
use crate::scalar::Scalar;
use std::collections::HashSet;
use std::hash::Hash;
use vstd::prelude::*;

verus! {

/// Sim-side gameplay input fed from platform events, read per tick. Edges
/// clear at tick end via `end_tick` (registered last). Frame-scope readers
/// call `clear_edges` after consuming.
#[derive(Debug)]
pub struct ActionState<A> {
    map: ActionMap<A>,
    pressed: HashSet<A>,
    just_pressed: HashSet<A>,
    just_released: HashSet<A>,
    consumed: HashSet<A>,
    axes: Vec<Scalar>,
    active: Vec<String>,
    /// Held button bindings. A release drops the action when no binding
    /// stays down.
    down: Vec<Binding>,
}

/// What an action state holds.
#[verifier::reject_recursive_types(A)]
pub struct ActionStateModel<A> {
    pub map: actions::ActionMapModel<A>,
    pub pressed: Set<A>,
    pub just_pressed: Set<A>,
    pub just_released: Set<A>,
    pub consumed: Set<A>,
    pub axes: Seq<Scalar>,
    pub active: Set<Seq<char>>,
    pub down: Set<binding::BindingModel>,
}

/// The sources of a list.
pub open spec fn sources_of(list: Seq<Binding>) -> Set<binding::BindingModel> {
    Set::new(
        |b: binding::BindingModel|
            exists|i: int| 0 <= i < list.len() && (#[trigger] list[i])@ == b,
    )
}

impl<A> View for ActionState<A> {
    type V = ActionStateModel<A>;

    closed spec fn view(&self) -> ActionStateModel<A> {
        ActionStateModel {
            map: self.map@,
            pressed: self.pressed@,
            just_pressed: self.just_pressed@,
            just_released: self.just_released@,
            consumed: self.consumed@,
            axes: self.axes@,
            active: actions::names_of(self.active@),
            down: sources_of(self.down@),
        }
    }
}

/// Only buttons are held down.
pub open spec fn only_buttons(down: Set<binding::BindingModel>) -> bool {
    forall|b: binding::BindingModel| #[trigger] down.contains(b) ==> !(b is Axis)
}

/// The source is held.
pub open spec fn binding_holds<A>(m: ActionStateModel<A>, b: Binding) -> bool {
    match b {
        Binding::Axis { axis, threshold } => binding::past_threshold(
            threshold,
            m.axes[keys::axis_index(axis)],
        ),
        _ => m.down.contains(b@),
    }
}

/// Some source of the action is held.
pub open spec fn action_holds<A>(m: ActionStateModel<A>, action: A) -> bool {
    exists|i: int|
        0 <= i < actions::bindings_of(m.map, action).len() && binding_holds(
            m,
            #[trigger] actions::bindings_of(m.map, action)[i],
        )
}

/// The action can be read: its context is active and nobody consumed it.
pub open spec fn readable<A>(m: ActionStateModel<A>, action: A) -> bool {
    actions::live_under(m.map, action, m.active) && !m.consumed.contains(action)
}

/// Every affected action takes the level its sources give it; a change of
/// level leaves an edge.
pub open spec fn refreshed<A>(
    m: ActionStateModel<A>,
    affected: spec_fn(A) -> bool,
) -> ActionStateModel<A> {
    ActionStateModel {
        pressed: Set::new(
            |a: A|
                if affected(a) {
                    action_holds(m, a)
                } else {
                    m.pressed.contains(a)
                },
        ),
        just_pressed: Set::new(
            |a: A|
                m.just_pressed.contains(a) || (affected(a) && action_holds(m, a)
                    && !m.pressed.contains(a)),
        ),
        just_released: Set::new(
            |a: A|
                m.just_released.contains(a) || (affected(a) && !action_holds(m, a)
                    && m.pressed.contains(a)),
        ),
        ..m
    }
}

/// The state after a button source went down or up.
pub open spec fn fired<A>(m: ActionStateModel<A>, b: Binding, down: bool) -> ActionStateModel<A> {
    let after = ActionStateModel {
        down: if b is Axis {
            m.down
        } else if down {
            m.down.insert(b@)
        } else {
            m.down.remove(b@)
        },
        ..m
    };
    refreshed(after, |a: A| binding::bound(actions::bindings_of(m.map, a), b))
}

/// The action has a threshold on the axis.
pub open spec fn on_axis<A>(
    m: actions::ActionMapModel<A>,
    action: A,
    axis: GamepadAxis,
) -> bool {
    exists|i: int|
        0 <= i < actions::bindings_of(m, action).len() && (#[trigger] actions::bindings_of(
            m,
            action,
        )[i] matches Binding::Axis { axis: x, threshold: _ } && x == axis)
}

/// The state after an axis moved.
pub open spec fn axis_moved<A>(
    m: ActionStateModel<A>,
    axis: GamepadAxis,
    value: Scalar,
) -> ActionStateModel<A> {
    let after = ActionStateModel {
        axes: m.axes.update(keys::axis_index(axis), value),
        ..m
    };
    refreshed(after, |a: A| on_axis(m.map, a, axis))
}

/// The state after one action was pressed without hardware.
pub open spec fn pressed_by_hand<A>(m: ActionStateModel<A>, a: A) -> ActionStateModel<A> {
    ActionStateModel {
        pressed: m.pressed.insert(a),
        just_pressed: if m.pressed.contains(a) {
            m.just_pressed
        } else {
            m.just_pressed.insert(a)
        },
        ..m
    }
}

/// The state after one action was released without hardware.
pub open spec fn released_by_hand<A>(m: ActionStateModel<A>, a: A) -> ActionStateModel<A> {
    ActionStateModel {
        pressed: m.pressed.remove(a),
        just_released: if m.pressed.contains(a) {
            m.just_released.insert(a)
        } else {
            m.just_released
        },
        ..m
    }
}

/// Some action of the map has the source.
pub open spec fn in_map<A>(
    map: actions::ActionMapModel<A>,
    b: binding::BindingModel,
) -> bool {
    exists|a: A, i: int|
        #![trigger actions::bindings_of(map, a)[i]]
        0 <= i < actions::bindings_of(map, a).len() && actions::bindings_of(map, a)[i]@ == b
}

/// The state after the map was swapped: what the new map does not bind is
/// dropped, and no release is reported.
pub open spec fn remapped<A>(
    m: ActionStateModel<A>,
    map: actions::ActionMapModel<A>,
) -> ActionStateModel<A> {
    ActionStateModel {
        map,
        down: Set::new(
            |b: binding::BindingModel| m.down.contains(b) && in_map(map, b),
        ),
        pressed: Set::new(
            |a: A| m.pressed.contains(a) && actions::bindings_of(map, a).len() > 0,
        ),
        just_pressed: Set::new(
            |a: A| m.just_pressed.contains(a) && actions::bindings_of(map, a).len() > 0,
        ),
        just_released: Set::empty(),
        ..m
    }
}

/// The axis pulls that are past their threshold, in binding order.
pub open spec fn axis_pulls(list: Seq<Binding>, axes: Seq<Scalar>) -> Seq<(Scalar, Scalar)>
    decreases list.len(),
{
    if list.len() == 0 {
        Seq::empty()
    } else {
        let front = axis_pulls(list.drop_last(), axes);
        match list.last() {
            Binding::Axis { axis, threshold } => {
                let value = axes[keys::axis_index(axis)];
                if binding::past_threshold(threshold, value) {
                    front.push((threshold, value))
                } else {
                    front
                }
            },
            _ => front,
        }
    }
}

/// What drives an action right now: a button, or axes past their threshold
/// (as `(threshold, value)`).
#[derive(Clone, Debug)]
pub struct Drive {
    pub button: bool,
    pub axes: Vec<(Scalar, Scalar)>,
}

/// Both lists hold the same strings.
fn same_names(a: &Vec<String>, b: &Vec<String>) -> (r: bool)
    ensures
        r == (actions::names_of(a@) == actions::names_of(b@)),
{
    if !all_in(a, b) || !all_in(b, a) {
        return false;
    }
    assert(actions::names_of(a@) =~= actions::names_of(b@));
    true
}

/// Every string of `a` is in `b`.
fn all_in(a: &Vec<String>, b: &Vec<String>) -> (r: bool)
    ensures
        r == actions::names_of(a@).subset_of(actions::names_of(b@)),
{
    let ghost theirs = actions::names_of(b@);
    let mut i: usize = 0;
    while i < a.len()
        invariant
            i <= a@.len(),
            theirs == actions::names_of(b@),
            forall|j: int| 0 <= j < i ==> theirs.contains((#[trigger] a@[j])@),
        decreases a@.len() - i,
    {
        if !holds_name(b, a[i].as_str()) {
            assert(actions::names_of(a@).contains(a@[i as int]@));
            return false;
        }
        i += 1;
    }
    proof {
        assert forall|n: Seq<char>| actions::names_of(a@).contains(n) implies theirs.contains(
            n,
        ) by {
            let k = choose|k: int| 0 <= k < a@.len() && (#[trigger] a@[k])@ == n;
        }
    }
    true
}

/// The members of `set`, each once.
fn members<A: Clone + Eq + Hash>(set: &HashSet<A>) -> (out: Vec<A>)
    requires
        actions::lawful::<A>(),
    ensures
        forall|a: A| #[trigger] out@.contains(a) <==> set@.contains(a),
{
    broadcast use vstd::std_specs::hash::group_hash_axioms;

    let mut out: Vec<A> = Vec::new();
    let ghost all = set@;
    for k in it: set.iter()
        invariant
            actions::lawful::<A>(),
            it.seq().unref().to_set() == all,
            out@ == it.seq().unref().take(it.index() as int),
            it.index() == it.seq().len() ==> out@ == it.seq().unref(),
    {
        let a: A = k.clone();
        assert(call_ensures(A::clone, (k,), a));
        out.push(a);
        proof {
            assert(out@ =~= it.seq().unref().take(it.index() + 1));
            assert(it.index() + 1 == it.seq().len() ==> out@ =~= it.seq().unref());
        }
    }
    proof {
        assert(out@.to_set() == all);
        assert forall|a: A| #[trigger] out@.contains(a) <==> set@.contains(a) by {
            assert(out@.contains(a) <==> out@.to_set().contains(a));
        }
    }
    out
}

impl<A: Clone + Eq + Hash> ActionState<A> {
    /// There is a value for every axis, and only buttons are held down.
    pub open spec fn wf(&self) -> bool {
        self@.axes.len() == AXES && only_buttons(self@.down)
    }

    pub fn new(map: ActionMap<A>) -> (s: Self)
        ensures
            s.wf(),
            s@ == (ActionStateModel {
                map: map@,
                pressed: Set::empty(),
                just_pressed: Set::empty(),
                just_released: Set::empty(),
                consumed: Set::empty(),
                axes: Seq::new(AXES as nat, |i: int| Scalar { bits: 0 }),
                active: Set::empty(),
                down: Set::empty(),
            }),
    {
        let mut axes: Vec<Scalar> = Vec::new();
        let mut i: usize = 0;
        while i < AXES
            invariant
                i <= AXES,
                axes@ == Seq::new(i as nat, |k: int| Scalar { bits: 0 }),
            decreases AXES - i,
        {
            axes.push(Scalar::zero());
            i += 1;
            assert(axes@ =~= Seq::new(i as nat, |k: int| Scalar { bits: 0 }));
        }
        let s = Self {
            map,
            pressed: HashSet::new(),
            just_pressed: HashSet::new(),
            just_released: HashSet::new(),
            consumed: HashSet::new(),
            axes,
            active: Vec::new(),
            down: Vec::new(),
        };
        assert(s@.active =~= Set::<Seq<char>>::empty());
        assert(s@.down =~= Set::<binding::BindingModel>::empty());
        s
    }

    pub fn map(&self) -> (m: &ActionMap<A>)
        ensures
            m@ == self@.map,
    {
        &self.map
    }

    /// Swap the map. Held sources and levels that the new map does not bind
    /// are dropped; pending releases are dropped too.
    pub fn replace_map(&mut self, map: ActionMap<A>)
        requires
            old(self).wf(),
            actions::lawful::<A>(),
        ensures
            final(self).wf(),
            final(self)@ == remapped(old(self)@, map@),
    {
        let ghost m = self@;
        let ghost was = self.down@;
        let mut kept: Vec<Binding> = Vec::new();
        let mut i: usize = 0;
        while i < self.down.len()
            invariant
                i <= self.down@.len(),
                self.down@ == was,
                self@ == m,
                self.wf(),
                actions::lawful::<A>(),
                forall|b: binding::BindingModel| #[trigger]
                    sources_of(kept@).contains(b) <==> (sources_of(was.take(i as int)).contains(b)
                        && in_map(map@, b)),
            decreases self.down@.len() - i,
        {
            let b: Binding = self.down[i];
            let ghost before = kept@;
            assert(sources_of(self.down@).contains(b@));
            if has_source(&map, &b) {
                kept.push(b);
            }
            proof {
                lemma_sources_next(was, i as int);
                if in_map(map@, b@) {
                    lemma_sources_push(before, b);
                }
            }
            i += 1;
        }
        assert(was.take(i as int) =~= was);
        self.down = kept;
        self.pressed = keep_bound(&self.pressed, &map);
        self.just_pressed = keep_bound(&self.just_pressed, &map);
        self.just_released.clear();
        self.map = map;
        assert(self@.down =~= remapped(m, map@).down);
    }

    /// Edge rollover for tick end: edges and consumption clear, levels
    /// persist.
    pub fn end_tick(&mut self)
        ensures
            final(self)@ == (ActionStateModel {
                just_pressed: Set::empty(),
                just_released: Set::empty(),
                consumed: Set::empty(),
                ..old(self)@
            }),
    {
        self.just_pressed.clear();
        self.just_released.clear();
        self.consumed.clear();
    }

    /// Clear edges outside the schedule; what was consumed stays consumed.
    pub fn clear_edges(&mut self)
        ensures
            final(self)@ == (ActionStateModel {
                just_pressed: Set::empty(),
                just_released: Set::empty(),
                ..old(self)@
            }),
    {
        self.just_pressed.clear();
        self.just_released.clear();
    }

    /// Switch the active context set. Pending edges drop on change;
    /// re-setting the same set keeps them. Levels track hardware.
    pub fn set_contexts(&mut self, contexts: &[&str])
        ensures
            ({
                let next = Set::new(
                    |n: Seq<char>|
                        exists|i: int|
                            0 <= i < contexts@.len() && (#[trigger] contexts@[i])@ == n,
                );
                final(self)@ == if next == old(self)@.active {
                    old(self)@
                } else {
                    ActionStateModel {
                        active: next,
                        just_pressed: Set::empty(),
                        just_released: Set::empty(),
                        ..old(self)@
                    }
                }
            }),
    {
        let ghost wanted = Set::new(
            |n: Seq<char>|
                exists|i: int| 0 <= i < contexts@.len() && (#[trigger] contexts@[i])@ == n,
        );
        let mut next: Vec<String> = Vec::new();
        let mut i: usize = 0;
        while i < contexts.len()
            invariant
                i <= contexts@.len(),
                next@.len() == i,
                forall|j: int| 0 <= j < i ==> (#[trigger] next@[j])@ == contexts@[j]@,
            decreases contexts@.len() - i,
        {
            next.push(contexts[i].to_owned());
            i += 1;
        }
        proof {
            assert forall|n: Seq<char>| #[trigger] actions::names_of(next@).contains(n)
                <==> wanted.contains(n) by {
                if actions::names_of(next@).contains(n) {
                    let k = choose|k: int| 0 <= k < next@.len() && (#[trigger] next@[k])@ == n;
                    assert(contexts@[k]@ == n);
                }
                if wanted.contains(n) {
                    let k = choose|k: int|
                        0 <= k < contexts@.len() && (#[trigger] contexts@[k])@ == n;
                    assert(next@[k]@ == n);
                }
            }
            assert(actions::names_of(next@) =~= wanted);
        }
        if !same_names(&next, &self.active) {
            self.active = next;
            self.just_pressed.clear();
            self.just_released.clear();
        }
    }

    fn live(&self, action: &A) -> (r: bool)
        requires
            actions::lawful::<A>(),
        ensures
            r == readable(self@, *action),
    {
        broadcast use vstd::std_specs::hash::group_hash_axioms;

        self.map.live_in(action, &self.active) && !self.consumed.contains(action)
    }

    fn press(&mut self, action: &A)
        requires
            actions::lawful::<A>(),
        ensures
            final(self)@ == pressed_by_hand(old(self)@, *action),
    {
        broadcast use vstd::std_specs::hash::group_hash_axioms;

        let ghost m = self@;
        let first: A = action.clone();
        let second: A = action.clone();
        assert(call_ensures(A::clone, (action,), first));
        assert(call_ensures(A::clone, (action,), second));
        if self.pressed.insert(first) {
            self.just_pressed.insert(second);
        }
        assert(self@.pressed =~= pressed_by_hand(m, *action).pressed);
    }

    fn release(&mut self, action: &A)
        requires
            actions::lawful::<A>(),
        ensures
            final(self)@ == released_by_hand(old(self)@, *action),
    {
        broadcast use vstd::std_specs::hash::group_hash_axioms;

        let ghost m = self@;
        let copy: A = action.clone();
        assert(call_ensures(A::clone, (action,), copy));
        if self.pressed.remove(action) {
            self.just_released.insert(copy);
        }
        assert(self@.pressed =~= released_by_hand(m, *action).pressed);
    }

    fn binding_down(&self, binding: &Binding) -> (r: bool)
        requires
            self.wf(),
        ensures
            r == binding_holds(self@, *binding),
    {
        match *binding {
            Binding::Axis { axis, threshold } => Binding::axis_active(
                threshold,
                self.axis_value(axis),
            ),
            _ => {
                let held = binding.is_in(&self.down);
                proof {
                    lemma_button_sources(self.down@, *binding);
                }
                held
            },
        }
    }

    fn action_down(&self, action: &A) -> (r: bool)
        requires
            self.wf(),
            actions::lawful::<A>(),
        ensures
            r == action_holds(self@, *action),
    {
        let list = self.map.bindings_for(action);
        let mut i: usize = 0;
        while i < list.len()
            invariant
                i <= list@.len(),
                self.wf(),
                list@ == actions::bindings_of(self@.map, *action),
                forall|j: int| 0 <= j < i ==> !binding_holds(self@, #[trigger] list@[j]),
            decreases list@.len() - i,
        {
            if self.binding_down(&list[i]) {
                assert(binding_holds(self@, actions::bindings_of(self@.map, *action)[i as int]));
                return true;
            }
            i += 1;
        }
        false
    }

    /// Bring every action of `list` to the level its sources give it.
    fn refresh(&mut self, list: &Vec<A>, Ghost(affected): Ghost<spec_fn(A) -> bool>)
        requires
            old(self).wf(),
            actions::lawful::<A>(),
            forall|a: A| #[trigger] list@.contains(a) <==> affected(a),
        ensures
            final(self).wf(),
            final(self)@ == refreshed(old(self)@, affected),
    {
        let ghost m = self@;
        let ghost none = |a: A| list@.take(0).contains(a);
        assert(refreshed(m, none).pressed =~= m.pressed);
        assert(refreshed(m, none).just_pressed =~= m.just_pressed);
        assert(refreshed(m, none).just_released =~= m.just_released);
        let mut i: usize = 0;
        while i < list.len()
            invariant
                i <= list@.len(),
                self.wf(),
                actions::lawful::<A>(),
                self@ == refreshed(m, |a: A| list@.take(i as int).contains(a)),
            decreases list@.len() - i,
        {
            let ghost x = list@[i as int];
            let ghost seen = list@.take(i as int);
            let ghost before = self@;
            assert(action_holds(self@, x) == action_holds(m, x));
            if self.action_down(&list[i]) {
                self.press(&list[i]);
            } else {
                self.release(&list[i]);
            }
            proof {
                let after = refreshed(m, |a: A| list@.take(i + 1).contains(a));
                lemma_take_next(list@, i as int);
                assert(self@.pressed =~= after.pressed);
                assert(self@.just_pressed =~= after.just_pressed);
                assert(self@.just_released =~= after.just_released);
            }
            i += 1;
        }
        proof {
            assert(list@.take(i as int) =~= list@);
            let all = |a: A| list@.take(i as int).contains(a);
            assert forall|a: A| #[trigger] all(a) == affected(a) by {}
            assert(refreshed(m, all).pressed =~= refreshed(m, affected).pressed);
            assert(refreshed(m, all).just_pressed =~= refreshed(m, affected).just_pressed);
            assert(refreshed(m, all).just_released =~= refreshed(m, affected).just_released);
        }
    }

    fn fire_binding(&mut self, binding: &Binding, down: bool)
        requires
            old(self).wf(),
            actions::lawful::<A>(),
        ensures
            final(self).wf(),
            final(self)@ == fired(old(self)@, *binding, down),
    {
        let ghost m = self@;
        match *binding {
            Binding::Axis { axis: _, threshold: _ } => {},
            _ => {
                if down {
                    self.hold(binding);
                } else {
                    self.let_go(binding);
                }
            },
        }
        let all = self.map.actions();
        let mut list: Vec<A> = Vec::new();
        let mut i: usize = 0;
        while i < all.len()
            invariant
                i <= all@.len(),
                actions::lawful::<A>(),
                self@.map == m.map,
                forall|a: A| #[trigger]
                    list@.contains(a) <==> (all@.take(i as int).contains(a)
                        && binding::bound(actions::bindings_of(m.map, a), *binding)),
            decreases all@.len() - i,
        {
            let ghost was = list@;
            let ghost x = all@[i as int];
            let bindings = self.map.bindings_for(&all[i]);
            if binding.is_in(&bindings) {
                let copy: A = all[i].clone();
                assert(call_ensures(A::clone, (&x,), copy));
                list.push(copy);
            }
            proof {
                lemma_take_next(all@, i as int);
                if binding::bound(bindings@, *binding) {
                    lemma_push_contains(was, x);
                }
            }
            i += 1;
        }
        proof {
            let affected = |a: A|
                binding::bound(actions::bindings_of(m.map, a), *binding);
            assert(all@.take(i as int) =~= all@);
            assert forall|a: A| #[trigger] list@.contains(a) <==> affected(a) by {
                if affected(a) {
                    assert(m.map.bindings.contains_key(a));
                    assert(all@.contains(a));
                }
            }
        }
        self.refresh(
            &list,
            Ghost(|a: A| binding::bound(actions::bindings_of(m.map, a), *binding)),
        );
    }

    fn hold(&mut self, binding: &Binding)
        requires
            !(*binding is Axis),
        ensures
            final(self)@ == (ActionStateModel {
                down: old(self)@.down.insert(binding@),
                ..old(self)@
            }),
    {
        let ghost m = self@;
        let ghost was = self.down@;
        if !binding.is_in(&self.down) {
            self.down.push(*binding);
            proof {
                assert forall|b: binding::BindingModel| #[trigger]
                    sources_of(self.down@).contains(b) <==> (sources_of(was).contains(b) || b
                        == binding@) by {
                    if sources_of(was).contains(b) {
                        let k = choose|k: int| 0 <= k < was.len() && (#[trigger] was[k])@ == b;
                        assert(self.down@[k]@ == b);
                    }
                    if b == binding@ {
                        assert(self.down@[was.len() as int]@ == b);
                    }
                    if sources_of(self.down@).contains(b) {
                        let k = choose|k: int|
                            0 <= k < self.down@.len() && (#[trigger] self.down@[k])@ == b;
                        if k < was.len() {
                            assert(was[k]@ == b);
                        }
                    }
                }
            }
        } else {
            proof {
                lemma_button_sources(was, *binding);
            }
        }
        assert(self@.down =~= m.down.insert(binding@));
    }

    fn let_go(&mut self, binding: &Binding)
        requires
            !(*binding is Axis),
        ensures
            final(self)@ == (ActionStateModel {
                down: old(self)@.down.remove(binding@),
                ..old(self)@
            }),
    {
        let ghost m = self@;
        let ghost was = self.down@;
        let mut kept: Vec<Binding> = Vec::new();
        let mut i: usize = 0;
        while i < self.down.len()
            invariant
                i <= self.down@.len(),
                self.down@ == was,
                self@ == m,
                !(*binding is Axis),
                forall|b: binding::BindingModel| #[trigger]
                    sources_of(kept@).contains(b) <==> (sources_of(was.take(i as int)).contains(b)
                        && b != binding@),
            decreases self.down@.len() - i,
        {
            let b: Binding = self.down[i];
            let ghost before = kept@;
            if !b.same(binding) {
                kept.push(b);
            }
            proof {
                lemma_sources_next(was, i as int);
                if !binding::same_binding(b, *binding) {
                    lemma_sources_push(before, b);
                }
            }
            i += 1;
        }
        assert(was.take(i as int) =~= was);
        self.down = kept;
        assert(self@.down =~= m.down.remove(binding@));
    }

    /// Feed a keyboard chord press/release.
    pub fn key(&mut self, chord: &KeyChord, down: bool)
        requires
            old(self).wf(),
            actions::lawful::<A>(),
        ensures
            final(self).wf(),
            final(self)@ == fired(old(self)@, Binding::Key(*chord), down),
    {
        self.fire_binding(&Binding::Key(*chord), down);
    }

    /// Feed a physical key position press/release.
    pub fn physical(&mut self, key: PhysicalKey, down: bool)
        requires
            old(self).wf(),
            actions::lawful::<A>(),
        ensures
            final(self).wf(),
            final(self)@ == fired(old(self)@, Binding::Physical(key), down),
    {
        self.fire_binding(&Binding::Physical(key), down);
    }

    /// Feed a mouse button press/release.
    pub fn mouse(&mut self, button: PointerButton, down: bool)
        requires
            old(self).wf(),
            actions::lawful::<A>(),
        ensures
            final(self).wf(),
            final(self)@ == fired(old(self)@, Binding::Mouse(button), down),
    {
        self.fire_binding(&Binding::Mouse(button), down);
    }

    /// Feed a gamepad button press/release.
    pub fn pad(&mut self, button: GamepadButton, down: bool)
        requires
            old(self).wf(),
            actions::lawful::<A>(),
        ensures
            final(self).wf(),
            final(self)@ == fired(old(self)@, Binding::Pad(button), down),
    {
        self.fire_binding(&Binding::Pad(button), down);
    }

    /// Feed an axis value; threshold bindings flip on crossing.
    pub fn axis(&mut self, axis: GamepadAxis, value: Scalar)
        requires
            old(self).wf(),
            actions::lawful::<A>(),
        ensures
            final(self).wf(),
            final(self)@ == axis_moved(old(self)@, axis, value),
    {
        let ghost m = self@;
        let at: usize = axis.index();
        self.axes[at] = value;
        assert(self@.axes =~= m.axes.update(keys::axis_index(axis), value));
        let all = self.map.actions();
        let mut list: Vec<A> = Vec::new();
        let mut i: usize = 0;
        while i < all.len()
            invariant
                i <= all@.len(),
                actions::lawful::<A>(),
                self@.map == m.map,
                forall|a: A| #[trigger]
                    list@.contains(a) <==> (all@.take(i as int).contains(a) && on_axis(
                        m.map,
                        a,
                        axis,
                    )),
            decreases all@.len() - i,
        {
            let ghost was = list@;
            let ghost x = all@[i as int];
            let bindings = self.map.bindings_for(&all[i]);
            let hit = reads_axis(&bindings, axis);
            if hit {
                let copy: A = all[i].clone();
                assert(call_ensures(A::clone, (&x,), copy));
                list.push(copy);
            }
            proof {
                lemma_take_next(all@, i as int);
                assert(hit == on_axis(m.map, x, axis));
                if hit {
                    lemma_push_contains(was, x);
                }
            }
            i += 1;
        }
        proof {
            assert(all@.take(i as int) =~= all@);
            assert forall|a: A| #[trigger] list@.contains(a) <==> on_axis(m.map, a, axis) by {
                if on_axis(m.map, a, axis) {
                    assert(m.map.bindings.contains_key(a));
                    assert(all@.contains(a));
                }
            }
        }
        self.refresh(&list, Ghost(|a: A| on_axis(m.map, a, axis)));
    }

    /// Latest raw value fed for an axis (`0.0` if not fed).
    pub fn axis_value(&self, axis: GamepadAxis) -> (v: Scalar)
        requires
            self.wf(),
        ensures
            v == self@.axes[keys::axis_index(axis)],
    {
        self.axes[axis.index()]
    }

    /// What drives an action right now. Gated or consumed actions are
    /// driven by nothing. A button means full strength; an axis remaps
    /// `threshold..1` to `0..1`; the strongest one wins.
    pub fn drive(&self, action: &A) -> (d: Drive)
        requires
            self.wf(),
            actions::lawful::<A>(),
        ensures
            !readable(self@, *action) ==> !d.button && d.axes@.len() == 0,
            readable(self@, *action) ==> {
                let list = actions::bindings_of(self@.map, *action);
                &&& d.axes@ == axis_pulls(list, self@.axes)
                &&& d.button == exists|i: int|
                    0 <= i < list.len() && !(#[trigger] list[i] is Axis) && self@.down.contains(
                        list[i]@,
                    )
            },
    {
        let mut d = Drive { button: false, axes: Vec::new() };
        if !self.live(action) {
            return d;
        }
        let list = self.map.bindings_for(action);
        let mut i: usize = 0;
        assert(list@.take(0) =~= Seq::<Binding>::empty());
        while i < list.len()
            invariant
                i <= list@.len(),
                self.wf(),
                d.axes@ == axis_pulls(list@.take(i as int), self@.axes),
                d.button == exists|k: int|
                    0 <= k < i && !(#[trigger] list@[k] is Axis) && self@.down.contains(
                        list@[k]@,
                    ),
            decreases list@.len() - i,
        {
            let b: Binding = list[i];
            let held = self.binding_down(&b);
            proof {
                assert(list@.take(i + 1).drop_last() =~= list@.take(i as int));
                assert(list@.take(i + 1).last() == b);
            }
            match b {
                Binding::Axis { axis, threshold } => {
                    if held {
                        d.axes.push((threshold, self.axis_value(axis)));
                    }
                },
                _ => {
                    if held {
                        assert(!(list@[i as int] is Axis));
                        d.button = true;
                    }
                },
            }
            i += 1;
        }
        assert(list@.take(i as int) =~= list@);
        d
    }

    /// Held, live, and not consumed. True each tick a binding is down.
    pub fn pressed(&self, action: &A) -> (r: bool)
        requires
            actions::lawful::<A>(),
        ensures
            r == (self@.pressed.contains(*action) && readable(self@, *action)),
    {
        broadcast use vstd::std_specs::hash::group_hash_axioms;

        self.pressed.contains(action) && self.live(action)
    }

    /// Started this tick. Edge set on press, cleared at `end_tick`.
    pub fn just_pressed(&self, action: &A) -> (r: bool)
        requires
            actions::lawful::<A>(),
        ensures
            r == (self@.just_pressed.contains(*action) && readable(self@, *action)),
    {
        broadcast use vstd::std_specs::hash::group_hash_axioms;

        self.just_pressed.contains(action) && self.live(action)
    }

    /// Released this tick. Clears at `end_tick` like `just_pressed`.
    pub fn just_released(&self, action: &A) -> (r: bool)
        requires
            actions::lawful::<A>(),
        ensures
            r == (self@.just_released.contains(*action) && readable(self@, *action)),
    {
        broadcast use vstd::std_specs::hash::group_hash_axioms;

        self.just_released.contains(action) && self.live(action)
    }

    /// Mark consumed so later readers skip it. Returns true while held.
    pub fn consume(&mut self, action: &A) -> (held: bool)
        requires
            actions::lawful::<A>(),
        ensures
            held == old(self)@.pressed.contains(*action),
            final(self)@ == (ActionStateModel {
                consumed: old(self)@.consumed.insert(*action),
                ..old(self)@
            }),
    {
        broadcast use vstd::std_specs::hash::group_hash_axioms;

        let held = self.pressed.contains(action);
        let copy: A = action.clone();
        assert(call_ensures(A::clone, (action,), copy));
        self.consumed.insert(copy);
        held
    }

    /// Consume everything that is held.
    pub fn consume_all(&mut self)
        requires
            actions::lawful::<A>(),
        ensures
            final(self)@ == (ActionStateModel {
                consumed: old(self)@.consumed.union(old(self)@.pressed),
                ..old(self)@
            }),
    {
        broadcast use vstd::std_specs::hash::group_hash_axioms;

        let ghost m = self@;
        let held = members(&self.pressed);
        let mut i: usize = 0;
        while i < held.len()
            invariant
                i <= held@.len(),
                actions::lawful::<A>(),
                forall|a: A| #[trigger] held@.contains(a) <==> m.pressed.contains(a),
                self@ == (ActionStateModel { consumed: self@.consumed, ..m }),
                forall|a: A| #[trigger]
                    self@.consumed.contains(a) <==> (m.consumed.contains(a) || held@.take(
                        i as int,
                    ).contains(a)),
            decreases held@.len() - i,
        {
            let ghost x = held@[i as int];
            let copy: A = held[i].clone();
            assert(call_ensures(A::clone, (&x,), copy));
            self.consumed.insert(copy);
            proof {
                lemma_take_next(held@, i as int);
            }
            i += 1;
        }
        assert(held@.take(i as int) =~= held@);
        assert(self@.consumed =~= m.consumed.union(m.pressed));
    }

    /// Drive an action without hardware.
    pub fn mock(&mut self, action: &A, down: bool)
        requires
            actions::lawful::<A>(),
        ensures
            final(self)@ == if down {
                pressed_by_hand(old(self)@, *action)
            } else {
                released_by_hand(old(self)@, *action)
            },
    {
        if down {
            self.press(action);
        } else {
            self.release(action);
        }
    }

    /// Clear consumption.
    pub fn clear_consumed(&mut self)
        ensures
            final(self)@ == (ActionStateModel { consumed: Set::empty(), ..old(self)@ }),
    {
        self.consumed.clear();
    }
}

/// The members of `set` that the map binds.
fn keep_bound<A: Clone + Eq + Hash>(set: &HashSet<A>, map: &ActionMap<A>) -> (out: HashSet<A>)
    requires
        actions::lawful::<A>(),
    ensures
        out@ == Set::new(
            |a: A| set@.contains(a) && actions::bindings_of(map@, a).len() > 0,
        ),
{
    broadcast use vstd::std_specs::hash::group_hash_axioms;

    let all = members(set);
    let mut out: HashSet<A> = HashSet::new();
    let mut i: usize = 0;
    while i < all.len()
        invariant
            i <= all@.len(),
            actions::lawful::<A>(),
            forall|a: A| #[trigger]
                out@.contains(a) <==> (all@.take(i as int).contains(a) && actions::bindings_of(
                    map@,
                    a,
                ).len() > 0),
        decreases all@.len() - i,
    {
        let ghost x = all@[i as int];
        if map.bindings_for(&all[i]).len() > 0 {
            let copy: A = all[i].clone();
            assert(call_ensures(A::clone, (&x,), copy));
            out.insert(copy);
        }
        proof {
            lemma_take_next(all@, i as int);
        }
        i += 1;
    }
    proof {
        assert(all@.take(i as int) =~= all@);
        assert(out@ =~= Set::new(
            |a: A| set@.contains(a) && actions::bindings_of(map@, a).len() > 0,
        ));
    }
    out
}

/// Whether some action of the map has the source.
fn has_source<A: Clone + Eq + Hash>(map: &ActionMap<A>, b: &Binding) -> (r: bool)
    requires
        actions::lawful::<A>(),
        !(*b is Axis),
    ensures
        r == in_map(map@, b@),
{
    let all = map.actions();
    let mut i: usize = 0;
    while i < all.len()
        invariant
            i <= all@.len(),
            actions::lawful::<A>(),
            !(*b is Axis),
            forall|j: int|
                0 <= j < i ==> !binding::bound(
                    actions::bindings_of(map@, #[trigger] all@[j]),
                    *b,
                ),
        decreases all@.len() - i,
    {
        let list = map.bindings_for(&all[i]);
        if b.is_in(&list) {
            proof {
                let a = all@[i as int];
                let k = choose|k: int|
                    0 <= k < list@.len() && binding::same_binding(#[trigger] list@[k], *b);
                assert(actions::bindings_of(map@, a)[k]@ == b@);
            }
            return true;
        }
        i += 1;
    }
    proof {
        if in_map(map@, b@) {
            let (a, k) = choose|a: A, k: int|
                #![trigger actions::bindings_of(map@, a)[k]]
                0 <= k < actions::bindings_of(map@, a).len() && actions::bindings_of(
                    map@,
                    a,
                )[k]@ == b@;
            assert(map@.bindings.contains_key(a));
            assert(all@.contains(a));
            let j = choose|j: int| 0 <= j < all@.len() && all@[j] == a;
            assert(binding::same_binding(actions::bindings_of(map@, a)[k], *b));
            assert(binding::bound(actions::bindings_of(map@, all@[j]), *b));
        }
    }
    false
}

/// Whether some binding of the list reads the axis.
fn reads_axis(list: &Vec<Binding>, axis: GamepadAxis) -> (r: bool)
    ensures
        r == exists|i: int|
            0 <= i < list@.len() && (#[trigger] list@[i] matches Binding::Axis {
                axis: x,
                threshold: _,
            } && x == axis),
{
    let mut i: usize = 0;
    while i < list.len()
        invariant
            i <= list@.len(),
            forall|j: int|
                0 <= j < i ==> !(#[trigger] list@[j] matches Binding::Axis {
                    axis: x,
                    threshold: _,
                } && x == axis),
        decreases list@.len() - i,
    {
        if let Binding::Axis { axis: x, threshold: _ } = list[i] {
            if x == axis {
                assert(list@[i as int] matches Binding::Axis { axis: y, threshold: _ } && y
                    == axis);
                return true;
            }
        }
        i += 1;
    }
    false
}

/// For buttons, being in a list is being one of its sources.
proof fn lemma_button_sources(list: Seq<Binding>, b: Binding)
    requires
        !(b is Axis),
    ensures
        binding::bound(list, b) <==> sources_of(list).contains(b@),
{
    if binding::bound(list, b) {
        let i = choose|i: int|
            0 <= i < list.len() && binding::same_binding(#[trigger] list[i], b);
        assert(list[i]@ == b@);
    }
    if sources_of(list).contains(b@) {
        let i = choose|i: int| 0 <= i < list.len() && (#[trigger] list[i])@ == b@;
        assert(binding::same_binding(list[i], b));
    }
}

proof fn lemma_sources_next(list: Seq<Binding>, i: int)
    requires
        0 <= i < list.len(),
    ensures
        forall|b: binding::BindingModel| #[trigger]
            sources_of(list.take(i + 1)).contains(b) <==> (sources_of(list.take(i)).contains(b)
                || b == list[i]@),
{
    assert(list.take(i + 1) =~= list.take(i).push(list[i]));
    lemma_sources_push(list.take(i), list[i]);
}

proof fn lemma_sources_push(list: Seq<Binding>, x: Binding)
    ensures
        forall|b: binding::BindingModel| #[trigger]
            sources_of(list.push(x)).contains(b) <==> (sources_of(list).contains(b) || b == x@),
{
    let all = list.push(x);
    assert forall|b: binding::BindingModel| #[trigger] sources_of(all).contains(b) <==> (
    sources_of(list).contains(b) || b == x@) by {
        if sources_of(list).contains(b) {
            let k = choose|k: int| 0 <= k < list.len() && (#[trigger] list[k])@ == b;
            assert(all[k]@ == b);
        }
        if b == x@ {
            assert(all[list.len() as int]@ == b);
        }
        if sources_of(all).contains(b) {
            let k = choose|k: int| 0 <= k < all.len() && (#[trigger] all[k])@ == b;
            if k < list.len() {
                assert(list[k]@ == b);
            }
        }
    }
}

proof fn lemma_push_contains<A>(s: Seq<A>, x: A)
    ensures
        forall|a: A| #[trigger] s.push(x).contains(a) <==> (s.contains(a) || a == x),
{
    assert forall|a: A| #[trigger] s.push(x).contains(a) <==> (s.contains(a) || a == x) by {
        if s.contains(a) {
            let k = choose|k: int| 0 <= k < s.len() && s[k] == a;
            assert(s.push(x)[k] == a);
        }
        if a == x {
            assert(s.push(x)[s.len() as int] == a);
        }
        if s.push(x).contains(a) {
            let k = choose|k: int| 0 <= k < s.push(x).len() && s.push(x)[k] == a;
            if k < s.len() {
                assert(s[k] == a);
            }
        }
    }
}

proof fn lemma_take_next<A>(s: Seq<A>, i: int)
    requires
        0 <= i < s.len(),
    ensures
        forall|a: A| #[trigger] s.take(i + 1).contains(a) <==> (s.take(i).contains(a) || a == s[i]),
{
    assert(s.take(i + 1) =~= s.take(i).push(s[i]));
    lemma_push_contains(s.take(i), s[i]);
}

/// Pressing a source that is down already, or releasing one that is up,
/// changes no level and leaves no edge.
pub proof fn law_repeats_leave_no_edge<A>(m: ActionStateModel<A>, b: Binding, down: bool)
    ensures
        fired(fired(m, b, down), b, down) == fired(m, b, down),
{
    let once = fired(m, b, down);
    let twice = fired(once, b, down);
    assert(twice.down =~= once.down);
    assert forall|a: A| action_holds(twice, a) == action_holds(once, a) by {
        lemma_holds_by_sources(twice, once, a);
    }
    let set_down = ActionStateModel { down: once.down, ..m };
    assert forall|a: A| action_holds(set_down, a) == action_holds(once, a) by {
        lemma_holds_by_sources(set_down, once, a);
    }
    let again = ActionStateModel { down: twice.down, ..once };
    assert forall|a: A| action_holds(again, a) == action_holds(once, a) by {
        lemma_holds_by_sources(again, once, a);
    }
    assert(twice.pressed =~= once.pressed);
    assert(twice.just_pressed =~= once.just_pressed);
    assert(twice.just_released =~= once.just_released);
}

/// Whether an action is held depends on the map, the axes and the buttons
/// alone.
proof fn lemma_holds_by_sources<A>(x: ActionStateModel<A>, y: ActionStateModel<A>, a: A)
    requires
        x.map == y.map,
        x.axes == y.axes,
        x.down == y.down,
    ensures
        action_holds(x, a) == action_holds(y, a),
{
    let list = actions::bindings_of(x.map, a);
    if action_holds(x, a) {
        let i = choose|i: int|
            0 <= i < actions::bindings_of(x.map, a).len() && binding_holds(
                x,
                #[trigger] actions::bindings_of(x.map, a)[i],
            );
        assert(binding_holds(y, actions::bindings_of(y.map, a)[i]));
    }
    if action_holds(y, a) {
        let i = choose|i: int|
            0 <= i < actions::bindings_of(y.map, a).len() && binding_holds(
                y,
                #[trigger] actions::bindings_of(y.map, a)[i],
            );
        assert(binding_holds(x, actions::bindings_of(x.map, a)[i]));
    }
}

/// Releasing one source of an action while another is held keeps the action
/// pressed and reports no release.
pub proof fn law_release_is_or<A>(m: ActionStateModel<A>, b: Binding, action: A, other: int)
    requires
        !(b is Axis),
        m.pressed.contains(action),
        0 <= other < actions::bindings_of(m.map, action).len(),
        binding_holds(m, actions::bindings_of(m.map, action)[other]),
        actions::bindings_of(m.map, action)[other]@ != b@,
    ensures
        fired(m, b, false).pressed.contains(action),
        fired(m, b, false).just_released.contains(action) == m.just_released.contains(action),
{
    let after = ActionStateModel { down: m.down.remove(b@), ..m };
    assert(binding_holds(after, actions::bindings_of(after.map, action)[other]));
    assert(action_holds(after, action));
}

/// An action that nobody bound to the source keeps its level and its edges.
pub proof fn law_other_actions_are_untouched<A>(
    m: ActionStateModel<A>,
    b: Binding,
    down: bool,
    action: A,
)
    requires
        !binding::bound(actions::bindings_of(m.map, action), b),
    ensures
        fired(m, b, down).pressed.contains(action) == m.pressed.contains(action),
        fired(m, b, down).just_pressed.contains(action) == m.just_pressed.contains(action),
        fired(m, b, down).just_released.contains(action) == m.just_released.contains(action),
{
}

/// A button that goes down, be it a key, a key position, a mouse button or
/// a gamepad button, presses every action that lists it, with an edge
/// unless the action was pressed already. A button that goes up releases
/// it, again with an edge, where nothing else that the action lists is
/// held.
pub proof fn law_buttons_drive_their_actions<A>(
    m: ActionStateModel<A>,
    b: Binding,
    action: A,
    i: int,
)
    requires
        b is Key || b is Physical || b is Mouse || b is Pad,
        m.map.bindings.contains_key(action),
        0 <= i < m.map.bindings[action].len(),
        m.map.bindings[action][i]@ == b@,
    ensures
        ({
            let pressed = fired(m, b, true);
            &&& pressed.down == m.down.insert(b@)
            &&& pressed.pressed.contains(action)
            &&& pressed.just_pressed.contains(action) == (m.just_pressed.contains(action)
                || !m.pressed.contains(action))
            &&& pressed.just_released.contains(action) == m.just_released.contains(action)
        }),
        fired(m, b, false).down == m.down.remove(b@),
        (forall|j: int|
            0 <= j < m.map.bindings[action].len() ==> match #[trigger] m.map.bindings[action][j] {
                Binding::Axis { axis, threshold } => !binding::past_threshold(
                    threshold,
                    m.axes[keys::axis_index(axis)],
                ),
                other => other@ == b@ || !m.down.contains(other@),
            }) ==> {
            let released = fired(m, b, false);
            &&& !released.pressed.contains(action)
            &&& released.just_released.contains(action) == (m.just_released.contains(action)
                || m.pressed.contains(action))
            &&& released.just_pressed.contains(action) == m.just_pressed.contains(action)
        },
{
    let list = m.map.bindings[action];
    assert(actions::bindings_of(m.map, action) == list);
    assert(binding::same_binding(list[i], b));
    assert(binding::bound(list, b));
    let on = ActionStateModel { down: m.down.insert(b@), ..m };
    assert(binding_holds(on, actions::bindings_of(on.map, action)[i]));
    assert(action_holds(on, action));
    let off = ActionStateModel { down: m.down.remove(b@), ..m };
    if forall|j: int|
        0 <= j < m.map.bindings[action].len() ==> match #[trigger] m.map.bindings[action][j] {
            Binding::Axis { axis, threshold } => !binding::past_threshold(
                threshold,
                m.axes[keys::axis_index(axis)],
            ),
            other => other@ == b@ || !m.down.contains(other@),
        } {
        assert forall|j: int| 0 <= j < list.len() implies !binding_holds(
            off,
            #[trigger] actions::bindings_of(off.map, action)[j],
        ) by {
            assert(list[j] == m.map.bindings[action][j]);
        }
        assert(!action_holds(off, action));
    }
}

/// A tap, a button that goes down and up again with nothing else held,
/// leaves the action up with both edges, and its own source up.
pub proof fn law_taps_leave_both_edges<A>(m: ActionStateModel<A>, b: Binding, action: A)
    requires
        b is Key || b is Physical || b is Mouse || b is Pad,
        m.map.bindings.contains_key(action),
        m.map.bindings[action] == seq![b],
        !m.pressed.contains(action),
    ensures
        ({
            let tapped = fired(fired(m, b, true), b, false);
            &&& !tapped.pressed.contains(action)
            &&& tapped.just_pressed.contains(action)
            &&& tapped.just_released.contains(action)
            &&& !tapped.down.contains(b@)
        }),
{
    law_buttons_drive_their_actions(m, b, action, 0);
    law_buttons_drive_their_actions(fired(m, b, true), b, action, 0);
}

/// Moving an axis sets its value and no other's. An action that lists the
/// axis is pressed when the value is at or past its threshold, on the
/// threshold's side of zero (off zero for a threshold of zero), with an
/// edge unless it was pressed already.
pub proof fn law_axes_drive_their_actions<A>(
    m: ActionStateModel<A>,
    axis: GamepadAxis,
    value: Scalar,
    action: A,
    i: int,
    threshold: Scalar,
)
    requires
        m.axes.len() == AXES,
        m.map.bindings.contains_key(action),
        0 <= i < m.map.bindings[action].len(),
        m.map.bindings[action][i] == (Binding::Axis { axis, threshold }),
    ensures
        ({
            let zero = Scalar { bits: 0 };
            let after = axis_moved(m, axis, value);
            &&& after.axes == m.axes.update(keys::axis_index(axis), value)
            &&& after.down == m.down
            &&& value.finite() && (zero.lt(threshold) && threshold.le(value) || threshold.lt(zero)
                && value.le(threshold) || threshold.eqv(zero) && !value.eqv(zero)) ==> {
                &&& after.pressed.contains(action)
                &&& after.just_pressed.contains(action) == (m.just_pressed.contains(action)
                    || !m.pressed.contains(action))
                &&& after.just_released.contains(action) == m.just_released.contains(action)
            }
        }),
{
    keys::law_axes_have_places(axis, axis);
    let list = m.map.bindings[action];
    assert(actions::bindings_of(m.map, action)[i] == list[i]);
    assert(on_axis(m.map, action, axis));
    let after = ActionStateModel { axes: m.axes.update(keys::axis_index(axis), value), ..m };
    if binding::past_threshold(threshold, value) {
        assert(binding_holds(after, actions::bindings_of(after.map, action)[i]));
        assert(action_holds(after, action));
    }
}

/// Bringing an axis back short of the threshold of an action that lists
/// nothing else releases the action, with an edge if it was pressed.
pub proof fn law_axes_release_their_actions<A>(
    m: ActionStateModel<A>,
    axis: GamepadAxis,
    value: Scalar,
    action: A,
    threshold: Scalar,
)
    requires
        m.axes.len() == AXES,
        m.map.bindings.contains_key(action),
        m.map.bindings[action] == seq![Binding::Axis { axis, threshold }],
        ({
            let zero = Scalar { bits: 0 };
            ||| !value.finite()
            ||| zero.lt(threshold) && value.lt(threshold)
            ||| threshold.lt(zero) && threshold.lt(value)
            ||| threshold.eqv(zero) && value.eqv(zero)
        }),
    ensures
        ({
            let after = axis_moved(m, axis, value);
            &&& !after.pressed.contains(action)
            &&& after.just_released.contains(action) == (m.just_released.contains(action)
                || m.pressed.contains(action))
            &&& after.just_pressed.contains(action) == m.just_pressed.contains(action)
        }),
{
    keys::law_axes_have_places(axis, axis);
    let list = m.map.bindings[action];
    assert(actions::bindings_of(m.map, action) == list);
    assert(actions::bindings_of(m.map, action)[0] == list[0]);
    assert(on_axis(m.map, action, axis));
    let after = ActionStateModel { axes: m.axes.update(keys::axis_index(axis), value), ..m };
    assert forall|j: int| 0 <= j < list.len() implies !binding_holds(
        after,
        #[trigger] actions::bindings_of(after.map, action)[j],
    ) by {}
    assert(!action_holds(after, action));
}

/// Feeding a source changes levels and edges alone: not the map, the
/// contexts, what was consumed, nor the axes.
pub proof fn law_buttons_change_nothing_else<A>(m: ActionStateModel<A>, b: Binding, down: bool)
    ensures
        fired(m, b, down).map == m.map,
        fired(m, b, down).active == m.active,
        fired(m, b, down).consumed == m.consumed,
        fired(m, b, down).axes == m.axes,
        b is Axis ==> fired(m, b, down).down == m.down,
{
}

/// Consumed actions are hidden; others are read where they are in no
/// context, or in one that is active, and not where none of theirs is.
pub proof fn law_reads_are_gated<A>(m: ActionStateModel<A>, action: A)
    ensures
        m.consumed.contains(action) ==> !readable(m, action),
        !m.consumed.contains(action) && !m.map.contexts.contains_key(action) ==> readable(
            m,
            action,
        ),
        forall|n: Seq<char>|
            m.map.contexts.contains_key(action) && #[trigger] m.map.contexts[action].contains(n)
                && m.active.contains(n) && !m.consumed.contains(action) ==> readable(m, action),
        m.map.contexts.contains_key(action) && m.map.contexts[action].disjoint(m.active)
            ==> !readable(m, action),
{
}

/// Driving an action by hand moves its level and leaves an edge where the
/// level changed, and touches no other action.
pub proof fn law_mocks_move_one_action<A>(m: ActionStateModel<A>, a: A, b: A)
    ensures
        ({
            let on = pressed_by_hand(m, a);
            &&& on.pressed.contains(a)
            &&& on.just_pressed.contains(a) == (m.just_pressed.contains(a)
                || !m.pressed.contains(a))
            &&& on.just_released == m.just_released
            &&& on.down == m.down && on.map == m.map && on.consumed == m.consumed
            &&& a != b ==> on.pressed.contains(b) == m.pressed.contains(b)
                && on.just_pressed.contains(b) == m.just_pressed.contains(b)
        }),
        ({
            let off = released_by_hand(m, a);
            &&& !off.pressed.contains(a)
            &&& off.just_released.contains(a) == (m.just_released.contains(a)
                || m.pressed.contains(a))
            &&& off.just_pressed == m.just_pressed
            &&& off.down == m.down && off.map == m.map && off.consumed == m.consumed
            &&& a != b ==> off.pressed.contains(b) == m.pressed.contains(b)
                && off.just_released.contains(b) == m.just_released.contains(b)
        }),
{
}

/// A new map drops what it does not bind and keeps what it does: levels,
/// press edges and held buttons. Releases are forgotten, and nothing is
/// pressed that was not.
pub proof fn law_remaps_keep_what_is_bound<A>(
    m: ActionStateModel<A>,
    map: actions::ActionMapModel<A>,
    action: A,
)
    ensures
        ({
            let after = remapped(m, map);
            let bound = map.bindings.contains_key(action) && map.bindings[action].len() > 0;
            &&& after.map == map
            &&& after.pressed.contains(action) == (m.pressed.contains(action) && bound)
            &&& after.just_pressed.contains(action) == (m.just_pressed.contains(action) && bound)
            &&& !after.just_released.contains(action)
            &&& after.consumed == m.consumed
            &&& after.active == m.active
            &&& after.axes == m.axes
            &&& forall|b: binding::BindingModel| #[trigger]
                after.down.contains(b) ==> m.down.contains(b)
            &&& map.bindings.contains_key(action) ==> forall|i: int|
                0 <= i < map.bindings[action].len() && m.down.contains(
                    (#[trigger] map.bindings[action][i])@,
                ) ==> after.down.contains(map.bindings[action][i]@)
        }),
        forall|b: binding::BindingModel|
            (forall|a: A, i: int|
                #![trigger map.bindings[a][i]]
                map.bindings.contains_key(a) && 0 <= i < map.bindings[a].len()
                    ==> map.bindings[a][i]@ != b) ==> !#[trigger] remapped(m, map).down.contains(b),
{
    if map.bindings.contains_key(action) {
        assert forall|i: int|
            0 <= i < map.bindings[action].len() && m.down.contains(
                (#[trigger] map.bindings[action][i])@,
            ) implies remapped(m, map).down.contains(map.bindings[action][i]@) by {
            assert(actions::bindings_of(map, action)[i] == map.bindings[action][i]);
        }
    }
    assert forall|b: binding::BindingModel|
        (forall|a: A, i: int|
            #![trigger map.bindings[a][i]]
            map.bindings.contains_key(a) && 0 <= i < map.bindings[a].len() ==> map.bindings[a][i]@
                != b) implies !#[trigger] remapped(m, map).down.contains(b) by {
        if in_map(map, b) {
            let (a, i) = choose|a: A, i: int|
                #![trigger actions::bindings_of(map, a)[i]]
                0 <= i < actions::bindings_of(map, a).len() && actions::bindings_of(map, a)[i]@
                    == b;
            assert(map.bindings[a][i]@ != b);
        }
    }
}

/// The pulls of an action are those of its axis bindings whose value is
/// past the threshold, each with its own threshold and value.
pub proof fn law_pulls_are_past_their_thresholds(list: Seq<Binding>, axes: Seq<Scalar>)
    ensures
        forall|k: int|
            0 <= k < axis_pulls(list, axes).len() ==> exists|i: int|
                0 <= i < list.len() && (#[trigger] list[i] matches Binding::Axis {
                    axis,
                    threshold,
                } && (threshold, axes[keys::axis_index(axis)]) == #[trigger] axis_pulls(
                    list,
                    axes,
                )[k] && binding::past_threshold(threshold, axes[keys::axis_index(axis)])),
        forall|i: int|
            0 <= i < list.len() ==> (#[trigger] list[i] matches Binding::Axis { axis, threshold }
                ==> binding::past_threshold(threshold, axes[keys::axis_index(axis)])
                ==> axis_pulls(list, axes).contains((threshold, axes[keys::axis_index(axis)]))),
    decreases list.len(),
{
    if list.len() > 0 {
        let front = list.drop_last();
        law_pulls_are_past_their_thresholds(front, axes);
        let (some, all) = (axis_pulls(front, axes), axis_pulls(list, axes));
        assert(list[list.len() - 1] == list.last());
        assert forall|k: int| 0 <= k < all.len() implies exists|i: int|
            0 <= i < list.len() && (#[trigger] list[i] matches Binding::Axis { axis, threshold }
                && (threshold, axes[keys::axis_index(axis)]) == #[trigger] all[k]
                && binding::past_threshold(threshold, axes[keys::axis_index(axis)])) by {
            if k < some.len() {
                assert(all[k] == some[k]);
                let i = choose|i: int|
                    0 <= i < front.len() && (#[trigger] front[i] matches Binding::Axis {
                        axis,
                        threshold,
                    } && (threshold, axes[keys::axis_index(axis)]) == some[k]
                        && binding::past_threshold(threshold, axes[keys::axis_index(axis)]));
                assert(list[i] == front[i]);
            }
        }
        assert forall|i: int| 0 <= i < list.len() implies (
        #[trigger] list[i] matches Binding::Axis { axis, threshold } ==> binding::past_threshold(
            threshold,
            axes[keys::axis_index(axis)],
        ) ==> all.contains((threshold, axes[keys::axis_index(axis)]))) by {
            if let Binding::Axis { axis, threshold } = list[i] {
                let pull = (threshold, axes[keys::axis_index(axis)]);
                if binding::past_threshold(threshold, pull.1) {
                    if i < front.len() {
                        assert(front[i] == list[i]);
                        assert(some.contains(pull));
                        let k = choose|k: int| 0 <= k < some.len() && some[k] == pull;
                        assert(all[k] == pull);
                    } else {
                        assert(all[all.len() - 1] == pull);
                    }
                }
            }
        }
    }
}

/// The sources of a list are those of its members and no others.
pub proof fn law_lists_have_their_members_sources(
    list: Seq<Binding>,
    put: Binding,
    b: binding::BindingModel,
)
    ensures
        !sources_of(Seq::empty()).contains(b),
        sources_of(list.push(put)).contains(b) <==> sources_of(list).contains(b) || put@ == b,
{
    let all = list.push(put);
    if sources_of(list).contains(b) {
        let i = choose|i: int| 0 <= i < list.len() && (#[trigger] list[i])@ == b;
        assert(all[i]@ == b);
    }
    if put@ == b {
        assert(all[list.len() as int]@ == b);
    }
    if sources_of(all).contains(b) {
        let i = choose|i: int| 0 <= i < all.len() && (#[trigger] all[i])@ == b;
        if i < list.len() {
            assert(list[i]@ == b);
        }
    }
}

/// An action that is not bound to a source keeps its level and its edges
/// when that source moves, button or axis.
pub proof fn law_unbound_actions_stay<A>(
    m: ActionStateModel<A>,
    action: A,
    b: Binding,
    down: bool,
    axis: GamepadAxis,
    value: Scalar,
)
    ensures
        (forall|i: int|
            0 <= i < actions::bindings_of(m.map, action).len() ==> !binding::same_binding(
                #[trigger] actions::bindings_of(m.map, action)[i],
                b,
            )) ==> {
            let after = fired(m, b, down);
            &&& after.pressed.contains(action) == m.pressed.contains(action)
            &&& after.just_pressed.contains(action) == m.just_pressed.contains(action)
            &&& after.just_released.contains(action) == m.just_released.contains(action)
        },
        (forall|i: int|
            0 <= i < actions::bindings_of(m.map, action).len() ==> !(#[trigger] actions::bindings_of(
                m.map,
                action,
            )[i] matches Binding::Axis { axis: x, threshold: _ } && x == axis)) ==> {
            let after = axis_moved(m, axis, value);
            &&& after.pressed.contains(action) == m.pressed.contains(action)
            &&& after.just_pressed.contains(action) == m.just_pressed.contains(action)
            &&& after.just_released.contains(action) == m.just_released.contains(action)
        },
        axis_moved(m, axis, value).map == m.map,
        axis_moved(m, axis, value).active == m.active,
        axis_moved(m, axis, value).consumed == m.consumed,
        axis_moved(m, axis, value).down == m.down,
{
}

} // verus!
