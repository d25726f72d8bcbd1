//! Staged input: platform events between two frames, as levels and one-shot
//! edges the game takes when it ticks.
//!
//! Positions (`P`) are carried, never computed with.

use super::levels::PolledLevels;
use crate::input::aim;
use crate::input::keys;
use crate::input::{
    AimTracker, GamepadState, Key, MouseState, PhysicalKey, PointerButton, StagedClick,
    TouchContact,
};
use crate::scalar::Scalar;
use std::collections::{HashMap, HashSet};
use vstd::prelude::*;

verus! {

/// A key event.
#[derive(Clone, Copy, Debug)]
pub struct KeyPress {
    pub key: Key,
    pub down: bool,
    pub is_repeat: bool,
    /// Key position; `None` for synthetic events.
    pub physical: Option<PhysicalKey>,
}

#[derive(Debug)]
pub struct Staging<P> {
    /// Key positions that are down, each once.
    pub held: Vec<PhysicalKey>,
    /// Key positions that went down, in order.
    pub edges: Vec<PhysicalKey>,
    pub window_focused: bool,
    pub clicks: Vec<StagedClick<P>>,
    pub aim: AimTracker<P>,
    pub mouse_edges: Vec<(PointerButton, bool)>,
    pub lmb_held: bool,
    pub rmb_held: bool,
    pub rmb_down_edge: bool,
    /// Fingers that are down: where each came down and where it is.
    pub touch_active: HashMap<u64, (P, P)>,
    pub touch_new: HashSet<u64>,
    pub pads: Vec<GamepadState>,
    pub pad_live: bool,
    /// Inputs waiting to resolve a rebind gesture.
    pub capture_pending_physical: Option<PhysicalKey>,
    pub capture_pending_key: Option<Key>,
    pub capture_pending_mouse: Option<PointerButton>,
    pub view_width: Scalar,
}

/// The codes of a list of key positions.
pub open spec fn codes(keys: Seq<PhysicalKey>) -> Set<Seq<char>> {
    Set::new(|c: Seq<char>| exists|i: int| 0 <= i < keys.len() && (#[trigger] keys[i])@ == c)
}

/// The key position an event stages: that of a typed character, and of the
/// named keys the game reads. Escape and Enter are left to shortcuts.
pub open spec fn staged_code(ev: KeyPress) -> Option<Seq<char>> {
    match ev.key {
        Key::Character(_) => match ev.physical {
            Some(k) => Some(k@),
            None => None,
        },
        Key::ShiftLeft => Some("ShiftLeft"@),
        Key::ShiftRight => Some("ShiftRight"@),
        Key::Space => Some("Space"@),
        Key::Tab => Some("Tab"@),
        Key::ArrowUp => Some("ArrowUp"@),
        Key::ArrowDown => Some("ArrowDown"@),
        Key::ArrowLeft => Some("ArrowLeft"@),
        Key::ArrowRight => Some("ArrowRight"@),
        _ => None,
    }
}

/// Whether `list` holds the position.
pub fn holds_key(list: &Vec<PhysicalKey>, key: &PhysicalKey) -> (r: bool)
    ensures
        r == codes(list@).contains(key@),
{
    let mut i: usize = 0;
    while i < list.len()
        invariant
            i <= list@.len(),
            forall|j: int| 0 <= j < i ==> (#[trigger] list@[j])@ != key@,
        decreases list@.len() - i,
    {
        if list[i].same(key) {
            return true;
        }
        i += 1;
    }
    false
}

proof fn lemma_codes_push(list: Seq<PhysicalKey>, x: PhysicalKey)
    ensures
        codes(list.push(x)) == codes(list).insert(x@),
{
    let all = list.push(x);
    assert forall|c: Seq<char>| #[trigger] codes(all).contains(c) <==> codes(list).insert(
        x@,
    ).contains(c) by {
        if codes(list).contains(c) {
            let k = choose|k: int| 0 <= k < list.len() && (#[trigger] list[k])@ == c;
            assert(all[k]@ == c);
        }
        if c == x@ {
            assert(all[list.len() as int]@ == c);
        }
        if codes(all).contains(c) {
            let k = choose|k: int| 0 <= k < all.len() && (#[trigger] all[k])@ == c;
            if k < list.len() {
                assert(list[k]@ == c);
            }
        }
    }
    assert(codes(all) =~= codes(list).insert(x@));
}

/// `out` holds one contact per finger of `active`; `ids` are the fingers in
/// the order of `out`.
pub open spec fn contacts_of<P>(
    active: Map<u64, (P, P)>,
    fresh: Set<u64>,
    ids: Seq<u64>,
    out: Seq<TouchContact<P>>,
) -> bool {
    &&& ids.no_duplicates()
    &&& ids.to_set() == active.dom()
    &&& out.len() == ids.len()
    &&& forall|i: int|
        0 <= i < out.len() ==> #[trigger] out[i] == (TouchContact {
            start: active[ids[i]].0,
            pos: active[ids[i]].1,
            just_pressed: fresh.contains(ids[i]),
        })
}

impl<P: Copy> Default for Staging<P> {
    fn default() -> (s: Self)
        ensures
            s.idle(),
            !s.window_focused,
            s.view_width == (Scalar { bits: 0 }),
    {
        Staging {
            held: Vec::new(),
            edges: Vec::new(),
            window_focused: false,
            clicks: Vec::new(),
            aim: AimTracker::default(),
            mouse_edges: Vec::new(),
            lmb_held: false,
            rmb_held: false,
            rmb_down_edge: false,
            touch_active: HashMap::new(),
            touch_new: HashSet::new(),
            pads: Vec::new(),
            pad_live: false,
            capture_pending_physical: None,
            capture_pending_key: None,
            capture_pending_mouse: None,
            view_width: Scalar::zero(),
        }
    }
}

impl<P: Copy> Staging<P> {
    /// Nothing is held, pending or aimed.
    pub open spec fn idle(&self) -> bool {
        &&& self.cancelled()
        &&& self.pads@.len() == 0
        &&& !self.pad_live
        &&& self.aim.wf()
        &&& self.aim@.count == 0
    }

    /// No input is held or pending.
    pub open spec fn cancelled(&self) -> bool {
        &&& self.held@.len() == 0
        &&& self.edges@.len() == 0
        &&& self.clicks@.len() == 0
        &&& self.mouse_edges@.len() == 0
        &&& !self.lmb_held
        &&& !self.rmb_held
        &&& !self.rmb_down_edge
        &&& self.touch_active@ == Map::<u64, (P, P)>::empty()
        &&& self.touch_new@ == Set::<u64>::empty()
        &&& self.capture_pending_physical is None
        &&& self.capture_pending_key is None
        &&& self.capture_pending_mouse is None
    }

    /// What input cancellation does not touch.
    pub open spec fn keeps_rest(&self, after: &Self) -> bool {
        &&& after.aim == self.aim
        &&& after.pads == self.pads
        &&& after.pad_live == self.pad_live
        &&& after.view_width == self.view_width
    }

    /// Staging for a window that starts focused.
    pub fn shared() -> (s: Self)
        ensures
            s.idle(),
            s.window_focused,
            s.view_width == (Scalar { bits: 0x44a0_0000 }),
    {
        let mut s: Self = Staging::default();
        s.window_focused = true;
        s.view_width = Scalar::from_bits(0x44a0_0000);
        s
    }

    /// The key state after one event for a position.
    pub open spec fn key_staged(
        &self,
        after: &Self,
        code: Seq<char>,
        down: bool,
        is_repeat: bool,
    ) -> bool {
        &&& *after == (Staging { held: after.held, edges: after.edges, ..*self })
        &&& codes(after.held@) == if down {
            codes(self.held@).insert(code)
        } else {
            codes(self.held@).remove(code)
        }
        &&& if down && !is_repeat && !codes(self.held@).contains(code) {
            &&& after.edges@.len() == self.edges@.len() + 1
            &&& after.edges@.drop_last() == self.edges@
            &&& after.edges@.last()@ == code
        } else {
            after.edges@ == self.edges@
        }
    }

    pub fn handle_key(&mut self, ev: &KeyPress)
        ensures
            match staged_code(*ev) {
                Some(code) => old(self).key_staged(final(self), code, ev.down, ev.is_repeat),
                None => *final(self) == *old(self),
            },
    {
        let key: PhysicalKey = match ev.key {
            Key::Character(_) => match ev.physical {
                Some(k) => k,
                None => {
                    return ;
                },
            },
            Key::ShiftLeft => PhysicalKey { code: "ShiftLeft" },
            Key::ShiftRight => PhysicalKey { code: "ShiftRight" },
            Key::Space => PhysicalKey { code: "Space" },
            Key::Tab => PhysicalKey { code: "Tab" },
            Key::ArrowUp => PhysicalKey { code: "ArrowUp" },
            Key::ArrowDown => PhysicalKey { code: "ArrowDown" },
            Key::ArrowLeft => PhysicalKey { code: "ArrowLeft" },
            Key::ArrowRight => PhysicalKey { code: "ArrowRight" },
            _ => {
                return ;
            },
        };
        self.stage_physical(key, ev.down, ev.is_repeat);
    }

    /// Stage a key position. A press from rest that is no auto-repeat
    /// leaves an edge.
    pub fn stage_physical(&mut self, key: PhysicalKey, down: bool, is_repeat: bool)
        ensures
            old(self).key_staged(final(self), key@, down, is_repeat),
    {
        let ghost was = self.held@;
        if down {
            if !holds_key(&self.held, &key) {
                self.held.push(key);
                proof {
                    lemma_codes_push(was, key);
                }
                if !is_repeat {
                    self.edges.push(key);
                    assert(self.edges@.drop_last() =~= old(self).edges@);
                }
            } else {
                assert(codes(was).insert(key@) =~= codes(was));
            }
        } else {
            let mut kept: Vec<PhysicalKey> = Vec::new();
            let mut i: usize = 0;
            assert(codes(kept@) =~= codes(was.take(0)).remove(key@));
            while i < self.held.len()
                invariant
                    i <= self.held@.len(),
                    self.held@ == was,
                    *self == *old(self),
                    codes(kept@) == codes(was.take(i as int)).remove(key@),
                decreases self.held@.len() - i,
            {
                let k: PhysicalKey = self.held[i];
                let ghost before = kept@;
                proof {
                    assert(was.take(i + 1) =~= was.take(i as int).push(k));
                    lemma_codes_push(was.take(i as int), k);
                    lemma_codes_push(before, k);
                }
                if !k.same(&key) {
                    kept.push(k);
                }
                assert(codes(kept@) =~= codes(was.take(i + 1)).remove(key@));
                i += 1;
            }
            assert(was.take(i as int) =~= was);
            self.held = kept;
        }
    }

    pub fn stage_physical_key(&mut self, key: PhysicalKey, down: bool)
        ensures
            old(self).key_staged(final(self), key@, down, false),
    {
        self.stage_physical(key, down, false);
    }

    /// Focus changed. Losing it cancels everything held or pending: no
    /// release arrives across an alt-tab.
    pub fn set_window_focused(&mut self, focused: bool)
        ensures
            final(self).window_focused == focused,
            focused ==> *final(self) == (Staging { window_focused: focused, ..*old(self) }),
            !focused ==> final(self).cancelled() && old(self).keeps_rest(final(self)),
    {
        self.window_focused = focused;
        if !focused {
            self.held.clear();
            self.edges.clear();
            self.lmb_held = false;
            self.rmb_held = false;
            self.clicks.clear();
            self.mouse_edges.clear();
            self.rmb_down_edge = false;
            self.touch_active.clear();
            self.touch_new.clear();
            self.capture_pending_physical = None;
            self.capture_pending_key = None;
            self.capture_pending_mouse = None;
            assert(self.touch_active@ =~= Map::<u64, (P, P)>::empty());
            assert(self.touch_new@ =~= Set::<u64>::empty());
        }
    }

    /// Repair levels from the polled hardware state. Keys are held exactly
    /// if they are polled down; mouse buttons only drop. Edges are left
    /// alone: repair never synthesizes a press. Without window focus,
    /// everything is cancelled.
    pub fn feed_polled(&mut self, polled: &PolledLevels)
        ensures
            final(self).window_focused == polled.window_focused,
            polled.window_focused ==> {
                &&& *final(self) == (Staging {
                    held: final(self).held,
                    window_focused: true,
                    lmb_held: old(self).lmb_held && polled.mouse_primary,
                    rmb_held: old(self).rmb_held && polled.mouse_secondary,
                    ..*old(self)
                })
                &&& codes(final(self).held@) == position_codes(polled.held_keys@)
            },
            !polled.window_focused ==> final(self).cancelled() && old(self).keeps_rest(
                final(self),
            ),
    {
        if !polled.window_focused {
            self.set_window_focused(false);
            return ;
        }
        self.window_focused = true;
        let mut held: Vec<PhysicalKey> = Vec::new();
        let names = &polled.held_keys;
        let mut i: usize = 0;
        assert(codes(held@) =~= position_codes(names@.take(0)));
        while i < names.len()
            invariant
                i <= names@.len(),
                codes(held@) == position_codes(names@.take(i as int)),
            decreases names@.len() - i,
        {
            let key = PhysicalKey::from_name(names[i].as_str());
            let ghost before = held@;
            proof {
                lemma_position_codes_next(names@, i as int);
                lemma_codes_push(before, key);
            }
            if !holds_key(&held, &key) {
                held.push(key);
            } else {
                assert(codes(before).insert(key@) =~= codes(before));
            }
            i += 1;
        }
        assert(names@.take(i as int) =~= names@);
        self.held = held;
        if !polled.mouse_primary {
            self.lmb_held = false;
        }
        if !polled.mouse_secondary {
            self.rmb_held = false;
        }
    }

    /// A mouse button went down. Every button but the primary one counts as
    /// the secondary.
    pub fn pick_down(&mut self, button: PointerButton)
        ensures
            *final(self) == (Staging {
                mouse_edges: final(self).mouse_edges,
                lmb_held: old(self).lmb_held || button == PointerButton::Primary,
                rmb_held: old(self).rmb_held || button != PointerButton::Primary,
                rmb_down_edge: old(self).rmb_down_edge || button != PointerButton::Primary,
                ..*old(self)
            }),
            final(self).mouse_edges@ == old(self).mouse_edges@.push((button, true)),
    {
        self.mouse_edges.push((button, true));
        if button == PointerButton::Primary {
            self.lmb_held = true;
        } else {
            self.rmb_down_edge = true;
            self.rmb_held = true;
        }
    }

    /// A mouse button went up.
    pub fn pick_up(&mut self, button: PointerButton)
        ensures
            *final(self) == (Staging {
                mouse_edges: final(self).mouse_edges,
                lmb_held: old(self).lmb_held && button != PointerButton::Primary,
                rmb_held: old(self).rmb_held && button == PointerButton::Primary,
                ..*old(self)
            }),
            final(self).mouse_edges@ == old(self).mouse_edges@.push((button, false)),
    {
        self.mouse_edges.push((button, false));
        if button == PointerButton::Primary {
            self.lmb_held = false;
        } else {
            self.rmb_held = false;
        }
    }

    /// Take the pending secondary press.
    pub fn take_rmb_down(&mut self) -> (r: bool)
        ensures
            r == old(self).rmb_down_edge,
            *final(self) == (Staging { rmb_down_edge: false, ..*old(self) }),
    {
        let r = self.rmb_down_edge;
        self.rmb_down_edge = false;
        r
    }

    /// Stage a click at a world point, with its canvas position.
    pub fn stage_click(&mut self, world: P, dp: P)
        ensures
            *final(self) == (Staging { clicks: final(self).clicks, ..*old(self) }),
            final(self).clicks@ == old(self).clicks@.push(StagedClick { world, dp }),
    {
        self.clicks.push(StagedClick { world, dp });
    }

    pub fn take_clicks(&mut self) -> (out: Vec<StagedClick<P>>)
        ensures
            out@ == old(self).clicks@,
            *final(self) == (Staging { clicks: final(self).clicks, ..*old(self) }),
            final(self).clicks@.len() == 0,
    {
        let mut out: Vec<StagedClick<P>> = Vec::new();
        core::mem::swap(&mut out, &mut self.clicks);
        out
    }

    pub fn take_edges(&mut self) -> (out: Vec<PhysicalKey>)
        ensures
            out@ == old(self).edges@,
            *final(self) == (Staging { edges: final(self).edges, ..*old(self) }),
            final(self).edges@.len() == 0,
    {
        let mut out: Vec<PhysicalKey> = Vec::new();
        core::mem::swap(&mut out, &mut self.edges);
        out
    }

    pub fn take_mouse_edges(&mut self) -> (out: Vec<(PointerButton, bool)>)
        ensures
            out@ == old(self).mouse_edges@,
            *final(self) == (Staging { mouse_edges: final(self).mouse_edges, ..*old(self) }),
            final(self).mouse_edges@.len() == 0,
    {
        let mut out: Vec<(PointerButton, bool)> = Vec::new();
        core::mem::swap(&mut out, &mut self.mouse_edges);
        out
    }

    /// Take the staged pad snapshots; a pad is live while there were some.
    pub fn take_pads(&mut self) -> (out: Vec<GamepadState>)
        ensures
            out@ == old(self).pads@,
            *final(self) == (Staging {
                pads: final(self).pads,
                pad_live: old(self).pads@.len() != 0,
                ..*old(self)
            }),
            final(self).pads@.len() == 0,
    {
        self.pad_live = self.pads.len() != 0;
        let mut out: Vec<GamepadState> = Vec::new();
        core::mem::swap(&mut out, &mut self.pads);
        out
    }

    pub fn stage_gamepad(&mut self, pad: GamepadState)
        ensures
            *final(self) == (Staging { pads: final(self).pads, pad_live: true, ..*old(self) }),
            final(self).pads@ == old(self).pads@.push(pad),
    {
        self.pads.push(pad);
        self.pad_live = true;
    }

    /// The finger state after `active` and `fresh` became these.
    pub open spec fn touches(
        &self,
        after: &Self,
        active: Map<u64, (P, P)>,
        fresh: Set<u64>,
    ) -> bool {
        &&& *after == (Staging {
            touch_active: after.touch_active,
            touch_new: after.touch_new,
            ..*self
        })
        &&& after.touch_active@ == active
        &&& after.touch_new@ == fresh
    }

    pub fn touch_down(&mut self, id: u64, screen: P)
        ensures
            old(self).touches(
                final(self),
                old(self).touch_active@.insert(id, (screen, screen)),
                old(self).touch_new@.insert(id),
            ),
    {
        broadcast use vstd::std_specs::hash::group_hash_axioms;

        self.touch_active.insert(id, (screen, screen));
        self.touch_new.insert(id);
    }

    /// A finger moved; unknown fingers are ignored.
    pub fn touch_move(&mut self, id: u64, screen: P)
        ensures
            old(self).touches(
                final(self),
                if old(self).touch_active@.contains_key(id) {
                    old(self).touch_active@.insert(id, (old(self).touch_active@[id].0, screen))
                } else {
                    old(self).touch_active@
                },
                old(self).touch_new@,
            ),
    {
        broadcast use vstd::std_specs::hash::group_hash_axioms;

        let start: Option<P> = match self.touch_active.get(&id) {
            Some(c) => Some(c.0),
            None => None,
        };
        if let Some(start) = start {
            self.touch_active.insert(id, (start, screen));
        }
    }

    pub fn touch_up(&mut self, id: u64)
        ensures
            old(self).touches(
                final(self),
                old(self).touch_active@.remove(id),
                old(self).touch_new@.remove(id),
            ),
    {
        broadcast use vstd::std_specs::hash::group_hash_axioms;

        self.touch_active.remove(&id);
        self.touch_new.remove(&id);
    }

    /// The fingers that are down, in no particular order; each is new once.
    pub fn touch_contacts(&mut self) -> (out: Vec<TouchContact<P>>)
        ensures
            exists|ids: Seq<u64>| #[trigger]
                contacts_of(old(self).touch_active@, old(self).touch_new@, ids, out@),
            old(self).touches(final(self), old(self).touch_active@, Set::empty()),
    {
        broadcast use vstd::std_specs::hash::group_hash_axioms;

        let ghost active = self.touch_active@;
        let ghost fresh = self.touch_new@;
        let ids = self.finger_ids();
        let mut out: Vec<TouchContact<P>> = Vec::new();
        let mut i: usize = 0;
        while i < ids.len()
            invariant
                i <= ids@.len(),
                self.touch_active@ == active,
                self.touch_new@ == fresh,
                *self == *old(self),
                ids@.no_duplicates(),
                ids@.to_set() == active.dom(),
                out@.len() == i,
                forall|j: int|
                    0 <= j < i ==> #[trigger] out@[j] == (TouchContact {
                        start: active[ids@[j]].0,
                        pos: active[ids@[j]].1,
                        just_pressed: fresh.contains(ids@[j]),
                    }),
            decreases ids@.len() - i,
        {
            let id: u64 = ids[i];
            assert(ids@.to_set().contains(id));
            match self.touch_active.get(&id) {
                Some(c) => {
                    let contact = TouchContact {
                        start: c.0,
                        pos: c.1,
                        just_pressed: self.touch_new.contains(&id),
                    };
                    out.push(contact);
                },
                None => {},
            }
            i += 1;
        }
        self.touch_new.clear();
        assert(contacts_of(active, fresh, ids@, out@));
        out
    }

    fn finger_ids(&self) -> (ids: Vec<u64>)
        ensures
            ids@.no_duplicates(),
            ids@.to_set() == self.touch_active@.dom(),
    {
        broadcast use vstd::std_specs::hash::group_hash_axioms;

        let mut all: Vec<u64> = Vec::new();
        let ghost keys = self.touch_active@.dom();
        for k in it: self.touch_active.keys()
            invariant
                it.seq().unref().to_set() == keys,
                it.seq().no_duplicates(),
                all@ == it.seq().unref().take(it.index() as int),
                it.index() == it.seq().len() ==> all@ == it.seq().unref(),
                all@.no_duplicates(),
        {
            proof {
                assert(*k == it.seq().unref()[it.index() as int]);
                assert forall|j: int| 0 <= j < all@.len() implies all@[j] != *k by {
                    assert(all@[j] == it.seq().unref()[j]);
                    assert(it.seq()[j] != it.seq()[it.index() as int]);
                }
            }
            all.push(*k);
            proof {
                assert(all@ =~= it.seq().unref().take(it.index() + 1));
                assert(it.index() + 1 == it.seq().len() ==> all@ =~= it.seq().unref());
            }
        }
        assert(all@.to_set() == keys);
        all
    }

    /// Stage the cursor's window position.
    pub fn cursor_move(&mut self, phys_px: P)
        requires
            old(self).aim.wf(),
            old(self).aim@.count < u64::MAX,
        ensures
            *final(self) == (Staging { aim: final(self).aim, ..*old(self) }),
            final(self).aim.wf(),
            final(self).aim@ == aim::moved_to(old(self).aim@, phys_px),
    {
        self.aim.cursor_move(phys_px);
    }

    /// Stage a viewport hover: world point and window position.
    pub fn stage_hover(&mut self, world: P, screen: P)
        requires
            old(self).aim.wf(),
            old(self).aim@.count < u64::MAX,
        ensures
            *final(self) == (Staging { aim: final(self).aim, ..*old(self) }),
            final(self).aim.wf(),
            final(self).aim@ == aim::hovered_at(old(self).aim@, world, screen),
    {
        self.aim.stage_hover(world, screen);
    }

    /// The mouse as the game sees it. The primary button is silent while
    /// firing is not allowed; a pending click counts as its press.
    pub fn mouse_state(&self, allow_fire: bool) -> (m: MouseState)
        ensures
            m == (MouseState {
                left_held: self.lmb_held && allow_fire,
                left_pressed: self.clicks@.len() != 0 && allow_fire,
                right_held: self.rmb_held,
                right_pressed: self.rmb_down_edge,
            }),
    {
        MouseState {
            left_held: self.lmb_held && allow_fire,
            left_pressed: self.clicks.len() != 0 && allow_fire,
            right_held: self.rmb_held,
            right_pressed: self.rmb_down_edge,
        }
    }
}

/// A key that stays down leaves one edge, however often its press comes
/// in, and it is held until its release.
pub proof fn law_held_keys_leave_one_edge<P: Copy>(
    before: Staging<P>,
    pressed: Staging<P>,
    again: Staging<P>,
    released: Staging<P>,
    code: Seq<char>,
    repeats: bool,
)
    requires
        before.key_staged(&pressed, code, true, false),
        pressed.key_staged(&again, code, true, repeats),
        again.key_staged(&released, code, false, false),
    ensures
        pressed.edges@.len() == before.edges@.len() + if codes(before.held@).contains(code) {
            0nat
        } else {
            1nat
        },
        again.edges@ == pressed.edges@,
        released.edges@ == pressed.edges@,
        codes(again.held@) == codes(pressed.held@),
        codes(pressed.held@).contains(code),
        !codes(released.held@).contains(code),
{
    assert(codes(before.held@).insert(code).insert(code) =~= codes(before.held@).insert(code));
}

/// The codes the names are read as.
pub open spec fn position_codes(names: Seq<String>) -> Set<Seq<char>> {
    Set::new(
        |c: Seq<char>|
            exists|i: int|
                0 <= i < names.len() && keys::position_code(
                    (#[trigger] names[i])@,
                ) == c,
    )
}

proof fn lemma_position_codes_next(names: Seq<String>, i: int)
    requires
        0 <= i < names.len(),
    ensures
        position_codes(names.take(i + 1)) == position_codes(names.take(i)).insert(
            keys::position_code(names[i]@),
        ),
{
    let (a, b) = (names.take(i), names.take(i + 1));
    let x = keys::position_code(names[i]@);
    assert forall|c: Seq<char>| #[trigger] position_codes(b).contains(c) <==> position_codes(
        a,
    ).insert(x).contains(c) by {
        if position_codes(a).contains(c) {
            let k = choose|k: int|
                0 <= k < a.len() && keys::position_code((#[trigger] a[k])@) == c;
            assert(keys::position_code(b[k]@) == c);
        }
        if c == x {
            assert(keys::position_code(b[i]@) == c);
        }
        if position_codes(b).contains(c) {
            let k = choose|k: int|
                0 <= k < b.len() && keys::position_code((#[trigger] b[k])@) == c;
            if k < i {
                assert(keys::position_code(a[k]@) == c);
            }
        }
    }
    assert(position_codes(b) =~= position_codes(a).insert(x));
}

/// A press of a key that types is staged under the position it came from,
/// and under none without one. Shifts, space, tab and arrows are staged by
/// their own name, and other keys are not staged.
pub proof fn law_presses_are_staged_by_position(ev: KeyPress)
    ensures
        ev.key is Character ==> (ev.physical matches Some(k) ==> staged_code(ev) == Some(k@)),
        ev.key is Character && ev.physical is None ==> staged_code(ev) is None,
        ev.key is ShiftLeft || ev.key is ShiftRight || ev.key is Space || ev.key is Tab
            || ev.key is ArrowUp || ev.key is ArrowDown || ev.key is ArrowLeft
            || ev.key is ArrowRight ==> staged_code(ev) == Some(crate::input::codec::key_text(ev.key)),
        ev.key is Enter || ev.key is Escape || ev.key is Backspace || ev.key is Delete
            || ev.key is Insert || ev.key is Home || ev.key is End || ev.key is PageUp
            || ev.key is PageDown || ev.key is F || ev.key is Unknown ==> staged_code(ev) is None,
{
}

/// Staging a key moves that key alone: it is held after a press and not
/// after a release, every other stays as it was, and only a press that is
/// no repeat, of a key that was up, leaves an edge.
pub proof fn law_staged_keys_move_alone<P: Copy>(
    before: Staging<P>,
    after: Staging<P>,
    code: Seq<char>,
    down: bool,
    is_repeat: bool,
    other: Seq<char>,
)
    requires
        before.key_staged(&after, code, down, is_repeat),
    ensures
        codes(after.held@).contains(code) == down,
        other != code ==> codes(after.held@).contains(other) == codes(before.held@).contains(other),
        after.edges@.len() == before.edges@.len() + if down && !is_repeat && !codes(
            before.held@,
        ).contains(code) {
            1nat
        } else {
            0nat
        },
        after.edges@.len() > before.edges@.len() ==> after.edges@.last()@ == code,
        after.lmb_held == before.lmb_held,
        after.rmb_held == before.rmb_held,
        after.clicks == before.clicks,
        after.window_focused == before.window_focused,
{
}

/// A list has the codes of its members and no others.
pub proof fn law_lists_have_their_members_codes(
    list: Seq<PhysicalKey>,
    put: PhysicalKey,
    code: Seq<char>,
)
    ensures
        !codes(Seq::empty()).contains(code),
        codes(list.push(put)).contains(code) <==> codes(list).contains(code) || put@ == code,
{
    lemma_codes_push(list, put);
}

/// Polled names hold the codes that they are read as and no others.
pub proof fn law_polled_names_hold_their_codes(
    names: Seq<String>,
    name: String,
    code: Seq<char>,
)
    ensures
        !position_codes(Seq::empty()).contains(code),
        position_codes(names.push(name)).contains(code) <==> position_codes(names).contains(code)
            || keys::position_code(name@) == code,
{
    let all = names.push(name);
    if position_codes(names).contains(code) {
        let i = choose|i: int|
            0 <= i < names.len() && keys::position_code((#[trigger] names[i])@) == code;
        assert(keys::position_code(all[i]@) == code);
    }
    if keys::position_code(name@) == code {
        assert(keys::position_code(all[names.len() as int]@) == code);
    }
    if position_codes(all).contains(code) {
        let i = choose|i: int|
            0 <= i < all.len() && keys::position_code((#[trigger] all[i])@) == code;
        if i < names.len() {
            assert(keys::position_code(names[i]@) == code);
        }
    }
}

/// Every finger that is down has one contact, which says where it came
/// down, where it is, and whether it is new; there are no other contacts.
pub proof fn law_fingers_have_one_contact<P>(
    active: Map<u64, (P, P)>,
    fresh: Set<u64>,
    ids: Seq<u64>,
    out: Seq<TouchContact<P>>,
    id: u64,
)
    requires
        contacts_of(active, fresh, ids, out),
    ensures
        out.len() == ids.len(),
        active.contains_key(id) <==> exists|i: int| {
            &&& 0 <= i < out.len()
            &&& #[trigger] ids[i] == id
            &&& out[i].start == active[id].0
            &&& out[i].pos == active[id].1
            &&& out[i].just_pressed == fresh.contains(id)
        },
        forall|i: int, j: int| 0 <= i < j < out.len() ==> ids[i] != ids[j],
{
    assert(ids.to_set().contains(id) <==> active.dom().contains(id));
    if active.contains_key(id) {
        assert(ids.contains(id));
        let i = choose|i: int| 0 <= i < ids.len() && ids[i] == id;
        assert(out[i].start == active[ids[i]].0);
    }
    if exists|i: int| 0 <= i < out.len() && #[trigger] ids[i] == id {
        let i = choose|i: int| 0 <= i < out.len() && #[trigger] ids[i] == id;
        assert(ids.contains(ids[i]));
    }
}

/// Cancelled staging holds nothing: no key, button, finger, edge, click or
/// capture is left.
pub proof fn law_cancelled_staging_is_empty<P: Copy>(s: Staging<P>, code: Seq<char>, id: u64)
    requires
        s.cancelled(),
    ensures
        !codes(s.held@).contains(code),
        !codes(s.edges@).contains(code),
        s.clicks@.len() == 0,
        s.mouse_edges@.len() == 0,
        !s.lmb_held && !s.rmb_held && !s.rmb_down_edge,
        !s.touch_active@.contains_key(id),
        !s.touch_new@.contains(id),
        s.capture_pending_physical is None,
        s.capture_pending_key is None,
        s.capture_pending_mouse is None,
{
}

/// Staging that is idle is cancelled, knows no pad and has no aim.
pub proof fn law_idle_staging_is_cancelled<P: Copy>(s: Staging<P>)
    requires
        s.idle(),
    ensures
        s.cancelled(),
        s.pads@.len() == 0,
        !s.pad_live,
        aim::live_position(s.aim@) is None,
{
}

/// A touch moves the fingers alone: keys, buttons, clicks, aim and pads
/// stay.
pub proof fn law_touches_move_fingers_alone<P: Copy>(
    before: Staging<P>,
    after: Staging<P>,
    active: Map<u64, (P, P)>,
    fresh: Set<u64>,
)
    requires
        before.touches(&after, active, fresh),
    ensures
        after.touch_active@ == active,
        after.touch_new@ == fresh,
        before.keeps_rest(&after),
        after.aim == before.aim && after.pads == before.pads && after.pad_live == before.pad_live,
        after.view_width == before.view_width,
        after.held == before.held && after.edges == before.edges,
        after.clicks == before.clicks && after.mouse_edges == before.mouse_edges,
        after.lmb_held == before.lmb_held && after.rmb_held == before.rmb_held,
        after.window_focused == before.window_focused,
{
}

} // verus!
