//! Gamepads: raw button and axis events turned into per-frame snapshots
//! with one-shot edges.

use super::ids::{self, sorted_ids, sorted_set};
use crate::input::{GamepadAxis, GamepadButton, GamepadState, Stick};
use crate::scalar::Scalar;
use std::collections::{HashMap, HashSet};
use vstd::prelude::*;

verus! {

/// `0.5`: above it a trigger counts as held.
pub const TRIGGER_HELD_BITS: u32 = 0x3f00_0000;

/// A gamepad event.
#[derive(Clone, Copy, Debug, PartialEq, Eq, Structural)]
pub enum PadEvent {
    Connected { id: u32 },
    Disconnected { id: u32 },
    Button { id: u32, button: GamepadButton, pressed: bool },
    Axis { id: u32, axis: GamepadAxis, value: Scalar },
}

/// Levels and pending edges of one pad.
#[derive(Clone, Copy, Debug, PartialEq, Eq, Structural)]
pub struct PadBridge {
    pub lx: Scalar,
    pub ly: Scalar,
    pub rx: Scalar,
    pub ry: Scalar,
    pub lt_held: bool,
    pub rt_held: bool,
    pub south: bool,
    pub east: bool,
    pub dpad_l: bool,
    pub dpad_u: bool,
    pub dpad_r: bool,
    pub north: bool,
    pub lt_edge: bool,
    pub rt_edge: bool,
    pub south_edge: bool,
    pub east_edge: bool,
    pub dpad_l_edge: bool,
    pub dpad_u_edge: bool,
    pub dpad_r_edge: bool,
    pub north_edge: bool,
}

/// A pad at rest.
pub open spec fn released_pad() -> PadBridge {
    let zero = Scalar { bits: 0 };
    PadBridge {
        lx: zero,
        ly: zero,
        rx: zero,
        ry: zero,
        lt_held: false,
        rt_held: false,
        south: false,
        east: false,
        dpad_l: false,
        dpad_u: false,
        dpad_r: false,
        north: false,
        lt_edge: false,
        rt_edge: false,
        south_edge: false,
        east_edge: false,
        dpad_l_edge: false,
        dpad_u_edge: false,
        dpad_r_edge: false,
        north_edge: false,
    }
}

/// The pad after a button moved: a press from rest leaves an edge. Buttons
/// that no snapshot reports are ignored.
pub open spec fn button_moved(p: PadBridge, button: GamepadButton, down: bool) -> PadBridge {
    match button {
        GamepadButton::South => PadBridge {
            south: down,
            south_edge: p.south_edge || (down && !p.south),
            ..p
        },
        GamepadButton::East => PadBridge {
            east: down,
            east_edge: p.east_edge || (down && !p.east),
            ..p
        },
        GamepadButton::North => PadBridge {
            north: down,
            north_edge: p.north_edge || (down && !p.north),
            ..p
        },
        GamepadButton::DPadLeft => PadBridge {
            dpad_l: down,
            dpad_l_edge: p.dpad_l_edge || (down && !p.dpad_l),
            ..p
        },
        GamepadButton::DPadUp => PadBridge {
            dpad_u: down,
            dpad_u_edge: p.dpad_u_edge || (down && !p.dpad_u),
            ..p
        },
        GamepadButton::DPadRight => PadBridge {
            dpad_r: down,
            dpad_r_edge: p.dpad_r_edge || (down && !p.dpad_r),
            ..p
        },
        _ => p,
    }
}

/// The trigger counts as held.
pub open spec fn trigger_held(value: Scalar) -> bool {
    Scalar { bits: TRIGGER_HELD_BITS }.lt(value)
}

/// The pad after an axis moved.
pub open spec fn axis_moved(p: PadBridge, axis: GamepadAxis, value: Scalar) -> PadBridge {
    match axis {
        GamepadAxis::LeftStickX => PadBridge { lx: value, ..p },
        GamepadAxis::LeftStickY => PadBridge { ly: value, ..p },
        GamepadAxis::RightStickX => PadBridge { rx: value, ..p },
        GamepadAxis::RightStickY => PadBridge { ry: value, ..p },
        GamepadAxis::LeftTrigger => PadBridge {
            lt_held: trigger_held(value),
            lt_edge: p.lt_edge || (trigger_held(value) && !p.lt_held),
            ..p
        },
        GamepadAxis::RightTrigger => PadBridge {
            rt_held: trigger_held(value),
            rt_edge: p.rt_edge || (trigger_held(value) && !p.rt_held),
            ..p
        },
    }
}

/// The pad without its pending edges.
pub open spec fn without_edges(p: PadBridge) -> PadBridge {
    PadBridge {
        lt_edge: false,
        rt_edge: false,
        south_edge: false,
        east_edge: false,
        dpad_l_edge: false,
        dpad_u_edge: false,
        dpad_r_edge: false,
        north_edge: false,
        ..p
    }
}

/// What a frame sees of the pad.
pub open spec fn snapshot_of(p: PadBridge) -> GamepadState {
    GamepadState {
        left_stick: Stick { x: p.lx, y: p.ly },
        right_stick: Stick { x: p.rx, y: p.ry },
        right_trigger_held: p.rt_held,
        right_trigger_pressed: p.rt_edge,
        left_trigger_held: p.lt_held,
        left_trigger_pressed: p.lt_edge,
        south_pressed: p.south_edge,
        east_pressed: p.east_edge,
        dpad_left_pressed: p.dpad_l_edge,
        dpad_up_pressed: p.dpad_u_edge,
        dpad_right_pressed: p.dpad_r_edge,
        north_pressed: p.north_edge,
    }
}

impl Default for PadBridge {
    fn default() -> (p: Self)
        ensures
            p == released_pad(),
    {
        let zero = Scalar::zero();
        PadBridge {
            lx: zero,
            ly: zero,
            rx: zero,
            ry: zero,
            lt_held: false,
            rt_held: false,
            south: false,
            east: false,
            dpad_l: false,
            dpad_u: false,
            dpad_r: false,
            north: false,
            lt_edge: false,
            rt_edge: false,
            south_edge: false,
            east_edge: false,
            dpad_l_edge: false,
            dpad_u_edge: false,
            dpad_r_edge: false,
            north_edge: false,
        }
    }
}

impl PadBridge {
    pub fn button(&mut self, button: GamepadButton, pressed: bool)
        ensures
            *final(self) == button_moved(*old(self), button, pressed),
    {
        match button {
            GamepadButton::South => {
                *self = PadBridge {
                    south: pressed,
                    south_edge: self.south_edge || (pressed && !self.south),
                    ..*self
                };
            },
            GamepadButton::East => {
                *self = PadBridge {
                    east: pressed,
                    east_edge: self.east_edge || (pressed && !self.east),
                    ..*self
                };
            },
            GamepadButton::North => {
                *self = PadBridge {
                    north: pressed,
                    north_edge: self.north_edge || (pressed && !self.north),
                    ..*self
                };
            },
            GamepadButton::DPadLeft => {
                *self = PadBridge {
                    dpad_l: pressed,
                    dpad_l_edge: self.dpad_l_edge || (pressed && !self.dpad_l),
                    ..*self
                };
            },
            GamepadButton::DPadUp => {
                *self = PadBridge {
                    dpad_u: pressed,
                    dpad_u_edge: self.dpad_u_edge || (pressed && !self.dpad_u),
                    ..*self
                };
            },
            GamepadButton::DPadRight => {
                *self = PadBridge {
                    dpad_r: pressed,
                    dpad_r_edge: self.dpad_r_edge || (pressed && !self.dpad_r),
                    ..*self
                };
            },
            _ => {},
        }
    }

    pub fn axis(&mut self, axis: GamepadAxis, value: Scalar)
        ensures
            *final(self) == axis_moved(*old(self), axis, value),
    {
        let held = Scalar::from_bits(TRIGGER_HELD_BITS).less(value);
        match axis {
            GamepadAxis::LeftStickX => {
                *self = PadBridge { lx: value, ..*self };
            },
            GamepadAxis::LeftStickY => {
                *self = PadBridge { ly: value, ..*self };
            },
            GamepadAxis::RightStickX => {
                *self = PadBridge { rx: value, ..*self };
            },
            GamepadAxis::RightStickY => {
                *self = PadBridge { ry: value, ..*self };
            },
            GamepadAxis::LeftTrigger => {
                *self = PadBridge {
                    lt_held: held,
                    lt_edge: self.lt_edge || (held && !self.lt_held),
                    ..*self
                };
            },
            GamepadAxis::RightTrigger => {
                *self = PadBridge {
                    rt_held: held,
                    rt_edge: self.rt_edge || (held && !self.rt_held),
                    ..*self
                };
            },
        }
    }

    pub fn snapshot(&self) -> (s: GamepadState)
        ensures
            s == snapshot_of(*self),
    {
        GamepadState {
            left_stick: Stick { x: self.lx, y: self.ly },
            right_stick: Stick { x: self.rx, y: self.ry },
            right_trigger_held: self.rt_held,
            right_trigger_pressed: self.rt_edge,
            left_trigger_held: self.lt_held,
            left_trigger_pressed: self.lt_edge,
            south_pressed: self.south_edge,
            east_pressed: self.east_edge,
            dpad_left_pressed: self.dpad_l_edge,
            dpad_up_pressed: self.dpad_u_edge,
            dpad_right_pressed: self.dpad_r_edge,
            north_pressed: self.north_edge,
        }
    }

    pub fn clear_edges(&mut self)
        ensures
            *final(self) == without_edges(*old(self)),
    {
        self.lt_edge = false;
        self.rt_edge = false;
        self.south_edge = false;
        self.east_edge = false;
        self.dpad_l_edge = false;
        self.dpad_u_edge = false;
        self.dpad_r_edge = false;
        self.north_edge = false;
    }
}

/// The bridges of all pads that sent something.
#[derive(Debug)]
pub struct PadBank {
    pads: HashMap<u32, PadBridge>,
}

impl View for PadBank {
    type V = Map<u32, PadBridge>;

    closed spec fn view(&self) -> Map<u32, PadBridge> {
        self.pads@
    }
}

/// The bridge of a pad, at rest where there is none yet.
pub open spec fn pad_in(m: Map<u32, PadBridge>, id: u32) -> PadBridge {
    if m.contains_key(id) {
        m[id]
    } else {
        released_pad()
    }
}

/// The bank after one event. A disconnect drops the bridge: a stale handle
/// never aliases a new device, and a reconnect starts at rest.
pub open spec fn fed_one(m: Map<u32, PadBridge>, ev: PadEvent) -> Map<u32, PadBridge> {
    match ev {
        PadEvent::Connected { id: _ } => m,
        PadEvent::Disconnected { id } => m.remove(id),
        PadEvent::Button { id, button, pressed } => m.insert(
            id,
            button_moved(pad_in(m, id), button, pressed),
        ),
        PadEvent::Axis { id, axis, value } => m.insert(
            id,
            axis_moved(pad_in(m, id), axis, value),
        ),
    }
}

/// The bank after a list of events.
pub open spec fn fed(m: Map<u32, PadBridge>, events: Seq<PadEvent>) -> Map<u32, PadBridge>
    decreases events.len(),
{
    if events.len() == 0 {
        m
    } else {
        fed_one(fed(m, events.drop_last()), events.last())
    }
}

impl Default for PadBank {
    fn default() -> (b: Self)
        ensures
            b@ == Map::<u32, PadBridge>::empty(),
    {
        PadBank { pads: HashMap::new() }
    }
}

impl PadBank {
    fn bridge(&self, id: u32) -> (p: PadBridge)
        ensures
            p == pad_in(self@, id),
    {
        broadcast use vstd::std_specs::hash::group_hash_axioms;

        match self.pads.get(&id) {
            Some(p) => *p,
            None => PadBridge::default(),
        }
    }

    pub fn feed(&mut self, events: &Vec<PadEvent>)
        ensures
            final(self)@ == fed(old(self)@, events@),
    {
        broadcast use vstd::std_specs::hash::group_hash_axioms;

        let ghost m = self@;
        let mut i: usize = 0;
        assert(events@.take(0) =~= Seq::<PadEvent>::empty());
        while i < events.len()
            invariant
                i <= events@.len(),
                self@ == fed(m, events@.take(i as int)),
            decreases events@.len() - i,
        {
            proof {
                assert(events@.take(i + 1).drop_last() =~= events@.take(i as int));
                assert(events@.take(i + 1).last() == events@[i as int]);
            }
            match events[i] {
                PadEvent::Connected { id: _ } => {},
                PadEvent::Disconnected { id } => {
                    self.pads.remove(&id);
                },
                PadEvent::Button { id, button, pressed } => {
                    let mut p = self.bridge(id);
                    p.button(button, pressed);
                    self.pads.insert(id, p);
                },
                PadEvent::Axis { id, axis, value } => {
                    let mut p = self.bridge(id);
                    p.axis(axis, value);
                    self.pads.insert(id, p);
                },
            }
            i += 1;
        }
        assert(events@.take(i as int) =~= events@);
    }

    fn ids(&self) -> (out: Vec<u32>)
        ensures
            ids::lists(out@, self@.dom()),
    {
        broadcast use vstd::std_specs::hash::group_hash_axioms;

        let mut all: Vec<u32> = Vec::new();
        let ghost keys = self.pads@.dom();
        for k in it: self.pads.keys()
            invariant
                it.seq().unref().to_set() == keys,
                it.seq().no_duplicates(),
                all@ == it.seq().unref().take(it.index() as int),
                it.index() == it.seq().len() ==> all@ == it.seq().unref(),
                all@.no_duplicates(),
        {
            proof {
                assert(*k == it.seq().unref()[it.index() as int]);
                assert forall|j: int| 0 <= j < all@.len() implies all@[j] != *k by {
                    assert(all@[j] == it.seq().unref()[j]);
                    assert(it.seq()[j] != it.seq()[it.index() as int]);
                }
            }
            all.push(*k);
            proof {
                assert(all@ =~= it.seq().unref().take(it.index() + 1));
                assert(it.index() + 1 == it.seq().len() ==> all@ =~= it.seq().unref());
            }
        }
        assert(all@.to_set() == keys);
        sorted_ids(&all)
    }

    /// Snapshots of all pads in ascending order of their ids; edges are
    /// spent by it.
    pub fn drain(&mut self) -> (out: Vec<GamepadState>)
        ensures
            exists|ids: Seq<u32>| #[trigger] drained(old(self)@, ids, out@),
            final(self)@ == old(self)@.map_values(|p: PadBridge| without_edges(p)),
    {
        broadcast use vstd::std_specs::hash::group_hash_axioms;

        let ghost m = self@;
        let ids = self.ids();
        let mut out: Vec<GamepadState> = Vec::new();
        let mut i: usize = 0;
        while i < ids.len()
            invariant
                i <= ids@.len(),
                out@.len() == i,
                ids::lists(ids@, m.dom()),
                self@.dom() == m.dom(),
                forall|j: int| 0 <= j < i ==> #[trigger] out@[j] == snapshot_of(m[ids@[j]]),
                forall|j: int|
                    0 <= j < i ==> self@[#[trigger] ids@[j]] == without_edges(m[ids@[j]]),
                forall|j: int| i <= j < ids@.len() ==> self@[#[trigger] ids@[j]] == m[ids@[j]],
            decreases ids@.len() - i,
        {
            let id: u32 = ids[i];
            assert(ids@.contains(id));
            let mut p = self.bridge(id);
            out.push(p.snapshot());
            p.clear_edges();
            self.pads.insert(id, p);
            assert(self@.dom() =~= m.dom());
            i += 1;
        }
        proof {
            let after = m.map_values(|p: PadBridge| without_edges(p));
            assert forall|id: u32| m.dom().contains(id) implies self@[id] == after[id] by {
                assert(ids@.contains(id));
                let j = choose|j: int| 0 <= j < ids@.len() && ids@[j] == id;
                assert(self@[ids@[j]] == without_edges(m[ids@[j]]));
            }
            assert(self@ =~= after);
            assert(drained(m, ids@, out@));
        }
        out
    }

    pub fn live(&self) -> (r: bool)
        ensures
            r == (self@.dom().len() != 0),
    {
        broadcast use vstd::std_specs::hash::group_hash_axioms;

        self.pads.len() != 0
    }
}

/// `out` holds the snapshots of the pads `ids`, which are all of them in
/// ascending order.
pub open spec fn drained(m: Map<u32, PadBridge>, ids: Seq<u32>, out: Seq<GamepadState>) -> bool {
    &&& ids::lists(ids, m.dom())
    &&& out.len() == ids.len()
    &&& forall|i: int| 0 <= i < out.len() ==> #[trigger] out[i] == snapshot_of(m[ids[i]])
}

/// A button held down leaves one edge: repeating the press after the edge
/// was spent leaves none.
pub proof fn law_rising_edge_fires_once(p: PadBridge, button: GamepadButton)
    ensures
        snapshot_of(
            button_moved(without_edges(button_moved(p, button, true)), button, true),
        ) == snapshot_of(without_edges(button_moved(p, button, true))),
{
}

/// Which pads are connected.
#[derive(Debug)]
pub struct PadRoster {
    connected: HashSet<u32>,
}

impl View for PadRoster {
    type V = Set<u32>;

    closed spec fn view(&self) -> Set<u32> {
        self.connected@
    }
}

/// The roster after one event: a pad that sends anything is connected.
pub open spec fn noted_one(s: Set<u32>, ev: PadEvent) -> Set<u32> {
    match ev {
        PadEvent::Connected { id } => s.insert(id),
        PadEvent::Disconnected { id } => s.remove(id),
        PadEvent::Button { id, button: _, pressed: _ } => s.insert(id),
        PadEvent::Axis { id, axis: _, value: _ } => s.insert(id),
    }
}

/// The roster after a list of events.
pub open spec fn noted(s: Set<u32>, events: Seq<PadEvent>) -> Set<u32>
    decreases events.len(),
{
    if events.len() == 0 {
        s
    } else {
        noted_one(noted(s, events.drop_last()), events.last())
    }
}

impl Default for PadRoster {
    fn default() -> (r: Self)
        ensures
            r@ == Set::<u32>::empty(),
    {
        PadRoster { connected: HashSet::new() }
    }
}

impl PadRoster {
    /// Take note of polled events.
    pub fn note(&mut self, events: &Vec<PadEvent>)
        ensures
            final(self)@ == noted(old(self)@, events@),
    {
        broadcast use vstd::std_specs::hash::group_hash_axioms;

        let ghost s = self@;
        let mut i: usize = 0;
        assert(events@.take(0) =~= Seq::<PadEvent>::empty());
        while i < events.len()
            invariant
                i <= events@.len(),
                self@ == noted(s, events@.take(i as int)),
            decreases events@.len() - i,
        {
            proof {
                assert(events@.take(i + 1).drop_last() =~= events@.take(i as int));
                assert(events@.take(i + 1).last() == events@[i as int]);
            }
            match events[i] {
                PadEvent::Connected { id } => {
                    self.connected.insert(id);
                },
                PadEvent::Disconnected { id } => {
                    self.connected.remove(&id);
                },
                PadEvent::Button { id, button: _, pressed: _ } => {
                    self.connected.insert(id);
                },
                PadEvent::Axis { id, axis: _, value: _ } => {
                    self.connected.insert(id);
                },
            }
            i += 1;
        }
        assert(events@.take(i as int) =~= events@);
    }

    /// Connected pads in ascending order.
    pub fn connected_ids(&self) -> (out: Vec<u32>)
        ensures
            ids::lists(out@, self@),
    {
        sorted_set(&self.connected)
    }

    pub fn connected_count(&self) -> (n: usize)
        ensures
            n == self@.len(),
    {
        broadcast use vstd::std_specs::hash::group_hash_axioms;

        self.connected.len()
    }
}

/// A button moves its own level, and leaves its own edge when it goes down
/// from up; no other button, trigger or stick is touched.
pub proof fn law_buttons_move_their_own_level(p: PadBridge, b: GamepadButton, down: bool)
    ensures
        ({
            let a = button_moved(p, b, down);
            &&& a.south == if b is South { down } else { p.south }
            &&& a.east == if b is East { down } else { p.east }
            &&& a.north == if b is North { down } else { p.north }
            &&& a.dpad_l == if b is DPadLeft { down } else { p.dpad_l }
            &&& a.dpad_u == if b is DPadUp { down } else { p.dpad_u }
            &&& a.dpad_r == if b is DPadRight { down } else { p.dpad_r }
            &&& a.south_edge == (p.south_edge || b is South && down && !p.south)
            &&& a.east_edge == (p.east_edge || b is East && down && !p.east)
            &&& a.north_edge == (p.north_edge || b is North && down && !p.north)
            &&& a.dpad_l_edge == (p.dpad_l_edge || b is DPadLeft && down && !p.dpad_l)
            &&& a.dpad_u_edge == (p.dpad_u_edge || b is DPadUp && down && !p.dpad_u)
            &&& a.dpad_r_edge == (p.dpad_r_edge || b is DPadRight && down && !p.dpad_r)
            &&& a.lx == p.lx && a.ly == p.ly && a.rx == p.rx && a.ry == p.ry
            &&& a.lt_held == p.lt_held && a.rt_held == p.rt_held
            &&& a.lt_edge == p.lt_edge && a.rt_edge == p.rt_edge
        }),
{
}

/// An axis moves its own stick or trigger and nothing else. A trigger is
/// held above one half, and leaves an edge when it comes to be.
pub proof fn law_axes_move_their_own_stick(p: PadBridge, axis: GamepadAxis, value: Scalar)
    ensures
        ({
            let a = axis_moved(p, axis, value);
            let pulled = (Scalar { bits: 0x3f00_0000 }).lt(value);
            &&& a.lx == if axis is LeftStickX { value } else { p.lx }
            &&& a.ly == if axis is LeftStickY { value } else { p.ly }
            &&& a.rx == if axis is RightStickX { value } else { p.rx }
            &&& a.ry == if axis is RightStickY { value } else { p.ry }
            &&& a.lt_held == if axis is LeftTrigger { pulled } else { p.lt_held }
            &&& a.rt_held == if axis is RightTrigger { pulled } else { p.rt_held }
            &&& a.lt_edge == (p.lt_edge || axis is LeftTrigger && pulled && !p.lt_held)
            &&& a.rt_edge == (p.rt_edge || axis is RightTrigger && pulled && !p.rt_held)
            &&& a.south == p.south && a.east == p.east && a.north == p.north
            &&& a.dpad_l == p.dpad_l && a.dpad_u == p.dpad_u && a.dpad_r == p.dpad_r
            &&& a.south_edge == p.south_edge && a.east_edge == p.east_edge
            &&& a.north_edge == p.north_edge && a.dpad_l_edge == p.dpad_l_edge
            &&& a.dpad_u_edge == p.dpad_u_edge && a.dpad_r_edge == p.dpad_r_edge
        }),
{
}

/// A snapshot shows the sticks, the levels of the triggers and the edges of
/// triggers and buttons, each from its own side.
pub proof fn law_snapshots_show_each_side(p: PadBridge)
    ensures
        ({
            let s = snapshot_of(p);
            &&& s.left_stick.x == p.lx && s.left_stick.y == p.ly
            &&& s.right_stick.x == p.rx && s.right_stick.y == p.ry
            &&& s.left_trigger_held == p.lt_held && s.left_trigger_pressed == p.lt_edge
            &&& s.right_trigger_held == p.rt_held && s.right_trigger_pressed == p.rt_edge
            &&& s.south_pressed == p.south_edge && s.east_pressed == p.east_edge
            &&& s.north_pressed == p.north_edge
            &&& s.dpad_left_pressed == p.dpad_l_edge && s.dpad_up_pressed == p.dpad_u_edge
            &&& s.dpad_right_pressed == p.dpad_r_edge
        }),
{
}

/// Clearing edges clears all of them and leaves every level and stick.
pub proof fn law_cleared_pads_keep_their_levels(p: PadBridge)
    ensures
        ({
            let c = without_edges(p);
            &&& !c.lt_edge && !c.rt_edge && !c.south_edge && !c.east_edge
            &&& !c.dpad_l_edge && !c.dpad_u_edge && !c.dpad_r_edge && !c.north_edge
            &&& c.lx == p.lx && c.ly == p.ly && c.rx == p.rx && c.ry == p.ry
            &&& c.lt_held == p.lt_held && c.rt_held == p.rt_held
            &&& c.south == p.south && c.east == p.east && c.north == p.north
            &&& c.dpad_l == p.dpad_l && c.dpad_u == p.dpad_u && c.dpad_r == p.dpad_r
        }),
        ({
            let r = released_pad();
            &&& without_edges(r) == r
            &&& r.lx.bits == 0 && r.ly.bits == 0 && r.rx.bits == 0 && r.ry.bits == 0
            &&& !r.lt_held && !r.rt_held && !r.south && !r.east && !r.north
            &&& !r.dpad_l && !r.dpad_u && !r.dpad_r
        }),
{
}

/// Events reach the pad that sent them, which starts released if it is new,
/// and no other. A pad that disconnects is forgotten; connecting alone
/// makes none.
pub proof fn law_events_reach_their_own_pad(m: Map<u32, PadBridge>, ev: PadEvent, other: u32)
    ensures
        ev matches PadEvent::Connected { id } ==> fed_one(m, ev) == m,
        ev matches PadEvent::Disconnected { id } ==> !fed_one(m, ev).contains_key(id),
        ev matches PadEvent::Button { id, button, pressed } ==> fed_one(m, ev).contains_key(id)
            && fed_one(m, ev)[id] == button_moved(
            if m.contains_key(id) {
                m[id]
            } else {
                released_pad()
            },
            button,
            pressed,
        ),
        ev matches PadEvent::Axis { id, axis, value } ==> fed_one(m, ev).contains_key(id)
            && fed_one(m, ev)[id] == axis_moved(
            if m.contains_key(id) {
                m[id]
            } else {
                released_pad()
            },
            axis,
            value,
        ),
        other != (match ev {
            PadEvent::Connected { id } => id,
            PadEvent::Disconnected { id } => id,
            PadEvent::Button { id, .. } => id,
            PadEvent::Axis { id, .. } => id,
        }) ==> fed_one(m, ev).contains_key(other) == m.contains_key(other) && (m.contains_key(other)
            ==> fed_one(m, ev)[other] == m[other]),
{
}

/// Events are fed one after the other, in their order.
pub proof fn law_events_are_fed_in_order(
    m: Map<u32, PadBridge>,
    s: Set<u32>,
    events: Seq<PadEvent>,
    ev: PadEvent,
)
    ensures
        fed(m, Seq::empty()) == m,
        fed(m, events.push(ev)) == fed_one(fed(m, events), ev),
        noted(s, Seq::empty()) == s,
        noted(s, events.push(ev)) == noted_one(noted(s, events), ev),
{
    assert(events.push(ev).drop_last() =~= events);
}

/// A pad that sends anything but its leave is on the roster, one that left
/// is not, and no event moves another pad.
pub proof fn law_rosters_follow_the_pads(s: Set<u32>, ev: PadEvent, other: u32)
    ensures
        ev matches PadEvent::Connected { id } ==> noted_one(s, ev).contains(id),
        ev matches PadEvent::Button { id, button, pressed } ==> noted_one(s, ev).contains(id),
        ev matches PadEvent::Axis { id, axis, value } ==> noted_one(s, ev).contains(id),
        ev matches PadEvent::Disconnected { id } ==> !noted_one(s, ev).contains(id),
        other != (match ev {
            PadEvent::Connected { id } => id,
            PadEvent::Disconnected { id } => id,
            PadEvent::Button { id, .. } => id,
            PadEvent::Axis { id, .. } => id,
        }) ==> noted_one(s, ev).contains(other) == s.contains(other),
{
}

/// Draining shows every pad once, in the order of their ids, each as it is.
pub proof fn law_drains_show_every_pad(
    m: Map<u32, PadBridge>,
    ids: Seq<u32>,
    out: Seq<GamepadState>,
    id: u32,
)
    requires
        drained(m, ids, out),
    ensures
        out.len() == ids.len(),
        m.contains_key(id) <==> exists|i: int|
            0 <= i < out.len() && #[trigger] ids[i] == id && out[i] == snapshot_of(m[id]),
        forall|i: int, j: int| 0 <= i < j < out.len() ==> ids[i] < ids[j],
{
    assert(ids.contains(id) <==> m.dom().contains(id));
    if m.contains_key(id) {
        let i = choose|i: int| 0 <= i < ids.len() && ids[i] == id;
        assert(out[i] == snapshot_of(m[ids[i]]));
    }
    if exists|i: int| 0 <= i < out.len() && #[trigger] ids[i] == id && out[i] == snapshot_of(
        m[id],
    ) {
        let i = choose|i: int|
            0 <= i < out.len() && #[trigger] ids[i] == id && out[i] == snapshot_of(m[id]);
        assert(ids.contains(ids[i]));
    }
}

} // verus!
