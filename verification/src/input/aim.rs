//! Screen-anchored pointer staging: raw window-physical pixels in, the live
//! pointer out.

use vstd::prelude::*;

verus! {

/// Staged pointer click: world position (aim-at-click) plus canvas position
/// (camera-independent menu hit-testing).
#[derive(Clone, Copy, Debug, PartialEq, Eq)]
pub struct StagedClick<P> {
    pub world: P,
    pub dp: P,
}

/// Raw window-physical pixels from two sources sharing one order clock: the
/// root pointer move and the viewport hover.
#[derive(Clone, Copy, Debug)]
pub struct AimTracker<P> {
    hover: Option<P>,
    hover_px: Option<P>,
    cursor_px: Option<P>,
    cursor_seq: u64,
    hover_px_seq: u64,
    input_seq: u64,
}

/// Stagings a pixel position stays live without a refresh.
pub const STALE_AFTER: u64 = 30;

/// What a tracker holds: each source with the number of the staging it came
/// from (0 before the first), and how many stagings there were.
pub struct AimModel<P> {
    pub hover: Option<P>,
    pub hover_px: Option<P>,
    pub cursor_px: Option<P>,
    pub hover_seq: u64,
    pub cursor_seq: u64,
    pub count: u64,
}

impl<P> View for AimTracker<P> {
    type V = AimModel<P>;

    closed spec fn view(&self) -> AimModel<P> {
        AimModel {
            hover: self.hover,
            hover_px: self.hover_px,
            cursor_px: self.cursor_px,
            hover_seq: self.hover_px_seq,
            cursor_seq: self.cursor_seq,
            count: self.input_seq,
        }
    }
}

/// A source staged at `seq` is still live after `count` stagings.
pub open spec fn live_source(seq: u64, count: u64) -> bool {
    seq > 0 && count - seq <= STALE_AFTER
}

/// No source comes from a staging that has not happened.
pub open spec fn aim_ok<P>(m: AimModel<P>) -> bool {
    m.hover_seq <= m.count && m.cursor_seq <= m.count
}

/// The tracker after the cursor moved.
pub open spec fn moved_to<P>(m: AimModel<P>, phys_px: P) -> AimModel<P> {
    AimModel {
        cursor_px: Some(phys_px),
        cursor_seq: (m.count + 1) as u64,
        count: (m.count + 1) as u64,
        ..m
    }
}

/// The tracker after a hover.
pub open spec fn hovered_at<P>(m: AimModel<P>, world: P, screen: P) -> AimModel<P> {
    AimModel {
        hover: Some(world),
        hover_px: Some(screen),
        hover_seq: (m.count + 1) as u64,
        count: (m.count + 1) as u64,
        ..m
    }
}

/// The position that is live: the hover's, else the cursor's.
pub open spec fn live_position<P>(m: AimModel<P>) -> Option<P> {
    if live_source(m.hover_seq, m.count) {
        m.hover_px
    } else if live_source(m.cursor_seq, m.count) {
        m.cursor_px
    } else {
        None
    }
}

/// A hover is live at once; after enough cursor moves without another hover
/// it is stale, and the last cursor position takes over.
pub proof fn law_fresh_positions_win<P>(m: AimModel<P>, world: P, screen: P, phys_px: P)
    requires
        aim_ok(m),
        m.count < u64::MAX,
    ensures
        live_position(hovered_at(m, world, screen)) == Some(screen),
        live_position(moved_to(m, phys_px)) == if live_source(m.hover_seq, (m.count + 1) as u64) {
            m.hover_px
        } else {
            Some(phys_px)
        },
{
}

impl<P: Copy> Default for AimTracker<P> {
    fn default() -> (t: Self)
        ensures
            t.wf(),
            t@ == (AimModel::<P> {
                hover: None,
                hover_px: None,
                cursor_px: None,
                hover_seq: 0,
                cursor_seq: 0,
                count: 0,
            }),
    {
        AimTracker {
            hover: None,
            hover_px: None,
            cursor_px: None,
            cursor_seq: 0,
            hover_px_seq: 0,
            input_seq: 0,
        }
    }
}

impl<P: Copy> AimTracker<P> {
    /// The tracker's own invariant.
    pub open spec fn wf(&self) -> bool {
        aim_ok(self@)
    }

    /// Stage the cursor's window-physical position. Stored raw - the caller
    /// unprojects it through the live camera each frame.
    pub fn cursor_move(&mut self, phys_px: P)
        requires
            old(self).wf(),
            old(self)@.count < u64::MAX,
        ensures
            final(self).wf(),
            final(self)@ == moved_to(old(self)@, phys_px),
    {
        self.input_seq = self.input_seq + 1;
        self.cursor_seq = self.input_seq;
        self.cursor_px = Some(phys_px);
    }

    /// Stage one viewport hover: the baked world point AND the raw
    /// window-physical `screen` position.
    pub fn stage_hover(&mut self, world: P, screen: P)
        requires
            old(self).wf(),
            old(self)@.count < u64::MAX,
        ensures
            final(self).wf(),
            final(self)@ == hovered_at(old(self)@, world, screen),
    {
        self.input_seq = self.input_seq + 1;
        self.hover = Some(world);
        self.hover_px_seq = self.input_seq;
        self.hover_px = Some(screen);
    }

    /// Fresh staged position in priority order (hover, then root), or
    /// `None` when every source is stale/absent and the caller must fall
    /// back to the baked hover point.
    pub fn live_px(&self) -> (r: Option<P>)
        requires
            self.wf(),
        ensures
            r == live_position(self@),
    {
        if self.hover_px_seq > 0 && self.input_seq - self.hover_px_seq <= STALE_AFTER {
            return self.hover_px;
        }
        if self.cursor_seq > 0 && self.input_seq - self.cursor_seq <= STALE_AFTER {
            return self.cursor_px;
        }
        None
    }

    /// Last-resort fallback: the baked hover world point (touch/pen never
    /// stage any pixels).
    pub fn baked(&self) -> (r: Option<P>)
        ensures
            r == self@.hover,
    {
        self.hover
    }
}

/// A position is live from the input that brought it for the next thirty
/// inputs, and one that never came is not. A live hover is preferred to a
/// live cursor; without either there is none.
pub proof fn law_positions_go_stale<P>(m: AimModel<P>)
    requires
        aim_ok(m),
    ensures
        m.hover_seq > 0 && m.count <= m.hover_seq + 30 ==> live_position(m) == m.hover_px,
        (m.hover_seq == 0 || m.count > m.hover_seq + 30) && m.cursor_seq > 0 && m.count
            <= m.cursor_seq + 30 ==> live_position(m) == m.cursor_px,
        (m.hover_seq == 0 || m.count > m.hover_seq + 30) && (m.cursor_seq == 0 || m.count
            > m.cursor_seq + 30) ==> live_position(m) is None,
{
}

/// Each input counts once and sets its own position; a cursor move leaves
/// the hover, and a hover leaves the cursor.
pub proof fn law_inputs_set_their_own_position<P>(
    m: AimModel<P>,
    world: P,
    screen: P,
    phys_px: P,
)
    requires
        m.count < u64::MAX,
    ensures
        ({
            let a = moved_to(m, phys_px);
            &&& a.count == m.count + 1
            &&& a.cursor_px == Some(phys_px) && a.cursor_seq == a.count
            &&& a.hover == m.hover && a.hover_px == m.hover_px && a.hover_seq == m.hover_seq
        }),
        ({
            let a = hovered_at(m, world, screen);
            &&& a.count == m.count + 1
            &&& a.hover == Some(world) && a.hover_px == Some(screen) && a.hover_seq == a.count
            &&& a.cursor_px == m.cursor_px && a.cursor_seq == m.cursor_seq
        }),
{
}

} // verus!
