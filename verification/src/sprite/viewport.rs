//! Pointer picks and the order of a viewport's layers.

use crate::scalar::Scalar;
use vstd::prelude::*;

verus! {

/// Where a pointer comes from.
#[derive(Clone, Copy, Debug, PartialEq, Eq, Structural)]
pub enum PointerKind {
    Mouse,
    Touch,
    Pen,
}

/// Touch and pen drive touch zones; the mouse clicks and hovers.
pub fn is_touch(kind: PointerKind) -> (r: bool)
    ensures
        r == (kind != PointerKind::Mouse),
{
    match kind {
        PointerKind::Mouse => false,
        PointerKind::Touch => true,
        PointerKind::Pen => true,
    }
}

/// What a viewport tells the game. Screen points are in window pixels.
#[derive(Clone, Copy, Debug, PartialEq, Eq)]
pub enum PickEvent<P> {
    /// A pointer went down.
    Press { world: P, screen: P },
    /// It came up close to where it went down.
    Click { world: P, screen: P },
    Hover { world: P, screen: P },
    TouchDown { id: u64, screen: P },
    TouchMove { id: u64, screen: P },
    /// A contact ended: up, or out of the viewport.
    TouchUp { id: u64 },
}

/// A pointer at a point: its kind and id, and where it is.
#[derive(Clone, Copy, Debug, PartialEq, Eq)]
pub struct PointerAt<P> {
    pub kind: PointerKind,
    pub id: u64,
    /// Within the viewport.
    pub local: P,
    pub world: P,
    pub screen: P,
}

/// The press that a click may come of.
#[derive(Clone, Copy, Debug, PartialEq, Eq)]
pub struct PressTracker<P> {
    pub start: Option<P>,
}

pub open spec fn touches<P>(p: PointerAt<P>) -> bool {
    p.kind != PointerKind::Mouse
}

impl<P: Copy> PressTracker<P> {
    pub fn new() -> (t: PressTracker<P>)
        ensures
            t.start is None,
    {
        PressTracker { start: None }
    }

    /// A pointer went down.
    pub fn down(&mut self, p: PointerAt<P>) -> (events: Vec<PickEvent<P>>)
        ensures
            final(self).start == Some(p.local),
            events@ == seq![PickEvent::Press { world: p.world, screen: p.screen }] + if touches(
                p,
            ) {
                seq![PickEvent::TouchDown { id: p.id, screen: p.screen }]
            } else {
                Seq::empty()
            },
    {
        self.start = Some(p.local);
        let mut events: Vec<PickEvent<P>> = Vec::new();
        events.push(PickEvent::Press { world: p.world, screen: p.screen });
        if is_touch(p.kind) {
            events.push(PickEvent::TouchDown { id: p.id, screen: p.screen });
        }
        assert(events@ =~= seq![PickEvent::Press { world: p.world, screen: p.screen }]
            + if touches(p) {
            seq![PickEvent::TouchDown { id: p.id, screen: p.screen }]
        } else {
            Seq::empty()
        });
        events
    }

    /// A pointer moved.
    pub fn moved(&self, p: PointerAt<P>) -> (events: Vec<PickEvent<P>>)
        ensures
            events@ == seq![PickEvent::Hover { world: p.world, screen: p.screen }] + if touches(
                p,
            ) {
                seq![PickEvent::TouchMove { id: p.id, screen: p.screen }]
            } else {
                Seq::empty()
            },
    {
        let mut events: Vec<PickEvent<P>> = Vec::new();
        events.push(PickEvent::Hover { world: p.world, screen: p.screen });
        if is_touch(p.kind) {
            events.push(PickEvent::TouchMove { id: p.id, screen: p.screen });
        }
        assert(events@ =~= seq![PickEvent::Hover { world: p.world, screen: p.screen }]
            + if touches(p) {
            seq![PickEvent::TouchMove { id: p.id, screen: p.screen }]
        } else {
            Seq::empty()
        });
        events
    }

    /// A pointer came up; `near` says whether that is within the slop of
    /// where the press started.
    pub fn up(&mut self, p: PointerAt<P>, near: bool) -> (events: Vec<PickEvent<P>>)
        ensures
            final(self).start is None,
            events@ == (if old(self).start is Some && near {
                seq![PickEvent::Click { world: p.world, screen: p.screen }]
            } else {
                Seq::empty()
            }) + (if touches(p) {
                seq![PickEvent::TouchUp { id: p.id }]
            } else {
                Seq::empty()
            }),
    {
        let mut events: Vec<PickEvent<P>> = Vec::new();
        if self.start.is_some() && near {
            events.push(PickEvent::Click { world: p.world, screen: p.screen });
        }
        self.start = None;
        if is_touch(p.kind) {
            events.push(PickEvent::TouchUp { id: p.id });
        }
        assert(events@ =~= (if old(self).start is Some && near {
            seq![PickEvent::Click { world: p.world, screen: p.screen }]
        } else {
            Seq::empty()
        }) + (if touches(p) {
            seq![PickEvent::TouchUp { id: p.id }]
        } else {
            Seq::empty()
        }));
        events
    }

    /// A pointer left the viewport: no click can come of it.
    pub fn leave(&mut self, kind: PointerKind, id: u64) -> (events: Vec<PickEvent<P>>)
        ensures
            final(self).start is None,
            events@ == if kind != PointerKind::Mouse {
                seq![PickEvent::<P>::TouchUp { id }]
            } else {
                Seq::empty()
            },
    {
        self.start = None;
        let mut events: Vec<PickEvent<P>> = Vec::new();
        if is_touch(kind) {
            events.push(PickEvent::TouchUp { id });
        }
        assert(events@ =~= if kind != PointerKind::Mouse {
            seq![PickEvent::<P>::TouchUp { id }]
        } else {
            Seq::empty()
        });
        events
    }
}

/// Layers of a painted viewport.
#[derive(Clone, Copy, Debug, PartialEq, Eq, Structural)]
pub enum Layer {
    Background,
    Sprites,
    /// Background and sprites, graded through an offscreen target.
    Composite,
    Overlay,
}

/// Least usable scale: 0.000001.
pub const LEAST_SCALE: u32 = 0x3586_37bd;

/// The value can scale or divide.
pub open spec fn usable(v: Scalar) -> bool {
    v.finite() && (Scalar { bits: LEAST_SCALE }).lt(v)
}

/// The scale that framing takes: one where the value is not usable.
pub open spec fn scale_for(v: Scalar) -> Scalar {
    if usable(v) {
        v
    } else {
        Scalar { bits: 0x3f80_0000 }
    }
}

/// A zoom, density or scale that framing can divide by: one stands in for
/// what is not usable.
pub fn sane_positive(v: Scalar) -> (r: Scalar)
    ensures
        r == scale_for(v),
{
    if v.is_finite() && Scalar::from_bits(LEAST_SCALE).less(v) {
        v
    } else {
        Scalar::one()
    }
}

/// Whether a size has been painted yet; until it has, a frame goes by the
/// size it was given.
pub fn is_painted(width: Scalar, height: Scalar) -> (r: bool)
    ensures
        r == ((Scalar { bits: 0x3f80_0000 }).lt(width) && (Scalar { bits: 0x3f80_0000 }).lt(
            height,
        )),
{
    Scalar::one().less(width) && Scalar::one().less(height)
}

/// Framing never divides by zero, nor by anything that is no number.
pub proof fn law_framing_scales_are_usable(v: Scalar)
    ensures
        usable(scale_for(v)),
{
    assert(0x3f80_0000u32 & 0x7fff_ffff == 0x3f80_0000) by (bit_vector);
    assert(0x3586_37bdu32 & 0x7fff_ffff == 0x3586_37bd) by (bit_vector);
}

/// Whether the frame goes through the offscreen target.
pub fn use_composite(chroma: Scalar) -> (r: bool)
    ensures
        r == (Scalar { bits: 0 }).lt(chroma),
{
    Scalar::zero().less(chroma)
}

/// Layers of a frame from bottom to top.
pub open spec fn layers_of(background: bool, overlay: bool, composite: bool) -> Seq<Layer> {
    (if composite {
        seq![Layer::Composite]
    } else if background {
        seq![Layer::Background, Layer::Sprites]
    } else {
        seq![Layer::Sprites]
    }) + (if overlay {
        seq![Layer::Overlay]
    } else {
        Seq::empty()
    })
}

/// What to paint, from bottom to top.
pub fn paint_order(background: bool, overlay: bool, chroma: Scalar) -> (layers: Vec<Layer>)
    ensures
        layers@ == layers_of(background, overlay, (Scalar { bits: 0 }).lt(chroma)),
{
    let mut layers: Vec<Layer> = Vec::new();
    if use_composite(chroma) {
        layers.push(Layer::Composite);
    } else {
        if background {
            layers.push(Layer::Background);
        }
        layers.push(Layer::Sprites);
    }
    if overlay {
        layers.push(Layer::Overlay);
    }
    assert(layers@ =~= layers_of(background, overlay, (Scalar { bits: 0 }).lt(chroma)));
    layers
}

/// What is shown over everything comes last, and the background is under
/// the sprites.
pub proof fn law_overlay_is_on_top(background: bool, composite: bool)
    ensures
        layers_of(background, true, composite).last() == Layer::Overlay,
        layers_of(background, true, composite).drop_last() == layers_of(
            background,
            false,
            composite,
        ),
        background && !composite ==> layers_of(background, false, composite)[0]
            == Layer::Background,
{
    assert(layers_of(background, true, composite).drop_last() =~= layers_of(
        background,
        false,
        composite,
    ));
}

/// Targets of the offscreen pass, as they were last built.
#[derive(Clone, Copy, Debug, PartialEq, Eq, Structural)]
pub struct PostKey {
    pub format: u64,
    pub samples: u32,
    pub w: u32,
    pub h: u32,
}

/// How the offscreen targets are to be built.
#[derive(Clone, Copy, Debug, PartialEq, Eq, Structural)]
pub struct PostPlan {
    pub samples: u32,
    /// A multisampled scene is resolved into a texture of its own.
    pub resolve: bool,
}

/// The plan for new targets, or none where the ones that are there still
/// serve.
pub fn plan_targets(have: Option<PostKey>, want: PostKey) -> (plan: Option<PostPlan>)
    ensures
        have == Some(want) ==> plan is None,
        have != Some(want) ==> plan == Some(
            PostPlan {
                samples: if want.samples < 1 {
                    1
                } else {
                    want.samples
                },
                resolve: want.samples > 1,
            },
        ),
{
    if let Some(k) = have {
        if k == want {
            return None;
        }
    }
    let samples: u32 = if want.samples < 1 {
        1
    } else {
        want.samples
    };
    Some(PostPlan { samples, resolve: samples > 1 })
}

/// Sprites are painted over the background, each where it is asked for;
/// graded, both are painted as one. Nothing else is painted but the
/// overlay.
pub proof fn law_layers_are_painted_in_order(background: bool, overlay: bool, composite: bool)
    ensures
        ({
            let all = layers_of(background, overlay, composite);
            &&& composite ==> all[0] == Layer::Composite && !all.contains(Layer::Sprites)
                && !all.contains(Layer::Background)
            &&& !composite && background ==> all[0] == Layer::Background && all[1]
                == Layer::Sprites
            &&& !composite && !background ==> all[0] == Layer::Sprites && !all.contains(
                Layer::Background,
            )
            &&& !composite ==> !all.contains(Layer::Composite)
            &&& overlay == all.contains(Layer::Overlay)
            &&& all.len() == (if !composite && background {
                2int
            } else {
                1int
            }) + (if overlay {
                1int
            } else {
                0int
            })
        }),
{
    let all = layers_of(background, overlay, composite);
    if overlay {
        assert(all[all.len() - 1] == Layer::Overlay);
    }
}

/// A scale is used as it is where it is finite and above a millionth, and
/// counts as one where it is not.
pub proof fn law_unusable_scales_count_as_one(v: Scalar)
    ensures
        v.finite() && (Scalar { bits: 0x3586_37bd }).lt(v) ==> scale_for(v) == v,
        !v.finite() || v.le(Scalar { bits: 0x3586_37bd }) ==> scale_for(v).bits == 0x3f80_0000,
{
}

/// Everything but a mouse touches.
pub proof fn law_fingers_and_pens_touch<P>(p: PointerAt<P>)
    ensures
        p.kind is Mouse ==> !touches(p),
        p.kind is Touch || p.kind is Pen ==> touches(p),
{
}

} // verus!
