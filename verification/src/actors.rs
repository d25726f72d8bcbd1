//! Rig surfaces: options, and what one draw does.

use crate::scalar::Scalar;
use vstd::prelude::*;

verus! {

/// How the artboard maps onto the surface.
#[derive(Clone, Copy, Debug, PartialEq, Eq, Structural)]
pub enum ActorFit {
    /// Exact fit at every draw.
    Exact,
    /// Margin fit, applied again when the surface is resized.
    Margin,
}

impl Default for ActorFit {
    fn default() -> (f: ActorFit)
        ensures
            f == ActorFit::Exact,
    {
        ActorFit::Exact
    }
}

/// Options of a rig surface.
#[derive(Clone, Copy, Debug, PartialEq, Eq, Structural)]
pub struct ActorViewOpts {
    pub fit: ActorFit,
    /// Backplate behind the art.
    pub chrome: bool,
    /// Scroll zoom and pointer forwarding.
    pub interactive: bool,
    /// Tick playback at every draw.
    pub auto_tick: bool,
}

impl Default for ActorViewOpts {
    fn default() -> (o: ActorViewOpts)
        ensures
            o == (ActorViewOpts {
                fit: ActorFit::Exact,
                chrome: false,
                interactive: false,
                auto_tick: false,
            }),
    {
        ActorViewOpts { fit: ActorFit::Exact, chrome: false, interactive: false, auto_tick: false }
    }
}

impl ActorViewOpts {
    /// Everything on: margin fit, backplate, interaction, ticking.
    pub fn editor() -> (o: ActorViewOpts)
        ensures
            o == (ActorViewOpts {
                fit: ActorFit::Margin,
                chrome: true,
                interactive: true,
                auto_tick: true,
            }),
    {
        ActorViewOpts { fit: ActorFit::Margin, chrome: true, interactive: true, auto_tick: true }
    }
}

/// What the view does with pointers.
#[derive(Clone, Copy, Debug, PartialEq, Eq, Structural)]
pub enum Pointers {
    /// Scrolls and pointers go to the rig.
    Forward,
    /// They go through to what lies below.
    PassThrough,
}

/// What a view of a rig is made of.
#[derive(Clone, Copy, Debug, PartialEq, Eq, Structural)]
pub struct ActorSurface {
    pub backdrop: bool,
    pub pointers: Pointers,
}

/// One draw of a rig, in this order.
#[derive(Clone, Copy, Debug, PartialEq, Eq, Structural)]
pub struct ActorDraw {
    pub fit: ActorFit,
    pub upload_images: bool,
    pub backplate: bool,
}

/// Whether a surface of that size can be painted on: neither side is one
/// pixel or less.
pub fn has_area(width: Scalar, height: Scalar) -> (r: bool)
    ensures
        ({
            let one = Scalar { bits: 0x3f80_0000 };
            r == (!width.le(one) && !height.le(one))
        }),
{
    !width.at_most(Scalar::one()) && !height.at_most(Scalar::one())
}

impl ActorViewOpts {
    /// What the view is made of.
    pub fn surface(&self) -> (s: ActorSurface)
        ensures
            s.backdrop == self.chrome,
            s.pointers == if self.interactive {
                Pointers::Forward
            } else {
                Pointers::PassThrough
            },
    {
        ActorSurface {
            backdrop: self.chrome,
            pointers: if self.interactive {
                Pointers::Forward
            } else {
                Pointers::PassThrough
            },
        }
    }

    /// Whether a draw ticks playback: before anything else, and whatever
    /// the surface.
    pub fn ticks(&self) -> (r: bool)
        ensures
            r == self.auto_tick,
    {
        self.auto_tick
    }

    /// What a draw does, or nothing: on a surface without area, and in an
    /// exact fit of an artboard without area. Images go up once after they
    /// changed.
    pub fn draw(&self, has_area: bool, art_valid: bool, dirty_images: bool) -> (d: Option<
        ActorDraw,
    >)
        ensures
            d is None <==> !has_area || (self.fit == ActorFit::Exact && !art_valid),
            d matches Some(d) ==> d == (ActorDraw {
                fit: self.fit,
                upload_images: dirty_images,
                backplate: self.chrome && art_valid,
            }),
    {
        if !has_area || (self.fit == ActorFit::Exact && !art_valid) {
            return None;
        }
        Some(
            ActorDraw {
                fit: self.fit,
                upload_images: dirty_images,
                backplate: self.chrome && art_valid,
            },
        )
    }
}

} // verus!
