//! Color keys over a life, and decal fades.

use crate::scalar::Scalar;
use vstd::prelude::*;

verus! {

/// Color keys over normalized life, in ascending time.
#[derive(Clone, Debug, PartialEq, Eq)]
pub struct Gradient<C> {
    pub keys: Vec<(Scalar, C)>,
}

/// Where a life fraction falls among the keys.
#[derive(Clone, Copy, Debug, PartialEq, Eq, Structural)]
pub enum Stop {
    /// No keys: white.
    Empty,
    /// Exactly the color of one key.
    At(usize),
    /// Between the key before this one and this one.
    Between(usize),
}

/// Times in ascending order.
pub open spec fn sorted<C>(keys: Seq<(Scalar, C)>) -> bool {
    forall|i: int, j: int| 0 <= i <= j < keys.len() ==> (#[trigger] keys[i]).0.le((#[trigger] keys[j]).0)
}

/// The stop of the fraction `t` after it was moved into `0 ..= 1`.
pub open spec fn is_stop<C>(keys: Seq<(Scalar, C)>, t: Scalar, s: Stop) -> bool {
    match s {
        Stop::Empty => keys.len() == 0,
        Stop::At(i) => {
            &&& keys.len() > 0
            &&& ({
                ||| i == 0 && t.le(keys[0].0)
                ||| {
                    &&& i == keys.len() - 1
                    &&& forall|k: int| 0 <= k < keys.len() ==> !t.le((#[trigger] keys[k]).0)
                }
            })
        },
        Stop::Between(i) => {
            &&& 0 < i < keys.len()
            &&& t.le(keys[i as int].0)
            &&& forall|k: int| 0 <= k < i ==> !t.le((#[trigger] keys[k]).0)
        },
    }
}

pub open spec fn unit(t: Scalar) -> Scalar {
    t.clamped(Scalar { bits: 0 }, Scalar { bits: 0x3f80_0000 })
}

impl<C: Copy> Gradient<C> {
    /// One color for all of a life.
    pub fn solid(color: C) -> (g: Gradient<C>)
        ensures
            g.keys@ == seq![
                (Scalar { bits: 0 }, color),
                (Scalar { bits: 0x3f80_0000 }, color),
            ],
    {
        Gradient { keys: vec![(Scalar::zero(), color), (Scalar::one(), color)] }
    }

    /// From one color to another over a life.
    pub fn over_life(start: C, end: C) -> (g: Gradient<C>)
        ensures
            g.keys@ == seq![(Scalar { bits: 0 }, start), (Scalar { bits: 0x3f80_0000 }, end)],
    {
        Gradient { keys: vec![(Scalar::zero(), start), (Scalar::one(), end)] }
    }
}

impl<C> Gradient<C> {
    /// Where the life fraction `t`, moved into `0 ..= 1`, falls.
    pub fn stop(&self, t: Scalar) -> (s: Stop)
        ensures
            is_stop(self.keys@, unit(t), s),
    {
        let u = t.clamp(Scalar::zero(), Scalar::one());
        if self.keys.len() == 0 {
            return Stop::Empty;
        }
        if u.at_most(self.keys[0].0) {
            return Stop::At(0);
        }
        let mut i: usize = 1;
        while i < self.keys.len()
            invariant
                1 <= i <= self.keys.len(),
                forall|k: int| 0 <= k < i ==> !u.le((#[trigger] self.keys@[k]).0),
                u == unit(t),
            decreases self.keys.len() - i,
        {
            if u.at_most(self.keys[i].0) {
                return Stop::Between(i);
            }
            i += 1;
        }
        Stop::At(self.keys.len() - 1)
    }
}

/// The stop of a fraction is one and the same, and between two keys in
/// ascending order the fraction lies above the first and not above the
/// second.
pub proof fn law_stop_is_unique<C>(keys: Seq<(Scalar, C)>, t: Scalar, a: Stop, b: Stop)
    requires
        is_stop(keys, t, a),
        is_stop(keys, t, b),
        keys.len() <= usize::MAX,
    ensures
        a == b,
        !t.nan() && sorted(keys) ==> (a matches Stop::Between(i) ==> keys[i - 1].0.lt(t) && t.le(
            keys[i as int].0,
        )),
{
    match (a, b) {
        (Stop::Between(i), Stop::Between(j)) => {
            if i < j {
                assert(!t.le(keys[i as int].0));
            }
            if j < i {
                assert(!t.le(keys[j as int].0));
            }
        },
        (Stop::Between(i), Stop::At(j)) => {
            assert(!t.le(keys[0].0));
        },
        (Stop::At(i), Stop::Between(j)) => {
            assert(!t.le(keys[0].0));
        },
        (Stop::At(i), Stop::At(j)) => {
            assert(keys[0] == keys[0]);
        },
        _ => {},
    }
    if !t.nan() && sorted(keys) {
        if let Stop::Between(i) = a {
            assert(!t.le(keys[i - 1].0));
            assert(keys[i - 1].0.le(keys[i as int].0));
        }
    }
}

/// How visible a decal is.
#[derive(Clone, Copy, Debug, PartialEq, Eq, Structural)]
pub enum Visibility {
    Full,
    Gone,
    /// From the start of the fade on: linear to nothing at the end of its
    /// life, and nothing past that.
    Fading,
}

/// Start of the fade: `fade_start`, the life minus the fade, or the spawn
/// where the fade is longer than the life.
pub open spec fn fades_from(fade_start: Scalar) -> Scalar {
    if fade_start.lt(Scalar { bits: 0 }) {
        Scalar { bits: 0 }
    } else {
        fade_start
    }
}

/// Visibility of a decal at `age`: full until the last `fade` seconds of
/// its life, and fading from there. A decal without an end is always full,
/// and one without a fade is full until it ends. Where there is no part of
/// the life before the fade, the decal is gone once its life is over.
pub open spec fn seen_at(age: Scalar, life: Scalar, fade: Scalar, fade_start: Scalar) -> Visibility {
    if !life.finite() {
        Visibility::Full
    } else if (fade.le(Scalar { bits: 0 }) || life.le(fade)) && !age.lt(life) {
        Visibility::Gone
    } else if fade.le(Scalar { bits: 0 }) || age.le(fades_from(fade_start)) {
        Visibility::Full
    } else {
        Visibility::Fading
    }
}

/// When a decal begins to fade, given its life minus its fade.
pub fn fade_begins(fade_start: Scalar) -> (start: Scalar)
    ensures
        start == fades_from(fade_start),
{
    if fade_start.less(Scalar::zero()) {
        Scalar::zero()
    } else {
        fade_start
    }
}

/// How visible a decal is at `age`; `fade_start` is its life minus its
/// fade.
pub fn decal_visibility(age: Scalar, life: Scalar, fade: Scalar, fade_start: Scalar) -> (v:
    Visibility)
    ensures
        v == seen_at(age, life, fade, fade_start),
{
    if !life.is_finite() {
        Visibility::Full
    } else if (fade.at_most(Scalar::zero()) || life.at_most(fade)) && !age.less(life) {
        Visibility::Gone
    } else if fade.at_most(Scalar::zero()) || age.at_most(fade_begins(fade_start)) {
        Visibility::Full
    } else {
        Visibility::Fading
    }
}

/// A decal with a fade is fading from the start of the fade to the end of
/// its life, and only a decal without one is full to the end.
pub proof fn law_fades_fill_the_end_of_life(
    age: Scalar,
    life: Scalar,
    fade: Scalar,
    fade_start: Scalar,
)
    requires
        life.finite(),
        age.lt(life),
        !fade.nan(),
        fades_from(fade_start).lt(age),
    ensures
        seen_at(age, life, fade, fade_start) == if (Scalar { bits: 0 }).lt(fade) {
            Visibility::Fading
        } else {
            Visibility::Full
        },
{
}

/// Life and fade of a decal in 100 Hz quanta.
#[derive(Clone, Copy, Debug, PartialEq, Eq, Structural)]
pub struct DecalTicks {
    pub life_ticks: i32,
    pub fade_ticks: i32,
}

impl DecalTicks {
    /// The quanta a decal starts with: a life of at least one, without end
    /// where `persistent`, and a fade that is not negative.
    pub fn starting(life_ticks: i32, fade_ticks: i32, persistent: bool) -> (t: DecalTicks)
        ensures
            t.life_ticks == if persistent {
                i32::MAX
            } else if life_ticks < 1 {
                1
            } else {
                life_ticks
            },
            t.fade_ticks == if fade_ticks < 0 {
                0
            } else {
                fade_ticks
            },
    {
        DecalTicks {
            life_ticks: if persistent {
                i32::MAX
            } else if life_ticks < 1 {
                1
            } else {
                life_ticks
            },
            fade_ticks: if fade_ticks < 0 {
                0
            } else {
                fade_ticks
            },
        }
    }
}

/// A decal without an end never fades. One with an end and no fade is full
/// until its life is over and gone then. One with both is full up to its
/// life less the fade, or up to its spawn where the fade is as long as the
/// life, and fading after.
pub proof fn law_decals_are_full_before_their_fade(
    age: Scalar,
    life: Scalar,
    fade: Scalar,
    fade_start: Scalar,
)
    ensures
        !life.finite() ==> seen_at(age, life, fade, fade_start) == Visibility::Full,
        life.finite() && fade.le(Scalar { bits: 0 }) && age.lt(life) ==> seen_at(
            age,
            life,
            fade,
            fade_start,
        ) == Visibility::Full,
        life.finite() && fade.le(Scalar { bits: 0 }) && life.le(age) ==> seen_at(
            age,
            life,
            fade,
            fade_start,
        ) == Visibility::Gone,
        life.finite() && life.le(fade) && life.le(age) ==> seen_at(age, life, fade, fade_start)
            == Visibility::Gone,
        life.finite() && (Scalar { bits: 0 }).le(fade_start) && age.le(fade_start) && age.lt(life)
            ==> seen_at(age, life, fade, fade_start) == Visibility::Full,
        life.finite() && (Scalar { bits: 0 }).lt(fade) && fade.lt(life) && (Scalar {
            bits: 0,
        }).le(fade_start) && fade_start.lt(age) ==> seen_at(age, life, fade, fade_start)
            == Visibility::Fading,
        (Scalar { bits: 0 }).le(fade_start) ==> fades_from(fade_start) == fade_start,
        fade_start.lt(Scalar { bits: 0 }) ==> fades_from(fade_start).bits == 0,
{
}

/// A stop lies where the keys say: at the first key up to it, at the last
/// behind all of them, and else between the two keys around it. Before the
/// keys are looked at the place is moved into `0 ..= 1`.
pub proof fn law_stops_lie_among_their_keys<C>(keys: Seq<(Scalar, C)>, t: Scalar, s: Stop)
    requires
        is_stop(keys, t, s),
        !t.nan(),
        forall|k: int| 0 <= k < keys.len() ==> !(#[trigger] keys[k]).0.nan(),
    ensures
        keys.len() == 0 ==> s == Stop::Empty,
        keys.len() > 0 ==> s != Stop::Empty,
        s matches Stop::Between(i) ==> 0 < i < keys.len() && keys[i - 1].0.lt(t) && t.le(
            keys[i as int].0,
        ),
        keys.len() > 0 && t.le(keys[0].0) ==> s == Stop::At(0),
        keys.len() > 0 && (forall|k: int| 0 <= k < keys.len() ==> (#[trigger] keys[k]).0.lt(t))
            ==> s == Stop::At((keys.len() - 1) as usize),
        forall|u: Scalar|
            (Scalar { bits: 0 }).le(u) && u.le(Scalar { bits: 0x3f80_0000 }) ==> #[trigger] unit(u)
                == u,
        forall|u: Scalar| u.lt(Scalar { bits: 0 }) ==> (#[trigger] unit(u)).bits == 0,
        forall|u: Scalar|
            (Scalar { bits: 0x3f80_0000 }).lt(u) ==> (#[trigger] unit(u)).bits == 0x3f80_0000,
{
    if let Stop::Between(i) = s {
        assert(!t.le(keys[i - 1].0));
    }
    if keys.len() > 0 && (forall|k: int| 0 <= k < keys.len() ==> (#[trigger] keys[k]).0.lt(t)) {
        assert(keys[0].0.lt(t));
        if let Stop::Between(i) = s {
            assert(keys[i as int].0.lt(t));
        }
    }
}

} // verus!
