//! Frame player for one animation strip.
//!
//! The player owns every decision of playback: when the clock moves, when a
//! lap wraps or a one-shot finishes, which cell is shown. The arithmetic on
//! the clock is the caller's; it hands the results over as a
//! [`StripMotion`].

use super::AnimDef;
use crate::scalar::Scalar;
use vstd::prelude::*;

verus! {

/// What happens when playback reaches the end of the strip.
#[derive(Clone, Copy, Debug, PartialEq, Eq, Structural)]
pub enum LoopMode {
    /// Wrap to the start and keep playing: walk cycles, idle loops.
    Loop,
    /// Hold the last cell and stop: one-shot attacks, UI pop-ins.
    Once,
    /// Bounce between the ends and keep playing: patrols, bobbing pickups.
    PingPong,
}

impl Default for LoopMode {
    fn default() -> (m: Self)
        ensures
            m == LoopMode::Loop,
    {
        LoopMode::Loop
    }
}

/// The ends of a strip as clock positions: `frames` and `frames - 1`.
#[derive(Clone, Copy, Debug, PartialEq, Eq, Structural)]
pub struct StripEnds {
    pub end: Scalar,
    pub last: Scalar,
}

/// The clock arithmetic for one advance of a player.
#[derive(Clone, Copy, Debug, PartialEq, Eq, Structural)]
pub struct StripMotion {
    /// `dt * fps * speed_scale`.
    pub step: Scalar,
    /// The clock plus `|step|`, minus it when playing in reverse.
    pub moved: Scalar,
    /// `moved` brought into `0 .. frames` by whole laps.
    pub wrapped: Scalar,
    /// `2 * (frames - 1)`, the length of a bounce there and back.
    pub period: Scalar,
    /// Place on the way there and back, in `0 .. period`.
    pub place: Scalar,
    /// `place` plus `step`.
    pub bounce: Scalar,
    /// `bounce` brought into `0 .. period`.
    pub folded: Scalar,
    /// `period - folded`.
    pub mirrored: Scalar,
}

/// Frame player for one animation strip.
///
/// - [`play`](AnimPlayer::play) starts or resumes; [`pause`](AnimPlayer::pause)
///   freezes in place; [`stop`](AnimPlayer::stop) resets to cell `0`.
/// - `speed_scale` multiplies the rate; a negative value plays in reverse
///   and `0` freezes the frame while staying "playing".
///
/// A player snapshots `frames`/`fps` at construction. Streaming a
/// replacement definition for the same name needs a fresh player.
#[derive(Clone, Copy, Debug, PartialEq, Eq, Structural)]
pub struct AnimPlayer {
    frames: u32,
    ends: StripEnds,
    fps: Scalar,
    pos: Scalar,
    playing: bool,
    speed_scale: Scalar,
    loop_mode: LoopMode,
    forward: bool,
    finished: bool,
    paused: bool,
}

/// A player's state.
pub struct PlayerModel {
    pub frames: u32,
    pub ends: StripEnds,
    pub fps: Scalar,
    pub pos: Scalar,
    pub playing: bool,
    pub speed_scale: Scalar,
    pub loop_mode: LoopMode,
    pub forward: bool,
    pub finished: bool,
    /// Held in place, to be resumed from there.
    pub paused: bool,
}

impl View for AnimPlayer {
    type V = PlayerModel;

    closed spec fn view(&self) -> PlayerModel {
        PlayerModel {
            frames: self.frames,
            ends: self.ends,
            fps: self.fps,
            pos: self.pos,
            playing: self.playing,
            speed_scale: self.speed_scale,
            loop_mode: self.loop_mode,
            forward: self.forward,
            finished: self.finished,
            paused: self.paused,
        }
    }
}

/// `0.0`.
pub open spec fn origin() -> Scalar {
    Scalar { bits: 0 }
}

/// The clock runs towards the start of the strip.
pub open spec fn reversed(p: PlayerModel) -> bool {
    p.speed_scale.lt(origin()) || !p.forward
}

/// The cell a clock position shows.
pub open spec fn cell(frames: u32, pos: Scalar) -> int {
    if frames == 0 {
        0
    } else if pos.whole() < frames - 1 {
        pos.whole()
    } else {
        frames - 1
    }
}

/// The advance moves nothing.
pub open spec fn idle(p: PlayerModel, dt: Scalar, step: Scalar) -> bool {
    ||| !p.playing
    ||| p.frames <= 1
    ||| p.fps.le(origin())
    ||| !dt.finite()
    ||| dt.le(origin())
    ||| p.speed_scale.eqv(origin())
    ||| step.eqv(origin())
}

/// A bouncing clock reached the last cell, or came round at cell `0`.
pub open spec fn bounced(last: Scalar, m: StripMotion) -> bool {
    ||| m.place.lt(last) && last.le(m.bounce)
    ||| last.lt(m.place) && m.bounce.le(last)
    ||| m.period.le(m.bounce)
    ||| m.bounce.lt(origin())
}

/// The clock and flags after an advance, and whether a lap ended.
pub open spec fn advanced(p: PlayerModel, dt: Scalar, m: StripMotion) -> (PlayerModel, bool) {
    if idle(p, dt, m.step) {
        (p, false)
    } else {
        // Towards the end of the strip, by a real amount.
        let ahead = !reversed(p) && !m.step.nan();
        match p.loop_mode {
            LoopMode::Loop => (
                PlayerModel { pos: m.wrapped, ..p },
                if ahead {
                    p.ends.end.le(m.moved)
                } else {
                    m.moved.lt(origin())
                },
            ),
            LoopMode::Once => if p.ends.end.le(m.moved) || m.moved.lt(origin()) {
                (
                    PlayerModel {
                        pos: if ahead {
                            p.ends.last
                        } else {
                            origin()
                        },
                        playing: false,
                        finished: true,
                        ..p
                    },
                    true,
                )
            } else {
                (PlayerModel { pos: m.moved, ..p }, false)
            },
            LoopMode::PingPong => {
                let out = m.folded.le(p.ends.last);
                let at = if out {
                    m.folded
                } else {
                    m.mirrored
                };
                (
                    PlayerModel {
                        forward: out,
                        pos: at.clamped(origin(), p.ends.last),
                        ..p
                    },
                    bounced(p.ends.last, m),
                )
            },
        }
    }
}

/// The player after it was paused.
pub open spec fn held_in_place(p: PlayerModel) -> PlayerModel {
    PlayerModel { playing: false, paused: true, ..p }
}

/// The player after it was sent back: from the last cell if it was stopped
/// or had finished, else from where it was.
pub open spec fn sent_back(p: PlayerModel) -> PlayerModel {
    let anew = (!p.playing && !p.paused) || p.finished;
    PlayerModel {
        pos: if anew && p.frames > 0 {
            p.ends.last
        } else {
            p.pos
        },
        forward: false,
        finished: false,
        playing: true,
        paused: false,
        ..p
    }
}

impl AnimPlayer {
    /// The last cell lies at a position that is not negative.
    pub open spec fn wf(&self) -> bool {
        origin().le(self@.ends.last)
    }

    /// New player over `def`'s strip with the given loop behavior.
    ///
    /// Starts stopped at cell `0` with `speed_scale` of `1.0`.
    pub fn new(def: &AnimDef, loop_mode: LoopMode, ends: StripEnds) -> (p: Self)
        requires
            origin().le(ends.last),
        ensures
            p.wf(),
            p@ == (PlayerModel {
                frames: def.frames,
                ends,
                fps: def.fps,
                pos: origin(),
                playing: false,
                speed_scale: Scalar { bits: 0x3f80_0000 },
                loop_mode,
                forward: true,
                finished: false,
                paused: false,
            }),
    {
        Self {
            frames: def.frames,
            ends,
            fps: def.fps,
            pos: Scalar::zero(),
            playing: false,
            speed_scale: Scalar::one(),
            loop_mode,
            forward: true,
            finished: false,
            paused: false,
        }
    }

    /// Start (or resume) playing from the current position. Replaying a
    /// finished one-shot restarts it from cell `0` first.
    pub fn play(&mut self)
        ensures
            final(self)@ == (if old(self)@.finished {
                PlayerModel {
                    pos: origin(),
                    forward: true,
                    finished: false,
                    playing: true,
                    paused: false,
                    ..old(self)@
                }
            } else {
                PlayerModel { playing: true, paused: false, ..old(self)@ }
            }),
    {
        if self.finished {
            self.pos = Scalar::zero();
            self.forward = true;
            self.finished = false;
        }
        self.playing = true;
        self.paused = false;
    }

    /// Play in reverse: flips the direction and resumes from the current
    /// cell. Jumps to the last cell first when stopped or after a finished
    /// one-shot; a paused player resumes from where it was held.
    pub fn play_backwards(&mut self)
        ensures
            final(self)@ == sent_back(old(self)@),
    {
        if ((!self.playing && !self.paused) || self.finished) && self.frames > 0 {
            self.pos = self.ends.last;
        }
        self.forward = false;
        self.finished = false;
        self.playing = true;
        self.paused = false;
    }

    /// Pause, keeping the current cell and progress, until
    /// [`play`](AnimPlayer::play) or
    /// [`play_backwards`](AnimPlayer::play_backwards) resumes from there.
    pub fn pause(&mut self)
        ensures
            final(self)@ == held_in_place(old(self)@),
    {
        self.playing = false;
        self.paused = true;
    }

    /// Stop and reset to cell `0`, forward; the `speed_scale` is kept.
    pub fn stop(&mut self)
        ensures
            final(self)@ == (PlayerModel {
                playing: false,
                pos: origin(),
                forward: true,
                finished: false,
                paused: false,
                ..old(self)@
            }),
    {
        self.playing = false;
        self.pos = Scalar::zero();
        self.forward = true;
        self.finished = false;
        self.paused = false;
    }

    /// Speed multiplier for [`advance`](AnimPlayer::advance). Non-finite
    /// values are treated as `0.0`, so a bad calculation pauses instead of
    /// corrupting the clock.
    pub fn set_speed_scale(&mut self, s: Scalar)
        ensures
            final(self)@ == (PlayerModel {
                speed_scale: if s.finite() {
                    s
                } else {
                    origin()
                },
                ..old(self)@
            }),
    {
        self.speed_scale = if s.is_finite() {
            s
        } else {
            Scalar::zero()
        };
    }

    /// Current speed multiplier, `1.0` at first.
    pub fn speed_scale(&self) -> (s: Scalar)
        ensures
            s == self@.speed_scale,
    {
        self.speed_scale
    }

    /// Playback rate of the strip.
    pub fn fps(&self) -> (s: Scalar)
        ensures
            s == self@.fps,
    {
        self.fps
    }

    /// The clock: cells from the start of the strip.
    pub fn position(&self) -> (s: Scalar)
        ensures
            s == self@.pos,
    {
        self.pos
    }

    /// Whether the clock is running, even at a `speed_scale` of `0`.
    pub fn is_playing(&self) -> (r: bool)
        ensures
            r == self@.playing,
    {
        self.playing
    }

    /// Whether a [`Once`](LoopMode::Once) animation has reached its end.
    pub fn is_finished(&self) -> (r: bool)
        ensures
            r == self@.finished,
    {
        self.finished
    }

    /// Whether the player was last sent forward (a bouncing player turns
    /// around by itself).
    pub fn is_forward(&self) -> (r: bool)
        ensures
            r == self@.forward,
    {
        self.forward
    }

    /// Whether the clock runs towards the start of the strip.
    pub fn backward(&self) -> (r: bool)
        ensures
            r == reversed(self@),
    {
        self.speed_scale.less(Scalar::zero()) || !self.forward
    }

    /// Current cell index, always a valid strip cell; `0` for an empty
    /// strip.
    pub fn frame(&self) -> (f: u32)
        ensures
            f == cell(self@.frames, self@.pos),
            self@.frames > 0 ==> f < self@.frames,
    {
        if self.frames == 0 {
            return 0;
        }
        let at: u32 = self.pos.floor_u32();
        if at < self.frames - 1 {
            at
        } else {
            self.frames - 1
        }
    }

    /// `frame` clamped to the strip's last cell.
    pub fn clamp_cell(&self, frame: u32) -> (f: u32)
        ensures
            self@.frames == 0 ==> f == 0,
            self@.frames > 0 ==> f == if frame < self@.frames {
                frame as int
            } else {
                self@.frames - 1
            },
    {
        if self.frames == 0 {
            0
        } else if frame < self.frames {
            frame
        } else {
            self.frames - 1
        }
    }

    /// Put the clock at `pos`, clamped to the strip, preserving playback
    /// state; the finished flag clears, since the position is fresh. An
    /// empty strip ignores the call.
    pub fn seek(&mut self, pos: Scalar)
        requires
            old(self).wf(),
        ensures
            final(self)@ == (if old(self)@.frames == 0 {
                old(self)@
            } else {
                PlayerModel {
                    pos: pos.clamped(origin(), old(self)@.ends.last),
                    finished: false,
                    ..old(self)@
                }
            }),
    {
        if self.frames == 0 {
            return ;
        }
        self.pos = pos.clamp(Scalar::zero(), self.ends.last);
        self.finished = false;
    }

    /// Advance the clock by `dt` seconds.
    ///
    /// Returns `(frame_changed, ended)`: whether the advance crossed into a
    /// different cell, and whether a one-shot finished or a lap wrapped or
    /// bounced. A no-op while paused, at a `speed_scale` of `0`, on strips
    /// with fewer than two cells, at non-positive `fps`, or for
    /// non-positive/non-finite `dt`.
    pub fn advance(&mut self, dt: Scalar, m: StripMotion) -> (r: (bool, bool))
        requires
            old(self).wf(),
        ensures
            final(self)@ == advanced(old(self)@, dt, m).0,
            r.0 == (cell(old(self)@.frames, final(self)@.pos) != cell(
                old(self)@.frames,
                old(self)@.pos,
            )),
            r.1 == advanced(old(self)@, dt, m).1,
            final(self).wf(),
    {
        let zero = Scalar::zero();
        if !self.playing || self.frames <= 1 || self.fps.at_most(zero) {
            return (false, false);
        }
        if !dt.is_finite() || dt.at_most(zero) {
            return (false, false);
        }
        let before: u32 = self.frame();
        if self.speed_scale.same(zero) || m.step.same(zero) {
            return (false, false);
        }
        let ahead = !self.backward() && !m.step.is_nan();
        match self.loop_mode {
            LoopMode::Loop => {
                self.pos = m.wrapped;
                let wrapped = if ahead {
                    self.ends.end.at_most(m.moved)
                } else {
                    m.moved.less(zero)
                };
                (self.frame() != before, wrapped)
            },
            LoopMode::Once => {
                if self.ends.end.at_most(m.moved) || m.moved.less(zero) {
                    self.pos = if ahead {
                        self.ends.last
                    } else {
                        zero
                    };
                    self.playing = false;
                    self.finished = true;
                    (self.frame() != before, true)
                } else {
                    self.pos = m.moved;
                    (self.frame() != before, false)
                }
            },
            LoopMode::PingPong => {
                let last = self.ends.last;
                let turned = (m.place.less(last) && last.at_most(m.bounce)) || (last.less(m.place)
                    && m.bounce.at_most(last));
                let ended = turned || m.period.at_most(m.bounce) || m.bounce.less(zero);
                self.forward = m.folded.at_most(self.ends.last);
                let at = if self.forward {
                    m.folded
                } else {
                    m.mirrored
                };
                self.pos = at.clamp(zero, self.ends.last);
                (self.frame() != before, ended)
            },
        }
    }
}

/// An advance is a no-op while paused, at a `speed_scale` of `0`, on strips
/// with fewer than two cells, at non-positive `fps`, and for a `dt` that is
/// not positive and finite, whatever the motion.
pub proof fn law_idle_players_stay(p: PlayerModel, dt: Scalar, m: StripMotion)
    requires
        ({
            ||| !p.playing
            ||| p.speed_scale.eqv(origin())
            ||| p.frames <= 1
            ||| p.fps.le(origin())
            ||| !dt.finite()
            ||| dt.le(origin())
        }),
    ensures
        advanced(p, dt, m) == (p, false),
{
}

/// A looping or bouncing player never finishes and never stops by itself.
pub proof fn law_loops_never_finish(p: PlayerModel, dt: Scalar, m: StripMotion)
    requires
        p.loop_mode != LoopMode::Once,
    ensures
        advanced(p, dt, m).0.finished == p.finished,
        advanced(p, dt, m).0.playing == p.playing,
{
}

/// A one-shot that ends is finished and stopped, shows an end of the strip,
/// and ignores every further advance.
pub proof fn law_one_shot_holds(p: PlayerModel, dt: Scalar, m: StripMotion, dt2: Scalar, m2: StripMotion)
    requires
        p.loop_mode == LoopMode::Once,
        advanced(p, dt, m).1,
    ensures
        advanced(p, dt, m).0.finished,
        !advanced(p, dt, m).0.playing,
        advanced(p, dt, m).0.pos == p.ends.last || advanced(p, dt, m).0.pos == origin(),
        advanced(advanced(p, dt, m).0, dt2, m2) == (advanced(p, dt, m).0, false),
{
}

/// A bouncing player that turns back at the last cell, within one way there
/// and back, says that it ended a lap.
pub proof fn law_turns_are_reported(p: PlayerModel, dt: Scalar, m: StripMotion)
    requires
        p.loop_mode == LoopMode::PingPong,
        !idle(p, dt, m.step),
        m.place.lt(p.ends.last),
        m.folded == m.bounce,
        !m.bounce.nan(),
    ensures
        !advanced(p, dt, m).0.forward ==> advanced(p, dt, m).1,
{
}

/// A pause holds the clock: whichever way the player is sent on, it resumes
/// from the same place, unless it had finished.
pub proof fn law_pauses_keep_the_place(p: PlayerModel)
    requires
        !p.finished,
    ensures
        held_in_place(p).pos == p.pos,
        sent_back(held_in_place(p)).pos == p.pos,
        sent_back(held_in_place(p)).playing,
{
}

/// A one-shot that ends holds the end it ran into: the last cell where the
/// clock ran past the end going forwards, and position `0`, cell `0`, where
/// it ran below zero in reverse. It is then finished and stopped, and says
/// so. Until then it goes where the clock goes.
pub proof fn law_one_shots_hold_the_end_they_ran_into(
    p: PlayerModel,
    dt: Scalar,
    m: StripMotion,
)
    requires
        p.loop_mode == LoopMode::Once,
        p.playing,
        p.frames >= 2,
        origin().lt(p.fps),
        dt.finite(),
        origin().lt(dt),
        !p.speed_scale.eqv(origin()),
        !p.speed_scale.nan(),
        !m.step.nan(),
        !m.step.eqv(origin()),
    ensures
        p.forward && origin().lt(p.speed_scale) && p.ends.end.le(m.moved) ==> {
            let (after, ended) = advanced(p, dt, m);
            &&& ended && after.finished && !after.playing
            &&& after.pos == p.ends.last
            &&& p.ends.last.whole() == p.frames - 1 ==> cell(after.frames, after.pos) == p.frames
                - 1
        },
        (!p.forward || p.speed_scale.lt(origin())) && m.moved.lt(origin()) ==> {
            let (after, ended) = advanced(p, dt, m);
            &&& ended && after.finished && !after.playing
            &&& after.pos == origin()
            &&& cell(after.frames, after.pos) == 0
        },
        origin().le(m.moved) && m.moved.lt(p.ends.end) ==> {
            let (after, ended) = advanced(p, dt, m);
            &&& !ended && after.playing && after.finished == p.finished
            &&& after.pos == m.moved
        },
{
}

/// A looping strip wraps: its clock goes to the place that the motion
/// brings within the strip, and a lap ends where the motion ran past the
/// end going forwards, or below zero in reverse. It plays on.
pub proof fn law_loops_wrap(p: PlayerModel, dt: Scalar, m: StripMotion)
    requires
        p.loop_mode == LoopMode::Loop,
        p.playing,
        p.frames >= 2,
        origin().lt(p.fps),
        dt.finite(),
        origin().lt(dt),
        !p.speed_scale.eqv(origin()),
        !p.speed_scale.nan(),
        !m.step.nan(),
        !m.step.eqv(origin()),
    ensures
        advanced(p, dt, m).0 == (PlayerModel { pos: m.wrapped, ..p }),
        p.forward && origin().lt(p.speed_scale) ==> (advanced(p, dt, m).1 <==> p.ends.end.le(
            m.moved,
        )),
        !p.forward || p.speed_scale.lt(origin()) ==> (advanced(p, dt, m).1 <==> m.moved.lt(
            origin(),
        )),
{
}

/// A bouncing strip is on its way there while the folded place is at most
/// that of the last cell, and shows it; beyond it is on its way back and
/// shows the mirrored one. A lap is reported where the motion reaches the
/// last cell from either side or comes round at cell `0`, and not else. It
/// plays on.
pub proof fn law_bounces_turn_at_the_ends(p: PlayerModel, dt: Scalar, m: StripMotion)
    requires
        p.loop_mode == LoopMode::PingPong,
        p.playing,
        p.frames >= 2,
        origin().lt(p.fps),
        dt.finite(),
        origin().lt(dt),
        !p.speed_scale.eqv(origin()),
        !m.step.eqv(origin()),
        origin().le(p.ends.last),
    ensures
        ({
            let (after, ended) = advanced(p, dt, m);
            &&& after == (PlayerModel { forward: after.forward, pos: after.pos, ..p })
            &&& after.forward == m.folded.le(p.ends.last)
            &&& origin().le(m.folded) && m.folded.le(p.ends.last) ==> after.pos == m.folded
            &&& p.ends.last.lt(m.folded) && origin().le(m.mirrored) && m.mirrored.le(p.ends.last)
                ==> after.pos == m.mirrored
            &&& m.place.lt(p.ends.last) && p.ends.last.le(m.bounce) ==> ended
            &&& p.ends.last.lt(m.place) && m.bounce.le(p.ends.last) ==> ended
            &&& m.period.le(m.bounce) || m.bounce.lt(origin()) ==> ended
            &&& m.place.le(m.bounce) && m.bounce.lt(p.ends.last) && m.bounce.lt(m.period)
                && origin().le(m.bounce) ==> !ended
            &&& p.ends.last.lt(m.place) && p.ends.last.lt(m.bounce) && m.bounce.lt(m.period)
                && origin().le(m.bounce) ==> !ended
        }),
{
}

/// An advance leaves the strip, the speed and the loop mode as they are,
/// and never pauses.
pub proof fn law_advances_keep_the_strip(p: PlayerModel, dt: Scalar, m: StripMotion)
    ensures
        ({
            let after = advanced(p, dt, m).0;
            &&& after.frames == p.frames
            &&& after.ends == p.ends
            &&& after.fps == p.fps
            &&& after.speed_scale == p.speed_scale
            &&& after.loop_mode == p.loop_mode
            &&& after.paused == p.paused
            &&& p.loop_mode != LoopMode::PingPong ==> after.forward == p.forward
        }),
{
}

/// The clock runs back exactly if the player was sent back or its speed is
/// negative.
pub proof fn law_reverse_has_two_causes(p: PlayerModel)
    ensures
        !p.forward ==> reversed(p),
        p.speed_scale.lt(origin()) ==> reversed(p),
        p.forward && !p.speed_scale.lt(origin()) ==> !reversed(p),
{
}

/// Sending a player back makes it run towards the start, from the last cell
/// where it was stopped or had finished, and from where it is where it was
/// playing or held.
pub proof fn law_sent_back_from_the_end_or_in_place(p: PlayerModel)
    ensures
        ({
            let s = sent_back(p);
            &&& s.playing && !s.forward && !s.finished && !s.paused
            &&& p.frames > 0 && p.finished ==> s.pos == p.ends.last
            &&& p.frames > 0 && !p.playing && !p.paused ==> s.pos == p.ends.last
            &&& !p.finished && (p.playing || p.paused) ==> s.pos == p.pos
            &&& p.frames == 0 ==> s.pos == p.pos
            &&& s.frames == p.frames && s.ends == p.ends && s.fps == p.fps
            &&& s.speed_scale == p.speed_scale && s.loop_mode == p.loop_mode
        }),
        ({
            let h = held_in_place(p);
            &&& !h.playing && h.paused
            &&& h == (PlayerModel { playing: false, paused: true, ..p })
        }),
{
}

/// The cell is the whole part of the clock, the last cell past the end, and
/// cell `0` of an empty strip.
pub proof fn law_cells_follow_the_clock(frames: u32, pos: Scalar)
    ensures
        frames > 0 && pos.whole() < frames ==> cell(frames, pos) == pos.whole(),
        frames > 0 && pos.whole() >= frames ==> cell(frames, pos) == frames - 1,
        frames == 0 ==> cell(frames, pos) == 0,
{
}

/// A clock runs back exactly if its speed is below zero or it was turned
/// round; a speed of either zero is not below it.
pub proof fn law_clocks_run_by_the_sign_of_the_speed(p: PlayerModel)
    ensures
        origin().bits == 0,
        reversed(p) <==> p.speed_scale.lt(Scalar { bits: 0 }) || !p.forward,
        p.speed_scale.rank() == 0 && p.forward ==> !reversed(p),
{
}

} // verus!
