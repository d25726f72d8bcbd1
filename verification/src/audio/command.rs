//! What the game tells the audio thread, and what comes back.

use crate::audio::channels::AudioChannel;
use crate::scalar::Scalar;
use std::sync::Arc;
use vstd::prelude::*;
use web_workers::sync::mpsc::Sender;

verus! {

/// Decoded sound: interleaved samples by their bits, mono or stereo.
#[derive(Clone, Debug, PartialEq, Eq)]
pub struct SharedFrames {
    pub sample_rate: u32,
    pub channels: u8,
    pub frames: Vec<Scalar>,
}

impl SharedFrames {
    /// Samples divided by channels; no channels make no frames.
    pub open spec fn frame_count(&self) -> nat {
        if self.channels == 0 {
            0
        } else {
            self.frames@.len() / self.channels as nat
        }
    }

    /// Frame count.
    pub fn len_frames(&self) -> (n: usize)
        ensures
            n == self.frame_count(),
    {
        if self.channels == 0 {
            0
        } else {
            self.frames.len() / self.channels as usize
        }
    }

    pub fn is_empty(&self) -> (r: bool)
        ensures
            r == (self.frame_count() == 0),
    {
        self.len_frames() == 0
    }
}

/// How fast a voice plays: `1 + (draw / MAX_DRAW * 2 - 1) * depth`, times
/// the scale.
#[derive(Clone, Copy, Debug, PartialEq, Eq)]
pub struct Rate {
    /// A random draw and the depth of the wobble; none plays at pitch.
    pub wobble: Option<(u64, Scalar)>,
    pub scale: Scalar,
}

/// The largest draw of a wobble.
pub const MAX_DRAW: u64 = 0x1f_ffff_ffff_ffff;

/// A gain as two factors, before bus staging.
#[derive(Clone, Copy, Debug, PartialEq, Eq, Structural)]
pub struct Gain {
    pub base: Scalar,
    pub scale: Scalar,
}

/// Voice start request.
#[derive(Clone, Debug, PartialEq, Eq)]
pub struct PlayCmd {
    pub voice: u64,
    pub sound: Arc<SharedFrames>,
    pub gain: Gain,
    pub rate: Rate,
    /// Stereo position, from -1 (left) to 1 (right).
    pub pan: Scalar,
    pub bus: AudioChannel,
    pub looping: bool,
}

/// How much of a stem is heard at an intensity.
#[derive(Clone, Copy, Debug, PartialEq, Eq, Structural)]
pub enum Window {
    Full,
    Silent,
    /// `(at - lo) / (hi - lo)`, moved into `0 ..= 1`.
    Ramp { at: Scalar, lo: Scalar, hi: Scalar },
}

/// The gain that a fade runs to: the product of its factors.
#[derive(Clone, Copy, Debug, PartialEq, Eq, Structural)]
pub enum FadeTarget {
    Silence,
    Mix { track: Scalar, window: Window, stem: Scalar, duck: Scalar },
}

/// From the game to the audio thread. Unknown voices are ignored there.
#[derive(Clone, Debug, PartialEq, Eq)]
pub enum RealtimeCommand {
    Play(PlayCmd),
    Stop(u64),
    StopBus(AudioChannel),
    SetBus { bus: AudioChannel, gain: Scalar },
    Pause(bool),
    /// Ramp the gain of a voice to a target over seconds. Reaching zero
    /// ends the voice like a natural end.
    Fade { voice: u64, target: FadeTarget, secs: Scalar },
}

/// From the audio thread to the game.
#[derive(Clone, Copy, Debug, PartialEq, Eq, Structural)]
pub enum EngineEvent {
    /// A voice ran to completion.
    Finished(u64),
}

impl EngineEvent {
    /// Voice behind the event.
    pub fn voice(&self) -> (id: u64)
        ensures
            *self == EngineEvent::Finished(id),
    {
        match self {
            EngineEvent::Finished(v) => *v,
        }
    }
}

/// The sending half of the command channel.
#[verifier::external_type_specification]
#[verifier::external_body]
#[verifier::reject_recursive_types(T)]
pub struct ExSender<T>(Sender<T>);

/// The commands that were offered through this sender, oldest first, each
/// with whether the channel took it.
pub uninterp spec fn offered(tx: Sender<RealtimeCommand>) -> Seq<(RealtimeCommand, bool)>;

/// `Sender::send_spin` of `web_workers`: offers a command to the channel
/// and says whether it was taken. The channel takes every command as long
/// as its receiving half exists; whether it does is not known here. The
/// contract adds the offer to the sender's own record, and claims nothing
/// about what other senders of the channel do.
#[verifier::external_body]
pub(crate) fn send(tx: &mut Sender<RealtimeCommand>, command: RealtimeCommand) -> (taken: bool)
    ensures
        offered(*final(tx)) == offered(*old(tx)).push((command, taken)),
{
    tx.send_spin(command).is_ok()
}

/// `Arc::clone` of the standard library: another pointer to the same sound.
#[verifier::external_body]
pub(crate) fn share(sound: &Arc<SharedFrames>) -> (other: Arc<SharedFrames>)
    ensures
        other == *sound,
{
    sound.clone()
}

/// A sound has a frame for every sample of each channel: its frames fill
/// its samples but for less than one, and without channels it has none.
pub proof fn law_frames_hold_a_sample_per_channel(s: SharedFrames)
    ensures
        s.channels == 0 ==> s.frame_count() == 0,
        s.channels > 0 ==> s.frame_count() * s.channels <= s.frames@.len() < (s.frame_count() + 1)
            * s.channels,
{
    if s.channels > 0 {
        let (n, c) = (s.frames@.len() as int, s.channels as int);
        vstd::arithmetic::div_mod::lemma_fundamental_div_mod(n, c);
        vstd::arithmetic::div_mod::lemma_mod_bound(n, c);
        let q = n / c;
        assert(c * q == q * c && (q + 1) * c == q * c + c) by (nonlinear_arith);
    }
}

} // verus!
