//! From decoded packets to one sound.

use crate::audio::command::SharedFrames;
use crate::scalar::Scalar;
use vstd::prelude::*;

verus! {

/// Most frames of a sound. Music tracks pass, accidents do not.
pub const MAX_FRAMES: usize = 32_000_000;

/// Why bytes gave no sound.
#[derive(Clone, Copy, Debug, PartialEq, Eq, Structural)]
pub enum DecodeError {
    /// No bytes at all.
    NoInput,
    /// A packet could not be decoded, and not for being corrupt.
    DecodeFailed,
    /// The container could not be read.
    ReadFailed,
    /// More than [`MAX_FRAMES`] frames.
    TooLong,
    /// Not one sample.
    Silent,
}

/// What the container gave next.
pub enum PacketEvent {
    /// A packet of another track.
    OtherTrack,
    /// Interleaved samples of a decoded packet.
    Samples(Vec<Scalar>),
    /// A packet that is corrupt.
    Corrupt,
    DecodeFailed,
    /// The end, or a point from which the decoder would have to start over.
    End,
    ReadFailed,
}

/// What is left of interleaved samples of `source` channels: one or two
/// stay as they are, of more the first two do. A frame cut short has
/// silence on the right.
pub open spec fn kept(samples: Seq<Scalar>, source: int) -> Seq<Scalar> {
    if source <= 2 {
        samples
    } else {
        Seq::new(
            (2 * frames_in(samples.len() as int, source)) as nat,
            |j: int|
                {
                    let at = j / 2 * source + j % 2;
                    if at < samples.len() {
                        samples[at]
                    } else {
                        Scalar { bits: 0 }
                    }
                },
        )
    }
}

/// Frames in `len` samples of `source` channels, a cut one included.
pub open spec fn frames_in(len: int, source: int) -> int {
    (len + source - 1) / source
}

/// A sound being put together.
pub struct Assembler {
    source_channels: usize,
    frames: Vec<Scalar>,
}

impl View for Assembler {
    type V = Seq<Scalar>;

    closed spec fn view(&self) -> Seq<Scalar> {
        self.frames@
    }
}

/// Refuse input without bytes.
pub fn check_input(bytes: &[u8]) -> (r: Result<(), DecodeError>)
    ensures
        bytes@.len() == 0 ==> r == Err::<(), DecodeError>(DecodeError::NoInput),
        bytes@.len() > 0 ==> r is Ok,
{
    if bytes.len() == 0 {
        Err(DecodeError::NoInput)
    } else {
        Ok(())
    }
}

impl Assembler {
    /// Channels of the container.
    pub closed spec fn source(&self) -> usize {
        self.source_channels
    }

    /// Channels of the sound: one or two.
    pub open spec fn channels(&self) -> int {
        if self.source() < 2 {
            1
        } else {
            2
        }
    }

    pub closed spec fn wf(&self) -> bool {
        self.source_channels > 0
    }

    /// For a container of `source_channels` channels.
    pub fn new(source_channels: usize) -> (a: Assembler)
        requires
            source_channels > 0,
        ensures
            a.wf(),
            a.source() == source_channels,
            a@ == Seq::<Scalar>::empty(),
    {
        Assembler { source_channels, frames: Vec::new() }
    }

    fn keep(&mut self, samples: &Vec<Scalar>)
        requires
            old(self).wf(),
        ensures
            final(self).wf(),
            final(self).source() == old(self).source(),
            final(self)@ == old(self)@ + kept(samples@, old(self).source() as int),
    {
        let n: usize = samples.len();
        let source: usize = self.source_channels;
        if source <= 2 {
            let mut i: usize = 0;
            while i < n
                invariant
                    i <= n,
                    n == samples@.len(),
                    self.source_channels == source,
                    self.frames@ == old(self).frames@ + samples@.take(i as int),
                decreases n - i,
            {
                self.frames.push(samples[i]);
                assert(self.frames@ =~= old(self).frames@ + samples@.take(i + 1));
                i += 1;
            }
            assert(samples@.take(n as int) =~= samples@);
            return;
        }
        let ghost all = kept(samples@, source as int);
        let mut f: usize = 0;
        let mut at: usize = 0;
        proof {
            assert(all.take(0) =~= Seq::<Scalar>::empty());
            vstd::arithmetic::div_mod::lemma_div_pos_is_pos(n + source - 1, source as int);
            if n == 0 {
                assert(frames_in(0, source as int) == 0) by {
                    vstd::arithmetic::div_mod::lemma_basic_div(source - 1, source as int);
                }
            }
        }
        while at < n
            invariant
                n == samples@.len(),
                source > 2,
                all == kept(samples@, source as int),
                self.source_channels == source,
                f <= n,
                at < n ==> at == f * source,
                at >= n ==> f == frames_in(n as int, source as int),
                f <= frames_in(n as int, source as int),
                at == 0 ==> f == 0,
                self.frames@ == old(self).frames@ + all.take(2 * f),
            decreases n - at,
        {
            proof {
                lemma_frame_bound(n as int, source as int, f as int);
            }
            let left: Scalar = samples[at];
            let right: Scalar = if at + 1 < n {
                samples[at + 1]
            } else {
                Scalar::zero()
            };
            self.frames.push(left);
            self.frames.push(right);
            proof {
                let (j, k) = (2 * f as int, 2 * f + 1);
                assert(j / 2 == f && j % 2 == 0);
                assert(k / 2 == f && k % 2 == 1);
                assert(all[j] == left);
                assert(all[k] == right);
                assert(self.frames@ =~= old(self).frames@ + all.take(2 * (f + 1)));
                assert((f + 1) * source == f * source + source) by (nonlinear_arith);
                lemma_frame_last(n as int, source as int, f as int);
            }
            f += 1;
            at = if n - at <= source {
                n
            } else {
                at + source
            };
        }
        proof {
            assert(all.take(2 * f) =~= all);
        }
    }

    /// Take what the container gave next. True when that was the end.
    pub fn feed(&mut self, event: PacketEvent) -> (r: Result<bool, DecodeError>)
        requires
            old(self).wf(),
        ensures
            final(self).wf(),
            final(self).source() == old(self).source(),
            match event {
                PacketEvent::OtherTrack => r == Ok::<bool, DecodeError>(false) && final(self)@
                    == old(self)@,
                PacketEvent::Corrupt => r == Ok::<bool, DecodeError>(false) && final(self)@ == old(
                    self,
                )@,
                PacketEvent::End => r == Ok::<bool, DecodeError>(true) && final(self)@ == old(
                    self,
                )@,
                PacketEvent::DecodeFailed => r == Err::<bool, DecodeError>(
                    DecodeError::DecodeFailed,
                ),
                PacketEvent::ReadFailed => r == Err::<bool, DecodeError>(DecodeError::ReadFailed),
                PacketEvent::Samples(s) => {
                    let all = old(self)@ + kept(s@, old(self).source() as int);
                    &&& final(self)@ == all
                    &&& r == if all.len() as int / old(self).channels() > MAX_FRAMES {
                        Err::<bool, DecodeError>(DecodeError::TooLong)
                    } else {
                        Ok(false)
                    }
                },
            },
    {
        match event {
            PacketEvent::OtherTrack => Ok(false),
            PacketEvent::Corrupt => Ok(false),
            PacketEvent::End => Ok(true),
            PacketEvent::DecodeFailed => Err(DecodeError::DecodeFailed),
            PacketEvent::ReadFailed => Err(DecodeError::ReadFailed),
            PacketEvent::Samples(samples) => {
                self.keep(&samples);
                let channels: usize = if self.source_channels < 2 {
                    1
                } else {
                    2
                };
                if self.frames.len() / channels > MAX_FRAMES {
                    Err(DecodeError::TooLong)
                } else {
                    Ok(false)
                }
            },
        }
    }

    /// The sound, at the rate of the container.
    pub fn finish(self, sample_rate: u32) -> (r: Result<SharedFrames, DecodeError>)
        requires
            self.wf(),
        ensures
            self@.len() == 0 ==> r == Err::<SharedFrames, DecodeError>(DecodeError::Silent),
            self@.len() > 0 ==> r is Ok && r->Ok_0.frames@ == self@ && r->Ok_0.sample_rate
                == sample_rate && r->Ok_0.channels == self.channels(),
    {
        if self.frames.len() == 0 {
            return Err(DecodeError::Silent);
        }
        let channels: u8 = if self.source_channels < 2 {
            1
        } else {
            2
        };
        Ok(SharedFrames { sample_rate, channels, frames: self.frames })
    }
}

proof fn lemma_frame_bound(n: int, source: int, f: int)
    requires
        source > 2,
        0 <= f,
        f * source < n,
    ensures
        f < frames_in(n, source),
        f < n,
{
    vstd::arithmetic::div_mod::lemma_fundamental_div_mod(n + source - 1, source);
    vstd::arithmetic::div_mod::lemma_mod_bound(n + source - 1, source);
    let q = frames_in(n, source);
    assert(q > f) by (nonlinear_arith)
        requires
            f * source < n,
            source > 2,
            n + source - 1 == source * q + (n + source - 1) % source,
            (n + source - 1) % source < source,
    ;
    assert(f < n) by (nonlinear_arith)
        requires
            f * source < n,
            source > 2,
            0 <= f,
    ;
}

proof fn lemma_frame_last(n: int, source: int, f: int)
    requires
        source > 2,
        0 <= f,
        f * source < n,
    ensures
        n - f * source <= source ==> f + 1 == frames_in(n, source),
        n - f * source > source ==> f + 1 < frames_in(n, source),
{
    vstd::arithmetic::div_mod::lemma_fundamental_div_mod(n + source - 1, source);
    vstd::arithmetic::div_mod::lemma_mod_bound(n + source - 1, source);
    let q = frames_in(n, source);
    let r = (n + source - 1) % source;
    if n - f * source <= source {
        assert(q == f + 1) by (nonlinear_arith)
            requires
                0 <= r < source,
                n + source - 1 == source * q + r,
                f * source < n,
                n - f * source <= source,
                source > 2,
        ;
    } else {
        assert(q > f + 1) by (nonlinear_arith)
            requires
                0 <= r < source,
                n + source - 1 == source * q + r,
                n - f * source > source,
                source > 2,
        ;
    }
}

/// A sound with one or two channels loses nothing, and of more channels
/// whole frames keep their first two.
pub proof fn law_left_and_right_are_kept(samples: Seq<Scalar>, source: int, frame: int)
    requires
        source > 0,
        0 <= frame,
        (frame + 1) * source <= samples.len(),
    ensures
        source <= 2 ==> kept(samples, source) == samples,
        source > 2 ==> {
            &&& 2 * frame + 1 < kept(samples, source).len()
            &&& kept(samples, source)[2 * frame] == samples[frame * source]
            &&& kept(samples, source)[2 * frame + 1] == samples[frame * source + 1]
        },
{
    if source > 2 {
        assert((frame + 1) * source == frame * source + source) by (nonlinear_arith);
        lemma_frame_bound(samples.len() as int, source, frame);
        assert(frame * source >= 0) by (nonlinear_arith)
            requires
                frame >= 0,
                source > 2,
        ;
        assert((2 * frame) / 2 == frame && (2 * frame) % 2 == 0);
        assert((2 * frame + 1) / 2 == frame && (2 * frame + 1) % 2 == 1);
    }
}

/// Sound from more than two channels comes out as whole pairs, one for each
/// frame that was begun: where the last frame breaks off after its left
/// sample, its right one is silent. Up to two channels nothing is dropped.
pub proof fn law_begun_frames_are_kept(samples: Seq<Scalar>, source: int)
    requires
        source > 0,
    ensures
        source <= 2 ==> kept(samples, source) == samples,
        source > 2 ==> kept(samples, source).len() % 2 == 0,
        source > 2 ==> kept(samples, source).len() / 2 * source >= samples.len(),
        source > 2 ==> (kept(samples, source).len() / 2 - 1) * source < samples.len(),
        source > 2 && samples.len() % source as nat == 1 ==> kept(samples, source).last().bits == 0,
{
    if source > 2 {
        let len = samples.len() as int;
        let n = frames_in(len, source);
        let t = len + source - 1;
        vstd::arithmetic::div_mod::lemma_fundamental_div_mod(t, source);
        vstd::arithmetic::div_mod::lemma_mod_bound(t, source);
        vstd::arithmetic::div_mod::lemma_div_pos_is_pos(t, source);
        assert(n * source == source * n) by (nonlinear_arith);
        assert((n - 1) * source == source * n - source) by (nonlinear_arith);
        assert(kept(samples, source).len() == 2 * n);
        if len % source == 1 {
            vstd::arithmetic::div_mod::lemma_fundamental_div_mod(len, source);
            let q = len / source;
            assert(t == source * (q + 1)) by (nonlinear_arith)
                requires
                    len == source * q + 1,
                    t == len + source - 1,
            ;
            assert(n == q + 1) by {
                vstd::arithmetic::div_mod::lemma_fundamental_div_mod_converse(t, source, q + 1, 0);
            }
            assert(q >= 0) by {
                vstd::arithmetic::div_mod::lemma_div_pos_is_pos(len, source);
            }
            let j = 2 * n - 1;
            assert(j / 2 == q && j % 2 == 1);
            assert(q * source == source * q) by (nonlinear_arith);
        }
    }
}

/// Decoded sound may have 32 million frames.
pub proof fn law_the_cap_is_32_million_frames()
    ensures
        MAX_FRAMES == 32_000_000,
{
}

/// A mono container makes a mono sound and every other a stereo one.
pub proof fn law_sounds_are_mono_or_stereo(a: Assembler)
    requires
        a.source() > 0,
    ensures
        a.source() == 1 ==> a.channels() == 1,
        a.source() >= 2 ==> a.channels() == 2,
{
}

} // verus!
