//! Game-side sound service.

use crate::audio::bank::{self, SoundBank};
use crate::audio::channels::{self, AudioChannel, AudioChannels};
use crate::audio::command::{self, send, RealtimeCommand};
use crate::audio::music::{self, DuckMotion, Music};
use crate::audio::rig::RigAudio;
use crate::audio::source::{self, AudioSource};
use crate::lists::append;
use crate::scalar::Scalar;
use vstd::prelude::*;
use web_workers::sync::mpsc::Sender;

verus! {

/// A source was not accepted.
#[derive(Clone, Copy, Debug, PartialEq, Eq, Structural)]
pub enum SourceError {
    UnsupportedFormat,
}

/// What a game holds of its sound: the bank, the music, the rigs, the buses
/// as they were last set, and the voices that have finished.
pub struct Audio {
    pub bank: SoundBank,
    pub music: Music,
    pub rig: RigAudio,
    pub channels: AudioChannels,
    pub finished: Vec<u64>,
    /// Device rate; none without a device.
    pub device: Option<u32>,
    pub tx: Option<Sender<RealtimeCommand>>,
}

/// The music after its finished voices were dropped.
pub open spec fn reaped(m: music::MusicModel, fresh: Seq<u64>) -> music::MusicModel {
    music::MusicModel {
        current: match m.current {
            Some(p) => {
                let rest = music::voices_without(p.voices, fresh);
                if rest.len() == 0 {
                    None
                } else {
                    Some(music::PlayingModel { voices: rest, ..p })
                }
            },
            None => None,
        },
        ..m
    }
}

impl Audio {
    pub open spec fn wf(&self) -> bool {
        &&& self.bank.wf()
        &&& self.music.wf()
        &&& self.rig.wf()
    }

    /// Silent service: everything runs, nothing sounds.
    pub fn noop() -> (a: Audio)
        ensures
            a.wf(),
            a.bank@ == Map::<Seq<char>, bank::CueModel>::empty(),
            !a.bank.linked(),
            a.bank.seed() == bank::DEFAULT_SEED,
            a.music@.tracks == Map::<Seq<char>, music::TrackModel>::empty(),
            a.music@.current is None,
            a.music@.mix == music::starting_mix(),
            !a.music.linked(),
            a.rig@.rigs == Map::<Seq<char>, Map<Seq<char>, Seq<char>>>::empty(),
            a.rig@.fallback == Map::<Seq<char>, Seq<char>>::empty(),
            a.channels == channels::starting_gains(),
            a.finished@ == Seq::<u64>::empty(),
            a.device is None,
            a.tx is None,
    {
        Audio {
            bank: SoundBank::new(),
            music: Music::new(),
            rig: RigAudio::new(),
            channels: AudioChannels::default(),
            finished: Vec::new(),
            device: None,
            tx: None,
        }
    }

    /// Whether a device backs the service.
    pub fn is_live(&self) -> (r: bool)
        ensures
            r == (self.device is Some),
    {
        self.device.is_some()
    }

    /// Device rate in Hz, or zero.
    pub fn sample_rate(&self) -> (hz: u32)
        ensures
            hz == match self.device {
                Some(hz) => hz,
                None => 0,
            },
    {
        match self.device {
            Some(hz) => hz,
            None => 0,
        }
    }

    /// Check a source before it is registered.
    pub fn add_source(&self, source: &AudioSource) -> (r: Result<(), SourceError>)
        requires
            source.wf(),
        ensures
            r is Ok <==> source::sniffed(source@)
                != source::AudioFormat::Unknown,
            r is Err ==> r == Err::<(), SourceError>(SourceError::UnsupportedFormat),
    {
        if source.is_supported() {
            Ok(())
        } else {
            Err(SourceError::UnsupportedFormat)
        }
    }

    /// Account for the voices that have finished since the last frame, in
    /// the bank, the music, and the queue of completions.
    pub fn complete(&mut self, fresh: &Vec<u64>)
        requires
            old(self).wf(),
        ensures
            final(self).wf(),
            music::in_tune(old(self).music@) ==> music::in_tune(
                final(self).music@,
            ),
            final(self).finished@ == old(self).finished@ + fresh@,
            final(self).bank.linked() == old(self).bank.linked(),
            final(self).bank.log() == old(self).bank.log(),
            final(self).bank@.dom() == old(self).bank@.dom(),
            forall|n: Seq<char>| #[trigger]
                old(self).bank@.contains_key(n) ==> final(self).bank@[n] == (
                bank::CueModel {
                    live: bank::without(old(self).bank@[n].live, fresh@),
                    ..old(self).bank@[n]
                }),
            final(self).music@ == reaped(old(self).music@, fresh@),
            final(self).music.linked() == old(self).music.linked(),
            final(self).music.log() == old(self).music.log(),
            final(self).channels == old(self).channels,
            final(self).device == old(self).device,
            final(self).tx == old(self).tx,
            final(self).rig == old(self).rig,
    {
        let ghost m = self.music@;
        self.bank.reap(fresh);
        self.music.reap(fresh);
        proof {
            if m.current is Some && music::in_tune(m) {
                music::law_reaping_stays_in_tune(m, fresh@);
            }
        }
        append(&mut self.finished, fresh);
    }

    /// Per-frame pump: account for the voices that have finished, then
    /// advance the duck envelope by the step that `motion` describes.
    pub fn update(&mut self, fresh: &Vec<u64>, motion: DuckMotion)
        requires
            old(self).wf(),
            music::duck_moved(old(self).music@.mix, motion) && old(
                self,
            ).music.linked() ==> music::in_tune(reaped(old(self).music@, fresh@)),
        ensures
            final(self).wf(),
            music::in_tune(old(self).music@) ==> music::in_tune(
                final(self).music@,
            ),
            final(self).finished@ == old(self).finished@ + fresh@,
            final(self).bank.linked() == old(self).bank.linked(),
            final(self).bank.log() == old(self).bank.log(),
            final(self).bank@.dom() == old(self).bank@.dom(),
            forall|n: Seq<char>| #[trigger]
                old(self).bank@.contains_key(n) ==> final(self).bank@[n] == (
                bank::CueModel {
                    live: bank::without(old(self).bank@[n].live, fresh@),
                    ..old(self).bank@[n]
                }),
            ({
                let linked = old(self).music.linked();
                let m = music::MusicModel {
                    mix: music::duck_stepped(old(self).music@.mix, motion),
                    ..reaped(old(self).music@, fresh@)
                };
                let moved = music::duck_moved(old(self).music@.mix, motion);
                &&& final(self).music@ == if moved {
                    music::retargeted(m, linked)
                } else {
                    m
                }
                &&& !moved || !linked ==> final(self).music.log() == old(self).music.log()
                &&& moved && linked ==> bank::offers_made(
                    old(self).music.log(),
                    music::retarget_offers(
                        m,
                        Scalar { bits: music::RELEASE_FADE },
                    ),
                    final(self).music.log(),
                )
            }),
            final(self).channels == old(self).channels,
            final(self).device == old(self).device,
            final(self).tx == old(self).tx,
            final(self).rig == old(self).rig,
    {
        self.complete(fresh);
        self.music.update(motion);
    }

    /// Voices that finished since the last call, each once.
    pub fn take_finished(&mut self) -> (ids: Vec<u64>)
        ensures
            ids@ == old(self).finished@,
            *final(self) == (Audio { finished: final(self).finished, ..*old(self) }),
            final(self).finished@ == Seq::<u64>::empty(),
    {
        let mut ids: Vec<u64> = Vec::new();
        core::mem::swap(&mut ids, &mut self.finished);
        ids
    }

    /// Set one bus here and tell the audio thread.
    pub fn set_channel(&mut self, channel: AudioChannel, gain: Scalar)
        ensures
            *final(self) == (Audio {
                channels: channels::gains_with(old(self).channels, channel, gain),
                tx: final(self).tx,
                ..*old(self)
            }),
            old(self).tx is None ==> final(self).tx is None,
            old(self).tx matches Some(before) ==> final(self).tx matches Some(after)
                && bank::offers_made(
                command::offered(before),
                seq![
                    RealtimeCommand::SetBus {
                        bus: channel,
                        gain: gain.larger(Scalar { bits: 0 }),
                    },
                ],
                command::offered(after),
            ),
    {
        self.channels.set(channel, gain);
        let gain = self.channels.get(channel);
        if let Some(tx) = &mut self.tx {
            let ghost before = command::offered(*tx);
            let _ = send(tx, RealtimeCommand::SetBus { bus: channel, gain });
            assert(command::offered(*tx).take(before.len() as int) =~= before);
        }
    }
}

/// Voices that finished leave what plays, which stops when none is left; a
/// voice that did not finish plays on, and nothing else of the music moves.
pub proof fn law_finished_voices_leave(m: music::MusicModel, fresh: Seq<u64>)
    ensures
        reaped(m, fresh).tracks == m.tracks,
        reaped(m, fresh).mix == m.mix,
        m.current is None ==> reaped(m, fresh).current is None,
        m.current matches Some(p) ==> {
            let after = reaped(m, fresh).current;
            &&& after is None <==> (forall|k: int|
                0 <= k < p.voices.len() ==> fresh.contains((#[trigger] p.voices[k]).0))
            &&& after matches Some(q) ==> q == (music::PlayingModel { voices: q.voices, ..p })
                && forall|v: (u64, Option<usize>)| #[trigger]
                q.voices.contains(v) <==> p.voices.contains(v) && !fresh.contains(v.0)
        },
{
    if let Some(p) = m.current {
        let rest = music::voices_without(p.voices, fresh);
        music::law_reaping_keeps_the_rest(p.voices, fresh);
        if rest.len() == 0 {
            assert forall|k: int| 0 <= k < p.voices.len() implies fresh.contains(
                (#[trigger] p.voices[k]).0,
            ) by {
                assert(p.voices.contains(p.voices[k]));
                assert(rest.contains(p.voices[k]) ==> false);
            }
        } else {
            assert(rest.contains(rest[0]));
            let k = choose|k: int| 0 <= k < p.voices.len() && p.voices[k] == rest[0];
            assert(!fresh.contains(p.voices[k].0));
        }
    }
}

} // verus!
