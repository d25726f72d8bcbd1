//! Voices on the audio thread.

use crate::audio::bank::MINUS_ONE;
use crate::audio::channels::{self, AudioChannel, AudioState};
use crate::audio::command::{self, EngineEvent, RealtimeCommand, SharedFrames};
use crate::scalar::Scalar;
use std::collections::HashMap;
use std::sync::Arc;
use vstd::prelude::*;

verus! {

/// Shortest fade of a voice: 0.001 seconds.
pub const MIN_RAMP: u32 = 0x3a83_126f;

/// A gain ramp under way.
#[derive(Clone, Copy, Debug, PartialEq, Eq, Structural)]
pub struct FadeAnim {
    pub from: Scalar,
    pub to: Scalar,
    pub secs: Scalar,
    pub t: Scalar,
}

/// One live voice.
pub struct Voice {
    pub sound: Arc<SharedFrames>,
    /// Fractional frame position, by the bits of a double.
    pub pos: u64,
    pub gain: Scalar,
    pub rate: Scalar,
    pub pan: Scalar,
    pub bus: AudioChannel,
    pub looping: bool,
    pub fade: Option<FadeAnim>,
}

/// Products of a command's factors: the gain of a play or the target of a
/// fade, and the rate of a play.
#[derive(Clone, Copy, Debug, PartialEq, Eq, Structural)]
pub struct Heard {
    pub level: Scalar,
    pub rate: Scalar,
}

/// Where a ramp stands at the end of a block: its time, the part of it that
/// has run, and the gain there.
#[derive(Clone, Copy, Debug, PartialEq, Eq, Structural)]
pub struct Ramp {
    pub t: Scalar,
    pub k: Scalar,
    pub gain: Scalar,
}

/// Voices and state after a command.
pub struct Applied {
    pub voices: Map<u64, Voice>,
    pub state: AudioState,
}

/// What a command does. Unknown voices are ignored.
pub open spec fn applied(
    voices: Map<u64, Voice>,
    state: AudioState,
    command: RealtimeCommand,
    heard: Heard,
) -> Applied {
    let zero = Scalar { bits: 0 };
    match command {
        RealtimeCommand::Play(p) => Applied {
            voices: voices.insert(
                p.voice,
                Voice {
                    sound: p.sound,
                    pos: 0,
                    gain: heard.level.larger(zero),
                    rate: heard.rate,
                    pan: p.pan.clamped(Scalar { bits: MINUS_ONE }, Scalar { bits: 0x3f80_0000 }),
                    bus: p.bus,
                    looping: p.looping,
                    fade: None,
                },
            ),
            state,
        },
        RealtimeCommand::Stop(id) => Applied { voices: voices.remove(id), state },
        RealtimeCommand::StopBus(bus) => Applied {
            voices: voices.restrict(
                Set::new(|id: u64| voices.contains_key(id) && voices[id].bus != bus),
            ),
            state,
        },
        RealtimeCommand::SetBus { bus, gain } => Applied {
            voices,
            state: AudioState {
                gains: channels::gains_with(state.gains, bus, gain),
                ..state
            },
        },
        RealtimeCommand::Pause(paused) => Applied {
            voices,
            state: AudioState { playing: !paused, ..state },
        },
        RealtimeCommand::Fade { voice, target: _, secs } => Applied {
            voices: if voices.contains_key(voice) {
                voices.insert(voice, fading(voices[voice], heard.level, secs))
            } else {
                voices
            },
            state,
        },
    }
}

/// Commands leave the device's rate, the voice ids and the overruns of the
/// link alone: of its state they set gains and the transport.
pub proof fn law_commands_set_gains_and_transport(
    voices: Map<u64, Voice>,
    state: AudioState,
    command: RealtimeCommand,
    heard: Heard,
)
    ensures
        ({
            let after = applied(voices, state, command, heard).state;
            &&& after.sample_rate == state.sample_rate
            &&& after.next_voice == state.next_voice
            &&& after.xruns == state.xruns
            &&& forall|bus: AudioChannel| #[trigger]
                channels::gain_of(after.gains, bus) == match command {
                    RealtimeCommand::SetBus { bus: set, gain } if set == bus => gain.larger(
                        Scalar { bits: 0 },
                    ),
                    _ => channels::gain_of(state.gains, bus),
                }
            &&& after.playing == match command {
                RealtimeCommand::Pause(paused) => !paused,
                _ => state.playing,
            }
        }),
{
}

/// A voice on its way to `level`.
pub open spec fn fading(v: Voice, level: Scalar, secs: Scalar) -> Voice {
    Voice {
        fade: Some(
            FadeAnim {
                from: v.gain,
                to: level.larger(Scalar { bits: 0 }),
                secs: secs.larger(Scalar { bits: MIN_RAMP }),
                t: Scalar { bits: 0 },
            },
        ),
        ..v
    }
}

/// A voice after its ramp advanced to `ramp`.
pub open spec fn ramped(v: Voice, ramp: Ramp) -> Voice {
    match v.fade {
        Some(f) => if (Scalar { bits: 0x3f80_0000 }).le(ramp.k) {
            Voice { gain: ramp.gain, fade: None, ..v }
        } else {
            Voice { gain: ramp.gain, fade: Some(FadeAnim { t: ramp.t, ..f }), ..v }
        },
        None => v,
    }
}

/// Nothing is left to hear of a voice before the block is mixed: it has no
/// frames, or its ramp to zero has run out.
pub open spec fn silenced(v: Voice, ramp: Ramp) -> bool {
    ||| v.sound.frame_count() == 0
    ||| match v.fade {
        Some(f) => (Scalar { bits: 0x3f80_0000 }).le(ramp.k) && f.to.le(Scalar { bits: 0 }),
        None => false,
    }
}

/// The ended voices that are reported: those that are live, each once, in
/// the order in which they ended.
pub open spec fn reported(voices: Map<u64, Voice>, ended: Seq<u64>) -> Seq<u64>
    decreases ended.len(),
{
    if ended.len() == 0 {
        ended
    } else {
        let rest = reported(voices, ended.drop_last());
        if voices.contains_key(ended.last()) && !ended.drop_last().contains(ended.last()) {
            rest.push(ended.last())
        } else {
            rest
        }
    }
}

/// What commands do, one after the other.
pub open spec fn drained(
    voices: Map<u64, Voice>,
    state: AudioState,
    commands: Seq<(RealtimeCommand, Heard)>,
) -> Applied
    decreases commands.len(),
{
    if commands.len() == 0 {
        Applied { voices, state }
    } else {
        let a = drained(voices, state, commands.drop_last());
        applied(a.voices, a.state, commands.last().0, commands.last().1)
    }
}

/// One block of the audio thread: the voices before it and the link's
/// state, the commands that it took, the voices as they were mixed, those
/// that ended in it, and the voices and reports after it.
pub struct Block {
    pub before: Map<u64, Voice>,
    pub state: AudioState,
    pub commands: Seq<(RealtimeCommand, Heard)>,
    pub mixed: Map<u64, Voice>,
    pub ended: Seq<u64>,
    pub after: Map<u64, Voice>,
    pub events: Seq<EngineEvent>,
}

/// The commands were applied; mixing changed the voices that were live then,
/// and neither added nor dropped any; the ended ones were taken out.
pub open spec fn rendered(b: Block) -> bool {
    &&& b.mixed.dom() == drained(b.before, b.state, b.commands).voices.dom()
    &&& b.after == b.mixed.remove_keys(b.ended.to_set())
    &&& b.events == reported(b.mixed, b.ended).map_values(|id: u64| EngineEvent::Finished(id))
}

/// Blocks follow each other on the same voices.
pub open spec fn in_a_row(blocks: Seq<Block>) -> bool {
    &&& forall|i: int| 0 <= i < blocks.len() ==> rendered(#[trigger] blocks[i])
    &&& forall|i: int, j: int|
        0 <= i && i + 1 == j && j < blocks.len() ==> (#[trigger] blocks[j]).before == (
        #[trigger] blocks[i]).after
}

/// A command starts a voice under this id.
pub open spec fn plays(command: RealtimeCommand, id: u64) -> bool {
    command matches RealtimeCommand::Play(p) && p.voice == id
}

/// A command stops a voice, by its id or by its bus.
pub open spec fn stops(command: RealtimeCommand, id: u64, voices: Map<u64, Voice>) -> bool {
    match command {
        RealtimeCommand::Stop(stopped) => stopped == id,
        RealtimeCommand::StopBus(bus) => voices.contains_key(id) && voices[id].bus == bus,
        _ => false,
    }
}

/// A command leaves a voice on this bus alive there: it stops neither, and
/// starts no other voice under its id on another bus.
pub open spec fn spares(command: RealtimeCommand, id: u64, bus: AudioChannel) -> bool {
    match command {
        RealtimeCommand::Play(p) => p.voice == id ==> p.bus == bus,
        RealtimeCommand::Stop(stopped) => stopped != id,
        RealtimeCommand::StopBus(stopped) => stopped != bus,
        _ => true,
    }
}

/// The live voices of the audio thread, and the link's state for the block
/// that is rendered.
pub struct VoiceTable {
    voices: HashMap<u64, Voice>,
    state: AudioState,
}

impl View for VoiceTable {
    type V = Map<u64, Voice>;

    closed spec fn view(&self) -> Map<u64, Voice> {
        self.voices@
    }
}

impl VoiceTable {
    pub closed spec fn audio(&self) -> AudioState {
        self.state
    }

    pub fn new() -> (t: VoiceTable)
        ensures
            t@ == Map::<u64, Voice>::empty(),
            t.audio() == channels::starting_state(),
    {
        broadcast use vstd::std_specs::hash::group_hash_axioms;

        VoiceTable { voices: HashMap::new(), state: AudioState::new() }
    }

    /// The link's state after the commands so far.
    pub fn state(&self) -> (s: AudioState)
        ensures
            s == self.audio(),
    {
        self.state
    }

    /// Take up the link's state.
    pub fn set_state(&mut self, state: AudioState)
        ensures
            final(self)@ == old(self)@,
            final(self).audio() == state,
    {
        self.state = state;
    }

    /// Set the rate of the device.
    pub fn set_sample_rate(&mut self, hz: u32)
        ensures
            final(self)@ == old(self)@,
            final(self).audio() == (AudioState { sample_rate: hz, ..old(self).audio() }),
    {
        self.state.set_sample_rate(hz);
    }

    pub fn contains(&self, id: u64) -> (r: bool)
        ensures
            r == self@.contains_key(id),
    {
        broadcast use vstd::std_specs::hash::group_hash_axioms;

        self.voices.contains_key(&id)
    }

    pub fn get(&self, id: u64) -> (r: Option<&Voice>)
        ensures
            match r {
                Some(v) => self@.contains_key(id) && *v == self@[id],
                None => !self@.contains_key(id),
            },
    {
        broadcast use vstd::std_specs::hash::group_hash_axioms;

        self.voices.get(&id)
    }

    /// The ids of the live voices, each once, in no particular order.
    pub fn ids(&self) -> (out: Vec<u64>)
        ensures
            out@.no_duplicates(),
            out@.to_set() == self@.dom(),
    {
        broadcast use vstd::std_specs::hash::group_hash_axioms;

        let mut out: Vec<u64> = Vec::new();
        for k in it: self.voices.keys()
            invariant
                it.seq().unref().to_set() == self.voices@.dom(),
                it.seq().no_duplicates(),
                out@ == it.seq().unref().take(it.index() as int),
                it.index() == it.seq().len() ==> out@ == it.seq().unref(),
        {
            out.push(*k);
            proof {
                assert(out@ =~= it.seq().unref().take(it.index() + 1));
                assert(it.index() + 1 == it.seq().len() ==> out@ =~= it.seq().unref());
            }
        }
        proof {
            assert(out@.no_duplicates());
        }
        out
    }

    /// Do what a command says; `heard` holds the products of its factors.
    pub fn apply(&mut self, command: RealtimeCommand, heard: Heard)
        ensures
            ({
                let after = applied(old(self)@, old(self).audio(), command, heard);
                &&& final(self)@ == after.voices
                &&& final(self).audio() == after.state
            }),
    {
        broadcast use vstd::std_specs::hash::group_hash_axioms;

        match command {
            RealtimeCommand::Play(p) => {
                let voice = Voice {
                    sound: p.sound,
                    pos: 0,
                    gain: heard.level.max(Scalar::zero()),
                    rate: heard.rate,
                    pan: p.pan.clamp(Scalar::from_bits(MINUS_ONE), Scalar::one()),
                    bus: p.bus,
                    looping: p.looping,
                    fade: None,
                };
                self.voices.insert(p.voice, voice);
            },
            RealtimeCommand::Stop(id) => {
                self.voices.remove(&id);
            },
            RealtimeCommand::StopBus(bus) => {
                self.stop_bus(bus);
            },
            RealtimeCommand::SetBus { bus, gain } => {
                self.state.set_bus_gain(bus, gain);
            },
            RealtimeCommand::Pause(paused) => {
                self.state.playing = !paused;
            },
            RealtimeCommand::Fade { voice, target: _, secs } => {
                if let Some(mut v) = self.voices.remove(&voice) {
                    v.fade = Some(
                        FadeAnim {
                            from: v.gain,
                            to: heard.level.max(Scalar::zero()),
                            secs: secs.max(Scalar::from_bits(MIN_RAMP)),
                            t: Scalar::zero(),
                        },
                    );
                    self.voices.insert(voice, v);
                    proof {
                        assert(self@ =~= old(self)@.insert(voice, v));
                    }
                } else {
                    assert(self@ =~= old(self)@);
                }
            },
        }
    }

    fn stop_bus(&mut self, bus: AudioChannel)
        ensures
            final(self).audio() == old(self).audio(),
            final(self)@ == old(self)@.restrict(
                Set::new(
                    |id: u64| old(self)@.contains_key(id) && old(self)@[id].bus != bus,
                ),
            ),
    {
        broadcast use vstd::std_specs::hash::group_hash_axioms;

        let ids = self.ids();
        let mut i: usize = 0;
        while i < ids.len()
            invariant
                i <= ids.len(),
                self.audio() == old(self).audio(),
                ids@.no_duplicates(),
                ids@.to_set() == old(self)@.dom(),
                forall|id: u64| #[trigger]
                    self@.contains_key(id) ==> old(self)@.contains_key(id) && self@[id] == old(
                        self,
                    )@[id],
                forall|k: int|
                    0 <= k < i ==> (self@.contains_key(#[trigger] ids@[k]) <==> old(
                        self,
                    )@[ids@[k]].bus != bus),
                forall|k: int| i <= k < ids.len() ==> self@.contains_key(#[trigger] ids@[k]),
            decreases ids.len() - i,
        {
            broadcast use vstd::std_specs::hash::group_hash_axioms;

            let id: u64 = ids[i];
            assert(self@.contains_key(ids@[i as int]));
            let drop = match self.voices.get(&id) {
                Some(v) => v.bus == bus,
                None => false,
            };
            if drop {
                self.voices.remove(&id);
            }
            i += 1;
        }
        proof {
            let kept = Set::new(
                |id: u64| old(self)@.contains_key(id) && old(self)@[id].bus != bus,
            );
            assert forall|id: u64| self@.contains_key(id) <==> kept.contains(id) by {
                if old(self)@.contains_key(id) {
                    assert(ids@.to_set().contains(id));
                    assert(ids@.contains(id));
                    let k = choose|k: int| 0 <= k < ids.len() && ids@[k] == id;
                    assert(self@.contains_key(ids@[k]) <==> old(self)@[ids@[k]].bus != bus);
                }
            }
            assert(self@ =~= old(self)@.restrict(kept));
        }
    }

    /// Whether a block for `out_channels` channels has anything to render:
    /// not while paused, nor before there is a device.
    pub fn renders(&self, out_channels: usize) -> (r: bool)
        ensures
            r == (self.audio().playing && self.audio().sample_rate != 0 && out_channels != 0),
    {
        self.state.playing && self.state.sample_rate != 0 && out_channels != 0
    }

    /// Begin a block for one voice: its ramp advances. True when there is
    /// nothing left to mix of it.
    pub fn ramp(&mut self, id: u64, ramp: Ramp) -> (ended: bool)
        requires
            old(self)@.contains_key(id),
        ensures
            final(self).audio() == old(self).audio(),
            ended == silenced(old(self)@[id], ramp),
            final(self)@ == if old(self)@[id].sound.frame_count() == 0 {
                old(self)@
            } else {
                old(self)@.insert(id, ramped(old(self)@[id], ramp))
            },
            final(self)@.dom() == old(self)@.dom(),
    {
        broadcast use vstd::std_specs::hash::group_hash_axioms;

        let mut v = match self.voices.remove(&id) {
            Some(v) => v,
            None => return false,
        };
        let mut ended: bool = false;
        if v.sound.len_frames() == 0 {
            ended = true;
        } else if let Some(f) = v.fade {
            v.gain = ramp.gain;
            if Scalar::one().at_most(ramp.k) {
                v.fade = None;
                ended = f.to.at_most(Scalar::zero());
            } else {
                v.fade = Some(FadeAnim { t: ramp.t, ..f });
            }
        }
        self.voices.insert(id, v);
        proof {
            assert(v == if old(self)@[id].sound.frame_count() == 0 {
                old(self)@[id]
            } else {
                ramped(old(self)@[id], ramp)
            });
            assert(self@ =~= old(self)@.insert(id, v));
            assert(self@.dom() =~= old(self)@.dom());
        }
        ended
    }

    /// End a block for one voice at its new position; `past_end` says
    /// whether that is behind its last frame. True when the voice is over:
    /// a looping one never is.
    pub fn moved(&mut self, id: u64, pos: u64, past_end: bool) -> (ended: bool)
        requires
            old(self)@.contains_key(id),
        ensures
            final(self).audio() == old(self).audio(),
            final(self)@ == old(self)@.insert(id, Voice { pos, ..old(self)@[id] }),
            final(self)@.dom() == old(self)@.dom(),
            ended == (past_end && !old(self)@[id].looping),
    {
        broadcast use vstd::std_specs::hash::group_hash_axioms;

        let mut v = match self.voices.remove(&id) {
            Some(v) => v,
            None => return false,
        };
        v.pos = pos;
        let ended = past_end && !v.looping;
        self.voices.insert(id, v);
        proof {
            assert(self@ =~= old(self)@.insert(id, v));
            assert(self@.dom() =~= old(self)@.dom());
        }
        ended
    }

    /// Take the ended voices out and report each that was live, once.
    pub fn finish(&mut self, ended: &Vec<u64>) -> (events: Vec<EngineEvent>)
        ensures
            final(self).audio() == old(self).audio(),
            final(self)@ == old(self)@.remove_keys(ended@.to_set()),
            events@ == reported(old(self)@, ended@).map_values(
                |id: u64| EngineEvent::Finished(id),
            ),
    {
        broadcast use vstd::std_specs::hash::group_hash_axioms;

        let mut events: Vec<EngineEvent> = Vec::new();
        let mut i: usize = 0;
        assert(ended@.take(0).to_set() =~= Set::<u64>::empty());
        assert(self@ =~= old(self)@.remove_keys(Set::<u64>::empty()));
        while i < ended.len()
            invariant
                i <= ended.len(),
                self.audio() == old(self).audio(),
                self@ == old(self)@.remove_keys(ended@.take(i as int).to_set()),
                events@ == reported(old(self)@, ended@.take(i as int)).map_values(
                    |id: u64| EngineEvent::Finished(id),
                ),
            decreases ended.len() - i,
        {
            broadcast use vstd::std_specs::hash::group_hash_axioms;

            let id: u64 = ended[i];
            let live = self.voices.remove(&id).is_some();
            if live {
                events.push(EngineEvent::Finished(id));
            }
            proof {
                let (a, b) = (ended@.take(i as int), ended@.take(i + 1));
                assert(b =~= a.push(id));
                assert(b.drop_last() =~= a);
                assert(live <==> old(self)@.contains_key(id) && !a.contains(id));
                assert(b.to_set() =~= a.to_set().insert(id)) by {
                    assert forall|x: u64| b.to_set().contains(x) <==> a.to_set().insert(id).contains(
                        x,
                    ) by {
                        if a.contains(x) {
                            let k = choose|k: int| 0 <= k < a.len() && a[k] == x;
                            assert(b[k] == x);
                        }
                        assert(b[i as int] == id);
                    }
                }
                assert(self@ =~= old(self)@.remove_keys(b.to_set()));
                assert(events@ =~= reported(old(self)@, b).map_values(
                    |id: u64| EngineEvent::Finished(id),
                ));
            }
            i += 1;
        }
        proof {
            assert(ended@.take(ended@.len() as int) =~= ended@);
        }
        events
    }
}

/// Samples that the frame `at` and the next one are read from.
#[derive(Clone, Copy, Debug, PartialEq, Eq)]
pub struct Taps {
    pub left: (usize, usize),
    pub right: (usize, usize),
}

/// Where to read the frame `at` of a sound and, to blend with, the next one;
/// the last frame blends with itself. Mono plays on both sides.
pub fn taps(sound: &SharedFrames, at: usize) -> (t: Taps)
    requires
        at < sound.frame_count(),
    ensures
        ({
            let next = if at + 1 < sound.frame_count() {
                at + 1
            } else {
                sound.frame_count() - 1
            };
            &&& sound.channels >= 2 ==> t == (Taps {
                left: ((2 * at) as usize, (2 * next) as usize),
                right: ((2 * at + 1) as usize, (2 * next + 1) as usize),
            })
            &&& sound.channels < 2 ==> t == (Taps {
                left: (at, next as usize),
                right: (at, next as usize),
            })
        }),
        t.left.0 < sound.frames@.len(),
        t.left.1 < sound.frames@.len(),
        t.right.0 < sound.frames@.len(),
        t.right.1 < sound.frames@.len(),
{
    let len: usize = sound.len_frames();
    let next: usize = if at + 1 < len {
        at + 1
    } else {
        len - 1
    };
    proof {
        assert(sound.frames@.len() == sound.frames.len());
        let (n, c) = (sound.frames.len() as int, sound.channels as int);
        vstd::arithmetic::div_mod::lemma_fundamental_div_mod(n, c);
        vstd::arithmetic::div_mod::lemma_mod_bound(n, c);
        let q = n / c;
        assert(q == sound.frame_count());
        assert(c >= 2 ==> 2 * q <= n && q <= n) by (nonlinear_arith)
            requires
                n == c * q + n % c,
                n % c >= 0,
                q >= 0,
        ;
        assert(c >= 1 ==> q <= n) by (nonlinear_arith)
            requires
                n == c * q + n % c,
                n % c >= 0,
                q >= 0,
        ;
    }
    if sound.channels >= 2 {
        Taps { left: (2 * at, 2 * next), right: (2 * at + 1, 2 * next + 1) }
    } else {
        Taps { left: (at, next), right: (at, next) }
    }
}

/// A fade that has run its course ends its voice if it was to silence, and
/// leaves no ramp behind.
pub proof fn law_fade_to_zero_ends(v: Voice, level: Scalar, secs: Scalar, ramp: Ramp)
    requires
        v.sound.frame_count() > 0,
        (Scalar { bits: 0x3f80_0000 }).le(ramp.k),
    ensures
        silenced(fading(v, level, secs), ramp) <==> level.larger(Scalar { bits: 0 }).le(
            Scalar { bits: 0 },
        ),
        ramped(fading(v, level, secs), ramp).fade is None,
        ramped(fading(v, level, secs), ramp).gain == ramp.gain,
{
}

/// Reports name voices that ended and were live, each once; where all that
/// ended were, each of them is reported.
pub proof fn law_reports_name_live_voices(voices: Map<u64, Voice>, ended: Seq<u64>)
    ensures
        reported(voices, ended).no_duplicates(),
        forall|id: u64| #[trigger]
            reported(voices, ended).contains(id) <==> ended.contains(id) && voices.contains_key(id),
        ended.no_duplicates() && (forall|k: int|
            0 <= k < ended.len() ==> voices.contains_key(#[trigger] ended[k])) ==> reported(
            voices,
            ended,
        ) == ended,
    decreases ended.len(),
{
    if ended.len() > 0 {
        let front = ended.drop_last();
        let last = ended.last();
        law_reports_name_live_voices(voices, front);
        let (rest, all) = (reported(voices, front), reported(voices, ended));
        assert(front.push(last) =~= ended);
        assert forall|id: u64| #[trigger] all.contains(id) <==> ended.contains(id)
            && voices.contains_key(id) by {
            lemma_push_contains(front, last, id);
            lemma_push_contains(rest, last, id);
        }
        assert(rest.contains(last) ==> front.contains(last));
        if ended.no_duplicates() && (forall|k: int|
            0 <= k < ended.len() ==> voices.contains_key(#[trigger] ended[k])) {
            assert forall|k: int| 0 <= k < front.len() implies voices.contains_key(
                #[trigger] front[k],
            ) by {
                assert(ended[k] == front[k]);
            }
            assert(front.no_duplicates());
            assert(voices.contains_key(ended[ended.len() - 1]));
        }
    }
}

proof fn lemma_push_contains(ids: Seq<u64>, last: u64, id: u64)
    ensures
        ids.push(last).contains(id) <==> ids.contains(id) || id == last,
{
    let all = ids.push(last);
    if ids.contains(id) {
        let k = choose|k: int| 0 <= k < ids.len() && ids[k] == id;
        assert(all[k] == id);
    }
    assert(all[ids.len() as int] == last);
}

/// A voice that is not there stays away while nothing starts it.
proof fn lemma_absent_after(
    voices: Map<u64, Voice>,
    state: AudioState,
    commands: Seq<(RealtimeCommand, Heard)>,
    k: int,
    id: u64,
)
    requires
        0 <= k <= commands.len(),
        !drained(voices, state, commands.take(k)).voices.contains_key(id),
        forall|j: int| k <= j < commands.len() ==> !plays((#[trigger] commands[j]).0, id),
    ensures
        !drained(voices, state, commands).voices.contains_key(id),
    decreases commands.len(),
{
    if k == commands.len() {
        assert(commands.take(k) =~= commands);
    } else {
        let front = commands.drop_last();
        assert(front.take(k) =~= commands.take(k));
        assert forall|j: int| k <= j < front.len() implies !plays((#[trigger] front[j]).0, id) by {
            assert(front[j] == commands[j]);
        }
        lemma_absent_after(voices, state, front, k, id);
        assert(!plays(commands[commands.len() - 1].0, id));
    }
}

/// A block without a voice reports nothing of it and leaves it away.
proof fn lemma_block_without(b: Block, id: u64)
    requires
        rendered(b),
        !drained(b.before, b.state, b.commands).voices.contains_key(id),
    ensures
        !b.after.contains_key(id),
        !b.events.contains(EngineEvent::Finished(id)),
{
    assert(!b.mixed.dom().contains(id));
    law_reports_name_live_voices(b.mixed, b.ended);
    if b.events.contains(EngineEvent::Finished(id)) {
        let ids = reported(b.mixed, b.ended);
        let k = choose|k: int|
            0 <= k < b.events.len() && b.events[k] == EngineEvent::Finished(id);
        assert(ids[k] == id);
        assert(ids.contains(id));
    }
}

/// A voice that the commands of a block stop, by its id or its bus, and do
/// not start again is not live after that block, and neither that block nor
/// a later one reports it until it is started again.
pub proof fn law_stopped_voices_report_nothing(blocks: Seq<Block>, k: int, id: u64)
    requires
        in_a_row(blocks),
        blocks.len() > 0,
        0 <= k < blocks[0].commands.len(),
        stops(
            blocks[0].commands[k].0,
            id,
            drained(blocks[0].before, blocks[0].state, blocks[0].commands.take(k)).voices,
        ),
        forall|j: int|
            k < j < blocks[0].commands.len() ==> !plays((#[trigger] blocks[0].commands[j]).0, id),
        forall|i: int, j: int|
            1 <= i < blocks.len() && 0 <= j < blocks[i].commands.len() ==> !plays(
                (#[trigger] blocks[i].commands[j]).0,
                id,
            ),
    ensures
        forall|i: int|
            0 <= i < blocks.len() ==> !(#[trigger] blocks[i]).after.contains_key(id)
                && !blocks[i].events.contains(EngineEvent::Finished(id)),
{
    assert forall|i: int| 0 <= i < blocks.len() implies !(
    #[trigger] blocks[i]).after.contains_key(id) && !blocks[i].events.contains(
        EngineEvent::Finished(id),
    ) by {
        lemma_silent_at(blocks, k, id, i);
    }
}

proof fn lemma_silent_at(blocks: Seq<Block>, k: int, id: u64, i: int)
    requires
        in_a_row(blocks),
        0 <= i < blocks.len(),
        0 <= k < blocks[0].commands.len(),
        stops(
            blocks[0].commands[k].0,
            id,
            drained(blocks[0].before, blocks[0].state, blocks[0].commands.take(k)).voices,
        ),
        forall|j: int|
            k < j < blocks[0].commands.len() ==> !plays((#[trigger] blocks[0].commands[j]).0, id),
        forall|i: int, j: int|
            1 <= i < blocks.len() && 0 <= j < blocks[i].commands.len() ==> !plays(
                (#[trigger] blocks[i].commands[j]).0,
                id,
            ),
    ensures
        !blocks[i].after.contains_key(id),
        !blocks[i].events.contains(EngineEvent::Finished(id)),
    decreases i,
{
    let b = blocks[i];
    assert(rendered(b));
    if i == 0 {
        let upto = b.commands.take(k + 1);
        assert(upto.drop_last() =~= b.commands.take(k));
        assert(upto.last() == b.commands[k]);
        lemma_absent_after(b.before, b.state, b.commands, k + 1, id);
    } else {
        lemma_silent_at(blocks, k, id, i - 1);
        assert(blocks[i].before == blocks[i - 1].after);
        assert(b.commands.take(0).len() == 0);
        lemma_absent_after(b.before, b.state, b.commands, 0, id);
    }
    lemma_block_without(b, id);
}

proof fn lemma_spared(
    voices: Map<u64, Voice>,
    state: AudioState,
    commands: Seq<(RealtimeCommand, Heard)>,
    id: u64,
)
    requires
        voices.contains_key(id),
        forall|j: int|
            0 <= j < commands.len() ==> spares((#[trigger] commands[j]).0, id, voices[id].bus),
    ensures
        drained(voices, state, commands).voices.contains_key(id),
        drained(voices, state, commands).voices[id].bus == voices[id].bus,
    decreases commands.len(),
{
    if commands.len() > 0 {
        let front = commands.drop_last();
        assert forall|j: int| 0 <= j < front.len() implies spares(
            (#[trigger] front[j]).0,
            id,
            voices[id].bus,
        ) by {
            assert(front[j] == commands[j]);
        }
        lemma_spared(voices, state, front, id);
        assert(spares(commands[commands.len() - 1].0, id, voices[id].bus));
    }
}

/// A voice that no command of a block stops, by its id or its bus, is live
/// after the block unless it ended in it, and then the block reports it.
pub proof fn law_other_voices_stay_live(b: Block, id: u64)
    requires
        rendered(b),
        b.before.contains_key(id),
        forall|j: int|
            0 <= j < b.commands.len() ==> spares(
                (#[trigger] b.commands[j]).0,
                id,
                b.before[id].bus,
            ),
    ensures
        b.after.contains_key(id) <==> !b.ended.contains(id),
        b.events.contains(EngineEvent::Finished(id)) <==> b.ended.contains(id),
{
    lemma_spared(b.before, b.state, b.commands, id);
    assert(b.mixed.dom().contains(id));
    law_reports_name_live_voices(b.mixed, b.ended);
    let ids = reported(b.mixed, b.ended);
    assert(b.ended.to_set().contains(id) <==> b.ended.contains(id));
    if b.ended.contains(id) {
        assert(ids.contains(id));
        let k = choose|k: int| 0 <= k < ids.len() && ids[k] == id;
        assert(b.events[k] == EngineEvent::Finished(id));
    }
    if b.events.contains(EngineEvent::Finished(id)) {
        let k = choose|k: int|
            0 <= k < b.events.len() && b.events[k] == EngineEvent::Finished(id);
        assert(ids[k] == id);
        assert(ids.contains(id));
    }
}

/// A stopped voice is gone, and commands for a voice that is not there
/// change nothing.
pub proof fn law_unknown_voices_are_ignored(
    voices: Map<u64, Voice>,
    state: AudioState,
    id: u64,
    secs: Scalar,
    target: command::FadeTarget,
    heard: Heard,
)
    ensures
        !applied(voices, state, RealtimeCommand::Stop(id), heard).voices.contains_key(id),
        !voices.contains_key(id) ==> applied(
            voices,
            state,
            RealtimeCommand::Stop(id),
            heard,
        ).voices == voices,
        !voices.contains_key(id) ==> applied(
            voices,
            state,
            RealtimeCommand::Fade { voice: id, target, secs },
            heard,
        ).voices == voices,
{
    assert(!voices.contains_key(id) ==> voices.remove(id) =~= voices);
}

/// A voice that a play starts carries what was asked for: from its first
/// frame, with the command's sound, bus and looping, at the heard level
/// (not below zero) and the heard rate, at the command's pan within
/// `-1 ..= 1`, and with no fade. No other voice changes.
pub proof fn law_plays_start_as_asked(
    voices: Map<u64, Voice>,
    state: AudioState,
    p: command::PlayCmd,
    heard: Heard,
    other: u64,
)
    ensures
        ({
            let after = applied(voices, state, RealtimeCommand::Play(p), heard);
            let v = after.voices[p.voice];
            let (zero, one) = (Scalar { bits: 0 }, Scalar { bits: 0x3f80_0000 });
            let minus_one = Scalar { bits: 0xbf80_0000 };
            &&& after.voices.contains_key(p.voice)
            &&& v.sound == p.sound
            &&& v.pos == 0
            &&& zero.le(heard.level) ==> v.gain == heard.level
            &&& !zero.le(heard.level) ==> v.gain == zero
            &&& v.rate == heard.rate
            &&& minus_one.le(p.pan) && p.pan.le(one) ==> v.pan == p.pan
            &&& p.pan.lt(minus_one) ==> v.pan == minus_one
            &&& one.lt(p.pan) ==> v.pan == one
            &&& v.bus == p.bus
            &&& v.looping == p.looping
            &&& v.fade is None
            &&& after.state == state
            &&& other != p.voice ==> {
                &&& after.voices.contains_key(other) == voices.contains_key(other)
                &&& voices.contains_key(other) ==> after.voices[other] == voices[other]
            }
        }),
{
}

/// Plays that are heard differently give voices that play differently: two
/// rates, two sounds, two buses or two levels above zero never come to the
/// same voice.
pub proof fn law_plays_are_told_apart(
    voices: Map<u64, Voice>,
    state: AudioState,
    p: command::PlayCmd,
    q: command::PlayCmd,
    a: Heard,
    b: Heard,
)
    requires
        ({
            ||| a.rate != b.rate
            ||| p.sound != q.sound
            ||| p.bus != q.bus
            ||| p.looping != q.looping
            ||| a.level != b.level && (Scalar { bits: 0 }).lt(a.level) && (Scalar { bits: 0 }).lt(
                b.level,
            )
        }),
    ensures
        applied(voices, state, RealtimeCommand::Play(p), a).voices[p.voice] != applied(
            voices,
            state,
            RealtimeCommand::Play(q),
            b,
        ).voices[q.voice],
{
    law_plays_start_as_asked(voices, state, p, a, p.voice);
    law_plays_start_as_asked(voices, state, q, b, q.voice);
}

/// A fade sends a live voice from the gain it has to the heard level (not
/// below zero) over its seconds, a thousandth at least, and changes nothing
/// else of it and no other voice.
pub proof fn law_fades_start_from_here(
    voices: Map<u64, Voice>,
    state: AudioState,
    id: u64,
    target: command::FadeTarget,
    secs: Scalar,
    heard: Heard,
    other: u64,
)
    requires
        voices.contains_key(id),
    ensures
        ({
            let after = applied(
                voices,
                state,
                RealtimeCommand::Fade { voice: id, target, secs },
                heard,
            );
            let (was, now) = (voices[id], after.voices[id]);
            let (zero, least) = (Scalar { bits: 0 }, Scalar { bits: 0x3a83_126f });
            &&& after.voices.dom() == voices.dom()
            &&& after.state == state
            &&& now.fade matches Some(f)
            &&& f.from == was.gain
            &&& zero.le(heard.level) ==> f.to == heard.level
            &&& !zero.le(heard.level) ==> f.to == zero
            &&& least.le(secs) ==> f.secs == secs
            &&& !least.le(secs) ==> f.secs == least
            &&& f.t == zero
            &&& now.sound == was.sound && now.pos == was.pos && now.gain == was.gain
            &&& now.rate == was.rate && now.pan == was.pan && now.bus == was.bus
            &&& now.looping == was.looping
            &&& other != id && voices.contains_key(other) ==> after.voices[other] == voices[other]
        }),
{
    let after = applied(voices, state, RealtimeCommand::Fade { voice: id, target, secs }, heard);
    assert(after.voices.dom() =~= voices.dom());
}

/// A ramp moves the gain of a fading voice and its time, and ends at its
/// full part; a voice without a fade is left alone. Where a voice plays,
/// how fast, on which side and bus, is never touched.
pub proof fn law_ramps_move_the_gain_alone(v: Voice, ramp: Ramp)
    ensures
        ({
            let r = ramped(v, ramp);
            let whole = (Scalar { bits: 0x3f80_0000 }).le(ramp.k);
            &&& r.sound == v.sound && r.pos == v.pos && r.rate == v.rate && r.pan == v.pan
            &&& r.bus == v.bus && r.looping == v.looping
            &&& v.fade is None ==> r == v
            &&& v.fade is Some ==> r.gain == ramp.gain
            &&& v.fade is Some && whole ==> r.fade is None
            &&& v.fade matches Some(f) ==> !whole ==> (r.fade matches Some(g) && g.t == ramp.t
                && g.from == f.from && g.to == f.to && g.secs == f.secs)
        }),
{
}

/// Before it is mixed a voice is over exactly if it has no frames, or if a
/// fade to nothing has run in full.
pub proof fn law_only_spent_voices_are_silenced(v: Voice, ramp: Ramp)
    ensures
        v.sound.frame_count() == 0 ==> silenced(v, ramp),
        v.sound.frame_count() > 0 && v.fade is None ==> !silenced(v, ramp),
        v.sound.frame_count() > 0 && ramp.k.lt(Scalar { bits: 0x3f80_0000 }) ==> !silenced(v, ramp),
        v.sound.frame_count() > 0 ==> (v.fade matches Some(f) ==> (Scalar { bits: 0 }).lt(f.to)
            ==> !silenced(v, ramp)),
        (v.fade matches Some(f) && f.to.rank() <= 0 && !f.to.nan() && (Scalar {
            bits: 0x3f80_0000,
        }).le(ramp.k)) ==> silenced(v, ramp),
{
}

/// Stopping a bus takes out the voices on it and no other, and leaves those
/// as they are.
pub proof fn law_bus_stops_spare_the_rest(
    voices: Map<u64, Voice>,
    state: AudioState,
    bus: AudioChannel,
    heard: Heard,
    id: u64,
)
    requires
        voices.contains_key(id),
    ensures
        ({
            let after = applied(voices, state, RealtimeCommand::StopBus(bus), heard);
            &&& after.voices.contains_key(id) <==> voices[id].bus != bus
            &&& voices[id].bus != bus ==> after.voices[id] == voices[id]
            &&& after.state == state
        }),
{
}

} // verus!
