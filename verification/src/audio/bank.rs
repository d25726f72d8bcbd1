//! Named cues with variations, cooldowns, and polyphony caps.

use crate::audio::channels::{self, AudioChannel, AudioState};
use crate::audio::command::{self, send, share, Gain, PlayCmd, Rate, RealtimeCommand, SharedFrames};
use crate::lists::holds_id;
use crate::names::NameMap;
use crate::scalar::Scalar;
use std::sync::Arc;
use vstd::prelude::*;
use web_workers::sync::mpsc::Sender;

verus! {

/// How a cue picks among its variations.
#[derive(Clone, Copy, Debug, PartialEq, Eq, Structural)]
pub enum Variation {
    /// In order, over and over.
    RoundRobin,
    /// Seeded random.
    Random,
}

impl Default for Variation {
    fn default() -> (v: Variation)
        ensures
            v == Variation::RoundRobin,
    {
        Variation::RoundRobin
    }
}

/// Everything about a cue but the sound itself.
#[derive(Clone, Copy, Debug, PartialEq, Eq, Structural)]
pub struct CueDef {
    pub bus: AudioChannel,
    pub gain: Scalar,
    pub cooldown_ms: u64,
    pub max_voices: usize,
    /// Pitch wobble as a fraction.
    pub pitch_wobble: Scalar,
    pub variation: Variation,
}

impl Default for CueDef {
    fn default() -> (d: CueDef)
        ensures
            d == (CueDef {
                bus: AudioChannel::Sfx,
                gain: Scalar { bits: 0x3f80_0000 },
                cooldown_ms: 0,
                max_voices: 8,
                pitch_wobble: Scalar { bits: 0 },
                variation: Variation::RoundRobin,
            }),
    {
        CueDef {
            bus: AudioChannel::Sfx,
            gain: Scalar::one(),
            cooldown_ms: 0,
            max_voices: 8,
            pitch_wobble: Scalar::zero(),
            variation: Variation::RoundRobin,
        }
    }
}

/// A registered cue: its variations and the accounting of its voices.
pub struct Cue {
    def: CueDef,
    sounds: Vec<Arc<SharedFrames>>,
    rr_index: usize,
    rng: u64,
    last_play_ms: Option<u64>,
    live: Vec<u64>,
}

#[verifier::ext_equal]
pub struct CueModel {
    pub def: CueDef,
    pub sounds: Seq<Arc<SharedFrames>>,
    /// Turns of the round robin so far.
    pub rr_index: usize,
    /// State of the random generator.
    pub rng: u64,
    pub last_play_ms: Option<u64>,
    /// Voices believed to sound, oldest first.
    pub live: Seq<u64>,
}

impl View for Cue {
    type V = CueModel;

    closed spec fn view(&self) -> CueModel {
        CueModel {
            def: self.def,
            sounds: self.sounds@,
            rr_index: self.rr_index,
            rng: self.rng,
            last_play_ms: self.last_play_ms,
            live: self.live@,
        }
    }
}

/// How one play differs from the cue: placement and pitch.
#[derive(Clone, Copy, Debug, PartialEq, Eq, Structural)]
pub struct Shape {
    pub gain_scale: Scalar,
    pub rate_scale: Scalar,
    pub pan: Scalar,
}

impl Default for Shape {
    fn default() -> (s: Shape)
        ensures
            s == plain_shape(),
    {
        Shape { gain_scale: Scalar::one(), rate_scale: Scalar::one(), pan: Scalar::zero() }
    }
}

/// At the listener, at pitch.
pub open spec fn plain_shape() -> Shape {
    Shape {
        gain_scale: Scalar { bits: 0x3f80_0000 },
        rate_scale: Scalar { bits: 0x3f80_0000 },
        pan: Scalar { bits: 0 },
    }
}

/// Slowest scale of a play: 0.01.
pub const MIN_RATE: u32 = 0x3c23_d70a;

/// The number -1.
pub const MINUS_ONE: u32 = 0xbf80_0000;

/// Multiplier of the random generator's output.
pub const OUTPUT_FACTOR: u64 = 0x2545_f491_4f6c_dd1d;

/// The seed of a bank that was given none.
pub const DEFAULT_SEED: u64 = 0x9e37_79b9_7f4a_7c15;

/// Next state of the random generator (xorshift64*).
pub open spec fn scrambled(x: u64) -> u64 {
    let a = x ^ (x >> 12);
    let b = a ^ (a << 25);
    b ^ (b >> 27)
}

/// High half of the generator's output in the state `x`.
pub open spec fn output(x: u64) -> int {
    (x * OUTPUT_FACTOR) % 0x1_0000_0000_0000_0000 / 0x1_0000_0000
}

pub open spec fn voice_cap(def: CueDef) -> int {
    if def.max_voices < 1 {
        1
    } else {
        def.max_voices as int
    }
}

/// The cue is at its cap: the next play costs the oldest voice.
pub open spec fn steals(m: CueModel) -> bool {
    m.live.len() >= voice_cap(m.def)
}

pub open spec fn stolen(m: CueModel) -> CueModel {
    if steals(m) {
        CueModel { live: m.live.skip(1), ..m }
    } else {
        m
    }
}

/// Which variation plays next.
pub open spec fn picks(m: CueModel) -> int {
    match m.def.variation {
        Variation::RoundRobin => m.rr_index as int % m.sounds.len() as int,
        Variation::Random => output(scrambled(m.rng)) % m.sounds.len() as int,
    }
}

/// The cue after that pick.
pub open spec fn picked(m: CueModel) -> CueModel {
    match m.def.variation {
        Variation::RoundRobin => CueModel {
            rr_index: if m.rr_index == usize::MAX {
                0
            } else {
                (m.rr_index + 1) as usize
            },
            ..m
        },
        Variation::Random => CueModel { rng: scrambled(m.rng), ..m },
    }
}

/// Whether the pitch wobbles at all.
pub open spec fn wobbles(m: CueModel) -> bool {
    !m.def.pitch_wobble.larger(Scalar { bits: 0 }).le(Scalar { bits: 0 })
}

/// The wobble of the next play.
pub open spec fn wobble(m: CueModel) -> Option<(u64, Scalar)> {
    if wobbles(m) {
        Some((scrambled(m.rng) >> 11, m.def.pitch_wobble.larger(Scalar { bits: 0 })))
    } else {
        None
    }
}

/// The cue after that wobble.
pub open spec fn wobbled(m: CueModel) -> CueModel {
    if wobbles(m) {
        CueModel { rng: scrambled(m.rng), ..m }
    } else {
        m
    }
}

/// The cue after it prepared a play, whether or not the play was taken.
pub open spec fn prepared(m: CueModel) -> CueModel {
    wobbled(picked(stolen(m)))
}

/// How fast the prepared play runs.
pub open spec fn play_rate(m: CueModel, shape: Shape) -> Rate {
    Rate {
        wobble: wobble(picked(stolen(m))),
        scale: shape.rate_scale.larger(Scalar { bits: MIN_RATE }),
    }
}

/// The prepared play, as the voice `id`.
pub open spec fn play_command(m: CueModel, shape: Shape, id: u64) -> RealtimeCommand {
    RealtimeCommand::Play(
        PlayCmd {
            voice: id,
            sound: m.sounds[picks(stolen(m))],
            gain: Gain {
                base: m.def.gain.larger(Scalar { bits: 0 }),
                scale: shape.gain_scale.larger(Scalar { bits: 0 }),
            },
            rate: play_rate(m, shape),
            pan: shape.pan.clamped(Scalar { bits: MINUS_ONE }, Scalar { bits: 0x3f80_0000 }),
            bus: m.def.bus,
            looping: false,
        },
    )
}

/// What a play offers to the audio thread, in order.
pub open spec fn play_offers(m: CueModel, shape: Shape, id: u64) -> Seq<RealtimeCommand> {
    if steals(m) {
        seq![RealtimeCommand::Stop(m.live[0]), play_command(m, shape, id)]
    } else {
        seq![play_command(m, shape, id)]
    }
}

/// The cue after a play that was taken, or was not.
pub open spec fn played(m: CueModel, id: u64, now_ms: u64, taken: bool) -> CueModel {
    let p = prepared(m);
    if taken {
        CueModel { live: p.live.push(id), last_play_ms: Some(now_ms), ..p }
    } else {
        p
    }
}

/// Too soon after the last play.
pub open spec fn cooling(m: CueModel, now_ms: u64) -> bool {
    match m.last_play_ms {
        Some(last) => (if now_ms < last {
            0
        } else {
            now_ms - last
        }) < m.def.cooldown_ms,
        None => false,
    }
}

/// `after` is `before` with `commands` offered, one after the other.
pub open spec fn offers_made(
    before: Seq<(RealtimeCommand, bool)>,
    commands: Seq<RealtimeCommand>,
    after: Seq<(RealtimeCommand, bool)>,
) -> bool {
    &&& after.len() == before.len() + commands.len()
    &&& after.take(before.len() as int) == before
    &&& forall|k: int|
        0 <= k < commands.len() ==> (#[trigger] after[before.len() + k]).0 == commands[k]
}

/// The ids of `ids` that are not in `gone`, in order.
pub open spec fn without(ids: Seq<u64>, gone: Seq<u64>) -> Seq<u64>
    decreases ids.len(),
{
    if ids.len() == 0 {
        ids
    } else if gone.contains(ids.last()) {
        without(ids.drop_last(), gone)
    } else {
        without(ids.drop_last(), gone).push(ids.last())
    }
}

impl Cue {
    fn new(def: CueDef, sounds: Vec<Arc<SharedFrames>>, rng: u64) -> (c: Cue)
        ensures
            c@ == (CueModel {
                def,
                sounds: sounds@,
                rr_index: 0,
                rng,
                last_play_ms: None,
                live: Seq::empty(),
            }),
    {
        Cue { def, sounds, rr_index: 0, rng, last_play_ms: None, live: Vec::new() }
    }

    fn scramble(&mut self)
        ensures
            final(self)@ == (CueModel { rng: scrambled(old(self)@.rng), ..old(self)@ }),
    {
        self.rng = self.rng ^ (self.rng >> 12);
        self.rng = self.rng ^ (self.rng << 25);
        self.rng = self.rng ^ (self.rng >> 27);
    }

    fn pick(&mut self) -> (sound: Arc<SharedFrames>)
        requires
            old(self)@.sounds.len() > 0,
        ensures
            sound == old(self)@.sounds[picks(old(self)@)],
            final(self)@ == picked(old(self)@),
    {
        let i: usize = match self.def.variation {
            Variation::RoundRobin => {
                let i: usize = self.rr_index % self.sounds.len();
                self.rr_index = if self.rr_index == usize::MAX {
                    0
                } else {
                    self.rr_index + 1
                };
                i
            },
            Variation::Random => {
                self.scramble();
                let x: u64 = self.rng.wrapping_mul(OUTPUT_FACTOR);
                assert(x >> 32 == x / 0x1_0000_0000) by (bit_vector);
                assert(x >> 32 <= 0xffff_ffff) by (bit_vector);
                let high: usize = (x >> 32) as usize;
                high % self.sounds.len()
            },
        };
        share(&self.sounds[i])
    }

    fn wobble(&mut self) -> (w: Option<(u64, Scalar)>)
        ensures
            w == wobble(old(self)@),
            final(self)@ == wobbled(old(self)@),
    {
        let depth = self.def.pitch_wobble.max(Scalar::zero());
        if depth.at_most(Scalar::zero()) {
            return None;
        }
        self.scramble();
        Some((self.rng >> 11, depth))
    }

    /// Drop the oldest voice if the cue is at its cap.
    fn steal(&mut self) -> (oldest: Option<u64>)
        ensures
            final(self)@ == stolen(old(self)@),
            oldest == if steals(old(self)@) {
                Some(old(self)@.live[0])
            } else {
                None
            },
    {
        let cap: usize = if self.def.max_voices < 1 {
            1
        } else {
            self.def.max_voices
        };
        if self.live.len() < cap {
            return None;
        }
        let oldest: u64 = self.live.remove(0);
        assert(self.live@ =~= old(self).live@.skip(1));
        Some(oldest)
    }

    fn is_cooling(&self, now_ms: u64) -> (r: bool)
        ensures
            r == cooling(self@, now_ms),
    {
        match self.last_play_ms {
            Some(last) => now_ms.saturating_sub(last) < self.def.cooldown_ms,
            None => false,
        }
    }

    /// Everything about a play but the sending: the voice to stop first, if
    /// the cue is at its cap, and the play itself.
    pub fn prepare(&mut self, shape: Shape, id: u64) -> (r: (Option<u64>, PlayCmd))
        requires
            old(self)@.sounds.len() > 0,
        ensures
            final(self)@ == prepared(old(self)@),
            r.0 == if steals(old(self)@) {
                Some(old(self)@.live[0])
            } else {
                None
            },
            RealtimeCommand::Play(r.1) == play_command(old(self)@, shape, id),
    {
        let oldest = self.steal();
        let sound = self.pick();
        let wobble = self.wobble();
        let one = Scalar::one();
        let low = Scalar::from_bits(MINUS_ONE);
        let command = PlayCmd {
            voice: id,
            sound,
            gain: Gain {
                base: self.def.gain.max(Scalar::zero()),
                scale: shape.gain_scale.max(Scalar::zero()),
            },
            rate: Rate { wobble, scale: shape.rate_scale.max(Scalar::from_bits(MIN_RATE)) },
            pan: shape.pan.clamp(low, one),
            bus: self.def.bus,
            looping: false,
        };
        (oldest, command)
    }

    /// Account for a prepared play: it counts only if it was taken.
    pub fn settle(&mut self, id: u64, now_ms: u64, taken: bool)
        ensures
            final(self)@ == if taken {
                CueModel {
                    live: old(self)@.live.push(id),
                    last_play_ms: Some(now_ms),
                    ..old(self)@
                }
            } else {
                old(self)@
            },
    {
        if taken {
            self.live.push(id);
            self.last_play_ms = Some(now_ms);
        }
    }

    fn reap(&mut self, finished: &Vec<u64>)
        ensures
            final(self)@ == (CueModel {
                live: without(old(self)@.live, finished@),
                ..old(self)@
            }),
    {
        let mut kept: Vec<u64> = Vec::new();
        let mut i: usize = 0;
        while i < self.live.len()
            invariant
                i <= self.live.len(),
                kept@ == without(self.live@.take(i as int), finished@),
                *self == *old(self),
            decreases self.live.len() - i,
        {
            let id: u64 = self.live[i];
            proof {
                assert(self.live@.take(i + 1).drop_last() =~= self.live@.take(i as int));
            }
            if !holds_id(finished, id) {
                kept.push(id);
            }
            i += 1;
        }
        proof {
            assert(self.live@.take(self.live@.len() as int) =~= self.live@);
        }
        self.live = kept;
    }
}

/// Why a cue was not registered.
#[derive(Clone, Copy, Debug, PartialEq, Eq, Structural)]
pub enum LoadError {
    /// A cue needs at least one sound.
    NoSounds,
}

/// Named cues on the game's side. Silent until it is attached to a link.
pub struct SoundBank {
    cues: NameMap<Cue>,
    tx: Option<Sender<RealtimeCommand>>,
    seed: u64,
}

impl View for SoundBank {
    type V = Map<Seq<char>, CueModel>;

    closed spec fn view(&self) -> Map<Seq<char>, CueModel> {
        self.cues@.map_values(|c: Cue| c@)
    }
}

impl SoundBank {
    pub closed spec fn wf(&self) -> bool {
        &&& self.cues.wf()
        &&& forall|n: Seq<char>| #[trigger]
            self.cues@.contains_key(n) ==> self.cues@[n]@.sounds.len() > 0
    }

    /// Whether plays have somewhere to go.
    pub closed spec fn linked(&self) -> bool {
        self.tx is Some
    }

    /// What was offered to the link so far.
    pub closed spec fn log(&self) -> Seq<(RealtimeCommand, bool)> {
        match self.tx {
            Some(tx) => command::offered(tx),
            None => Seq::empty(),
        }
    }

    pub closed spec fn seed(&self) -> u64 {
        self.seed
    }

    /// A play of `name` at `now_ms` goes through to the link.
    pub open spec fn ready(&self, name: Seq<char>, now_ms: u64) -> bool {
        &&& self.linked()
        &&& self@.contains_key(name)
        &&& !cooling(self@[name], now_ms)
    }

    pub fn new() -> (b: SoundBank)
        ensures
            b.wf(),
            b@ == Map::<Seq<char>, CueModel>::empty(),
            !b.linked(),
            b.seed() == DEFAULT_SEED,
    {
        let b = SoundBank { cues: NameMap::new(), tx: None, seed: DEFAULT_SEED };
        proof {
            assert(b@ =~= Map::<Seq<char>, CueModel>::empty());
        }
        b
    }

    /// The same bank with another seed for its random variations.
    pub fn with_seed(self, seed: u64) -> (b: SoundBank)
        requires
            self.wf(),
        ensures
            b.wf(),
            b@ == self@,
            b.linked() == self.linked(),
            b.log() == self.log(),
            b.seed() == seed,
    {
        SoundBank { cues: self.cues, tx: self.tx, seed }
    }

    /// Send plays through `tx` from now on.
    pub fn attach(&mut self, tx: Sender<RealtimeCommand>)
        requires
            old(self).wf(),
        ensures
            final(self).wf(),
            final(self)@ == old(self)@,
            final(self).linked(),
            final(self).log() == command::offered(tx),
            final(self).seed() == old(self).seed(),
    {
        self.tx = Some(tx);
    }

    /// Register a cue with its decoded variations, in place of any of that
    /// name. The random generator starts from the bank's seed and the
    /// length of the name.
    pub fn load(&mut self, name: &str, def: CueDef, sounds: Vec<Arc<SharedFrames>>) -> (r: Result<
        (),
        LoadError,
    >)
        requires
            old(self).wf(),
        ensures
            final(self).wf(),
            final(self).linked() == old(self).linked(),
            final(self).log() == old(self).log(),
            final(self).seed() == old(self).seed(),
            sounds@.len() == 0 ==> r == Err::<(), LoadError>(LoadError::NoSounds) && final(self)@
                == old(self)@,
            sounds@.len() > 0 ==> r is Ok && final(self)@ == old(self)@.insert(
                name@,
                CueModel {
                    def,
                    sounds: sounds@,
                    rr_index: 0,
                    rng: old(self).seed() ^ (vstd::utf8::encode_utf8(name@).len() as u64),
                    last_play_ms: None,
                    live: Seq::empty(),
                },
            ),
    {
        if sounds.len() == 0 {
            return Err(LoadError::NoSounds);
        }
        let rng: u64 = self.seed ^ (name.as_bytes().len() as u64);
        let cue = Cue::new(def, sounds, rng);
        self.cues.insert(name, cue);
        proof {
            assert(self@ =~= old(self)@.insert(name@, cue@));
        }
        Ok(())
    }

    /// Drop the finished voices from the accounting of every cue.
    pub fn reap(&mut self, finished: &Vec<u64>)
        requires
            old(self).wf(),
        ensures
            final(self).wf(),
            final(self).linked() == old(self).linked(),
            final(self).log() == old(self).log(),
            final(self).seed() == old(self).seed(),
            final(self)@.dom() == old(self)@.dom(),
            forall|n: Seq<char>| #[trigger]
                old(self)@.contains_key(n) ==> final(self)@[n] == (CueModel {
                    live: without(old(self)@[n].live, finished@),
                    ..old(self)@[n]
                }),
    {
        let ghost before = self@;
        let ghost names = self.cues.names();
        let mut i: usize = 0;
        while i < self.cues.len()
            invariant
                i <= names.len(),
                self.wf(),
                self.tx == old(self).tx,
                self.seed == old(self).seed,
                self.cues.names() == names,
                names.no_duplicates(),
                self@.dom() == before.dom(),
                forall|k: int|
                    0 <= k < i ==> self@[#[trigger] names[k]] == (CueModel {
                        live: without(before[names[k]].live, finished@),
                        ..before[names[k]]
                    }),
                forall|k: int| i <= k < names.len() ==> self@[#[trigger] names[k]] == before[names[k]],
                forall|n: Seq<char>| before.contains_key(n) <==> #[trigger] names.contains(n),
            decreases names.len() - i,
        {
            let ghost held = self.cues@;
            assert(names.contains(names[i as int]));
            assert(self.cues@.contains_key(names[i as int]));
            assert(self@[names[i as int]] == self.cues@[names[i as int]]@);
            self.cues.at_mut(i).reap(finished);
            proof {
                let name = names[i as int];
                assert(self@ =~= held.map_values(|c: Cue| c@).insert(name, self.cues@[name]@));
                assert(self@.dom() =~= before.dom());
                assert forall|k: int| 0 <= k < names.len() && k != i implies self@[#[trigger] names[k]]
                    == held[names[k]]@ by {
                    assert(names.contains(names[k]));
                    assert(names[k] != name);
                    assert(held.contains_key(names[k]));
                }
                assert forall|k: int| 0 <= k < i + 1 implies self@[#[trigger] names[k]] == (
                CueModel {
                    live: without(before[names[k]].live, finished@),
                    ..before[names[k]]
                }) by {
                    assert(names.contains(names[k]));
                    assert(held.contains_key(names[k]));
                    if k == i {
                        assert(held.map_values(|c: Cue| c@)[name] == held[name]@);
                    }
                }
                assert forall|k: int| i + 1 <= k < names.len() implies self@[#[trigger] names[k]]
                    == before[names[k]] by {
                    assert(names.contains(names[k]));
                    assert(held.contains_key(names[k]));
                }
            }
            i += 1;
        }
        proof {
            assert forall|n: Seq<char>| #[trigger] before.contains_key(n) implies self@[n] == (
            CueModel { live: without(before[n].live, finished@), ..before[n] }) by {
                assert(names.contains(n));
                let k = choose|k: int| 0 <= k < names.len() && names[k] == n;
                assert(self@[names[k]] == self@[n]);
            }
        }
    }

    /// Voices of a cue that are believed to sound; none of an unknown one.
    pub fn live_count(&self, name: &str) -> (n: usize)
        requires
            self.wf(),
        ensures
            n == if self@.contains_key(name@) {
                self@[name@].live.len() as int
            } else {
                0
            },
    {
        match self.cues.get(name) {
            Some(c) => c.live.len(),
            None => 0,
        }
    }

    /// Play a cue at the time `now_ms` of the game's clock. `None` when
    /// there is no link, no such cue, the cue cools down, or the link is
    /// closed. Past the cap the oldest voice is stopped first.
    pub fn play_at_ms(
        &mut self,
        state: &mut AudioState,
        name: &str,
        shape: Shape,
        now_ms: u64,
    ) -> (r: Option<(u64, Rate)>)
        requires
            old(self).wf(),
        ensures
            final(self).wf(),
            final(self).linked() == old(self).linked(),
            final(self).seed() == old(self).seed(),
            !old(self).ready(name@, now_ms) ==> {
                &&& r is None
                &&& final(self)@ == old(self)@
                &&& final(self).log() == old(self).log()
                &&& *final(state) == *old(state)
            },
            old(self).ready(name@, now_ms) ==> {
                let m = old(self)@[name@];
                let id = old(state).next_voice;
                let log = final(self).log();
                let taken = log.last().1;
                &&& offers_made(old(self).log(), play_offers(m, shape, id), log)
                &&& *final(state) == (AudioState {
                    next_voice: channels::voice_after(id),
                    ..*old(state)
                })
                &&& final(self)@ == old(self)@.insert(name@, played(m, id, now_ms, taken))
                &&& r == if taken {
                    Some((id, play_rate(m, shape)))
                } else {
                    None
                }
            },
    {
        let i: usize = match self.cues.position(name) {
            Some(i) => i,
            None => return None,
        };
        if self.tx.is_none() || self.cues.value_at(i).is_cooling(now_ms) {
            return None;
        }
        let id: u64 = state.alloc_voice();
        let ghost m = self@[name@];
        let ghost before = self.log();
        assert(self.cues@.contains_key(name@));
        assert(m == self.cues@[name@]@);
        let (oldest, command) = self.cues.at_mut(i).prepare(shape, id);
        let rate = command.rate;
        let mut taken: bool = false;
        if let Some(tx) = &mut self.tx {
            if let Some(oldest) = oldest {
                let _ = send(tx, RealtimeCommand::Stop(oldest));
            }
            taken = send(tx, RealtimeCommand::Play(command));
        }
        self.cues.at_mut(i).settle(id, now_ms, taken);
        proof {
            assert(self.log().take(before.len() as int) =~= before);
            assert(self@ =~= old(self)@.insert(name@, played(m, id, now_ms, taken)));
        }
        if taken {
            Some((id, rate))
        } else {
            None
        }
    }

    /// Play a cue at the listener.
    pub fn play(&mut self, state: &mut AudioState, name: &str, now_ms: u64) -> (r: Option<u64>)
        requires
            old(self).wf(),
        ensures
            final(self).wf(),
            final(self).linked() == old(self).linked(),
            final(self).seed() == old(self).seed(),
            !old(self).ready(name@, now_ms) ==> {
                &&& r is None
                &&& final(self)@ == old(self)@
                &&& final(self).log() == old(self).log()
                &&& *final(state) == *old(state)
            },
            old(self).ready(name@, now_ms) ==> {
                let m = old(self)@[name@];
                let id = old(state).next_voice;
                let log = final(self).log();
                let taken = log.last().1;
                &&& offers_made(old(self).log(), play_offers(m, plain_shape(), id), log)
                &&& *final(state) == (AudioState {
                    next_voice: channels::voice_after(id),
                    ..*old(state)
                })
                &&& final(self)@ == old(self)@.insert(name@, played(m, id, now_ms, taken))
                &&& r == if taken {
                    Some(id)
                } else {
                    None
                }
            },
    {
        match self.play_at_ms(state, name, Shape::default(), now_ms) {
            Some((id, _)) => Some(id),
            None => None,
        }
    }

    /// Stop every voice of a cue. Nothing happens without a link.
    pub fn stop_cue(&mut self, name: &str)
        requires
            old(self).wf(),
        ensures
            final(self).wf(),
            final(self).linked() == old(self).linked(),
            final(self).seed() == old(self).seed(),
            !old(self).linked() || !old(self)@.contains_key(name@) ==> final(self)@ == old(self)@
                && final(self).log() == old(self).log(),
            old(self).linked() && old(self)@.contains_key(name@) ==> {
                let m = old(self)@[name@];
                &&& final(self)@ == old(self)@.insert(
                    name@,
                    CueModel { live: Seq::empty(), ..m },
                )
                &&& offers_made(
                    old(self).log(),
                    m.live.map_values(|id: u64| RealtimeCommand::Stop(id)),
                    final(self).log(),
                )
            },
    {
        let i: usize = match self.cues.position(name) {
            Some(i) => i,
            None => return,
        };
        let ghost before = self.log();
        let ghost m = self@[name@];
        assert(self.cues@.contains_key(name@));
        if let Some(tx) = &mut self.tx {
            let mut ids: Vec<u64> = Vec::new();
            let cue = self.cues.at_mut(i);
            core::mem::swap(&mut ids, &mut cue.live);
            stop_all(tx, &ids);
            assert(ids@ == m.live);
        }
        proof {
            if old(self).linked() {
                assert(self@ =~= old(self)@.insert(
                    name@,
                    CueModel { live: Seq::empty(), ..m },
                ));
            }
        }
    }
}

fn stop_all(tx: &mut Sender<RealtimeCommand>, ids: &Vec<u64>)
    ensures
        offers_made(
            command::offered(*old(tx)),
            ids@.map_values(|id: u64| RealtimeCommand::Stop(id)),
            command::offered(*final(tx)),
        ),
{
    let ghost before = command::offered(*tx);
    let ghost stops = ids@.map_values(|id: u64| RealtimeCommand::Stop(id));
    let mut k: usize = 0;
    assert(before.take(before.len() as int) =~= before);
    while k < ids.len()
        invariant
            k <= ids.len(),
            stops == ids@.map_values(|id: u64| RealtimeCommand::Stop(id)),
            offers_made(
                before,
                stops.take(k as int),
                command::offered(*tx),
            ),
        decreases ids.len() - k,
    {
        let ghost mid = command::offered(*tx);
        let _ = send(tx, RealtimeCommand::Stop(ids[k]));
        proof {
            let after = command::offered(*tx);
            assert(after.take(before.len() as int) =~= mid.take(before.len() as int));
            assert forall|j: int| 0 <= j < k + 1 implies (#[trigger] after[before.len() + j]).0
                == stops.take(k + 1)[j] by {
                if j < k {
                    assert(mid[before.len() + j].0 == stops.take(k as int)[j]);
                }
            }
        }
        k += 1;
    }
    proof {
        assert(stops.take(ids@.len() as int) =~= stops);
    }
}

/// A cue within its cap stays within it, play after play, and a taken play
/// is its youngest voice.
pub proof fn law_polyphony_is_capped(m: CueModel, id: u64, now_ms: u64, taken: bool)
    requires
        m.live.len() <= voice_cap(m.def),
    ensures
        played(m, id, now_ms, taken).live.len() <= voice_cap(m.def),
        taken ==> played(m, id, now_ms, taken).live.last() == id,
        taken ==> played(m, id, now_ms, taken).live.drop_last() == stolen(m).live,
{
    assert(played(m, id, now_ms, true).live.drop_last() =~= stolen(m).live);
}

/// After a taken play a cue is quiet for its cooldown and no longer; a play
/// that was not taken does not start one.
pub proof fn law_cooldown_throttles(m: CueModel, id: u64, now_ms: u64, later_ms: u64)
    requires
        now_ms <= later_ms,
    ensures
        cooling(played(m, id, now_ms, true), later_ms) <==> later_ms - now_ms < m.def.cooldown_ms,
        cooling(played(m, id, now_ms, false), later_ms) == cooling(m, later_ms),
{
}

/// A round robin goes through the variations in order and starts over.
pub proof fn law_round_robin_cycles(m: CueModel)
    requires
        m.def.variation == Variation::RoundRobin,
        m.sounds.len() > 0,
        m.rr_index < usize::MAX,
    ensures
        0 <= picks(m) < m.sounds.len(),
        picks(prepared(m)) == if picks(m) + 1 == m.sounds.len() {
            0
        } else {
            picks(m) + 1
        },
{
    let n = m.sounds.len() as int;
    let r = m.rr_index as int;
    vstd::arithmetic::div_mod::lemma_mod_bound(r, n);
    vstd::arithmetic::div_mod::lemma_fundamental_div_mod(r, n);
    if r % n + 1 == n {
        assert(r + 1 == n * (r / n + 1)) by (nonlinear_arith)
            requires
                r == n * (r / n) + r % n,
                r % n + 1 == n,
        ;
        vstd::arithmetic::div_mod::lemma_mod_multiples_basic(r / n + 1, n);
        assert(n * (r / n + 1) == (r / n + 1) * n) by (nonlinear_arith);
    } else {
        vstd::arithmetic::div_mod::lemma_fundamental_div_mod_converse(r + 1, n, r / n, r % n + 1);
    }
}

/// Cues with the same generator and the same definition play the same
/// variations at the same rates, whatever else sounds.
pub proof fn law_same_seed_replays(a: CueModel, b: CueModel, shape: Shape)
    requires
        a.def == b.def,
        a.sounds == b.sounds,
        a.rr_index == b.rr_index,
        a.rng == b.rng,
    ensures
        picks(stolen(a)) == picks(stolen(b)),
        play_rate(a, shape) == play_rate(b, shape),
        prepared(a).rng == prepared(b).rng,
        prepared(a).rr_index == prepared(b).rr_index,
{
}

/// A wobble is drawn from `0 ..= MAX_DRAW`, and picks are variations of the
/// cue.
pub proof fn law_draws_are_in_range(m: CueModel)
    requires
        m.sounds.len() > 0,
    ensures
        wobble(m) matches Some((draw, _)) ==> draw <= command::MAX_DRAW,
        0 <= picks(m) < m.sounds.len(),
{
    let x = scrambled(m.rng);
    assert(x >> 11 <= 0x1f_ffff_ffff_ffff) by (bit_vector);
    assert(output(x) >= 0) by {
        vstd::arithmetic::div_mod::lemma_mod_bound(x * OUTPUT_FACTOR, 0x1_0000_0000_0000_0000);
    }
    vstd::arithmetic::div_mod::lemma_mod_bound(output(x), m.sounds.len() as int);
    vstd::arithmetic::div_mod::lemma_mod_bound(m.rr_index as int, m.sounds.len() as int);
}

/// A play offers one voice: under the id it was given, of one of the cue's
/// sounds, on the cue's bus, once through. Its gain is the cue's times the
/// shape's, neither below zero; its pan is the shape's within `-1 ..= 1`;
/// its rate is the shape's, a hundredth at least, wobbling by the cue's
/// depth where that is above zero and not at all where it is not.
pub proof fn law_plays_offer_what_was_asked(m: CueModel, shape: Shape, id: u64)
    requires
        m.sounds.len() > 0,
    ensures
        play_offers(m, shape, id).last() matches RealtimeCommand::Play(p) && ({
            let (zero, one) = (Scalar { bits: 0 }, Scalar { bits: 0x3f80_0000 });
            let (left, slow) = (Scalar { bits: 0xbf80_0000 }, Scalar { bits: 0x3c23_d70a });
            &&& p.voice == id
            &&& m.sounds.contains(p.sound)
            &&& p.bus == m.def.bus
            &&& !p.looping
            &&& zero.le(m.def.gain) ==> p.gain.base == m.def.gain
            &&& m.def.gain.lt(zero) ==> p.gain.base == zero
            &&& zero.le(shape.gain_scale) ==> p.gain.scale == shape.gain_scale
            &&& shape.gain_scale.lt(zero) ==> p.gain.scale == zero
            &&& left.le(shape.pan) && shape.pan.le(one) ==> p.pan == shape.pan
            &&& shape.pan.lt(left) ==> p.pan == left
            &&& one.lt(shape.pan) ==> p.pan == one
            &&& slow.le(shape.rate_scale) ==> p.rate.scale == shape.rate_scale
            &&& shape.rate_scale.lt(slow) ==> p.rate.scale == slow
            &&& p.rate == play_rate(m, shape)
            &&& zero.lt(m.def.pitch_wobble) ==> (p.rate.wobble matches Some((_, depth)) && depth
                == m.def.pitch_wobble)
            &&& !zero.lt(m.def.pitch_wobble) ==> p.rate.wobble is None
        }),
{
    law_draws_are_in_range(stolen(m));
    let at = picks(stolen(m));
    assert(m.sounds[at] == m.sounds[at]);
    assert(m.sounds.contains(m.sounds[at]));
}

/// Below its cap a cue just plays; at or above it the oldest voice is
/// stopped first. The cap is what the cue says, and at least one.
pub proof fn law_the_oldest_voice_makes_room(m: CueModel, shape: Shape, id: u64)
    ensures
        ({
            let cap: int = if m.def.max_voices == 0 {
                1
            } else {
                m.def.max_voices as int
            };
            let offers = play_offers(m, shape, id);
            &&& m.live.len() < cap ==> offers.len() == 1
            &&& m.live.len() >= cap ==> offers.len() == 2 && offers[0] == RealtimeCommand::Stop(
                m.live[0],
            )
            &&& m.live.len() < cap ==> stolen(m) == m
            &&& m.live.len() >= cap ==> stolen(m).live == m.live.skip(1)
        }),
{
}

/// A round robin plays the sound whose turn it is, from the first on, and
/// takes no random number for it; a random cue leaves the turn alone.
pub proof fn law_picks_follow_the_variation(m: CueModel, shape: Shape, id: u64)
    requires
        m.sounds.len() > 0,
    ensures
        m.def.variation == Variation::RoundRobin && m.rr_index < m.sounds.len() ==> (play_command(
            m,
            shape,
            id,
        ) matches RealtimeCommand::Play(p) && p.sound == m.sounds[m.rr_index as int]),
        m.def.variation == Variation::RoundRobin ==> picked(m).rng == m.rng,
        m.def.variation == Variation::RoundRobin && m.rr_index < usize::MAX ==> picked(m).rr_index
            == m.rr_index + 1,
        m.def.variation == Variation::Random ==> picked(m).rr_index == m.rr_index,
        m.def.variation == Variation::Random && m.rng != 0 ==> picked(m).rng != 0,
{
    if m.rr_index < m.sounds.len() {
        vstd::arithmetic::div_mod::lemma_small_mod(m.rr_index as nat, m.sounds.len());
    }
    let x = m.rng;
    let a = x ^ (x >> 12);
    let b = a ^ (a << 25);
    assert(x != 0 ==> a != 0) by (bit_vector)
        requires
            a == x ^ (x >> 12),
    ;
    assert(a != 0 ==> b != 0) by (bit_vector)
        requires
            b == a ^ (a << 25),
    ;
    assert(b != 0 ==> b ^ (b >> 27) != 0) by (bit_vector);
}

/// Different states of the generator go to different states, so a sequence
/// of draws never collapses.
pub proof fn law_generator_states_stay_apart(x: u64, y: u64)
    ensures
        scrambled(x) == scrambled(y) ==> x == y,
{
    let (a, c) = (x ^ (x >> 12), y ^ (y >> 12));
    let (b, d) = (a ^ (a << 25), c ^ (c << 25));
    assert(b ^ (b >> 27) == d ^ (d >> 27) ==> b == d) by (bit_vector);
    assert(a ^ (a << 25) == c ^ (c << 25) ==> a == c) by (bit_vector);
    assert(x ^ (x >> 12) == y ^ (y >> 12) ==> x == y) by (bit_vector);
}

/// A play that was taken makes the voice the youngest of the cue and starts
/// its cooldown at the time of the play; one that was not taken does
/// neither. The definition and the sounds stay.
pub proof fn law_taken_plays_are_accounted_for(
    m: CueModel,
    id: u64,
    now_ms: u64,
    taken: bool,
)
    ensures
        ({
            let after = played(m, id, now_ms, taken);
            &&& after.def == m.def
            &&& after.sounds == m.sounds
            &&& taken ==> after.last_play_ms == Some(now_ms) && after.live == stolen(m).live.push(
                id,
            )
            &&& !taken ==> after.last_play_ms == m.last_play_ms && after.live == stolen(m).live
        }),
{
}

/// A cue cools from its last play for its cooldown: up to it, not at it,
/// and not at all before the first play or without a cooldown.
pub proof fn law_cues_cool_for_their_cooldown(m: CueModel, now_ms: u64)
    ensures
        m.last_play_ms is None ==> !cooling(m, now_ms),
        m.def.cooldown_ms == 0 ==> !cooling(m, now_ms),
        m.last_play_ms matches Some(last) ==> last <= now_ms ==> (cooling(m, now_ms) <==> now_ms
            < last + m.def.cooldown_ms),
        m.last_play_ms matches Some(last) ==> now_ms < last && m.def.cooldown_ms > 0 ==> cooling(
            m,
            now_ms,
        ),
{
}

/// Reaping drops the ids that finished and keeps all others; without any of
/// them nothing changes.
pub proof fn law_reaped_ids_are_dropped(ids: Seq<u64>, gone: Seq<u64>)
    ensures
        forall|id: u64| #[trigger]
            without(ids, gone).contains(id) <==> ids.contains(id) && !gone.contains(id),
        (forall|k: int| 0 <= k < ids.len() ==> !gone.contains(#[trigger] ids[k])) ==> without(
            ids,
            gone,
        ) == ids,
    decreases ids.len(),
{
    if ids.len() > 0 {
        let (front, last) = (ids.drop_last(), ids.last());
        law_reaped_ids_are_dropped(front, gone);
        let (some, all) = (without(front, gone), without(ids, gone));
        assert(front.push(last) =~= ids);
        assert forall|id: u64| #[trigger] all.contains(id) <==> ids.contains(id) && !gone.contains(
            id,
        ) by {
            lemma_pushed(front, last, id);
            lemma_pushed(some, last, id);
        }
        if forall|k: int| 0 <= k < ids.len() ==> !gone.contains(#[trigger] ids[k]) {
            assert forall|k: int| 0 <= k < front.len() implies !gone.contains(
                #[trigger] front[k],
            ) by {
                assert(ids[k] == front[k]);
            }
            assert(!gone.contains(ids[ids.len() - 1]));
        }
    }
}

proof fn lemma_pushed(s: Seq<u64>, last: u64, v: u64)
    ensures
        s.push(last).contains(v) <==> s.contains(v) || v == last,
{
    let all = s.push(last);
    if s.contains(v) {
        let k = choose|k: int| 0 <= k < s.len() && s[k] == v;
        assert(all[k] == v);
    }
    assert(all[s.len() as int] == last);
}

/// A play without a shape is at the listener, at full gain and at pitch.
pub proof fn law_plain_plays_are_unshaped()
    ensures
        plain_shape().gain_scale.bits == 0x3f80_0000,
        plain_shape().rate_scale.bits == 0x3f80_0000,
        plain_shape().pan.bits == 0,
{
}

/// Variations in turn go up by one with each play and start over behind the
/// last index; random ones leave the turn alone and move the generator. A
/// play moves the generator once more exactly if its pitch wobbles.
pub proof fn law_plays_move_turn_and_generator(m: CueModel)
    ensures
        m.def.variation is RoundRobin && m.rr_index < usize::MAX ==> picked(m).rr_index
            == m.rr_index + 1,
        m.def.variation is RoundRobin && m.rr_index == usize::MAX ==> picked(m).rr_index == 0,
        m.def.variation is RoundRobin ==> picked(m).rng == m.rng,
        m.def.variation is Random ==> picked(m).rr_index == m.rr_index && picked(m).rng
            == scrambled(m.rng),
        (Scalar { bits: 0 }).lt(m.def.pitch_wobble) ==> wobble(m) is Some && wobbled(m).rng
            == scrambled(m.rng),
        m.def.pitch_wobble.le(Scalar { bits: 0 }) ==> wobble(m) is None && wobbled(m) == m,
        wobbled(m).rr_index == m.rr_index,
        wobbled(m).live == m.live,
        picked(m).live == m.live,
{
}

/// Offers go behind those that were made, which stay as they are, and in
/// their order.
pub proof fn law_offers_are_appended(
    before: Seq<(RealtimeCommand, bool)>,
    commands: Seq<RealtimeCommand>,
    after: Seq<(RealtimeCommand, bool)>,
    k: int,
)
    requires
        offers_made(before, commands, after),
    ensures
        after.len() == before.len() + commands.len(),
        0 <= k < before.len() ==> after[k] == before[k],
        0 <= k < commands.len() ==> after[before.len() + k].0 == commands[k],
{
    if 0 <= k < before.len() {
        assert(after.take(before.len() as int)[k] == after[k]);
    }
}

} // verus!
