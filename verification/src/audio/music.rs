//! Track director: crossfades, intensity stems, ducking.
//!
//! All motion is fades on looping voices of the music bus. The audio thread
//! runs the ramps, this decides where they go.

use crate::audio::bank;
use crate::audio::channels::{self, AudioChannel, AudioState};
use crate::audio::command::{
    self, send, share, FadeTarget, Gain, PlayCmd, Rate, RealtimeCommand, SharedFrames, Window,
};
use crate::lists::holds_id;
use crate::names::NameMap;
use crate::scalar::Scalar;
use std::sync::Arc;
use vstd::prelude::*;
use web_workers::sync::mpsc::Sender;

verus! {

/// Shortest fade toward a target: 0.01 seconds.
pub const MIN_FADE: u32 = 0x3c23_d70a;

/// Fade after a change of intensity: 0.3 seconds.
pub const INTENSITY_FADE: u32 = 0x3e99_999a;

/// Attack of a duck, and its shortest release: 0.05 seconds.
pub const DUCK_ATTACK: u32 = 0x3d4c_cccd;

/// Fade while a duck releases: 0.1 seconds.
pub const RELEASE_FADE: u32 = 0x3dcc_cccd;

/// Release of a duck by default: 0.5 seconds.
pub const DUCK_RELEASE: u32 = 0x3f00_0000;

/// Drift of the duck factor that is worth new fades: 0.005.
pub const DRIFT: u32 = 0x3ba3_d70a;

/// The number 1.
pub const ONE: u32 = 0x3f80_0000;

/// An intensity stem: heard from `lo` on, in full at `hi`.
#[derive(Clone, Copy, Debug, PartialEq, Eq, Structural)]
pub struct StemDef {
    pub lo: Scalar,
    pub hi: Scalar,
    pub gain: Scalar,
}

/// The stem as it is kept: the window within `0 ..= 1` and not upside down,
/// the gain not negative.
pub open spec fn normalized(def: StemDef) -> StemDef {
    let (zero, one) = (Scalar { bits: 0 }, Scalar { bits: ONE });
    StemDef {
        lo: def.lo.clamped(zero, one),
        hi: def.hi.clamped(zero, one).larger(def.lo.clamped(zero, one)),
        gain: def.gain.larger(zero),
    }
}

/// A stem of a track.
pub struct Stem {
    pub sound: Arc<SharedFrames>,
    pub def: StemDef,
}

/// A registered track.
pub struct Track {
    gain: Scalar,
    main: Arc<SharedFrames>,
    stems: Vec<Stem>,
}

#[verifier::ext_equal]
pub struct TrackModel {
    pub gain: Scalar,
    pub main: Arc<SharedFrames>,
    pub stems: Seq<Stem>,
}

impl View for Track {
    type V = TrackModel;

    closed spec fn view(&self) -> TrackModel {
        TrackModel { gain: self.gain, main: self.main, stems: self.stems@ }
    }
}

/// The track that is directed now.
pub struct Playing {
    name: String,
    /// Voices with the stem that each plays; none is the main mix.
    voices: Vec<(u64, Option<usize>)>,
}

#[verifier::ext_equal]
pub struct PlayingModel {
    pub name: Seq<char>,
    pub voices: Seq<(u64, Option<usize>)>,
}

impl View for Playing {
    type V = PlayingModel;

    closed spec fn view(&self) -> PlayingModel {
        PlayingModel { name: self.name@, voices: self.voices@ }
    }
}

/// Duck envelope.
#[derive(Clone, Copy, Debug, PartialEq, Eq, Structural)]
pub enum DuckEnv {
    Idle,
    Hold { left_secs: Scalar },
    Release { from: Scalar, left_secs: Scalar, total_secs: Scalar },
}

/// What shapes the gains of all stems.
#[derive(Clone, Copy, Debug, PartialEq, Eq, Structural)]
pub struct Mix {
    pub intensity: Scalar,
    pub duck_factor: Scalar,
    pub duck_target: Scalar,
    pub duck_env: DuckEnv,
    pub duck_release_secs: Scalar,
    /// The duck factor of the last fades.
    pub last_sent_factor: Scalar,
}

/// Full intensity, no duck.
pub open spec fn starting_mix() -> Mix {
    let one = Scalar { bits: ONE };
    Mix {
        intensity: one,
        duck_factor: one,
        duck_target: one,
        duck_env: DuckEnv::Idle,
        duck_release_secs: Scalar { bits: DUCK_RELEASE },
        last_sent_factor: one,
    }
}

/// Numbers for one step of the duck envelope, from the mix before the step.
#[derive(Clone, Copy, Debug, PartialEq, Eq, Structural)]
pub struct DuckMotion {
    /// Seconds left of the envelope's phase, less the step.
    pub left: Scalar,
    /// The factor that far into the release.
    pub factor: Scalar,
    /// Distance from the last sent factor of the factor as it is,
    pub drift: Scalar,
    /// of the factor in the release,
    pub drift_released: Scalar,
    /// and of 1.
    pub drift_done: Scalar,
}

/// How much of a stem is heard at an intensity.
pub open spec fn window_of(def: StemDef, intensity: Scalar) -> Window {
    if def.hi.le(def.lo) {
        if def.lo.le(intensity) {
            Window::Full
        } else {
            Window::Silent
        }
    } else {
        Window::Ramp { at: intensity, lo: def.lo, hi: def.hi }
    }
}

/// Where the gain of a voice belongs.
pub open spec fn target_of(t: TrackModel, stem: Option<usize>, mix: Mix) -> FadeTarget {
    match stem {
        None => FadeTarget::Mix {
            track: t.gain,
            window: Window::Full,
            stem: Scalar { bits: ONE },
            duck: mix.duck_factor,
        },
        Some(i) => FadeTarget::Mix {
            track: t.gain,
            window: window_of(t.stems[i as int].def, mix.intensity),
            stem: t.stems[i as int].def.gain,
            duck: mix.duck_factor,
        },
    }
}

/// Fades that take voices out.
pub open spec fn fades_out(voices: Seq<(u64, Option<usize>)>, secs: Scalar) -> Seq<RealtimeCommand> {
    Seq::new(
        voices.len(),
        |k: int|
            RealtimeCommand::Fade {
                voice: voices[k].0,
                target: FadeTarget::Silence,
                secs: secs.larger(Scalar { bits: 0 }),
            },
    )
}

/// Fades that take voices to where they belong.
pub open spec fn fades_to(
    t: TrackModel,
    voices: Seq<(u64, Option<usize>)>,
    mix: Mix,
    secs: Scalar,
) -> Seq<RealtimeCommand> {
    Seq::new(
        voices.len(),
        |k: int|
            RealtimeCommand::Fade {
                voice: voices[k].0,
                target: target_of(t, voices[k].1, mix),
                secs: secs.larger(Scalar { bits: MIN_FADE }),
            },
    )
}

/// The stem that the part `k` of a track plays: the main mix comes first.
pub open spec fn stem_at(k: int) -> Option<usize> {
    if k == 0 {
        None
    } else {
        Some((k - 1) as usize)
    }
}

pub open spec fn sound_at(t: TrackModel, k: int) -> Arc<SharedFrames> {
    if k == 0 {
        t.main
    } else {
        t.stems[k - 1].sound
    }
}

/// A part starts silent, looping, on the music bus.
pub open spec fn start_command(t: TrackModel, k: int, id: u64) -> RealtimeCommand {
    RealtimeCommand::Play(
        PlayCmd {
            voice: id,
            sound: sound_at(t, k),
            gain: Gain { base: Scalar { bits: 0 }, scale: Scalar { bits: ONE } },
            rate: Rate { wobble: None, scale: Scalar { bits: ONE } },
            pan: Scalar { bits: 0 },
            bus: AudioChannel::Music,
            looping: true,
        },
    )
}

/// The fade that brings a started part in.
pub open spec fn fade_in(t: TrackModel, k: int, id: u64, mix: Mix, secs: Scalar) -> RealtimeCommand {
    RealtimeCommand::Fade {
        voice: id,
        target: target_of(t, stem_at(k), mix),
        secs: secs.larger(Scalar { bits: 0 }).larger(Scalar { bits: MIN_FADE }),
    }
}

/// `offers` start the first `n` parts of a track under ids from `first` on,
/// and `voices` are those that were taken: each part is offered, and faded
/// in if the offer was taken.
pub open spec fn parts_started(
    t: TrackModel,
    n: nat,
    first: u64,
    mix: Mix,
    secs: Scalar,
    offers: Seq<(RealtimeCommand, bool)>,
    voices: Seq<(u64, Option<usize>)>,
) -> bool
    decreases n,
{
    if n == 0 {
        offers.len() == 0 && voices.len() == 0
    } else {
        let k = n - 1;
        let id = channels::voice_at(first, k as nat);
        ||| {
            &&& offers.len() >= 1
            &&& offers.last() == (start_command(t, k, id), false)
            &&& parts_started(t, k as nat, first, mix, secs, offers.drop_last(), voices)
        }
        ||| {
            &&& offers.len() >= 2
            &&& voices.len() >= 1
            &&& offers[offers.len() - 2] == (start_command(t, k, id), true)
            &&& offers.last().0 == fade_in(t, k, id, mix, secs)
            &&& voices.last() == (id, stem_at(k))
            &&& parts_started(
                t,
                k as nat,
                first,
                mix,
                secs,
                offers.take(offers.len() - 2),
                voices.drop_last(),
            )
        }
    }
}

/// The voices that are not in `gone`, in order.
pub open spec fn voices_without(voices: Seq<(u64, Option<usize>)>, gone: Seq<u64>) -> Seq<
    (u64, Option<usize>),
>
    decreases voices.len(),
{
    if voices.len() == 0 {
        voices
    } else if gone.contains(voices.last().0) {
        voices_without(voices.drop_last(), gone)
    } else {
        voices_without(voices.drop_last(), gone).push(voices.last())
    }
}

/// Where the director stands.
#[verifier::ext_equal]
pub struct MusicModel {
    pub tracks: Map<Seq<char>, TrackModel>,
    pub current: Option<PlayingModel>,
    pub mix: Mix,
}

/// The current voices play stems that their track has.
pub open spec fn in_tune(m: MusicModel) -> bool {
    m.current matches Some(p) ==> m.tracks.contains_key(p.name) ==> forall|k: int|
        0 <= k < p.voices.len() ==> ((#[trigger] p.voices[k]).1 matches Some(i) ==> i
            < m.tracks[p.name].stems.len())
}

/// What new gains offer to the audio thread.
pub open spec fn retarget_offers(m: MusicModel, secs: Scalar) -> Seq<RealtimeCommand> {
    match m.current {
        Some(p) => if m.tracks.contains_key(p.name) {
            fades_to(m.tracks[p.name], p.voices, m.mix, secs)
        } else {
            Seq::empty()
        },
        None => Seq::empty(),
    }
}

/// The director after new gains were offered.
pub open spec fn retargeted(m: MusicModel, linked: bool) -> MusicModel {
    match m.current {
        Some(p) => if linked && m.tracks.contains_key(p.name) {
            MusicModel { mix: Mix { last_sent_factor: m.mix.duck_factor, ..m.mix }, ..m }
        } else {
            m
        },
        None => m,
    }
}

/// The mix after a step of the duck envelope.
pub open spec fn duck_stepped(mix: Mix, motion: DuckMotion) -> Mix {
    let zero = Scalar { bits: 0 };
    match mix.duck_env {
        DuckEnv::Idle => mix,
        DuckEnv::Hold { .. } => if motion.left.le(zero) {
            Mix {
                duck_env: DuckEnv::Release {
                    from: mix.duck_factor,
                    left_secs: mix.duck_release_secs,
                    total_secs: mix.duck_release_secs,
                },
                ..mix
            }
        } else {
            Mix { duck_env: DuckEnv::Hold { left_secs: motion.left }, ..mix }
        },
        DuckEnv::Release { from, left_secs: _, total_secs } => if motion.left.le(zero) {
            Mix {
                duck_factor: Scalar { bits: ONE },
                duck_target: Scalar { bits: ONE },
                duck_env: DuckEnv::Idle,
                ..mix
            }
        } else {
            Mix {
                duck_factor: motion.factor,
                duck_env: DuckEnv::Release { from, left_secs: motion.left, total_secs },
                ..mix
            }
        },
    }
}

/// Whether that step moved the factor enough for new fades.
pub open spec fn duck_moved(mix: Mix, motion: DuckMotion) -> bool {
    let (zero, worth) = (Scalar { bits: 0 }, Scalar { bits: DRIFT });
    match mix.duck_env {
        DuckEnv::Idle => false,
        DuckEnv::Hold { .. } => motion.left.le(zero) && worth.lt(motion.drift),
        DuckEnv::Release { .. } => if motion.left.le(zero) {
            worth.lt(motion.drift_done)
        } else {
            worth.lt(motion.drift_released)
        },
    }
}

/// The mix when a duck begins.
pub open spec fn ducked(mix: Mix, factor: Scalar, hold: Scalar, release: Scalar) -> Mix {
    let dip = factor.clamped(Scalar { bits: 0 }, Scalar { bits: ONE });
    Mix {
        duck_target: dip,
        duck_factor: dip,
        duck_release_secs: release.larger(Scalar { bits: DUCK_ATTACK }),
        duck_env: DuckEnv::Hold { left_secs: hold.larger(Scalar { bits: 0 }) },
        ..mix
    }
}

/// A stem was added to no track.
#[derive(Clone, Copy, Debug, PartialEq, Eq, Structural)]
pub enum StemError {
    UnknownTrack,
}

/// Looping-track director on the game's side. Silent until it is attached.
pub struct Music {
    tracks: NameMap<Track>,
    current: Option<Playing>,
    mix: Mix,
    tx: Option<Sender<RealtimeCommand>>,
}

impl View for Music {
    type V = MusicModel;

    closed spec fn view(&self) -> MusicModel {
        MusicModel {
            tracks: self.tracks@.map_values(|t: Track| t@),
            current: match self.current {
                Some(p) => Some(p@),
                None => None,
            },
            mix: self.mix,
        }
    }
}

fn window(def: &StemDef, intensity: Scalar) -> (w: Window)
    ensures
        w == window_of(*def, intensity),
{
    if def.hi.at_most(def.lo) {
        if def.lo.at_most(intensity) {
            Window::Full
        } else {
            Window::Silent
        }
    } else {
        Window::Ramp { at: intensity, lo: def.lo, hi: def.hi }
    }
}

impl Track {
    fn target(&self, stem: Option<usize>, mix: &Mix) -> (t: FadeTarget)
        requires
            stem matches Some(i) ==> i < self@.stems.len(),
        ensures
            t == target_of(self@, stem, *mix),
    {
        match stem {
            None => FadeTarget::Mix {
                track: self.gain,
                window: Window::Full,
                stem: Scalar::one(),
                duck: mix.duck_factor,
            },
            Some(i) => FadeTarget::Mix {
                track: self.gain,
                window: window(&self.stems[i].def, mix.intensity),
                stem: self.stems[i].def.gain,
                duck: mix.duck_factor,
            },
        }
    }

    /// Start the part `k` as the voice `id`: true if it was taken.
    fn start(
        &self,
        tx: &mut Sender<RealtimeCommand>,
        k: usize,
        id: u64,
        mix: &Mix,
        secs: Scalar,
    ) -> (taken: bool)
        requires
            k <= self@.stems.len(),
        ensures
            ({
                let before = command::offered(*old(tx));
                let after = command::offered(*final(tx));
                let t = self@;
                &&& !taken ==> after == before.push((start_command(t, k as int, id), false))
                &&& taken ==> {
                    &&& after.len() == before.len() + 2
                    &&& after.take(before.len() as int) == before
                    &&& after[before.len() as int] == (start_command(t, k as int, id), true)
                    &&& after.last().0 == fade_in(t, k as int, id, *mix, secs)
                }
            }),
    {
        let ghost before = command::offered(*tx);
        let sound = if k == 0 {
            share(&self.main)
        } else {
            share(&self.stems[k - 1].sound)
        };
        let stem: Option<usize> = if k == 0 {
            None
        } else {
            Some(k - 1)
        };
        let one = Scalar::one();
        let command = PlayCmd {
            voice: id,
            sound,
            gain: Gain { base: Scalar::zero(), scale: one },
            rate: Rate { wobble: None, scale: one },
            pan: Scalar::zero(),
            bus: AudioChannel::Music,
            looping: true,
        };
        if !send(tx, RealtimeCommand::Play(command)) {
            return false;
        }
        let secs = secs.max(Scalar::zero()).max(Scalar::from_bits(MIN_FADE));
        let target = self.target(stem, mix);
        let _ = send(tx, RealtimeCommand::Fade { voice: id, target, secs });
        assert(command::offered(*tx).take(before.len() as int) =~= before);
        true
    }
}

fn fade_out(tx: &mut Sender<RealtimeCommand>, voices: &Vec<(u64, Option<usize>)>, secs: Scalar)
    ensures
        bank::offers_made(
            command::offered(*old(tx)),
            fades_out(voices@, secs),
            command::offered(*final(tx)),
        ),
{
    let ghost before = command::offered(*tx);
    let ghost fades = fades_out(voices@, secs);
    assert(before.take(before.len() as int) =~= before);
    let mut k: usize = 0;
    while k < voices.len()
        invariant
            k <= voices.len(),
            fades == fades_out(voices@, secs),
            bank::offers_made(
                before,
                fades.take(k as int),
                command::offered(*tx),
            ),
        decreases voices.len() - k,
    {
        let ghost mid = command::offered(*tx);
        let command = RealtimeCommand::Fade {
            voice: voices[k].0,
            target: FadeTarget::Silence,
            secs: secs.max(Scalar::zero()),
        };
        let taken = send(tx, command);
        proof {
            lemma_one_more(before, fades, k as int, mid, taken);
        }
        k += 1;
    }
    proof {
        assert(fades.take(voices@.len() as int) =~= fades);
    }
}

/// One more offer from a list.
proof fn lemma_one_more(
    before: Seq<(RealtimeCommand, bool)>,
    commands: Seq<RealtimeCommand>,
    k: int,
    mid: Seq<(RealtimeCommand, bool)>,
    taken: bool,
)
    requires
        0 <= k < commands.len(),
        bank::offers_made(before, commands.take(k), mid),
    ensures
        bank::offers_made(
            before,
            commands.take(k + 1),
            mid.push((commands[k], taken)),
        ),
{
    let after = mid.push((commands[k], taken));
    assert(after.take(before.len() as int) =~= mid.take(before.len() as int));
    assert forall|j: int| 0 <= j < k + 1 implies (#[trigger] after[before.len() + j]).0
        == commands.take(k + 1)[j] by {
        if j < k {
            assert(mid[before.len() + j].0 == commands.take(k)[j]);
        }
    }
}

fn fade_to(
    tx: &mut Sender<RealtimeCommand>,
    track: &Track,
    voices: &Vec<(u64, Option<usize>)>,
    mix: &Mix,
    secs: Scalar,
)
    requires
        forall|k: int|
            0 <= k < voices@.len() ==> ((#[trigger] voices@[k]).1 matches Some(i) ==> i
                < track@.stems.len()),
    ensures
        bank::offers_made(
            command::offered(*old(tx)),
            fades_to(track@, voices@, *mix, secs),
            command::offered(*final(tx)),
        ),
{
    let ghost before = command::offered(*tx);
    let ghost fades = fades_to(track@, voices@, *mix, secs);
    assert(before.take(before.len() as int) =~= before);
    let mut k: usize = 0;
    while k < voices.len()
        invariant
            k <= voices.len(),
            fades == fades_to(track@, voices@, *mix, secs),
            forall|k: int|
                0 <= k < voices@.len() ==> ((#[trigger] voices@[k]).1 matches Some(i) ==> i
                    < track@.stems.len()),
            bank::offers_made(
                before,
                fades.take(k as int),
                command::offered(*tx),
            ),
        decreases voices.len() - k,
    {
        let ghost mid = command::offered(*tx);
        let (voice, stem) = voices[k];
        assert(voices@[k as int] == (voice, stem));
        let target = track.target(stem, mix);
        let secs = secs.max(Scalar::from_bits(MIN_FADE));
        let taken = send(tx, RealtimeCommand::Fade { voice, target, secs });
        proof {
            lemma_one_more(before, fades, k as int, mid, taken);
        }
        k += 1;
    }
    proof {
        assert(fades.take(voices@.len() as int) =~= fades);
    }
}

impl Music {
    pub closed spec fn wf(&self) -> bool {
        self.tracks.wf()
    }

    /// Whether commands have somewhere to go.
    pub closed spec fn linked(&self) -> bool {
        self.tx is Some
    }

    /// What was offered to the link so far.
    pub closed spec fn log(&self) -> Seq<(RealtimeCommand, bool)> {
        match self.tx {
            Some(tx) => command::offered(tx),
            None => Seq::empty(),
        }
    }

    pub fn new() -> (m: Music)
        ensures
            m.wf(),
            !m.linked(),
            m@ == (MusicModel { tracks: Map::empty(), current: None, mix: starting_mix() }),
    {
        let one = Scalar::one();
        let m = Music {
            tracks: NameMap::new(),
            current: None,
            mix: Mix {
                intensity: one,
                duck_factor: one,
                duck_target: one,
                duck_env: DuckEnv::Idle,
                duck_release_secs: Scalar::from_bits(DUCK_RELEASE),
                last_sent_factor: one,
            },
            tx: None,
        };
        proof {
            assert(m@.tracks =~= Map::<Seq<char>, TrackModel>::empty());
        }
        m
    }

    /// Send commands through `tx` from now on.
    pub fn attach(&mut self, tx: Sender<RealtimeCommand>)
        requires
            old(self).wf(),
        ensures
            final(self).wf(),
            final(self)@ == old(self)@,
            final(self).linked(),
            final(self).log() == command::offered(tx),
    {
        self.tx = Some(tx);
    }

    /// Register a looping track by its main mix, in place of any of that
    /// name.
    pub fn load_track(&mut self, name: &str, gain: Scalar, main: Arc<SharedFrames>)
        requires
            old(self).wf(),
        ensures
            final(self).wf(),
            final(self).linked() == old(self).linked(),
            final(self).log() == old(self).log(),
            final(self)@ == (MusicModel {
                tracks: old(self)@.tracks.insert(
                    name@,
                    TrackModel {
                        gain: gain.larger(Scalar { bits: 0 }),
                        main,
                        stems: Seq::empty(),
                    },
                ),
                ..old(self)@
            }),
    {
        let track = Track { gain: gain.max(Scalar::zero()), main, stems: Vec::new() };
        self.tracks.insert(name, track);
        proof {
            assert(self@.tracks =~= old(self)@.tracks.insert(name@, track@));
        }
    }

    /// Add an intensity stem to a registered track.
    pub fn add_stem(&mut self, name: &str, sound: Arc<SharedFrames>, def: StemDef) -> (r: Result<
        (),
        StemError,
    >)
        requires
            old(self).wf(),
        ensures
            final(self).wf(),
            final(self).linked() == old(self).linked(),
            final(self).log() == old(self).log(),
            !old(self)@.tracks.contains_key(name@) ==> r == Err::<(), StemError>(
                StemError::UnknownTrack,
            ) && final(self)@ == old(self)@,
            old(self)@.tracks.contains_key(name@) ==> r is Ok && final(self)@ == (MusicModel {
                tracks: old(self)@.tracks.insert(
                    name@,
                    TrackModel {
                        stems: old(self)@.tracks[name@].stems.push(
                            Stem { sound, def: normalized(def) },
                        ),
                        ..old(self)@.tracks[name@]
                    },
                ),
                ..old(self)@
            }),
    {
        let i: usize = match self.tracks.position(name) {
            Some(i) => i,
            None => return Err(StemError::UnknownTrack),
        };
        let (zero, one) = (Scalar::zero(), Scalar::one());
        let lo = def.lo.clamp(zero, one);
        let hi = def.hi.clamp(zero, one).max(lo);
        let stem = Stem { sound, def: StemDef { lo, hi, gain: def.gain.max(zero) } };
        let track = self.tracks.at_mut(i);
        track.stems.push(stem);
        proof {
            let t = old(self)@.tracks[name@];
            assert(self@.tracks =~= old(self)@.tracks.insert(
                name@,
                TrackModel { stems: t.stems.push(stem), ..t },
            ));
        }
        Ok(())
    }

    /// Drop finished voices; without any left nothing is directed.
    pub fn reap(&mut self, finished: &Vec<u64>)
        requires
            old(self).wf(),
        ensures
            final(self).wf(),
            final(self).linked() == old(self).linked(),
            final(self).log() == old(self).log(),
            final(self)@ == (MusicModel {
                current: match old(self)@.current {
                    Some(p) => {
                        let rest = voices_without(p.voices, finished@);
                        if rest.len() == 0 {
                            None
                        } else {
                            Some(PlayingModel { voices: rest, ..p })
                        }
                    },
                    None => None,
                },
                ..old(self)@
            }),
    {
        let ghost m = self@;
        let mut gone: bool = false;
        if let Some(p) = &mut self.current {
            let ghost voices = p.voices@;
            let mut rest: Vec<(u64, Option<usize>)> = Vec::new();
            let mut i: usize = 0;
            while i < p.voices.len()
                invariant
                    i <= p.voices.len(),
                    p.voices@ == voices,
                    rest@ == voices_without(voices.take(i as int), finished@),
                decreases p.voices.len() - i,
            {
                let v = p.voices[i];
                assert(voices.take(i + 1).drop_last() =~= voices.take(i as int));
                if !holds_id(finished, v.0) {
                    rest.push(v);
                }
                i += 1;
            }
            assert(voices.take(voices.len() as int) =~= voices);
            gone = rest.len() == 0;
            p.voices = rest;
        }
        if gone {
            self.current = None;
        }
    }

    /// Name of the directed track.
    pub fn now_playing(&self) -> (r: Option<&str>)
        ensures
            match self@.current {
                Some(p) => r is Some && r->0@ == p.name,
                None => r is None,
            },
    {
        match &self.current {
            Some(p) => Some(p.name.as_str()),
            None => None,
        }
    }

    /// Whether every voice that plays still has its part in its track. A
    /// track that is loaded anew while it plays can lose them.
    #[verifier::loop_isolation(false)]
    pub fn is_in_tune(&self) -> (r: bool)
        requires
            self.wf(),
        ensures
            r == in_tune(self@),
    {
        let p = match &self.current {
            Some(p) => p,
            None => return true,
        };
        let t = match self.tracks.get(p.name.as_str()) {
            Some(t) => t,
            None => return true,
        };
        let mut k: usize = 0;
        while k < p.voices.len()
            invariant
                k <= p.voices.len(),
                forall|j: int|
                    0 <= j < k ==> ((#[trigger] p.voices@[j]).1 matches Some(i) ==> i
                        < t@.stems.len()),
            decreases p.voices.len() - k,
        {
            if let Some(i) = p.voices[k].1 {
                if i >= t.stems.len() {
                    proof {
                        let m = self@;
                        assert(m.tracks.contains_key(p@.name) && m.tracks[p@.name] == t@);
                        assert(m.current == Some(p@) && p@.voices[k as int].1 == Some(i));
                    }
                    return false;
                }
            }
            k += 1;
        }
        true
    }

    /// Whether new gains can be sent: they need the parts of the voices that
    /// play, and nothing without a link.
    pub fn can_retarget(&self) -> (r: bool)
        requires
            self.wf(),
        ensures
            r == (self.linked() ==> in_tune(self@)),
    {
        self.tx.is_none() || self.is_in_tune()
    }

    /// Whether the duck envelope can take the step that `motion` describes:
    /// it sends new gains only where the factor moved enough.
    pub fn can_update(&self, motion: DuckMotion) -> (r: bool)
        requires
            self.wf(),
        ensures
            r == (duck_moved(self@.mix, motion) && self.linked() ==> in_tune(self@)),
    {
        let worth = Scalar::from_bits(DRIFT);
        let done = motion.left.at_most(Scalar::zero());
        let moved = match self.mix.duck_env {
            DuckEnv::Idle => false,
            DuckEnv::Hold { .. } => done && worth.less(motion.drift),
            DuckEnv::Release { .. } => if done {
                worth.less(motion.drift_done)
            } else {
                worth.less(motion.drift_released)
            },
        };
        !moved || self.can_retarget()
    }

    pub fn has_track(&self, name: &str) -> (r: bool)
        requires
            self.wf(),
        ensures
            r == self@.tracks.contains_key(name@),
    {
        self.tracks.get(name).is_some()
    }

    /// Crossfade to a track over `fade_secs`; zero cuts. False when there
    /// is no link, no such track, or the link took nothing.
    pub fn play(&mut self, state: &mut AudioState, name: &str, fade_secs: Scalar) -> (r: bool)
        requires
            old(self).wf(),
        ensures
            final(self).wf(),
            r || in_tune(old(self)@) ==> in_tune(final(self)@),
            final(self).linked() == old(self).linked(),
            !old(self).linked() || !old(self)@.tracks.contains_key(name@) ==> {
                &&& !r
                &&& final(self)@ == old(self)@
                &&& final(self).log() == old(self).log()
                &&& *final(state) == *old(state)
            },
            old(self).linked() && old(self)@.tracks.contains_key(name@) ==> {
                let m = old(self)@;
                let t = m.tracks[name@];
                let parts = t.stems.len() + 1;
                let outs = match m.current {
                    Some(p) => fades_out(p.voices, fade_secs),
                    None => Seq::empty(),
                };
                let log = final(self).log();
                let split = old(self).log().len() + outs.len();
                let voices = match final(self)@.current {
                    Some(p) => p.voices,
                    None => Seq::empty(),
                };
                &&& split <= log.len()
                &&& bank::offers_made(
                    old(self).log(),
                    outs,
                    log.take(split as int),
                )
                &&& parts_started(
                    t,
                    parts,
                    old(state).next_voice,
                    m.mix,
                    fade_secs,
                    log.skip(split as int),
                    voices,
                )
                &&& *final(state) == (AudioState {
                    next_voice: channels::voice_at(old(state).next_voice, parts),
                    ..*old(state)
                })
                &&& r == (voices.len() > 0)
                &&& final(self)@ == (MusicModel {
                    current: if voices.len() > 0 {
                        Some(PlayingModel { name: name@, voices })
                    } else {
                        None
                    },
                    ..m
                })
            },
    {
        let i: usize = match self.tracks.position(name) {
            Some(i) => i,
            None => return false,
        };
        let mix: Mix = self.mix;
        let mut tx = match self.tx.take() {
            Some(tx) => tx,
            None => return false,
        };
        let ghost before = command::offered(tx);
        let ghost m = old(self)@;
        let ghost outs = match m.current {
            Some(p) => fades_out(p.voices, fade_secs),
            None => Seq::empty(),
        };
        match self.current.take() {
            Some(old_track) => {
                fade_out(&mut tx, &old_track.voices, fade_secs);
            },
            None => {
                assert(before.take(before.len() as int) =~= before);
            },
        }
        let ghost mid = command::offered(tx);
        assert(bank::offers_made(before, outs, mid));
        let track = self.tracks.value_at(i);
        let ghost t = track@;
        let ghost first = state.next_voice;
        let n: usize = track.stems.len();
        let mut voices: Vec<(u64, Option<usize>)> = Vec::new();
        let id: u64 = state.alloc_voice();
        assert(mid.take(mid.len() as int) =~= mid);
        assert(mid.skip(mid.len() as int) =~= Seq::<(RealtimeCommand, bool)>::empty());
        if track.start(&mut tx, 0, id, &mix, fade_secs) {
            voices.push((id, None));
        }
        proof {
            lemma_part(
                t,
                0,
                first,
                mix,
                fade_secs,
                mid,
                mid,
                command::offered(tx),
                Seq::empty(),
                voices@,
            );
        }
        let mut k: usize = 0;
        while k < n
            invariant
                k <= n,
                n == t.stems.len(),
                track@ == t,
                *state == (AudioState {
                    next_voice: channels::voice_at(first, (k + 1) as nat),
                    ..*old(state)
                }),
                mid.len() <= command::offered(tx).len(),
                command::offered(tx).take(mid.len() as int) == mid,
                parts_started(
                    t,
                    (k + 1) as nat,
                    first,
                    mix,
                    fade_secs,
                    command::offered(tx).skip(mid.len() as int),
                    voices@,
                ),
                forall|j: int|
                    0 <= j < voices@.len() ==> ((#[trigger] voices@[j]).1 matches Some(s) ==> s
                        < t.stems.len()),
            decreases n - k,
        {
            let ghost log = command::offered(tx);
            let ghost had = voices@;
            let id: u64 = state.alloc_voice();
            if track.start(&mut tx, k + 1, id, &mix, fade_secs) {
                voices.push((id, Some(k)));
            }
            proof {
                lemma_part(
                    t,
                    (k + 1) as nat,
                    first,
                    mix,
                    fade_secs,
                    mid,
                    log,
                    command::offered(tx),
                    had,
                    voices@,
                );
            }
            k += 1;
        }
        let ghost log = command::offered(tx);
        self.tx = Some(tx);
        proof {
            assert(self@.tracks =~= m.tracks);
            assert(log.take(before.len() + outs.len() as int) == mid);
        }
        if voices.len() == 0 {
            assert(voices@ =~= Seq::<(u64, Option<usize>)>::empty());
            return false;
        }
        self.current = Some(Playing { name: name.to_owned(), voices });
        true
    }

    /// Fade the music out; its voices finish on their own.
    pub fn stop(&mut self, fade_secs: Scalar)
        requires
            old(self).wf(),
        ensures
            final(self).wf(),
            final(self).linked() == old(self).linked(),
            !old(self).linked() ==> final(self)@ == (MusicModel { current: None, ..old(self)@ })
                && final(self).log() == old(self).log(),
            old(self).linked() ==> {
                &&& final(self)@ == (MusicModel { current: None, ..old(self)@ })
                &&& bank::offers_made(
                    old(self).log(),
                    match old(self)@.current {
                        Some(p) => fades_out(p.voices, fade_secs),
                        None => Seq::empty(),
                    },
                    final(self).log(),
                )
            },
    {
        let ghost before = self.log();
        let current = self.current.take();
        assert(before.take(before.len() as int) =~= before);
        if let Some(tx) = &mut self.tx {
            if let Some(p) = current {
                fade_out(tx, &p.voices, fade_secs);
            }
        }
    }

    /// Re-aim every current voice.
    fn retarget(&mut self, secs: Scalar)
        requires
            old(self).wf(),
            old(self).linked() ==> in_tune(old(self)@),
        ensures
            final(self).wf(),
            final(self).linked() == old(self).linked(),
            final(self)@ == retargeted(old(self)@, old(self).linked()),
            !old(self).linked() ==> final(self).log() == old(self).log(),
            old(self).linked() ==> bank::offers_made(
                old(self).log(),
                retarget_offers(old(self)@, secs),
                final(self).log(),
            ),
    {
        let ghost before = self.log();
        assert(before.take(before.len() as int) =~= before);
        if let Some(tx) = &mut self.tx {
            if let Some(p) = &self.current {
                if let Some(track) = self.tracks.get(p.name.as_str()) {
                    fade_to(tx, track, &p.voices, &self.mix, secs);
                    self.mix.last_sent_factor = self.mix.duck_factor;
                }
            }
        }
    }

    /// Set the intensity, within `0 ..= 1`, and move the stems there.
    pub fn set_intensity(&mut self, v: Scalar)
        requires
            old(self).wf(),
            old(self).linked() ==> in_tune(old(self)@),
        ensures
            final(self).wf(),
            in_tune(old(self)@) ==> in_tune(final(self)@),
            final(self).linked() == old(self).linked(),
            ({
                let m = MusicModel {
                    mix: Mix {
                        intensity: v.clamped(Scalar { bits: 0 }, Scalar { bits: ONE }),
                        ..old(self)@.mix
                    },
                    ..old(self)@
                };
                &&& final(self)@ == retargeted(m, old(self).linked())
                &&& !old(self).linked() ==> final(self).log() == old(self).log()
                &&& old(self).linked() ==> bank::offers_made(
                    old(self).log(),
                    retarget_offers(m, Scalar { bits: INTENSITY_FADE }),
                    final(self).log(),
                )
            }),
    {
        self.mix.intensity = v.clamp(Scalar::zero(), Scalar::one());
        self.retarget(Scalar::from_bits(INTENSITY_FADE));
    }

    /// Dip to `factor`, moved into `0 ..= 1`, at once; hold it; then release.
    pub fn duck(&mut self, factor: Scalar, hold_secs: Scalar, release_secs: Scalar)
        requires
            old(self).wf(),
            old(self).linked() ==> in_tune(old(self)@),
        ensures
            final(self).wf(),
            in_tune(old(self)@) ==> in_tune(final(self)@),
            final(self).linked() == old(self).linked(),
            ({
                let m = MusicModel {
                    mix: ducked(old(self)@.mix, factor, hold_secs, release_secs),
                    ..old(self)@
                };
                &&& final(self)@ == retargeted(m, old(self).linked())
                &&& !old(self).linked() ==> final(self).log() == old(self).log()
                &&& old(self).linked() ==> bank::offers_made(
                    old(self).log(),
                    retarget_offers(m, Scalar { bits: DUCK_ATTACK }),
                    final(self).log(),
                )
            }),
    {
        let dip = factor.clamp(Scalar::zero(), Scalar::one());
        self.mix = Mix {
            duck_target: dip,
            duck_factor: dip,
            duck_release_secs: release_secs.max(Scalar::from_bits(DUCK_ATTACK)),
            duck_env: DuckEnv::Hold { left_secs: hold_secs.max(Scalar::zero()) },
            ..self.mix
        };
        self.retarget(Scalar::from_bits(DUCK_ATTACK));
    }

    /// Advance the duck envelope by the step that `motion` describes.
    pub fn update(&mut self, motion: DuckMotion)
        requires
            old(self).wf(),
            duck_moved(old(self)@.mix, motion) && old(self).linked() ==> in_tune(old(self)@),
        ensures
            final(self).wf(),
            in_tune(old(self)@) ==> in_tune(final(self)@),
            final(self).linked() == old(self).linked(),
            ({
                let m = MusicModel {
                    mix: duck_stepped(old(self)@.mix, motion),
                    ..old(self)@
                };
                let moved = duck_moved(old(self)@.mix, motion);
                &&& final(self)@ == if moved {
                    retargeted(m, old(self).linked())
                } else {
                    m
                }
                &&& !moved || !old(self).linked() ==> final(self).log() == old(self).log()
                &&& moved && old(self).linked() ==> bank::offers_made(
                    old(self).log(),
                    retarget_offers(m, Scalar { bits: RELEASE_FADE }),
                    final(self).log(),
                )
            }),
    {
        let zero = Scalar::zero();
        let done = motion.left.at_most(zero);
        let drift: Scalar;
        match self.mix.duck_env {
            DuckEnv::Idle => {
                return;
            },
            DuckEnv::Hold { .. } => {
                if !done {
                    self.mix.duck_env = DuckEnv::Hold { left_secs: motion.left };
                    return;
                }
                self.mix.duck_env = DuckEnv::Release {
                    from: self.mix.duck_factor,
                    left_secs: self.mix.duck_release_secs,
                    total_secs: self.mix.duck_release_secs,
                };
                drift = motion.drift;
            },
            DuckEnv::Release { from, left_secs: _, total_secs } => {
                if done {
                    self.mix.duck_factor = Scalar::one();
                    self.mix.duck_target = Scalar::one();
                    self.mix.duck_env = DuckEnv::Idle;
                    drift = motion.drift_done;
                } else {
                    self.mix.duck_factor = motion.factor;
                    self.mix.duck_env = DuckEnv::Release {
                        from,
                        left_secs: motion.left,
                        total_secs,
                    };
                    drift = motion.drift_released;
                }
            },
        }
        if Scalar::from_bits(DRIFT).less(drift) {
            self.retarget(Scalar::from_bits(RELEASE_FADE));
        }
    }

    /// What shapes the gains now.
    pub fn mix(&self) -> (m: Mix)
        ensures
            m == self@.mix,
    {
        self.mix
    }
}

/// One more part was offered: the record and the voices grow together.
proof fn lemma_part(
    t: TrackModel,
    k: nat,
    first: u64,
    mix: Mix,
    secs: Scalar,
    mid: Seq<(RealtimeCommand, bool)>,
    log: Seq<(RealtimeCommand, bool)>,
    after: Seq<(RealtimeCommand, bool)>,
    had: Seq<(u64, Option<usize>)>,
    voices: Seq<(u64, Option<usize>)>,
)
    requires
        mid.len() <= log.len(),
        log.take(mid.len() as int) == mid,
        parts_started(t, k, first, mix, secs, log.skip(mid.len() as int), had),
        ({
            let id = channels::voice_at(first, k);
            ||| {
                &&& after == log.push((start_command(t, k as int, id), false))
                &&& voices == had
            }
            ||| {
                &&& after.len() == log.len() + 2
                &&& after.take(log.len() as int) == log
                &&& after[log.len() as int] == (start_command(t, k as int, id), true)
                &&& after.last().0 == fade_in(t, k as int, id, mix, secs)
                &&& voices == had.push((id, stem_at(k as int)))
            }
        }),
    ensures
        mid.len() <= after.len(),
        after.take(mid.len() as int) == mid,
        parts_started(t, k + 1, first, mix, secs, after.skip(mid.len() as int), voices),
{
    let n = mid.len() as int;
    let (tail, longer) = (log.skip(n), after.skip(n));
    let id = channels::voice_at(first, k);
    assert(after.take(n) =~= mid) by {
        assert forall|j: int| 0 <= j < n implies after[j] == mid[j] by {
            assert(log.take(n)[j] == mid[j]);
            assert(after.take(log.len() as int)[j] == log[j] || after.len() == log.len() + 1);
        }
    }
    if after.len() == log.len() + 1 {
        assert(longer.drop_last() =~= tail);
        assert(longer.last() == after.last());
    } else {
        assert(longer.take(longer.len() - 2) =~= tail) by {
            assert forall|j: int| 0 <= j < tail.len() implies longer[j] == tail[j] by {
                assert(after.take(log.len() as int)[n + j] == log[n + j]);
            }
        }
        assert(longer[longer.len() - 2] == after[log.len() as int]);
        assert(longer.last() == after.last());
        assert(voices.drop_last() =~= had);
        assert(voices.last() == (id, stem_at(k as int)));
    }
}

/// When the link takes everything, every part of a track plays, the main
/// mix first, each faded in right after its start.
pub proof fn law_all_parts_start(
    t: TrackModel,
    n: nat,
    first: u64,
    mix: Mix,
    secs: Scalar,
    offers: Seq<(RealtimeCommand, bool)>,
    voices: Seq<(u64, Option<usize>)>,
)
    requires
        parts_started(t, n, first, mix, secs, offers, voices),
        forall|j: int| 0 <= j < offers.len() ==> (#[trigger] offers[j]).1,
    ensures
        voices.len() == n,
        offers.len() == 2 * n,
        forall|k: int|
            0 <= k < n ==> #[trigger] voices[k] == (
                channels::voice_at(first, k as nat),
                stem_at(k),
            ),
        forall|k: int|
            0 <= k < n ==> (#[trigger] offers[2 * k]).0 == start_command(
                t,
                k,
                channels::voice_at(first, k as nat),
            ) && offers[2 * k + 1].0 == fade_in(
                t,
                k,
                channels::voice_at(first, k as nat),
                mix,
                secs,
            ),
    decreases n,
{
    if n > 0 {
        let k = (n - 1) as nat;
        let rest = offers.take(offers.len() - 2);
        assert(offers[offers.len() - 1].1);
        assert forall|j: int| 0 <= j < rest.len() implies (#[trigger] rest[j]).1 by {
            assert(rest[j] == offers[j]);
        }
        law_all_parts_start(t, k, first, mix, secs, rest, voices.drop_last());
        assert forall|i: int| 0 <= i < n implies #[trigger] voices[i] == (
            channels::voice_at(first, i as nat),
            stem_at(i),
        ) by {
            if i < k {
                assert(voices.drop_last()[i] == voices[i]);
            } else {
                assert(voices[i] == voices.last());
            }
        }
        assert forall|i: int| 0 <= i < n implies (#[trigger] offers[2 * i]).0 == start_command(
            t,
            i,
            channels::voice_at(first, i as nat),
        ) && offers[2 * i + 1].0 == fade_in(
            t,
            i,
            channels::voice_at(first, i as nat),
            mix,
            secs,
        ) by {
            if i < k {
                assert(rest[2 * i] == offers[2 * i]);
                assert(rest[2 * i + 1] == offers[2 * i + 1]);
            }
        }
    }
}

/// Reaping leaves a part of the voices: what was in tune stays so.
pub proof fn law_reaping_stays_in_tune(m: MusicModel, finished: Seq<u64>)
    requires
        in_tune(m),
        m.current is Some,
    ensures
        in_tune(
            MusicModel {
                current: Some(
                    PlayingModel {
                        voices: voices_without(m.current->0.voices, finished),
                        ..m.current->0
                    },
                ),
                ..m
            },
        ),
        forall|k: int|
            0 <= k < voices_without(m.current->0.voices, finished).len() ==> !finished.contains(
                (#[trigger] voices_without(m.current->0.voices, finished)[k]).0,
            ),
{
    lemma_voices_without(m.current->0.voices, finished);
    let p = m.current->0;
    let rest = voices_without(p.voices, finished);
    if m.tracks.contains_key(p.name) {
        assert forall|k: int| 0 <= k < rest.len() implies ((#[trigger] rest[k]).1 matches Some(i) ==> i
            < m.tracks[p.name].stems.len()) by {
            assert(p.voices.contains(rest[k]));
            let j = choose|j: int| 0 <= j < p.voices.len() && p.voices[j] == rest[k];
            assert(p.voices[j] == rest[k]);
        }
    }
}

proof fn lemma_voices_without(voices: Seq<(u64, Option<usize>)>, gone: Seq<u64>)
    ensures
        forall|k: int|
            0 <= k < voices_without(voices, gone).len() ==> voices.contains(
                #[trigger] voices_without(voices, gone)[k],
            ) && !gone.contains(voices_without(voices, gone)[k].0),
    decreases voices.len(),
{
    if voices.len() > 0 {
        let rest = voices.drop_last();
        lemma_voices_without(rest, gone);
        assert forall|k: int| 0 <= k < voices_without(voices, gone).len() implies voices.contains(
            #[trigger] voices_without(voices, gone)[k],
        ) && !gone.contains(voices_without(voices, gone)[k].0) by {
            let v = voices_without(voices, gone)[k];
            if k < voices_without(rest, gone).len() {
                assert(v == voices_without(rest, gone)[k]);
                let j = choose|j: int| 0 <= j < rest.len() && rest[j] == v;
                assert(voices[j] == v);
            } else {
                assert(voices[voices.len() - 1] == v);
            }
        }
    }
}

/// A duck ends where it began: once its hold and its release have run out,
/// the factor is back at one and the envelope is idle.
pub proof fn law_duck_releases(
    mix: Mix,
    factor: Scalar,
    hold: Scalar,
    release: Scalar,
    held: DuckMotion,
    released: DuckMotion,
)
    requires
        held.left.le(Scalar { bits: 0 }),
        released.left.le(Scalar { bits: 0 }),
    ensures
        ({
            let a = ducked(mix, factor, hold, release);
            let b = duck_stepped(a, held);
            let c = duck_stepped(b, released);
            &&& a.duck_factor == factor.clamped(Scalar { bits: 0 }, Scalar { bits: ONE })
            &&& b.duck_factor == a.duck_factor
            &&& b.duck_env is Release
            &&& c.duck_env == DuckEnv::Idle
            &&& c.duck_factor == (Scalar { bits: ONE })
            &&& c.intensity == mix.intensity
        }),
{
}

/// The main mix does not hear the intensity, and a stem hears nothing else
/// of it than its window.
pub proof fn law_intensity_moves_stems_only(t: TrackModel, a: Mix, b: Mix)
    requires
        a.duck_factor == b.duck_factor,
    ensures
        target_of(t, None, a) == target_of(t, None, b),
        forall|i: usize|
            window_of(t.stems[i as int].def, a.intensity) == window_of(
                t.stems[i as int].def,
                b.intensity,
            ) ==> #[trigger] target_of(t, Some(i), a) == target_of(t, Some(i), b),
{
}

/// The duck factor of the mix scales every part of a track, the main mix
/// and each stem, beside the gain of the track; a stem has its own gain and
/// window besides, and the main mix is heard in full.
pub proof fn law_ducks_scale_every_part(t: TrackModel, stem: Option<usize>, mix: Mix)
    ensures
        target_of(t, stem, mix) matches FadeTarget::Mix { track, window, stem: own, duck }
            && track == t.gain && duck == mix.duck_factor && match stem {
            None => window == Window::Full && own.bits == 0x3f80_0000,
            Some(i) => {
                let def = t.stems[i as int].def;
                &&& own == def.gain
                &&& def.lo.lt(def.hi) ==> window == (Window::Ramp {
                    at: mix.intensity,
                    lo: def.lo,
                    hi: def.hi,
                })
                &&& def.hi.le(def.lo) && def.lo.le(mix.intensity) ==> window == Window::Full
                &&& def.hi.le(def.lo) && mix.intensity.lt(def.lo) ==> window == Window::Silent
            },
        },
{
}

/// Two mixes that differ in the duck factor aim every part elsewhere, and
/// two tracks that differ in gain likewise.
pub proof fn law_ducks_are_heard_everywhere(
    t: TrackModel,
    u: TrackModel,
    stem: Option<usize>,
    a: Mix,
    b: Mix,
)
    ensures
        a.duck_factor != b.duck_factor ==> target_of(t, stem, a) != target_of(t, stem, b),
        t.gain != u.gain ==> target_of(t, stem, a) != target_of(u, stem, a),
{
}

/// New gains reach every voice of the track that plays, in order, each
/// aimed at its own part; without a track there are none.
pub proof fn law_new_gains_reach_every_voice(m: MusicModel, secs: Scalar)
    ensures
        m.current is None ==> retarget_offers(m, secs).len() == 0,
        m.current matches Some(p) ==> m.tracks.contains_key(p.name) ==> {
            &&& retarget_offers(m, secs).len() == p.voices.len()
            &&& forall|k: int|
                0 <= k < p.voices.len() ==> (#[trigger] retarget_offers(m, secs)[k]
                    matches RealtimeCommand::Fade { voice, target, secs: over } && voice
                    == p.voices[k].0 && target == target_of(
                    m.tracks[p.name],
                    p.voices[k].1,
                    m.mix,
                ) && ((Scalar { bits: 0x3c23_d70a }).le(secs) ==> over == secs) && ((
                secs.lt(Scalar { bits: 0x3c23_d70a })) ==> over.bits == 0x3c23_d70a))
        },
        m.current is Some && m.tracks.contains_key(m.current->0.name) ==> retargeted(
            m,
            true,
        ).mix.last_sent_factor == m.mix.duck_factor,
        retargeted(m, false) == m,
        retargeted(m, true).current == m.current,
        retargeted(m, true).tracks == m.tracks,
        retargeted(m, true).mix.duck_factor == m.mix.duck_factor,
        retargeted(m, true).mix.duck_env == m.mix.duck_env,
        retargeted(m, true).mix.intensity == m.mix.intensity,
{
}

/// Fading out sends every voice to silence, over the seconds asked for, or
/// none where they are negative.
pub proof fn law_fades_out_silence_every_voice(
    voices: Seq<(u64, Option<usize>)>,
    secs: Scalar,
)
    ensures
        fades_out(voices, secs).len() == voices.len(),
        forall|k: int|
            0 <= k < voices.len() ==> (#[trigger] fades_out(voices, secs)[k]
                matches RealtimeCommand::Fade { voice, target, secs: over } && voice
                == voices[k].0 && target == FadeTarget::Silence && ((Scalar { bits: 0 }).le(secs)
                ==> over == secs) && (secs.lt(Scalar { bits: 0 }) ==> over.bits == 0)),
{
}

/// A part starts silent, at its own pitch, in the middle, looping, on the
/// music bus, under the id it was given: the main mix as part zero, each
/// stem after it. Its fade then brings it to where it belongs.
pub proof fn law_parts_start_silent_and_fade_in(
    t: TrackModel,
    k: int,
    id: u64,
    mix: Mix,
    secs: Scalar,
)
    requires
        0 <= k <= t.stems.len(),
        t.stems.len() <= usize::MAX,
    ensures
        start_command(t, k, id) matches RealtimeCommand::Play(p) && p.voice == id && p.sound == (
        if k == 0 {
            t.main
        } else {
            t.stems[k - 1].sound
        }) && p.gain.base.bits == 0 && p.rate.wobble is None && p.rate.scale.bits == 0x3f80_0000
            && p.pan.bits == 0 && p.bus == AudioChannel::Music && p.looping,
        fade_in(t, k, id, mix, secs) matches RealtimeCommand::Fade { voice, target, secs: over }
            && voice == id && target == target_of(
            t,
            if k == 0 {
                None
            } else {
                Some((k - 1) as usize)
            },
            mix,
        ) && ((Scalar { bits: 0x3c23_d70a }).le(secs) ==> over == secs) && (secs.lt(
            Scalar { bits: 0x3c23_d70a },
        ) ==> over.bits == 0x3c23_d70a),
{
}

/// Stems are kept with their window within `0 ..= 1` and not upside down,
/// and with a gain that is not negative; what is so already stays.
pub proof fn law_stems_are_kept_in_order(def: StemDef)
    requires
        !def.lo.nan(),
        !def.hi.nan(),
    ensures
        ({
            let (zero, one) = (Scalar { bits: 0 }, Scalar { bits: 0x3f80_0000 });
            let n = normalized(def);
            &&& zero.le(n.lo) && n.lo.le(n.hi) && n.hi.le(one)
            &&& zero.le(n.gain)
            &&& zero.le(def.lo) && def.lo.le(def.hi) && def.hi.le(one) ==> n.lo == def.lo && n.hi
                == def.hi
            &&& def.lo.lt(zero) ==> n.lo == zero
            &&& one.lt(def.hi) ==> n.hi == one
            &&& zero.le(def.gain) ==> n.gain == def.gain
        }),
{
}

/// A duck dips at once to its factor, moved into `0 ..= 1`, holds for its
/// seconds, and is to release over a twentieth of a second at least. The
/// intensity is left alone.
pub proof fn law_ducks_dip_at_once(mix: Mix, factor: Scalar, hold: Scalar, release: Scalar)
    ensures
        ({
            let (zero, one) = (Scalar { bits: 0 }, Scalar { bits: 0x3f80_0000 });
            let least = Scalar { bits: 0x3d4c_cccd };
            let d = ducked(mix, factor, hold, release);
            &&& zero.le(factor) && factor.le(one) ==> d.duck_factor == factor
            &&& factor.lt(zero) ==> d.duck_factor == zero
            &&& one.lt(factor) ==> d.duck_factor == one
            &&& d.duck_target == d.duck_factor
            &&& d.duck_env matches DuckEnv::Hold { left_secs } && (zero.le(hold) ==> left_secs
                == hold) && (hold.lt(zero) ==> left_secs == zero)
            &&& least.le(release) ==> d.duck_release_secs == release
            &&& release.lt(least) ==> d.duck_release_secs == least
            &&& d.intensity == mix.intensity
            &&& d.last_sent_factor == mix.last_sent_factor
        }),
{
}

/// The envelope holds until its time is up, then releases from the factor
/// it held, along the factors it is handed, over the release time; when
/// that is up it is idle at full gain. An idle one does not move.
pub proof fn law_envelopes_run_their_course(mix: Mix, motion: DuckMotion)
    ensures
        ({
            let after = duck_stepped(mix, motion);
            let up = motion.left.le(Scalar { bits: 0 });
            &&& after.intensity == mix.intensity
            &&& after.duck_release_secs == mix.duck_release_secs
            &&& after.last_sent_factor == mix.last_sent_factor
            &&& mix.duck_env is Idle ==> after == mix
            &&& mix.duck_env is Hold ==> after.duck_factor == mix.duck_factor && after.duck_target
                == mix.duck_target
            &&& mix.duck_env is Hold && !up ==> after.duck_env == (DuckEnv::Hold {
                left_secs: motion.left,
            })
            &&& mix.duck_env is Hold && up ==> after.duck_env == (DuckEnv::Release {
                from: mix.duck_factor,
                left_secs: mix.duck_release_secs,
                total_secs: mix.duck_release_secs,
            })
            &&& mix.duck_env matches DuckEnv::Release { from, left_secs, total_secs } ==> !up
                ==> after.duck_factor == motion.factor && after.duck_target == mix.duck_target
                && after.duck_env == (DuckEnv::Release { from, left_secs: motion.left, total_secs })
            &&& mix.duck_env is Release && up ==> after.duck_env is Idle
                && after.duck_factor.bits == 0x3f80_0000 && after.duck_target.bits == 0x3f80_0000
        }),
{
}

/// A step of the envelope is worth new fades exactly if the factor it comes
/// to lies more than 0.005 from the one that was sent last; holding on is
/// not.
pub proof fn law_small_drifts_are_not_sent(mix: Mix, motion: DuckMotion)
    ensures
        ({
            let worth = Scalar { bits: 0x3ba3_d70a };
            let up = motion.left.le(Scalar { bits: 0 });
            &&& mix.duck_env is Idle ==> !duck_moved(mix, motion)
            &&& mix.duck_env is Hold && !up ==> !duck_moved(mix, motion)
            &&& mix.duck_env is Hold && up ==> (duck_moved(mix, motion) <==> worth.lt(motion.drift))
            &&& mix.duck_env is Release && up ==> (duck_moved(mix, motion) <==> worth.lt(
                motion.drift_done,
            ))
            &&& mix.duck_env is Release && !up ==> (duck_moved(mix, motion) <==> worth.lt(
                motion.drift_released,
            ))
        }),
{
}

/// Fades are as long as they are named: three tenths of a second for the
/// intensity, a twentieth for the attack of a duck, a tenth while it
/// releases. A director starts at full intensity, undipped, with a release
/// of half a second.
pub proof fn law_fades_have_their_lengths()
    ensures
        INTENSITY_FADE == 0x3e99_999a,
        DUCK_ATTACK == 0x3d4c_cccd,
        RELEASE_FADE == 0x3dcc_cccd,
        starting_mix().intensity.bits == 0x3f80_0000,
        starting_mix().duck_factor.bits == 0x3f80_0000,
        starting_mix().duck_target.bits == 0x3f80_0000,
        starting_mix().last_sent_factor.bits == 0x3f80_0000,
        starting_mix().duck_env is Idle,
        starting_mix().duck_release_secs.bits == 0x3f00_0000,
{
}

/// Reaping drops the voices that finished and keeps all others, in their
/// order.
pub proof fn law_reaping_keeps_the_rest(voices: Seq<(u64, Option<usize>)>, gone: Seq<u64>)
    ensures
        forall|v: (u64, Option<usize>)| #[trigger]
            voices_without(voices, gone).contains(v) <==> voices.contains(v) && !gone.contains(v.0),
        (forall|k: int| 0 <= k < voices.len() ==> !gone.contains((#[trigger] voices[k]).0))
            ==> voices_without(voices, gone) == voices,
    decreases voices.len(),
{
    if voices.len() > 0 {
        let (front, last) = (voices.drop_last(), voices.last());
        law_reaping_keeps_the_rest(front, gone);
        let (some, all) = (voices_without(front, gone), voices_without(voices, gone));
        assert(front.push(last) =~= voices);
        assert forall|v: (u64, Option<usize>)| #[trigger] all.contains(v) <==> voices.contains(v)
            && !gone.contains(v.0) by {
            lemma_pushed(front, last, v);
            lemma_pushed(some, last, v);
        }
        if forall|k: int| 0 <= k < voices.len() ==> !gone.contains((#[trigger] voices[k]).0) {
            assert forall|k: int| 0 <= k < front.len() implies !gone.contains(
                (#[trigger] front[k]).0,
            ) by {
                assert(voices[k] == front[k]);
            }
            assert(!gone.contains(voices[voices.len() - 1].0));
        }
    }
}

proof fn lemma_pushed(
    s: Seq<(u64, Option<usize>)>,
    last: (u64, Option<usize>),
    v: (u64, Option<usize>),
)
    ensures
        s.push(last).contains(v) <==> s.contains(v) || v == last,
{
    let all = s.push(last);
    if s.contains(v) {
        let k = choose|k: int| 0 <= k < s.len() && s[k] == v;
        assert(all[k] == v);
    }
    assert(all[s.len() as int] == last);
}

} // verus!
