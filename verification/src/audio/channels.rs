//! Buses: master, music, sfx, and ui, with linear gains.

use crate::scalar::Scalar;
use vstd::prelude::*;

verus! {

/// Named bus.
#[derive(Clone, Copy, Debug, PartialEq, Eq, Hash, Structural)]
pub enum AudioChannel {
    Master,
    Music,
    Sfx,
    Ui,
}

/// The music bus starts at 0.8.
pub const MUSIC_GAIN: u32 = 0x3f4c_cccd;

/// Full gain, the number 1.
pub const FULL_GAIN: u32 = 0x3f80_0000;

/// Gain of each bus. What is heard is the bus behind the master.
#[derive(Clone, Copy, Debug, PartialEq, Eq, Structural)]
pub struct AudioChannels {
    pub master: Scalar,
    pub music: Scalar,
    pub sfx: Scalar,
    pub ui: Scalar,
}

impl Default for AudioChannels {
    fn default() -> (c: AudioChannels)
        ensures
            c == starting_gains(),
    {
        AudioChannels {
            master: Scalar::from_bits(FULL_GAIN),
            music: Scalar::from_bits(MUSIC_GAIN),
            sfx: Scalar::from_bits(FULL_GAIN),
            ui: Scalar::from_bits(FULL_GAIN),
        }
    }
}

/// The gains that a mixer starts with.
pub open spec fn starting_gains() -> AudioChannels {
    AudioChannels {
        master: Scalar { bits: FULL_GAIN },
        music: Scalar { bits: MUSIC_GAIN },
        sfx: Scalar { bits: FULL_GAIN },
        ui: Scalar { bits: FULL_GAIN },
    }
}

/// Gain of one bus.
pub open spec fn gain_of(c: AudioChannels, channel: AudioChannel) -> Scalar {
    match channel {
        AudioChannel::Master => c.master,
        AudioChannel::Music => c.music,
        AudioChannel::Sfx => c.sfx,
        AudioChannel::Ui => c.ui,
    }
}

/// The gains after one bus was set; a negative gain counts as zero.
pub open spec fn gains_with(c: AudioChannels, channel: AudioChannel, gain: Scalar) -> AudioChannels {
    let g = gain.larger(Scalar { bits: 0 });
    match channel {
        AudioChannel::Master => AudioChannels { master: g, ..c },
        AudioChannel::Music => AudioChannels { music: g, ..c },
        AudioChannel::Sfx => AudioChannels { sfx: g, ..c },
        AudioChannel::Ui => AudioChannels { ui: g, ..c },
    }
}

impl AudioChannels {
    /// Raw bus gain.
    pub fn get(&self, channel: AudioChannel) -> (g: Scalar)
        ensures
            g == gain_of(*self, channel),
    {
        match channel {
            AudioChannel::Master => self.master,
            AudioChannel::Music => self.music,
            AudioChannel::Sfx => self.sfx,
            AudioChannel::Ui => self.ui,
        }
    }

    /// Set one bus, at least to zero.
    pub fn set(&mut self, channel: AudioChannel, gain: Scalar)
        ensures
            *final(self) == gains_with(*old(self), channel, gain),
    {
        let gain = gain.max(Scalar::zero());
        match channel {
            AudioChannel::Master => self.master = gain,
            AudioChannel::Music => self.music = gain,
            AudioChannel::Sfx => self.sfx = gain,
            AudioChannel::Ui => self.ui = gain,
        }
    }

    pub fn master(&self) -> (g: Scalar)
        ensures
            g == self.master,
    {
        self.master
    }

    pub fn music(&self) -> (g: Scalar)
        ensures
            g == self.music,
    {
        self.music
    }

    pub fn sfx(&self) -> (g: Scalar)
        ensures
            g == self.sfx,
    {
        self.sfx
    }

    pub fn ui(&self) -> (g: Scalar)
        ensures
            g == self.ui,
    {
        self.ui
    }

    /// Factors of what is heard of a bus: its own gain behind the master's.
    /// The master has no stage before it.
    pub fn effective(&self, channel: AudioChannel) -> (factors: (Scalar, Scalar))
        ensures
            channel == AudioChannel::Master ==> factors == (self.master, Scalar { bits: FULL_GAIN }),
            channel != AudioChannel::Master ==> factors == (self.master, gain_of(*self, channel)),
    {
        match channel {
            AudioChannel::Master => (self.master, Scalar::from_bits(FULL_GAIN)),
            _ => (self.master, self.get(channel)),
        }
    }
}

/// A bus keeps what was set on it, and setting one leaves the others alone.
pub proof fn law_buses_are_independent(c: AudioChannels, a: AudioChannel, b: AudioChannel, gain: Scalar)
    ensures
        gain_of(gains_with(c, a, gain), a) == gain.larger(Scalar { bits: 0 }),
        a != b ==> gain_of(gains_with(c, a, gain), b) == gain_of(c, b),
        !gain.nan() ==> (Scalar { bits: 0 }).le(gain_of(gains_with(c, a, gain), a)),
{
}

/// What the two ends of the audio link share: transport, bus gains, voice
/// ids. Whoever holds it works on it alone.
#[derive(Clone, Copy, Debug, PartialEq, Eq, Structural)]
pub struct AudioState {
    /// Transport gate: silence is rendered while false.
    pub playing: bool,
    /// Device rate in Hz; zero until a stream opens.
    pub sample_rate: u32,
    pub gains: AudioChannels,
    /// The next voice id. Zero is no id.
    pub next_voice: u64,
    /// Callback overruns.
    pub xruns: u64,
}

/// The voice id after this one.
pub open spec fn voice_after(id: u64) -> u64 {
    if id == u64::MAX {
        0
    } else {
        (id + 1) as u64
    }
}

impl Default for AudioState {
    fn default() -> (s: AudioState)
        ensures
            s == starting_state(),
    {
        AudioState {
            playing: true,
            sample_rate: 0,
            gains: AudioChannels::default(),
            next_voice: 1,
            xruns: 0,
        }
    }
}

/// A link that has just been made.
pub open spec fn starting_state() -> AudioState {
    AudioState {
        playing: true,
        sample_rate: 0,
        gains: starting_gains(),
        next_voice: 1,
        xruns: 0,
    }
}

impl AudioState {
    pub fn new() -> (s: AudioState)
        ensures
            s == starting_state(),
    {
        AudioState::default()
    }

    /// A fresh voice id.
    pub fn alloc_voice(&mut self) -> (id: u64)
        ensures
            id == old(self).next_voice,
            *final(self) == (AudioState { next_voice: voice_after(id), ..*old(self) }),
    {
        let id: u64 = self.next_voice;
        self.next_voice = if id == u64::MAX {
            0
        } else {
            id + 1
        };
        id
    }

    /// Device rate in Hz, or zero when no stream is open.
    pub fn sample_rate(&self) -> (hz: u32)
        ensures
            hz == self.sample_rate,
    {
        self.sample_rate
    }

    pub fn set_sample_rate(&mut self, hz: u32)
        ensures
            *final(self) == (AudioState { sample_rate: hz, ..*old(self) }),
    {
        self.sample_rate = hz;
    }

    /// Linear gain of a bus.
    pub fn bus_gain(&self, channel: AudioChannel) -> (g: Scalar)
        ensures
            g == gain_of(self.gains, channel),
    {
        self.gains.get(channel)
    }

    /// Set the gain of a bus, at least to zero.
    pub fn set_bus_gain(&mut self, channel: AudioChannel, gain: Scalar)
        ensures
            *final(self) == (AudioState {
                gains: gains_with(old(self).gains, channel, gain),
                ..*old(self)
            }),
    {
        self.gains.set(channel, gain);
    }
}

/// The id after `n` more.
pub open spec fn voice_at(start: u64, n: nat) -> u64
    decreases n,
{
    if n == 0 {
        start
    } else {
        voice_after(voice_at(start, (n - 1) as nat))
    }
}

/// The ids of a link are all different and never zero, until as many were
/// handed out as there are ids.
pub proof fn law_voice_ids_are_unique(i: nat, j: nat)
    requires
        i < j,
        j < u64::MAX,
    ensures
        voice_at(1, i) != voice_at(1, j),
        voice_at(1, i) != 0,
{
    lemma_voice_at(i);
    lemma_voice_at(j);
}

proof fn lemma_voice_at(n: nat)
    requires
        n < u64::MAX,
    ensures
        voice_at(1, n) == n + 1,
    decreases n,
{
    if n > 0 {
        lemma_voice_at((n - 1) as nat);
    }
}

/// Each bus is set and read under its own name: setting one leaves the
/// fields of the others, and a gain that is not negative is kept as it is.
pub proof fn law_buses_are_set_by_name(c: AudioChannels, gain: Scalar)
    requires
        (Scalar { bits: 0 }).le(gain),
    ensures
        gains_with(c, AudioChannel::Master, gain) == (AudioChannels { master: gain, ..c }),
        gains_with(c, AudioChannel::Music, gain) == (AudioChannels { music: gain, ..c }),
        gains_with(c, AudioChannel::Sfx, gain) == (AudioChannels { sfx: gain, ..c }),
        gains_with(c, AudioChannel::Ui, gain) == (AudioChannels { ui: gain, ..c }),
        gain_of(c, AudioChannel::Master) == c.master,
        gain_of(c, AudioChannel::Music) == c.music,
        gain_of(c, AudioChannel::Sfx) == c.sfx,
        gain_of(c, AudioChannel::Ui) == c.ui,
{
}

/// A link starts playing, without a device, at full gains but for the
/// music, which is at four fifths, and with the first id at one.
pub proof fn law_links_start_playing()
    ensures
        starting_state().playing,
        starting_state().sample_rate == 0,
        starting_state().next_voice == 1,
        starting_state().xruns == 0,
        starting_state().gains == starting_gains(),
        starting_gains().master.bits == 0x3f80_0000,
        starting_gains().music.bits == 0x3f4c_cccd,
        starting_gains().sfx.bits == 0x3f80_0000,
        starting_gains().ui.bits == 0x3f80_0000,
{
}

/// Ids go up by one, and start over at zero behind the last.
pub proof fn law_ids_go_up(id: u64)
    ensures
        id < u64::MAX ==> voice_after(id) == id + 1,
        id == u64::MAX ==> voice_after(id) == 0,
{
}

} // verus!
