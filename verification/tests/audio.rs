use std::collections::HashSet;
use std::io::Cursor;
use std::sync::Arc;

use repame::audio::assemble::{check_input, Assembler, DecodeError, PacketEvent};
use repame::audio::bank::{CueDef, LoadError, Shape, SoundBank, Variation};
use repame::audio::channels::{AudioChannel, AudioChannels, AudioState};
use repame::audio::command::{
    EngineEvent, FadeTarget, Gain, PlayCmd, Rate, RealtimeCommand, SharedFrames, Window, MAX_DRAW,
};
use repame::audio::music::{DuckEnv, DuckMotion, Music, StemDef, StemError};
use repame::audio::output::{
    pick_output, stream_config, OutputConfig, OutputError, OutputRange, SampleFormat,
};
use repame::audio::rig::RigAudio;
use repame::audio::service::{Audio, SourceError};
use repame::audio::source::{sniff_format, write_wav, AudioFormat, AudioSource};
use repame::audio::voices::{taps, Heard, Ramp, Taps, VoiceTable};
use repame::scalar::Scalar;
use web_workers::sync::mpsc::{channel, Receiver};

fn s(v: f32) -> Scalar {
    Scalar::from_bits(v.to_bits())
}

fn f(v: Scalar) -> f32 {
    f32::from_bits(v.bits)
}

fn synth_sine_wav(freq_hz: f32, secs: f32, sample_rate: u32) -> Vec<u8> {
    let n = (sample_rate as f32 * secs) as usize;
    let samples: Vec<i16> = (0..n)
        .map(|i| {
            let t = i as f32 / sample_rate as f32;
            let v = (2.0 * std::f32::consts::PI * freq_hz * t).sin() * (-t * 30.0).exp() * 0.5;
            (v.clamp(-1.0, 1.0) * i16::MAX as f32) as i16
        })
        .collect();
    write_wav(&samples, sample_rate)
}

fn decode_bytes(bytes: &[u8]) -> Result<SharedFrames, String> {
    check_input(bytes).map_err(|e| format!("{e:?}"))?;
    let mss = symphonia::core::io::MediaSourceStream::new(Box::new(Cursor::new(bytes.to_vec())), Default::default());
    let mut format = symphonia::default::get_probe()
        .probe(&symphonia::core::formats::probe::Hint::new(), mss, symphonia::core::formats::FormatOptions::default(), symphonia::core::meta::MetadataOptions::default())
        .map_err(|e| e.to_string())?;
    let track = format.default_track(symphonia::core::formats::TrackType::Audio).ok_or("no audio track")?;
    let track_id = track.id;
    let codec = track.codec_params.clone().ok_or("no codec parameters")?;
    let params = codec.audio().ok_or("not audio")?;
    let rate = params.sample_rate.ok_or("unknown rate")?;
    let channels = params.channels.clone().map(|c| c.count()).unwrap_or(1);
    let mut decoder = symphonia::default::get_codecs()
        .make_audio_decoder(params, &symphonia::core::codecs::audio::AudioDecoderOptions::default())
        .map_err(|e| e.to_string())?;
    let mut sound = Assembler::new(channels);
    loop {
        let event = match format.next_packet() {
            Ok(Some(packet)) if packet.track_id != track_id => PacketEvent::OtherTrack,
            Ok(Some(packet)) => match decoder.decode(&packet) {
                Ok(decoded) => {
                    let mut samples: Vec<f32> = Vec::new();
                    decoded.copy_to_vec_interleaved(&mut samples);
                    PacketEvent::Samples(samples.into_iter().map(s).collect())
                }
                Err(symphonia::core::errors::Error::DecodeError(_)) => PacketEvent::Corrupt,
                Err(_) => PacketEvent::DecodeFailed,
            },
            Ok(None) | Err(symphonia::core::errors::Error::ResetRequired) => PacketEvent::End,
            Err(_) => PacketEvent::ReadFailed,
        };
        if sound.feed(event).map_err(|e| format!("{e:?}"))? {
            break;
        }
    }
    sound.finish(rate).map_err(|e| format!("{e:?}"))
}

fn sound(wav: &[u8]) -> Arc<SharedFrames> {
    Arc::new(decode_bytes(wav).unwrap())
}

fn level(g: Gain) -> f32 {
    f(g.base) * f(g.scale).max(0.0)
}

fn speed(r: Rate) -> f32 {
    let wobble = match r.wobble {
        Some((draw, depth)) => {
            let unit = draw as f32 / MAX_DRAW as f32 * 2.0 - 1.0;
            1.0 + unit * f(depth)
        }
        None => 1.0,
    };
    (wobble * f(r.scale)).max(0.01)
}

fn target(t: FadeTarget) -> f32 {
    match t {
        FadeTarget::Silence => 0.0,
        FadeTarget::Mix { track, window, stem, duck } => {
            let w = match window {
                Window::Full => 1.0,
                Window::Silent => 0.0,
                Window::Ramp { at, lo, hi } => {
                    ((f(at) - f(lo)) / (f(hi) - f(lo))).clamp(0.0, 1.0)
                }
            };
            f(track) * w * f(stem) * f(duck)
        }
    }
}

fn apply(table: &mut VoiceTable, cmd: RealtimeCommand) {
    let heard = match &cmd {
        RealtimeCommand::Play(p) => Heard { level: s(level(p.gain)), rate: s(speed(p.rate)) },
        RealtimeCommand::Fade { target: t, .. } => Heard { level: s(target(*t)), rate: s(1.0) },
        _ => Heard { level: s(0.0), rate: s(0.0) },
    };
    table.apply(cmd, heard);
}

fn render(table: &mut VoiceTable, frames: usize) -> (Vec<f32>, Vec<EngineEvent>) {
    let mut out = vec![0.0f32; frames * 2];
    if !table.renders(2) {
        return (out, Vec::new());
    }
    let state = table.state();
    let rate = state.sample_rate();
    let block = frames as f32 / rate as f32;
    let mut ended = Vec::new();
    for id in table.ids() {
        let ramp = match table.get(id).unwrap().fade {
            Some(a) => {
                let t = f(a.t) + block;
                let k = (t / f(a.secs)).min(1.0);
                Ramp { t: s(t), k: s(k), gain: s(f(a.from) + (f(a.to) - f(a.from)) * k) }
            }
            None => Ramp { t: s(0.0), k: s(0.0), gain: s(0.0) },
        };
        if table.ramp(id, ramp) {
            ended.push(id);
            continue;
        }
        let v = table.get(id).unwrap();
        let len = v.sound.len_frames();
        let step = f(v.rate).max(0.01) as f64 * v.sound.sample_rate as f64 / rate as f64;
        let g = f(v.gain) * f(state.bus_gain(v.bus));
        let angle = (f(v.pan) + 1.0) * std::f32::consts::FRAC_PI_4;
        let mut pos = f64::from_bits(v.pos);
        for frame in out.chunks_mut(2) {
            if pos >= len as f64 {
                if v.looping {
                    pos %= len as f64;
                } else {
                    break;
                }
            }
            let at = pos as usize;
            let frac = (pos - at as f64) as f32;
            let t = taps(&v.sound, at);
            let read = |a: usize, b: usize| {
                let (x, y) = (f(v.sound.frames[a]), f(v.sound.frames[b]));
                x + (y - x) * frac
            };
            if g > 0.0 {
                frame[0] += read(t.left.0, t.left.1) * angle.cos() * g;
                frame[1] += read(t.right.0, t.right.1) * angle.sin() * g;
            }
            pos += step;
        }
        if table.moved(id, pos.to_bits(), pos >= len as f64) {
            ended.push(id);
        }
    }
    let events = table.finish(&ended);
    (out, events)
}

fn peak(out: &[f32]) -> f32 {
    out.iter().map(|v| v.abs()).fold(0.0, f32::max)
}

fn full(voice: u64, sound: Arc<SharedFrames>, pan: f32) -> PlayCmd {
    PlayCmd {
        voice,
        sound,
        gain: Gain { base: s(1.0), scale: s(1.0) },
        rate: Rate { wobble: None, scale: s(1.0) },
        pan: s(pan),
        bus: AudioChannel::Sfx,
        looping: false,
    }
}

fn play_cmd(voice: u64, freq: f32) -> PlayCmd {
    full(voice, sound(&synth_sine_wav(freq, 0.05, 44100)), 0.0)
}

fn flat_cmd(voice: u64, freq: f32, pan: f32) -> PlayCmd {
    let frames: Vec<Scalar> = (0..4410)
        .map(|i| s((2.0 * std::f32::consts::PI * freq * i as f32 / 44100.0).sin() * 0.5))
        .collect();
    full(voice, Arc::new(SharedFrames { sample_rate: 44100, channels: 1, frames }), pan)
}

fn table() -> (VoiceTable, AudioState) {
    let mut t = VoiceTable::new();
    t.set_sample_rate(44100);
    (t, AudioState::new())
}

#[test]
fn frames_len_counts_channels() {
    let mono = SharedFrames { sample_rate: 44100, channels: 1, frames: vec![s(0.0); 100] };
    assert_eq!(mono.len_frames(), 100);
    let stereo = SharedFrames { sample_rate: 48000, channels: 2, frames: vec![s(0.0); 100] };
    assert_eq!(stereo.len_frames(), 50);
    assert!(SharedFrames { sample_rate: 0, channels: 0, frames: vec![] }.is_empty());
}

#[test]
fn commands_round_trip_without_blocking() {
    let (tx, rx) = channel();
    let (events_tx, events_rx) = channel();
    let mut state = AudioState::new();
    let frames = Arc::new(SharedFrames { sample_rate: 44100, channels: 1, frames: vec![s(0.0); 100] });
    let mut cmd = full(state.alloc_voice(), frames, -0.5);
    cmd.gain.base = s(0.8);
    assert!(tx.send_spin(RealtimeCommand::Play(cmd)).is_ok());
    assert!(tx.send_spin(RealtimeCommand::StopBus(AudioChannel::Music)).is_ok());
    let first = rx.try_recv().expect("first command");
    assert!(matches!(first, RealtimeCommand::Play(_)));
    let second = rx.try_recv().expect("second command");
    assert!(matches!(second, RealtimeCommand::StopBus(AudioChannel::Music)));
    assert!(rx.try_recv().is_err());
    assert!(events_tx.send_spin(EngineEvent::Finished(1)).is_ok());
    let event = events_rx.try_recv().expect("event");
    assert_eq!(event, EngineEvent::Finished(1));
    assert_eq!(event.voice(), 1);
}

#[test]
fn voice_renders_then_finishes() {
    let (mut t, mut state) = table();
    let id = state.alloc_voice();
    apply(&mut t, RealtimeCommand::Play(play_cmd(id, 440.0)));
    let (out, _) = render(&mut t, 512);
    assert!(peak(&out) > 0.1, "peak = {}", peak(&out));
    let (_, events) = render(&mut t, 2205);
    assert!(!t.contains(id));
    assert_eq!(events, vec![EngineEvent::Finished(id)]);
}

#[test]
fn pause_renders_silence_and_stop_removes() {
    let (mut t, mut state) = table();
    let id = state.alloc_voice();
    apply(&mut t, RealtimeCommand::Play(play_cmd(id, 440.0)));
    apply(&mut t, RealtimeCommand::Pause(true));
    let (out, events) = render(&mut t, 512);
    assert!(out.iter().all(|v| *v == 0.0));
    assert!(events.is_empty());
    assert!(t.contains(id));
    apply(&mut t, RealtimeCommand::Pause(false));
    apply(&mut t, RealtimeCommand::Stop(id));
    let (_, events) = render(&mut t, 64);
    assert!(!t.contains(id));
    assert!(events.is_empty());
}

#[test]
fn looping_wraps_without_completion() {
    let (mut t, mut state) = table();
    let id = state.alloc_voice();
    let mut cmd = play_cmd(id, 330.0);
    cmd.looping = true;
    apply(&mut t, RealtimeCommand::Play(cmd));
    for _ in 0..4 {
        let (_, events) = render(&mut t, 2205);
        assert!(events.is_empty());
    }
    assert!(t.contains(id));
}

#[test]
fn bus_gain_and_pan_shape_output() {
    let (mut t, mut state) = table();
    let id = state.alloc_voice();
    apply(&mut t, RealtimeCommand::Play(flat_cmd(id, 440.0, -1.0)));
    let (out, _) = render(&mut t, 512);
    let energy: f32 = out.iter().step_by(2).map(|v| v.abs()).sum();
    let right: f32 = out.iter().skip(1).step_by(2).map(|v| v.abs()).fold(0.0, f32::max);
    assert!(energy > 10.0 && right < 0.01, "energy={energy} r={right}");
    apply(&mut t, RealtimeCommand::SetBus { bus: AudioChannel::Sfx, gain: s(0.5) });
    let (out, _) = render(&mut t, 512);
    let half_energy: f32 = out.iter().step_by(2).map(|v| v.abs()).sum();
    assert!(
        (half_energy - energy * 0.5).abs() < energy * 0.02,
        "half={half_energy} energy={energy}"
    );
}

#[test]
fn fade_ramps_gain_and_finishes_at_zero() {
    let (mut t, mut state) = table();
    let id = state.alloc_voice();
    apply(&mut t, RealtimeCommand::Play(flat_cmd(id, 440.0, 0.0)));
    let (pre, _) = render(&mut t, 256);
    let pre_peak = peak(&pre);
    assert!((pre_peak - 0.354).abs() < 0.02, "pre={pre_peak}");
    let fade = RealtimeCommand::Fade { voice: id, target: FadeTarget::Silence, secs: s(0.05) };
    apply(&mut t, fade);
    let (mid, _) = render(&mut t, 256);
    let mid_peak = peak(&mid);
    assert!(mid_peak < pre_peak, "mid={mid_peak} pre={pre_peak}");
    let (_, events) = render(&mut t, 2205);
    assert!(!t.contains(id));
    assert_eq!(events, vec![EngineEvent::Finished(id)]);
}

#[test]
fn stopping_a_bus_spares_the_others() {
    let (mut t, _) = table();
    apply(&mut t, RealtimeCommand::Play(flat_cmd(1, 440.0, 0.0)));
    let mut ui = flat_cmd(2, 440.0, 0.0);
    ui.bus = AudioChannel::Ui;
    apply(&mut t, RealtimeCommand::Play(ui));
    apply(&mut t, RealtimeCommand::StopBus(AudioChannel::Sfx));
    assert_eq!(t.ids(), vec![2]);
    apply(&mut t, RealtimeCommand::Stop(9));
    let fade = RealtimeCommand::Fade { voice: 9, target: FadeTarget::Silence, secs: s(1.0) };
    apply(&mut t, fade);
    assert_eq!(t.ids(), vec![2]);
}

#[test]
fn taps_clamp_to_the_last_frame() {
    let stereo = SharedFrames { sample_rate: 8000, channels: 2, frames: vec![s(0.0); 6] };
    assert_eq!(taps(&stereo, 1), Taps { left: (2, 4), right: (3, 5) });
    assert_eq!(taps(&stereo, 2), Taps { left: (4, 4), right: (5, 5) });
    let mono = SharedFrames { sample_rate: 8000, channels: 1, frames: vec![s(0.0); 2] };
    assert_eq!(taps(&mono, 0), Taps { left: (0, 1), right: (0, 1) });
    assert_eq!(taps(&mono, 1), Taps { left: (1, 1), right: (1, 1) });
}

#[test]
fn defaults_match_channels() {
    let st = AudioState::new();
    assert!(st.playing);
    assert_eq!(st.sample_rate(), 0);
    assert!((f(st.bus_gain(AudioChannel::Music)) - 0.8).abs() < 1e-6);
    assert!((f(st.bus_gain(AudioChannel::Sfx)) - 1.0).abs() < 1e-6);
}

#[test]
fn gains_round_trip_and_clamp() {
    let mut st = AudioState::new();
    st.set_bus_gain(AudioChannel::Master, s(0.5));
    assert!((f(st.bus_gain(AudioChannel::Master)) - 0.5).abs() < 1e-6);
    st.set_bus_gain(AudioChannel::Ui, s(-3.0));
    assert_eq!(f(st.bus_gain(AudioChannel::Ui)), 0.0);
    st.set_sample_rate(48000);
    assert_eq!(st.sample_rate(), 48000);
}

#[test]
fn voice_ids_are_unique_and_nonzero() {
    let mut st = AudioState::new();
    let ids: HashSet<u64> = (0..256).map(|_| st.alloc_voice()).collect();
    assert_eq!(ids.len(), 256);
    assert!(!ids.contains(&0));
}

#[test]
fn sniffing_reads_magic_bytes() {
    assert_eq!(sniff_format(b"OggS...."), AudioFormat::Ogg);
    assert_eq!(sniff_format(b"ID3...."), AudioFormat::Mp3);
    assert_eq!(sniff_format(&[0xFF, 0xFB, 0x00]), AudioFormat::Mp3);
    assert_eq!(sniff_format(b"fLaC...."), AudioFormat::Flac);
    let mut wav = b"RIFF....WAVE".to_vec();
    wav[4..8].copy_from_slice(&[1, 2, 3, 4]);
    assert_eq!(sniff_format(&wav), AudioFormat::Wav);
    assert_eq!(sniff_format(b"nope"), AudioFormat::Unknown);
    assert_eq!(sniff_format(b""), AudioFormat::Unknown);
}

#[test]
fn synth_wav_is_valid_mono_pcm() {
    let wav = synth_sine_wav(440.0, 0.1, 44100);
    let src = AudioSource::from_bytes(wav.clone());
    assert_eq!(src.format(), AudioFormat::Wav);
    assert!(src.is_supported());
    assert_eq!(&wav[0..4], b"RIFF");
    assert_eq!(&wav[8..12], b"WAVE");
    assert_eq!(&wav[12..16], b"fmt ");
    assert_eq!(&wav[36..40], b"data");
    let n = (44100.0 * 0.1) as usize;
    assert_eq!(wav.len(), 44 + n * 2);
    let first = i16::from_le_bytes([wav[44], wav[45]]);
    assert!(first.abs() < 2000, "first = {first}");
    assert!(!AudioSource::from_bytes(vec![0, 1, 2]).is_supported());
}

#[test]
fn wav_bytes_are_exact() {
    let wav = write_wav(&vec![1, -2], 8000);
    let mut expected = b"RIFF".to_vec();
    expected.extend_from_slice(&40u32.to_le_bytes());
    expected.extend_from_slice(b"WAVEfmt ");
    expected.extend_from_slice(&[16, 0, 0, 0, 1, 0, 1, 0]);
    expected.extend_from_slice(&8000u32.to_le_bytes());
    expected.extend_from_slice(&16000u32.to_le_bytes());
    expected.extend_from_slice(&[2, 0, 16, 0]);
    expected.extend_from_slice(b"data");
    expected.extend_from_slice(&[4, 0, 0, 0, 1, 0, 0xfe, 0xff]);
    assert_eq!(wav, expected);
}

#[test]
fn buses_stage_behind_master() {
    let product = |c: &AudioChannels, b: AudioChannel| {
        let (master, gain) = c.effective(b);
        f(master) * f(gain)
    };
    let mut ch = AudioChannels::default();
    assert!((product(&ch, AudioChannel::Sfx) - 1.0).abs() < 1e-6);
    assert!((product(&ch, AudioChannel::Music) - 0.8).abs() < 1e-6);
    assert_eq!(f(ch.ui), 1.0);
    ch.set(AudioChannel::Master, s(0.5));
    assert!((product(&ch, AudioChannel::Sfx) - 0.5).abs() < 1e-6);
    ch.set(AudioChannel::Sfx, s(-2.0));
    assert_eq!(f(ch.get(AudioChannel::Sfx)), 0.0);
}

#[test]
fn wav_round_trips() {
    let wav = synth_sine_wav(440.0, 0.1, 22050);
    let decoded = decode_bytes(&wav).expect("synth wav decodes");
    assert_eq!(decoded.sample_rate, 22050);
    assert_eq!(decoded.channels, 1);
    assert_eq!(decoded.len_frames(), (22050.0 * 0.1) as usize);
    let samples: Vec<f32> = decoded.frames.iter().map(|v| f(*v)).collect();
    assert!(samples.iter().all(|v| v.is_finite()));
    assert!(peak(&samples) > 0.3, "peak = {}", peak(&samples));
    assert!(samples[0].abs() < 0.05);
}

#[test]
fn garbage_and_empty_fail_cleanly() {
    assert!(decode_bytes(&[]).is_err());
    assert!(decode_bytes(&[7, 7, 7, 7]).is_err());
    assert!(decode_bytes(b"ID3....nope").is_err());
}

#[test]
fn assembling_keeps_left_and_right() {
    assert_eq!(check_input(&[]), Err(DecodeError::NoInput));
    assert_eq!(check_input(&[0]), Ok(()));
    let mut a = Assembler::new(3);
    assert_eq!(a.feed(PacketEvent::OtherTrack), Ok(false));
    assert_eq!(a.feed(PacketEvent::Corrupt), Ok(false));
    let samples = [1.0, 2.0, 3.0, 4.0, 5.0, 6.0, 7.0].map(s).to_vec();
    assert_eq!(a.feed(PacketEvent::Samples(samples)), Ok(false));
    assert_eq!(a.feed(PacketEvent::End), Ok(true));
    let out = a.finish(48000).unwrap();
    assert_eq!(out.channels, 2);
    assert_eq!(out.sample_rate, 48000);
    assert_eq!(out.frames, [1.0, 2.0, 4.0, 5.0, 7.0, 0.0].map(s).to_vec());

    let mut b = Assembler::new(1);
    assert_eq!(b.feed(PacketEvent::DecodeFailed), Err(DecodeError::DecodeFailed));
    assert_eq!(b.feed(PacketEvent::ReadFailed), Err(DecodeError::ReadFailed));
    let long = vec![s(0.0); 32_000_001];
    assert_eq!(b.feed(PacketEvent::Samples(long)), Err(DecodeError::TooLong));
    assert!(matches!(Assembler::new(2).finish(1), Err(DecodeError::Silent)));
}

fn banked() -> (SoundBank, AudioState, Receiver<RealtimeCommand>) {
    let (tx, rx) = channel();
    let mut bank = SoundBank::new().with_seed(42);
    bank.attach(tx);
    (bank, AudioState::new(), rx)
}

fn wav(freq: f32) -> Vec<Arc<SharedFrames>> {
    vec![sound(&synth_sine_wav(freq, 0.05, 22050))]
}

#[test]
fn unknown_cue_is_silent_none() {
    let (mut bank, mut state, _rx) = banked();
    assert_eq!(bank.play(&mut state, "nope", 0), None);
    assert_eq!(bank.live_count("nope"), 0);
}

#[test]
fn cooldown_throttles_retrigger() {
    let (mut bank, mut state, _rx) = banked();
    let def = CueDef { cooldown_ms: 100, ..Default::default() };
    bank.load("tick", def, wav(440.0)).unwrap();
    assert!(bank.play_at_ms(&mut state, "tick", Shape::default(), 1000).is_some());
    assert!(bank.play_at_ms(&mut state, "tick", Shape::default(), 1050).is_none());
    assert!(bank.play_at_ms(&mut state, "tick", Shape::default(), 1100).is_some());
    assert_eq!(bank.live_count("tick"), 2);
}

#[test]
fn polyphony_cap_steals_oldest() {
    let (mut bank, mut state, rx) = banked();
    let def = CueDef { max_voices: 2, ..Default::default() };
    bank.load("shot", def, wav(440.0)).unwrap();
    let v1 = bank.play_at_ms(&mut state, "shot", Shape::default(), 0).unwrap().0;
    let _v2 = bank.play_at_ms(&mut state, "shot", Shape::default(), 1).unwrap().0;
    assert_eq!(bank.live_count("shot"), 2);
    let v3 = bank.play_at_ms(&mut state, "shot", Shape::default(), 2).unwrap().0;
    assert_eq!(bank.live_count("shot"), 2);
    assert_ne!(v3, v1);
    assert!(matches!(rx.try_recv(), Ok(RealtimeCommand::Play(_))));
    assert!(matches!(rx.try_recv(), Ok(RealtimeCommand::Play(_))));
    assert!(matches!(rx.try_recv(), Ok(RealtimeCommand::Stop(id)) if id == v1));
    assert!(matches!(rx.try_recv(), Ok(RealtimeCommand::Play(_))));
    bank.reap(&vec![v3]);
    assert_eq!(bank.live_count("shot"), 1);
}

fn debris(bank: &mut SoundBank, state: &mut AudioState) -> Vec<f32> {
    let def = CueDef {
        pitch_wobble: s(0.1),
        variation: Variation::Random,
        ..Default::default()
    };
    bank.load("debris", def, wav(440.0)).unwrap();
    (0..8)
        .map(|t| speed(bank.play_at_ms(state, "debris", Shape::default(), t).unwrap().1))
        .collect()
}

#[test]
fn pitch_wobble_is_deterministic() {
    let (mut bank, mut state, _rx) = banked();
    let rates = debris(&mut bank, &mut state);
    assert!(rates.iter().all(|r| (0.9..=1.1).contains(r)), "{rates:?}");
    assert!(rates.iter().any(|r| (*r - 1.0).abs() > 0.001), "{rates:?}");
    let (mut bank2, mut state2, _rx2) = banked();
    let rates2 = debris(&mut bank2, &mut state2);
    assert_eq!(rates, rates2);
}

#[test]
fn stop_cue_clears_live() {
    let (mut bank, mut state, rx) = banked();
    bank.load("alarm", CueDef::default(), wav(440.0)).unwrap();
    let a = bank.play_at_ms(&mut state, "alarm", Shape::default(), 0).unwrap().0;
    let b = bank.play_at_ms(&mut state, "alarm", Shape::default(), 1).unwrap().0;
    assert_eq!(bank.live_count("alarm"), 2);
    bank.stop_cue("alarm");
    assert_eq!(bank.live_count("alarm"), 0);
    let sent = drain(&rx);
    assert_eq!(sent[2..], [RealtimeCommand::Stop(a), RealtimeCommand::Stop(b)]);
}

#[test]
fn round_robin_takes_sounds_in_turn() {
    let (mut bank, mut state, rx) = banked();
    let two = vec![wav(100.0).remove(0), wav(200.0).remove(0)];
    let def = CueDef { gain: s(0.25), ..Default::default() };
    bank.load("step", def, two.clone()).unwrap();
    let shape = Shape { gain_scale: s(0.5), rate_scale: s(2.0), pan: s(-1.0) };
    for t in 0..3 {
        bank.play_at_ms(&mut state, "step", shape, t);
    }
    let heard: Vec<PlayCmd> = drain(&rx)
        .into_iter()
        .filter_map(|c| match c {
            RealtimeCommand::Play(p) => Some(p),
            _ => None,
        })
        .collect();
    assert_eq!(heard.len(), 3);
    assert_eq!(heard[0].sound, two[0]);
    assert_eq!(heard[1].sound, two[1]);
    assert_eq!(heard[2].sound, two[0]);
    assert_eq!(level(heard[0].gain), 0.125);
    assert_eq!(speed(heard[0].rate), 2.0);
    assert_eq!(f(heard[0].pan), -1.0);
}

#[test]
fn closed_links_and_empty_cues_stay_silent() {
    let (mut bank, mut state, rx) = banked();
    assert_eq!(bank.load("x", CueDef::default(), Vec::new()), Err(LoadError::NoSounds));
    bank.load("x", CueDef::default(), wav(440.0)).unwrap();
    drop(rx);
    assert_eq!(bank.play(&mut state, "x", 0), None);
    assert_eq!(bank.live_count("x"), 0);
    let mut detached = SoundBank::new();
    detached.load("x", CueDef::default(), wav(440.0)).unwrap();
    assert_eq!(detached.play(&mut state, "x", 0), None);
}

fn musicked() -> (Music, AudioState, Receiver<RealtimeCommand>) {
    let (tx, rx) = channel();
    let mut music = Music::new();
    music.attach(tx);
    (music, AudioState::new(), rx)
}

fn drain(rx: &Receiver<RealtimeCommand>) -> Vec<RealtimeCommand> {
    let mut out = Vec::new();
    while let Ok(cmd) = rx.try_recv() {
        out.push(cmd);
    }
    out
}

fn fades(cmds: &[RealtimeCommand]) -> Vec<(f32, f32)> {
    cmds.iter()
        .filter_map(|c| match c {
            RealtimeCommand::Fade { target: t, secs, .. } => Some((target(*t), f(*secs))),
            _ => None,
        })
        .collect()
}

fn tune(freq: f32) -> Arc<SharedFrames> {
    sound(&synth_sine_wav(freq, 0.2, 22050))
}

fn load_two_stems(music: &mut Music) {
    music.load_track("battle", s(0.8), tune(220.0));
    let drums = StemDef { lo: s(0.0), hi: s(0.5), gain: s(1.0) };
    music.add_stem("battle", tune(330.0), drums).unwrap();
    let lead = StemDef { lo: s(0.5), hi: s(1.0), gain: s(1.0) };
    music.add_stem("battle", tune(440.0), lead).unwrap();
}

#[test]
fn play_starts_main_and_stems_silent_then_ramps() {
    let (mut music, mut state, rx) = musicked();
    load_two_stems(&mut music);
    assert!(music.play(&mut state, "battle", s(2.0)));
    assert_eq!(music.now_playing(), Some("battle"));
    let cmds = drain(&rx);
    assert_eq!(cmds.len(), 6);
    let plays: Vec<&PlayCmd> = cmds
        .iter()
        .filter_map(|c| match c {
            RealtimeCommand::Play(p) => Some(p),
            _ => None,
        })
        .collect();
    assert!(plays.len() == 3);
    assert!(plays.iter().all(|p| level(p.gain) == 0.0 && p.looping));
    let fades = fades(&cmds);
    assert_eq!(fades.len(), 3);
    assert!(fades.iter().all(|(_, t)| (*t - 2.0).abs() < 1e-6));
    assert!(fades.iter().all(|(t, _)| (*t - 0.8).abs() < 1e-6));
    assert!(!music.play(&mut state, "nope", s(1.0)));
}

#[test]
fn crossfade_fades_old_out() {
    let (mut music, mut state, rx) = musicked();
    load_two_stems(&mut music);
    music.load_track("calm", s(0.6), tune(110.0));
    music.play(&mut state, "battle", s(1.0));
    let _ = drain(&rx);
    music.play(&mut state, "calm", s(3.0));
    assert_eq!(music.now_playing(), Some("calm"));
    let cmds = drain(&rx);
    let outs = fades(&cmds).into_iter().filter(|(t, _)| *t == 0.0).count();
    assert_eq!(outs, 3);
    assert!(cmds.iter().any(|c| matches!(c, RealtimeCommand::Play(_))));
}

#[test]
fn intensity_retargets_stems() {
    let (mut music, mut state, rx) = musicked();
    load_two_stems(&mut music);
    music.play(&mut state, "battle", s(0.0));
    let _ = drain(&rx);
    music.set_intensity(s(0.25));
    let mut targets: Vec<f32> = fades(&drain(&rx)).into_iter().map(|(t, _)| t).collect();
    targets.sort_by(|a, b| a.partial_cmp(b).unwrap());
    assert_eq!(targets.len(), 3);
    assert!((targets[0] - 0.0).abs() < 1e-6, "{targets:?}");
    assert!((targets[1] - 0.4).abs() < 1e-6, "{targets:?}");
    assert!((targets[2] - 0.8).abs() < 1e-6, "{targets:?}");
}

fn duck(music: &mut Music, amount_db: f32, hold: f32, release: f32) {
    let factor = 10.0_f32.powf(amount_db / 20.0);
    music.duck(s(factor), s(hold), s(release));
}

fn update(music: &mut Music, dt: f32) {
    let mix = music.mix();
    let sent = f(mix.last_sent_factor);
    let (left, factor) = match mix.duck_env {
        DuckEnv::Idle => (0.0, f(mix.duck_factor)),
        DuckEnv::Hold { left_secs } => (f(left_secs) - dt, f(mix.duck_factor)),
        DuckEnv::Release { from, left_secs, total_secs } => {
            let left = f(left_secs) - dt;
            let k = 1.0 - (left / f(total_secs)).clamp(0.0, 1.0);
            (left, f(from) + (1.0 - f(from)) * k)
        }
    };
    music.update(DuckMotion {
        left: s(left),
        factor: s(factor),
        drift: s((f(mix.duck_factor) - sent).abs()),
        drift_released: s((factor - sent).abs()),
        drift_done: s((1.0 - sent).abs()),
    });
}

#[test]
fn duck_dips_and_releases() {
    let (mut music, mut state, rx) = musicked();
    load_two_stems(&mut music);
    music.play(&mut state, "battle", s(0.0));
    let _ = drain(&rx);
    duck(&mut music, -12.0, 0.5, 1.0);
    let cmds = drain(&rx);
    assert_eq!(cmds.len(), 3);
    let first = fades(&cmds)[0].0;
    assert!((first - 0.8 * 0.251).abs() < 0.02, "first={first}");
    update(&mut music, 0.4);
    assert!(drain(&rx).is_empty());
    update(&mut music, 0.2);
    update(&mut music, 0.2);
    assert!(!drain(&rx).is_empty());
    for _ in 0..10 {
        update(&mut music, 0.2);
    }
    let _ = drain(&rx);
    update(&mut music, 0.0);
    assert!(drain(&rx).is_empty());
    assert_eq!(music.mix().duck_env, DuckEnv::Idle);
    assert_eq!(f(music.mix().duck_factor), 1.0);
}

#[test]
fn stop_fades_out_and_reap_clears() {
    let (mut music, mut state, rx) = musicked();
    load_two_stems(&mut music);
    music.play(&mut state, "battle", s(0.0));
    let _ = drain(&rx);
    music.stop(s(1.5));
    assert_eq!(music.now_playing(), None);
    let cmds = drain(&rx);
    assert_eq!(cmds.len(), 3);
    assert!(cmds
        .iter()
        .all(|c| matches!(c, RealtimeCommand::Fade { target: FadeTarget::Silence, .. })));
    music.reap(&vec![7, 8, 9]);
}

#[test]
fn stems_need_their_track() {
    let (mut music, _state, _rx) = musicked();
    let def = StemDef { lo: s(0.0), hi: s(1.0), gain: s(1.0) };
    assert_eq!(music.add_stem("nope", tune(1.0), def), Err(StemError::UnknownTrack));
}

#[test]
fn a_track_loaded_anew_loses_its_stems() {
    let (mut music, mut state, rx) = musicked();
    load_two_stems(&mut music);
    assert!(music.is_in_tune());
    music.play(&mut state, "battle", s(0.0));
    assert!(music.is_in_tune());
    music.load_track("battle", s(0.5), tune(220.0));
    assert!(!music.is_in_tune());
    let _ = drain(&rx);
    assert!(music.play(&mut state, "battle", s(1.0)));
    assert!(music.is_in_tune());
    let cmds = drain(&rx);
    assert_eq!(cmds.iter().filter(|c| matches!(c, RealtimeCommand::Play(_))).count(), 1);
    assert_eq!(fades(&cmds).iter().filter(|(t, _)| *t == 0.0).count(), 3);
}

#[test]
fn commands_come_back_to_the_shared_state() {
    let mut shared = AudioState::new();
    shared.set_sample_rate(48_000);
    let id = shared.alloc_voice();
    let mut table = VoiceTable::new();
    table.set_state(shared);
    let quiet = Heard { level: s(0.0), rate: s(1.0) };
    table.apply(RealtimeCommand::SetBus { bus: AudioChannel::Sfx, gain: s(0.25) }, quiet);
    table.apply(RealtimeCommand::SetBus { bus: AudioChannel::Ui, gain: s(-1.0) }, quiet);
    table.apply(RealtimeCommand::Pause(true), quiet);
    assert!(!table.renders(2));
    shared = table.state();
    assert!(!shared.playing);
    assert_eq!(shared.sample_rate(), 48_000);
    assert_eq!(f(shared.bus_gain(AudioChannel::Sfx)), 0.25);
    assert_eq!(f(shared.bus_gain(AudioChannel::Ui)), 0.0);
    assert_eq!(f(shared.bus_gain(AudioChannel::Music)), 0.8);
    assert_eq!(shared.alloc_voice(), id + 1);
}

#[test]
fn only_live_voices_are_reported_and_once() {
    let quiet = Heard { level: s(1.0), rate: s(1.0) };
    let play = |voice, bus| {
        RealtimeCommand::Play(PlayCmd {
            voice,
            sound: tune(220.0),
            gain: Gain { base: s(1.0), scale: s(1.0) },
            rate: Rate { wobble: None, scale: s(1.0) },
            pan: s(0.0),
            bus,
            looping: false,
        })
    };
    let mut table = VoiceTable::new();
    for id in 1..=4 {
        let bus = if id < 3 { AudioChannel::Sfx } else { AudioChannel::Ui };
        table.apply(play(id, bus), quiet);
    }
    table.apply(RealtimeCommand::Stop(1), quiet);
    table.apply(RealtimeCommand::StopBus(AudioChannel::Ui), quiet);
    assert_eq!(table.ids(), vec![2]);
    let events = table.finish(&vec![1, 2, 3, 2, 9]);
    assert_eq!(events.iter().map(|e| e.voice()).collect::<Vec<_>>(), vec![2]);
    assert!(table.ids().is_empty());
    assert!(table.finish(&vec![2]).is_empty());
}

#[test]
fn lost_stems_matter_to_new_gains_only() {
    let (tx, rx) = channel();
    let mut music = Music::new();
    assert!(!music.has_track("battle"));
    music.attach(tx);
    load_two_stems(&mut music);
    assert!(music.has_track("battle"));
    assert!(music.play(&mut AudioState::new(), "battle", s(0.0)));
    assert!(music.can_retarget());
    duck(&mut music, -12.0, 0.5, 1.0);
    music.load_track("battle", s(0.5), tune(220.0));
    assert!(!music.can_retarget());
    let still = DuckMotion {
        left: s(0.25),
        factor: s(0.25),
        drift: s(0.0),
        drift_released: s(0.0),
        drift_done: s(0.75),
    };
    assert!(music.can_update(still));
    assert!(!music.can_update(DuckMotion { left: s(0.0), drift: s(0.5), ..still }));
    let _ = drain(&rx);
    let mut unlinked = Music::new();
    unlinked.load_track("battle", s(0.5), tune(220.0));
    assert!(unlinked.can_retarget());
}

#[test]
fn frames_reap_and_release() {
    let (tx, rx) = channel();
    let mut audio = Audio::noop();
    audio.music.attach(tx);
    load_two_stems(&mut audio.music);
    audio.music.play(&mut AudioState::new(), "battle", s(0.0));
    let voices: Vec<u64> = drain(&rx)
        .iter()
        .filter_map(|c| match c {
            RealtimeCommand::Play(p) => Some(p.voice),
            _ => None,
        })
        .collect();
    duck(&mut audio.music, -12.0, 0.5, 1.0);
    let _ = drain(&rx);
    let held = DuckMotion {
        left: s(0.4),
        factor: audio.music.mix().duck_factor,
        drift: s(0.0),
        drift_released: s(0.0),
        drift_done: s(0.0),
    };
    audio.update(&vec![voices[2]], held);
    assert!(drain(&rx).is_empty());
    assert_eq!(audio.take_finished(), vec![voices[2]]);
    let done = DuckMotion { left: s(-0.1), drift_done: s(0.75), ..held };
    audio.update(&Vec::new(), done);
    let released = DuckMotion { left: s(0.0), factor: s(1.0), drift_released: s(0.75), ..done };
    audio.update(&Vec::new(), released);
    assert!(fades(&drain(&rx)).len() == 2);
    assert_eq!(f(audio.music.mix().duck_factor), 1.0);
    audio.update(&vec![voices[0], voices[1]], released);
    assert_eq!(audio.music.now_playing(), None);
}

fn rigged() -> (SoundBank, AudioState, Receiver<RealtimeCommand>) {
    let (tx, rx) = channel();
    let mut bank = SoundBank::new();
    bank.attach(tx);
    bank.load("step", CueDef::default(), wav(300.0)).unwrap();
    let chomp = sound(&synth_sine_wav(150.0, 0.1, 22050));
    bank.load("chomp", CueDef::default(), vec![chomp]).unwrap();
    (bank, AudioState::new(), rx)
}

#[test]
fn routes_per_rig_with_global_fallback() {
    let (mut bank, mut st, _rx) = rigged();
    let mut rig = RigAudio::new();
    rig.map_event("zombie", "footstep", "step");
    rig.map_event("zombie", "bite", "chomp");
    rig.map_event_global("ui_click", "step");

    let ev = |t: &str| t.to_string();
    let events = vec![ev("footstep"), ev("bite"), ev("sneeze")];
    let voices = rig.sync(&mut bank, &mut st, "zombie", &events, 0);
    assert_eq!(voices.len(), 2);
    assert_eq!(rig.sync(&mut bank, &mut st, "pea", &vec![ev("ui_click")], 1).len(), 1);
    assert!(rig.sync(&mut bank, &mut st, "pea", &vec![ev("footstep")], 2).is_empty());
    assert_eq!(rig.resolve("zombie", "bite"), Some("chomp"));
    assert_eq!(rig.resolve("pea", "bite"), None);
}

#[test]
fn positional_sync_plays_at_point() {
    let (mut bank, mut st, rx) = rigged();
    let mut rig = RigAudio::new();
    rig.map_event("zombie", "footstep", "step");
    let here = Shape { gain_scale: s(1.0), rate_scale: s(1.0), pan: s(0.25) };
    let events = vec!["footstep".to_string()];
    let voices = rig.sync_at(&mut bank, &mut st, "zombie", &events, here, 0);
    assert_eq!(voices.len(), 1);
    assert!(matches!(rx.try_recv(), Ok(RealtimeCommand::Play(p)) if f(p.pan) == 0.25));
}

#[test]
fn stub_never_blocks_game_code() {
    let mut audio = Audio::noop();
    assert!(!audio.is_live());
    assert_eq!(f(audio.music.mix().duck_factor), 1.0);
    assert_eq!(audio.music.mix().duck_env, DuckEnv::Idle);
    assert_eq!(audio.sample_rate(), 0);
    let wav = AudioSource::from_bytes(synth_sine_wav(440.0, 0.1, 22050));
    audio.add_source(&wav).expect("synth wav validates");
    let odd = AudioSource::from_bytes(vec![7]);
    assert_eq!(audio.add_source(&odd), Err(SourceError::UnsupportedFormat));
    audio.set_channel(AudioChannel::Music, s(0.5));
    assert!((f(audio.channels.music) - 0.5).abs() < 1e-6);
    audio.complete(&Vec::new());
    assert!(audio.take_finished().is_empty());
    audio.complete(&vec![4, 5]);
    assert_eq!(audio.take_finished(), vec![4, 5]);
    assert!(audio.take_finished().is_empty());
}

#[test]
fn output_prefers_float_stereo() {
    let range = |format, channels, min_rate, max_rate| OutputRange {
        format,
        channels,
        min_rate,
        max_rate,
    };
    let options = vec![
        range(SampleFormat::Signed16, 2, 8000, 96000),
        range(SampleFormat::Float, 1, 8000, 96000),
        range(SampleFormat::Float, 2, 8000, 44100),
    ];
    let stereo = OutputConfig { format: SampleFormat::Float, channels: 2, rate: 44100 };
    assert_eq!(pick_output(&options), Some(stereo));
    let mono = OutputConfig { format: SampleFormat::Float, channels: 1, rate: 48000 };
    assert_eq!(pick_output(&options[..2].to_vec()), Some(mono));
    assert_eq!(pick_output(&options[..1].to_vec()), None);
    let silent = OutputConfig { format: SampleFormat::Signed16, channels: 0, rate: 8000 };
    assert_eq!(stream_config(silent), Ok(OutputConfig { channels: 1, ..silent }));
    let odd = OutputConfig { format: SampleFormat::Other, channels: 2, rate: 8000 };
    assert_eq!(stream_config(odd), Err(OutputError::UnsupportedFormat));
}
