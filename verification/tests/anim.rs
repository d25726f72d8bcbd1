use repame::anim::{
    frame_key, frame_key_for, stem, AnimCatalog, AnimDef, AnimPlayer, CatalogError, LoopMode,
    StripEnds, StripMotion,
};
use repame::atlas::AtlasDesc;
use repame::scalar::Scalar;

fn s(v: f32) -> Scalar {
    Scalar::from_bits(v.to_bits())
}

fn f(v: Scalar) -> f32 {
    f32::from_bits(v.bits)
}

fn def(frames: u32, w: u32, h: u32, fps: f32, xorigin: f32, yorigin: f32) -> AnimDef {
    AnimDef { frames, w, h, fps: s(fps), xorigin: s(xorigin), yorigin: s(yorigin) }
}

fn defs() -> Vec<(String, AnimDef)> {
    vec![
        ("hero".to_string(), def(4, 16, 16, 12.0, 8.0, 16.0)),
        ("bullet".to_string(), def(2, 8, 8, 8.0, 4.0, 4.0)),
    ]
}

fn catalog() -> AnimCatalog {
    AnimCatalog::from_defs(&defs(), AtlasDesc { size: 64, max_pages: 1 }).expect("fits")
}

/// A player together with the clock arithmetic of its strip.
struct Strip {
    p: AnimPlayer,
    frames: u32,
}

impl Strip {
    fn new(d: &AnimDef, mode: LoopMode) -> Strip {
        let ends = StripEnds {
            end: s(d.frames as f32),
            last: s(d.frames.saturating_sub(1) as f32),
        };
        Strip { p: AnimPlayer::new(d, mode, ends), frames: d.frames }
    }

    fn advance(&mut self, dt: f32) -> (bool, bool) {
        let p = &self.p;
        let step = dt * f(p.fps()) * f(p.speed_scale());
        let pos = f(p.position());
        let moved = pos + if p.backward() { -step.abs() } else { step.abs() };
        let n = self.frames as f32;
        let period = 2.0 * (n - 1.0);
        let there = if p.is_forward() { pos } else { period - pos }.rem_euclid(period);
        let bounce = there + step;
        let folded = bounce.rem_euclid(period);
        let motion = StripMotion {
            step: s(step),
            moved: s(moved),
            wrapped: s(moved.rem_euclid(n)),
            period: s(period),
            place: s(there),
            bounce: s(bounce),
            folded: s(folded),
            mirrored: s(period - folded),
        };
        self.p.advance(s(dt), motion)
    }

    fn frame_progress(&self) -> f32 {
        let pos = f(self.p.position());
        let part = (pos - pos.floor()).clamp(0.0, 1.0);
        if self.p.backward() {
            1.0 - part
        } else {
            part
        }
    }

    fn set_frame_and_progress(&mut self, frame: u32, progress: f32) {
        let cell = self.p.clamp_cell(frame) as f32;
        let part = progress.clamp(0.0, 1.0);
        let part = if self.p.backward() { 1.0 - part } else { part };
        let brim = f32::from_bits((cell + 1.0).to_bits() - 1);
        self.p.seek(s((cell + part).min(brim)));
    }
}

#[test]
fn packs_all_frames_with_stable_uvs() {
    let cat = catalog();
    assert_eq!(cat.frame_count(), 6);
    assert_eq!(cat.names(), vec!["bullet", "hero"]);
    let uv = cat.uv("hero", 0).unwrap();
    assert_eq!(cat.uv("hero", 0), Some(uv));
    assert_eq!(cat.uv("hero", 4), cat.uv("hero", 0));
    assert_eq!(cat.uv("hero", -1), cat.uv("hero", 3));
    assert_eq!(cat.uv("missing", 0), None);
}

#[test]
fn full_paths_and_names_resolve_identically() {
    let cat = catalog();
    assert_eq!(
        cat.def("images/hero.png").map(|d| d.frames),
        cat.def("hero").map(|d| d.frames)
    );
    assert_eq!(cat.uv("images/hero.png", 1), cat.uv("hero", 1));
    assert_eq!(cat.src_rect("images/bullet.png", 1), Some([8, 0, 8, 8]));
    assert_eq!(frame_key_for("images/hero.png", 2), frame_key_for("hero", 2));
}

#[test]
fn anchor_and_src_rect_match_bevy_conventions() {
    let cat = catalog();
    let hero = cat.def("hero").unwrap();
    let anchor = [
        (f(hero.xorigin) / hero.w as f32).clamp(0.0, 1.0),
        (f(hero.yorigin) / hero.h as f32).clamp(0.0, 1.0),
    ];
    assert_eq!(anchor, [0.5, 1.0]);
    assert_eq!(cat.src_rect("hero", 2), Some([32, 0, 16, 16]));
    assert_eq!(cat.src_rect("bullet", 1), Some([8, 0, 8, 8]));
}

#[test]
fn errors_are_typed_not_panics() {
    assert!(matches!(
        AnimCatalog::from_defs(&defs(), AtlasDesc { size: 8, max_pages: 1 }),
        Err(CatalogError::AtlasFull { .. })
    ));
    let big = vec![("huge".to_string(), def(1, 512, 512, 1.0, 0.0, 0.0))];
    assert!(matches!(
        AnimCatalog::from_defs(&big, AtlasDesc { size: 64, max_pages: 4 }),
        Err(CatalogError::CellTooLarge { .. })
    ));
    let dup = vec![
        ("images/a/foo.png".to_string(), def(1, 8, 8, 1.0, 0.0, 0.0)),
        ("images/b/foo.png".to_string(), def(1, 8, 8, 1.0, 0.0, 0.0)),
    ];
    assert!(matches!(
        AnimCatalog::from_defs(&dup, AtlasDesc { size: 64, max_pages: 1 }),
        Err(CatalogError::DuplicateStem { .. })
    ));
}

#[test]
fn definition_order_is_irrelevant() {
    let mut back = defs();
    back.reverse();
    let desc = AtlasDesc { size: 64, max_pages: 1 };
    let a = AnimCatalog::from_defs(&defs(), desc).expect("fits");
    let b = AnimCatalog::from_defs(&back, desc).expect("fits");
    for name in ["hero", "bullet"] {
        for frame in 0..4 {
            assert_eq!(a.uv(name, frame), b.uv(name, frame));
        }
    }
}

#[test]
fn stems_drop_directories_and_extensions() {
    assert_eq!(stem("images/hero.png"), "hero");
    assert_eq!(stem("hero"), "hero");
    assert_eq!(stem(stem("images/hero.png")), "hero");
    assert_eq!(frame_key_for("images/hero.png", 7), frame_key("hero", 7));
    assert_ne!(frame_key("hero", 1), frame_key("hero", 2));
}

#[test]
fn frames_wrap_both_ways() {
    let d = def(4, 8, 8, 1.0, 0.0, 0.0);
    assert_eq!(d.wrap_frame(5), 1);
    assert_eq!(d.wrap_frame(-1), 3);
    assert_eq!(d.wrap_frame(-8), 0);
    assert_eq!(def(0, 8, 8, 1.0, 0.0, 0.0).wrap_frame(3), 0);
}

#[test]
fn player_loops_and_reports_progress() {
    let d = def(4, 16, 16, 10.0, 8.0, 8.0);
    let mut p = Strip::new(&d, LoopMode::Loop);
    assert!(!p.p.is_playing());
    p.p.play();
    assert_eq!(p.p.frame(), 0);
    assert_eq!(p.frame_progress(), 0.0);
    let (changed, ended) = p.advance(0.05);
    assert!(!changed && !ended);
    assert!((p.frame_progress() - 0.5).abs() < 1e-6);
    let mut looped = false;
    for _ in 0..8 {
        let (_, e) = p.advance(0.05);
        looped |= e;
    }
    assert!(looped);
    assert!(p.p.is_playing() && !p.p.is_finished());
}

#[test]
fn player_once_holds_last_frame() {
    let d = def(3, 8, 8, 10.0, 0.0, 0.0);
    let mut p = Strip::new(&d, LoopMode::Once);
    p.p.play();
    let mut ended = false;
    for _ in 0..10 {
        let (_, e) = p.advance(0.05);
        ended |= e;
    }
    assert!(ended);
    assert_eq!(p.p.frame(), 2);
    assert!(p.p.is_finished() && !p.p.is_playing());
    p.p.play();
    assert_eq!(p.p.frame(), 0);
    assert!(!p.p.is_finished());
}

#[test]
fn player_pingpong_bounces() {
    let d = def(3, 8, 8, 10.0, 0.0, 0.0);
    let mut p = Strip::new(&d, LoopMode::PingPong);
    p.p.play();
    let mut seq = vec![p.p.frame()];
    for _ in 0..5 {
        p.advance(0.1);
        seq.push(p.p.frame());
    }
    assert_eq!(seq, vec![0, 1, 2, 1, 0, 1]);
}

#[test]
fn stilled_players_ignore_every_motion() {
    for fps in [10.0, f32::INFINITY, f32::NAN] {
        for mode in [LoopMode::Loop, LoopMode::Once, LoopMode::PingPong] {
            let mut p = Strip::new(&def(4, 8, 8, fps, 0.0, 0.0), mode);
            p.p.play();
            p.p.seek(s(1.5));
            for scale in [0.0, -0.0] {
                p.p.set_speed_scale(s(scale));
                assert_eq!(p.advance(0.1), (false, false));
                assert_eq!((f(p.p.position()), p.p.frame()), (1.5, 1));
                assert!(p.p.is_playing() && !p.p.is_finished());
            }
        }
    }
}

#[test]
fn player_speed_scale_and_backwards() {
    let d = def(4, 8, 8, 10.0, 0.0, 0.0);
    let mut p = Strip::new(&d, LoopMode::Loop);
    p.p.set_speed_scale(s(2.0));
    p.p.play();
    p.advance(0.05);
    assert_eq!(p.p.frame(), 1, "double speed advances a full cell");
    p.p.set_speed_scale(s(-1.0));
    p.advance(0.05);
    assert_eq!(p.p.frame(), 0, "reverse steps back");
    p.set_frame_and_progress(1, 0.5);
    assert!((p.frame_progress() - 0.5).abs() < 1e-6);
    p.p.play_backwards();
    assert_eq!(p.p.frame(), 1, "backwards resumes in place while playing");
    p.advance(0.1);
    assert_eq!(p.p.frame(), 0, "reverse steps back");
    let mut q = Strip::new(&d, LoopMode::Loop);
    q.p.play_backwards();
    assert_eq!(q.p.frame(), 3);
    assert!(q.p.is_playing());
    p.p.stop();
    assert_eq!(p.p.frame(), 0);
    assert!(!p.p.is_playing());
}

#[test]
fn loop_play_backwards_reverses() {
    let d = def(4, 8, 8, 10.0, 0.0, 0.0);
    let mut p = Strip::new(&d, LoopMode::Loop);
    p.p.play_backwards();
    assert_eq!(p.p.frame(), 3);
    p.advance(0.05);
    assert_eq!(p.p.frame(), 2, "reverse steps back, got {}", p.p.frame());
    let mut q = Strip::new(&d, LoopMode::Once);
    q.p.play();
    q.set_frame_and_progress(2, 0.0);
    q.p.play_backwards();
    let (changed, ended) = q.advance(0.05);
    assert!(changed && !ended);
    assert_eq!(q.p.frame(), 1);
}

#[test]
fn set_frame_and_progress_round_trips_in_reverse() {
    let d = def(4, 8, 8, 10.0, 0.0, 0.0);
    let mut p = Strip::new(&d, LoopMode::Loop);
    p.p.set_speed_scale(s(-1.0));
    p.p.play();
    p.set_frame_and_progress(1, 0.8);
    assert!((p.frame_progress() - 0.8).abs() < 1e-6);
    p.set_frame_and_progress(2, 0.0);
    assert_eq!(p.p.frame(), 2);
    assert!(p.frame_progress() < 1e-6);
}

#[test]
fn a_bounce_at_either_end_is_reported() {
    let d = def(3, 8, 8, 1.0, 0.0, 0.0);
    let mut p = Strip::new(&d, LoopMode::PingPong);
    p.p.play();
    assert_eq!(p.advance(3.0), (true, true));
    assert_eq!(p.p.frame(), 1);
    assert!(!p.p.is_finished());
    assert_eq!(p.advance(0.5), (true, false));
    assert_eq!(p.advance(1.0), (false, true));
    let mut q = Strip::new(&d, LoopMode::PingPong);
    q.p.play();
    let ended: Vec<bool> = (0..8).map(|_| q.advance(1.0).1).collect();
    assert_eq!(ended, vec![false, true, false, true, false, true, false, true]);
    let mut r = Strip::new(&d, LoopMode::PingPong);
    r.p.set_speed_scale(s(-1.0));
    r.p.play();
    assert_eq!(r.advance(1.0), (true, true));
    assert_eq!(r.advance(1.5), (false, true));
}

#[test]
fn paused_players_resume_backwards_in_place() {
    let d = def(4, 8, 8, 1.0, 0.0, 0.0);
    let mut p = Strip::new(&d, LoopMode::Loop);
    p.p.play();
    p.advance(1.5);
    p.p.pause();
    p.p.play_backwards();
    assert!(p.p.is_playing());
    assert_eq!(p.p.frame(), 1);
    assert_eq!(f(p.p.position()), 1.5);
    p.p.stop();
    p.p.play_backwards();
    assert_eq!(p.p.frame(), 3);
    let mut once = Strip::new(&d, LoopMode::Once);
    once.p.play();
    assert_eq!(once.advance(9.0), (true, true));
    once.p.pause();
    once.p.play_backwards();
    assert_eq!(once.p.frame(), 3);
    assert!(!once.p.is_finished());
}

#[test]
fn paused_players_hold_and_bad_speeds_freeze() {
    let d = def(4, 8, 8, 10.0, 0.0, 0.0);
    let mut p = Strip::new(&d, LoopMode::Loop);
    p.p.play();
    p.p.pause();
    assert_eq!(p.advance(1.0), (false, false));
    p.p.play();
    p.p.set_speed_scale(s(f32::NAN));
    assert_eq!(p.advance(1.0), (false, false));
    assert!(p.p.is_playing());
    assert_eq!(p.p.frame(), 0);
}
