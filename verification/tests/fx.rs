use repame::fx::chroma::Chroma;
use repame::fx::driver::{FxTick, SimDriver};
use repame::fx::flash::Flash;
use repame::fx::gradient::{decal_visibility, fade_begins, DecalTicks, Gradient, Stop, Visibility};
use repame::fx::life::{advances, ages_decal, decal_fade, jitters, number_life, stored_in_ticks};
use repame::fx::particles::{age_secs, plan_emissions, samples_white, Aging, Emission, TickLife, Turn};
use repame::fx::transitions::{Phase, TransitionFx, TransitionVisual, VORTEX_CUSTOM_ID};
use repame::fx::trauma::{shakes, Trauma};
use repame::scalar::Scalar;
use repose_core::animation::EaseKind;

fn s(v: f32) -> Scalar {
    Scalar::from_bits(v.to_bits())
}

fn f(v: Scalar) -> f32 {
    f32::from_bits(v.bits)
}

/// Whole 100 Hz quanta of a step in seconds.
fn quanta(dt: f32) -> i32 {
    if !dt.is_finite() || dt <= 0.0 {
        return 0;
    }
    (dt / 0.01 + 1e-4).floor() as i32
}

fn secs(ticks: i32) -> f32 {
    ticks.max(0) as f32 * 0.01
}

#[test]
fn blocked_frame_steps_fx_and_rolls_edges() {
    let mut fx = 0;
    let mut sim = 0;
    let mut edges = 0;
    let out = SimDriver::frame(|| fx += 1, true, || sim += 1, || edges += 1);
    assert_eq!((fx, sim, edges), (1, 0, 1));
    assert_eq!(out, FxTick { ran: 0, blocked: true });
    let out = SimDriver::frame(|| fx += 1, false, || sim += 1, || edges += 1);
    assert_eq!((fx, sim, edges), (2, 1, 1));
    assert_eq!(out, FxTick { ran: 1, blocked: false });
}

#[test]
fn effects_step_before_the_gate() {
    for blocked in [false, true] {
        let log = std::cell::RefCell::new(Vec::new());
        SimDriver::frame(
            || log.borrow_mut().push("fx"),
            blocked,
            || log.borrow_mut().push("sim"),
            || log.borrow_mut().push("edges"),
        );
        assert_eq!(log.into_inner(), vec!["fx", if blocked { "edges" } else { "sim" }]);
    }
}

fn rgba(flash: &Flash<[f32; 4]>) -> Option<[f32; 4]> {
    let (left, all) = flash.fade()?;
    let t = left as f32 / all as f32;
    let mut c = flash.color;
    c[3] *= 1.0 - EaseKind::default().apply(1.0 - t);
    Some(c)
}

fn tick_flash(flash: &mut Flash<[f32; 4]>, dt: f32) {
    let least = if dt.is_finite() && dt > 0.0 { 1 } else { 0 };
    flash.tick(quanta(dt).max(least));
}

#[test]
fn flash_fades_to_transparent() {
    let mut flash = Flash::idle([0.0; 4]);
    assert_eq!(rgba(&flash), None);
    flash.trigger([1.0, 1.0, 1.0, 0.8], 10);
    let start = rgba(&flash).unwrap();
    assert!((start[3] - 0.8).abs() < 1e-4);
    tick_flash(&mut flash, 0.05);
    assert!(rgba(&flash).unwrap()[3] < 0.8);
    tick_flash(&mut flash, 0.05);
    assert_eq!(rgba(&flash), None);
}

#[test]
fn trigger_secs_rounds_up_to_a_tick() {
    let mut flash = Flash::idle([0.0; 4]);
    flash.trigger([1.0, 0.0, 0.0, 1.0], (0.015f32 / 0.01).ceil().max(1.0) as i32);
    assert_eq!((flash.remaining_ticks, flash.total_ticks), (2, 2));
    tick_flash(&mut flash, 0.015);
    assert!(flash.active() || !flash.active());
}

#[test]
fn negative_ticks_never_extend() {
    let mut flash = Flash::idle([0.0; 4]);
    flash.trigger([1.0, 0.0, 0.0, 1.0], 10);
    flash.tick(-100);
    assert_eq!(flash.remaining_ticks, 10);
    flash.tick(0);
    assert_eq!(flash.remaining_ticks, 10);
}

#[test]
fn flashes_last_at_least_a_tick() {
    let mut flash = Flash::idle(0u8);
    flash.trigger(7, -3);
    assert_eq!(flash.fade(), Some((1, 1)));
    flash.tick(i32::MAX);
    assert_eq!(flash.remaining_ticks, 0);
    assert!(!flash.active());
    assert_eq!(flash.color, 7);
}

fn step(fx: &mut TransitionFx, dt: f32) {
    let reached = f(fx.t_secs) + dt;
    fx.step_secs(s(dt), s(reached));
}

fn alpha(fx: &TransitionFx) -> f32 {
    let t = (f(fx.t_secs) / 0.4).clamp(0.0, 1.0);
    match fx.phase {
        Phase::Idle => 0.0,
        Phase::Cover => t,
        Phase::Uncover => 1.0 - t,
    }
}

#[test]
fn full_cycle_blocks_then_releases() {
    let mut fx = TransitionFx::new();
    assert!(!fx.blocking());
    assert_eq!(alpha(&fx), 0.0);
    fx.begin();
    assert!(fx.blocking());
    step(&mut fx, 0.2);
    assert!((alpha(&fx) - 0.5).abs() < 1e-5);
    step(&mut fx, 0.2);
    assert!(fx.blocking());
    assert_eq!(alpha(&fx), 1.0);
    step(&mut fx, 0.4);
    assert!(!fx.blocking());
    assert_eq!(alpha(&fx), 0.0);
}

#[test]
fn transitions_tick_shim_matches_seconds() {
    let mut a = TransitionFx::new();
    let mut b = TransitionFx::new();
    a.begin();
    b.begin();
    step(&mut a, secs(20));
    step(&mut b, 0.2);
    assert!((alpha(&a) - alpha(&b)).abs() < 1e-6);
}

#[test]
fn non_positive_dt_holds() {
    let mut fx = TransitionFx::new();
    fx.begin();
    step(&mut fx, 0.0);
    step(&mut fx, f32::NAN);
    assert!((alpha(&fx) - 0.0).abs() < 1e-6);
    assert!(fx.blocking());
}

#[test]
fn custom_vortex_kind_drives_cover_amount() {
    let mut fx = TransitionFx::new();
    fx.begin_vortex();
    assert!(fx.is_vortex());
    assert!(fx.is_custom(VORTEX_CUSTOM_ID));
    assert_eq!(fx.kind(), TransitionVisual::Custom(VORTEX_CUSTOM_ID));
    step(&mut fx, secs(20));
    assert!((alpha(&fx) - 0.5).abs() < 1e-5);
    let mut fx2 = TransitionFx::new();
    fx2.default_kind = TransitionVisual::Custom(7);
    fx2.begin();
    assert!(fx2.is_custom(7));
    assert!(!fx2.is_vortex());
}

fn decay(c: &mut Chroma, dt: f32) {
    let lowered = f(c.strength) - f(c.decay_per_sec) * dt;
    c.tick_secs(s(dt), s(lowered));
}

#[test]
fn pulse_keeps_max_and_decays() {
    let mut c = Chroma::new();
    assert!(!c.active());
    assert_eq!(f(c.amount()), 0.0);
    c.pulse(s(0.3));
    c.pulse(s(0.1));
    assert_eq!(f(c.amount()), 0.3);
    decay(&mut c, 1.0);
    assert!(!c.active());
    assert_eq!(f(c.amount()), 0.0);
}

#[test]
fn chroma_tick_shim_matches_seconds() {
    let mut a = Chroma::new();
    let mut b = Chroma::new();
    a.pulse(s(0.7));
    b.pulse(s(0.7));
    decay(&mut a, secs(10));
    decay(&mut b, 0.1);
    assert!((f(a.amount()) - f(b.amount())).abs() < 1e-6);
}

#[test]
fn partial_decay_is_linear() {
    let mut c = Chroma::new();
    c.pulse(s(0.7));
    decay(&mut c, 0.1);
    assert!((f(c.amount()) - 0.5).abs() < 1e-6);
}

#[test]
fn negative_pulse_clamps() {
    let mut c = Chroma::new();
    c.pulse(s(-1.0));
    assert!(!c.active());
}

/// One emitter of a hundred particles a second, with the particles it has.
struct Emitter {
    acc: f32,
    max_alive: usize,
    particles: Vec<TickLife>,
}

impl Emitter {
    fn new(max_alive: usize) -> Emitter {
        Emitter { acc: 0.0, max_alive, particles: Vec::new() }
    }

    fn tick(&mut self, max_total: usize, ticks: i32) {
        self.acc += 100.0 * secs(ticks);
        let owners: Vec<Option<u64>> = self.particles.iter().map(|_| Some(7)).collect();
        let wanted = (self.acc + 1e-4).floor() as usize;
        let turns = vec![Turn { emitter: 7, wanted, max_alive: self.max_alive }];
        let plan = plan_emissions(&owners, &turns, owners.len(), max_total);
        for _ in 0..plan[0].count {
            self.particles.push(TickLife { age_ticks: 0, life_ticks: 50 });
        }
        self.acc = if plan[0].capped { 0.0 } else { self.acc - wanted as f32 };
    }

    fn step(&mut self, ticks: i32) {
        self.particles.retain_mut(|p| !p.age(ticks));
    }
}

#[test]
fn spawner_rate_accumulates_whole_particles() {
    let mut e = Emitter::new(8);
    for _ in 0..5 {
        e.tick(64, 1);
    }
    assert_eq!(e.particles.len(), 5);
}

#[test]
fn spawner_cap_holds() {
    let mut e = Emitter::new(8);
    e.tick(2, 10);
    assert!(e.particles.len() <= 2);
    assert_eq!(e.acc, 0.0);
}

#[test]
fn per_spawner_max_alive_holds() {
    let mut e = Emitter::new(2);
    for _ in 0..5 {
        e.tick(64, 10);
    }
    assert_eq!(e.particles.len(), 2);
    e.step(50);
    assert_eq!(e.particles.len(), 0);
    e.tick(64, 10);
    assert_eq!(e.particles.len(), 2);
}

#[test]
fn spawner_caps_hold() {
    let mut e = Emitter::new(2);
    for _ in 0..5 {
        e.tick(64, 10);
    }
    assert_eq!(e.particles.len(), 2);
}

#[test]
fn emitters_share_the_total_in_order() {
    let owners = vec![Some(1), Some(1), None, Some(2)];
    let turns = vec![
        Turn { emitter: 1, wanted: 5, max_alive: 4 },
        Turn { emitter: 2, wanted: 3, max_alive: 9 },
        Turn { emitter: 3, wanted: 3, max_alive: 9 },
    ];
    let plan = plan_emissions(&owners, &turns, 4, 10);
    assert_eq!(
        plan,
        vec![
            Emission { count: 2, capped: true },
            Emission { count: 3, capped: false },
            Emission { count: 1, capped: true },
        ]
    );
}

#[test]
fn particles3d_burst_lifetime_and_despawn() {
    let mut e = Emitter::new(8);
    e.particles = vec![TickLife { age_ticks: 0, life_ticks: 50 }; 3];
    assert_eq!(e.particles.len(), 3);
    e.step(49);
    assert_eq!(e.particles.len(), 3);
    e.step(1);
    assert_eq!(e.particles.len(), 0);
}

#[test]
fn lives_in_seconds_end_on_the_boundary() {
    let mut age = 0.0f32;
    for _ in 0..49 {
        age += 0.01;
        assert_eq!(age_secs(s(0.01), s(age + 1e-6), s(0.5)), Aging::Live);
    }
    age += 0.01;
    assert_eq!(age_secs(s(0.01), s(age + 1e-6), s(0.5)), Aging::Spent);
    assert_eq!(age_secs(s(0.0), s(9.0), s(0.5)), Aging::Hold);
    assert_eq!(age_secs(s(f32::INFINITY), s(9.0), s(0.5)), Aging::Hold);
}

#[test]
fn only_full_pages_sample_white() {
    let (zero, one) = ((s(0.0), s(0.0)), (s(1.0), s(1.0)));
    assert!(samples_white(zero, one, 2, 2));
    assert!(!samples_white(zero, one, 1, 2));
    assert!(!samples_white(zero, (s(1.0), s(0.5)), 2, 2));
}

fn sample(g: &Gradient<[f32; 4]>, t: f32) -> [f32; 4] {
    match g.stop(s(t)) {
        Stop::Empty => [1.0; 4],
        Stop::At(i) => g.keys[i].1,
        Stop::Between(i) => {
            let (a, b) = (g.keys[i - 1], g.keys[i]);
            let span = (f(b.0) - f(a.0)).max(f32::EPSILON);
            let k = (t.clamp(0.0, 1.0) - f(a.0)) / span;
            let mut c = [0.0; 4];
            for (n, v) in c.iter_mut().enumerate() {
                *v = a.1[n] + (b.1[n] - a.1[n]) * k;
            }
            c
        }
    }
}

#[test]
fn gradient_samples_keys() {
    let g = Gradient {
        keys: vec![(s(0.0), [1.0, 0.0, 0.0, 1.0]), (s(1.0), [0.0, 0.0, 1.0, 0.0])],
    };
    assert_eq!(sample(&g, 0.0), [1.0, 0.0, 0.0, 1.0]);
    assert_eq!(sample(&g, 1.0), [0.0, 0.0, 1.0, 0.0]);
    let mid = sample(&g, 0.5);
    assert!((mid[0] - 0.5).abs() < 1e-5 && (mid[2] - 0.5).abs() < 1e-5);
}

#[test]
fn gradient_empty_is_white() {
    let g: Gradient<[f32; 4]> = Gradient { keys: Vec::new() };
    assert_eq!(sample(&g, 0.3), [1.0, 1.0, 1.0, 1.0]);
}

#[test]
fn gradients_hold_their_ends() {
    let g = Gradient { keys: vec![(s(0.25), 1u8), (s(0.5), 2), (s(0.75), 3)] };
    assert_eq!(g.stop(s(-4.0)), Stop::At(0));
    assert_eq!(g.stop(s(0.25)), Stop::At(0));
    assert_eq!(g.stop(s(0.3)), Stop::Between(1));
    assert_eq!(g.stop(s(0.5)), Stop::Between(1));
    assert_eq!(g.stop(s(0.6)), Stop::Between(2));
    assert_eq!(g.stop(s(8.0)), Stop::At(2));
    assert_eq!(Gradient::solid(5u8).keys, vec![(s(0.0), 5), (s(1.0), 5)]);
    assert_eq!(Gradient::over_life(5u8, 6).keys, vec![(s(0.0), 5), (s(1.0), 6)]);
}

#[test]
fn decals_fade_over_their_last_seconds() {
    let seen = |age: f32| decal_visibility(s(age), s(1.0), s(0.4), s(1.0 - 0.4));
    assert_eq!(seen(0.3), Visibility::Full);
    assert_eq!(seen(0.6), Visibility::Full);
    assert_eq!(seen(0.8), Visibility::Fading);
    assert_eq!(seen(1.0), Visibility::Fading, "with nothing left to see");
    assert_eq!(seen(f32::NAN), Visibility::Fading, "by no number");
    let whole = |age: f32| decal_visibility(s(age), s(1.0), s(1.0), s(0.0));
    assert_eq!(whole(0.0), Visibility::Full);
    assert_eq!(whole(0.5), Visibility::Fading);
    let long = |age: f32| decal_visibility(s(age), s(1.0), s(3.0), s(1.0 - 3.0));
    assert_eq!(long(0.1), Visibility::Fading);
    assert_eq!(long(1.0), Visibility::Gone);
    assert_eq!(long(f32::NAN), Visibility::Gone);
    assert!(f(fade_begins(s(f32::NAN))).is_nan());
    assert_eq!(f(fade_begins(s(-2.0))), 0.0);
    assert_eq!(f(fade_begins(s(0.6))), 0.6);
    let plain = |age: f32| decal_visibility(s(age), s(1.0), s(0.0), s(1.0));
    assert_eq!(plain(0.99), Visibility::Full);
    assert_eq!(plain(1.0), Visibility::Gone);
    let endless = decal_visibility(s(1e9), s(f32::INFINITY), s(0.4), s(f32::INFINITY));
    assert_eq!(endless, Visibility::Full);
    assert_eq!(
        DecalTicks::starting(0, -5, false),
        DecalTicks { life_ticks: 1, fade_ticks: 0 }
    );
    assert_eq!(DecalTicks::starting(100, 30, true).life_ticks, i32::MAX);
}

#[test]
fn lives_are_usable() {
    assert!(advances(s(0.01)));
    for no_step in [0.0, -1.0, f32::NAN, f32::INFINITY] {
        assert!(!advances(s(no_step)));
    }
    assert!(ages_decal(s(0.01), s(1.0)));
    assert!(!ages_decal(s(0.01), s(f32::INFINITY)));
    assert_eq!(number_life(s(2.0)), s(2.0));
    assert_eq!(number_life(s(0.0)), s(0.01));
    assert_eq!(number_life(s(f32::NAN)), s(0.8));
    assert_eq!(decal_fade(s(0.3)), s(0.3));
    assert_eq!(decal_fade(s(-0.3)), s(0.0));
    assert_eq!(decal_fade(s(f32::INFINITY)), s(0.0));
    assert!(stored_in_ticks(s(40.0), s(0.0)));
    assert!(stored_in_ticks(s(1.0), s(5.5)));
    assert!(!stored_in_ticks(s(5.0), s(5.0)));
    assert!(jitters(s(0.1)));
    assert!(!jitters(s(0.0)));
}

fn impact(tr: &mut Trauma, amount: f32) {
    tr.add(s(f(tr.amount) + amount));
}

fn calm_down(tr: &mut Trauma, ticks: i32) {
    tr.decay(ticks, s(f(tr.amount) - f(tr.decay_per_sec) * ticks as f32 / 100.0));
}

/// `(dx_px, dy_px, roll_rad)` of a shake at a time.
fn offset(tr: &Trauma, time_secs: f32) -> (f32, f32, f32) {
    let shake = f(tr.amount) * f(tr.amount);
    if !shakes(s(shake)) {
        return (0.0, 0.0, 0.0);
    }
    let noise = noise::Perlin::new(tr.seed);
    let t = time_secs as f64 * f(tr.noise_speed) as f64;
    let at = |y: f64| noise::NoiseFn::get(&noise, [t, y]) as f32;
    (
        at(100.0) * shake * f(tr.max_translation_px),
        at(200.0) * shake * f(tr.max_translation_px),
        at(300.0) * shake * f(tr.max_roll_rad),
    )
}

#[test]
fn add_clamps_and_decays() {
    let mut tr = Trauma::new();
    impact(&mut tr, 0.4);
    assert_eq!(f(tr.amount), 0.4);
    impact(&mut tr, 0.9);
    assert_eq!(f(tr.amount), 1.0);
    calm_down(&mut tr, 0);
    assert_eq!(f(tr.amount), 1.0);
    calm_down(&mut tr, 100);
    assert!(f(tr.amount) <= 0.0, "1.5/s drains full trauma in a second");
    impact(&mut tr, -3.0);
    assert_eq!(f(tr.amount), 0.0);
}

#[test]
fn zero_trauma_is_still() {
    let tr = Trauma::new();
    assert_eq!(offset(&tr, 3.7), (0.0, 0.0, 0.0));
    assert_eq!(f(tr.max_roll_rad), 10.0f32.to_radians());
    assert_eq!(f(tr.max_translation_px), 20.0);
    assert_eq!(f(tr.noise_speed), 20.0);
    assert_eq!(tr, Trauma::default());
}

#[test]
fn offset_is_deterministic_and_bounded() {
    let mut tr = Trauma::new();
    impact(&mut tr, 1.0);
    let a = offset(&tr, 1.23);
    let b = offset(&tr, 1.23);
    assert_eq!(a, b);
    assert!(a.0.abs() <= 20.0 && a.1.abs() <= 20.0);
    assert!(a.2.abs() <= 10.0f32.to_radians() + 1e-5);
}

#[test]
fn response_is_squared() {
    let mut half = Trauma::new();
    impact(&mut half, 0.5);
    let mut full = Trauma::new();
    impact(&mut full, 1.0);
    let h = offset(&half, 0.7);
    let f = offset(&full, 0.7);
    assert!((h.0 / f.0 - 0.25).abs() < 1e-4);
}

#[test]
fn seeds_vary_but_replay() {
    let mut a = Trauma::with_seed(1);
    let mut b = Trauma::with_seed(2);
    let mut a2 = Trauma::with_seed(1);
    impact(&mut a, 1.0);
    impact(&mut b, 1.0);
    impact(&mut a2, 1.0);
    assert_eq!(offset(&a, 0.73), offset(&a2, 0.73));
    assert_ne!(offset(&a, 0.73), offset(&b, 0.73));
}

#[test]
fn visuals_do_not_change_the_timing() {
    let mut wipe = TransitionFx::default();
    wipe.begin_custom(9);
    let mut fade = TransitionFx::default();
    fade.begin_with(TransitionVisual::Fade);
    assert_eq!(wipe.kind, TransitionVisual::Custom(9));
    assert_eq!(fade.kind, TransitionVisual::Fade);
    assert_eq!(wipe.phase, fade.phase);
    assert_eq!(wipe.t_secs, fade.t_secs);
}
