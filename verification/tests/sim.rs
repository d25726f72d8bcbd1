use repame::sim::StepClock;

#[test]
fn fixed_steps_accumulate() {
    let mut clock = StepClock::with_default_step();
    let ran = clock.advance(50_000_001);
    assert_eq!(ran, 3);
    let step_secs = std::time::Duration::from_nanos(clock.step as u64).as_secs_f64();
    let mut elapsed_secs = 0.0;
    for _ in 0..ran {
        elapsed_secs += step_secs;
    }
    assert!((elapsed_secs - 3.0_f64 / 60.0).abs() < 1e-9);
}

#[test]
fn zero_step_never_ticks() {
    let mut clock = StepClock::new(0);
    let ran = clock.advance(10_000_000_000);
    assert_eq!(ran, 0);
    assert_eq!(clock.leftover(), 0);
}

#[test]
fn spiral_of_death_is_capped() {
    let mut clock = StepClock::with_default_step();
    clock.max_steps = 4;
    let ran = clock.advance(10_000_000_000);
    assert_eq!(ran, 4);
    assert!(
        clock.leftover() < clock.step,
        "keeps only fraction, got {:?}",
        clock.leftover()
    );
}

fn alpha(clock: &StepClock) -> f32 {
    let (over, under) = clock.blend();
    (over as f64 / under as f64) as f32
}

#[test]
fn alpha_is_interpolation_fraction() {
    let mut clock = StepClock::new(16_000_000);
    clock.advance(8_000_000);
    assert!((alpha(&clock) - 0.5).abs() < 1e-6, "got {}", alpha(&clock));
    clock.advance(8_000_000);
    assert!(alpha(&clock) < 1e-6, "step boundary, got {}", alpha(&clock));
}

#[test]
fn no_time_is_lost_between_calls() {
    let mut whole = StepClock::new(10);
    let mut split = StepClock::new(10);
    let a = whole.advance(57);
    let b = split.advance(33) + split.advance(24);
    assert_eq!(a, 5);
    assert_eq!(a, b);
    assert_eq!(whole.leftover(), 7);
    assert_eq!(split.leftover(), 7);
}

#[test]
fn a_cap_of_zero_still_moves() {
    let mut clock = StepClock::new(10);
    clock.max_steps = 0;
    assert_eq!(clock.advance(35), 1);
    assert_eq!(clock.leftover(), 5);
}
