use repame::scalar::Scalar;

fn s(v: f32) -> Scalar {
    Scalar::from_bits(v.to_bits())
}

const SOME: [f32; 15] = [
    0.0,
    -0.0,
    1.0,
    -1.0,
    0.4,
    -0.4,
    1e-40,
    -1e-40,
    3.7,
    65536.5,
    4.3e9,
    f32::MAX,
    f32::INFINITY,
    f32::NEG_INFINITY,
    f32::NAN,
];

#[test]
fn comparisons_match_the_hardware() {
    for a in SOME {
        for b in SOME {
            assert_eq!(s(a).less(s(b)), a < b, "{a} < {b}");
            assert_eq!(s(a).at_most(s(b)), a <= b, "{a} <= {b}");
            assert_eq!(s(a).same(s(b)), a == b, "{a} == {b}");
            let m = f32::from_bits(s(a).max(s(b)).bits);
            let want = a.max(b);
            assert!(m == want || (m.is_nan() && want.is_nan()), "max of {a} and {b}: {m}");
        }
        assert_eq!(s(a).is_nan(), a.is_nan());
        assert_eq!(s(a).is_finite(), a.is_finite());
        assert_eq!(s(a).floor_u32(), a.floor() as u32, "floor of {a}");
        let c = f32::from_bits(s(a).clamp(s(-1.0), s(2.0)).bits);
        assert!(c == a.clamp(-1.0, 2.0) || (c.is_nan() && a.is_nan()), "clamp of {a}: {c}");
    }
    assert_eq!(Scalar::one(), s(1.0));
    assert_eq!(Scalar::zero(), s(0.0));
}

#[test]
fn named_constants_are_the_numbers_they_name() {
    assert_eq!(repame::fx::transitions::HALF_SECS, 0.4f32.to_bits());
    assert_eq!(repame::fx::chroma::DEFAULT_DECAY, 2.0f32.to_bits());
    assert_eq!(repame::audio::channels::MUSIC_GAIN, 0.8f32.to_bits());
    assert_eq!(repame::audio::channels::FULL_GAIN, 1.0f32.to_bits());
    assert_eq!(repame::audio::bank::MIN_RATE, 0.01f32.to_bits());
    assert_eq!(repame::audio::bank::MINUS_ONE, (-1.0f32).to_bits());
    assert_eq!(repame::audio::music::MIN_FADE, 0.01f32.to_bits());
    assert_eq!(repame::audio::music::INTENSITY_FADE, 0.3f32.to_bits());
    assert_eq!(repame::audio::music::DUCK_ATTACK, 0.05f32.to_bits());
    assert_eq!(repame::audio::music::RELEASE_FADE, 0.1f32.to_bits());
    assert_eq!(repame::audio::music::DUCK_RELEASE, 0.5f32.to_bits());
    assert_eq!(repame::audio::music::DRIFT, 0.005f32.to_bits());
    assert_eq!(repame::audio::music::ONE, 1.0f32.to_bits());
    assert_eq!(repame::audio::voices::MIN_RAMP, 0.001f32.to_bits());
}
