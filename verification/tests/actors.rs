use repame::actors::{has_area, ActorDraw, ActorFit, ActorViewOpts, Pointers};
use repame::scalar::Scalar;

#[test]
fn opts_default_is_presentational() {
    let opts = ActorViewOpts::default();
    assert_eq!(opts.fit, ActorFit::Exact);
    assert!(!opts.chrome && !opts.interactive && !opts.auto_tick);
}

#[test]
fn opts_editor_is_full_control() {
    let opts = ActorViewOpts::editor();
    assert_eq!(opts.fit, ActorFit::Margin);
    assert!(opts.chrome && opts.interactive && opts.auto_tick);
}

#[test]
fn exact_fits_need_an_artboard() {
    let plain = ActorViewOpts::default();
    assert_eq!(plain.draw(true, false, true), None);
    assert_eq!(plain.draw(false, true, true), None);
    assert_eq!(
        plain.draw(true, true, true),
        Some(ActorDraw { fit: ActorFit::Exact, upload_images: true, backplate: false })
    );
    let editor = ActorViewOpts::editor();
    assert_eq!(
        editor.draw(true, false, false),
        Some(ActorDraw { fit: ActorFit::Margin, upload_images: false, backplate: false })
    );
    assert_eq!(editor.surface().pointers, Pointers::Forward);
    assert_eq!(plain.surface().pointers, Pointers::PassThrough);
}

#[test]
fn draws_tick_where_asked_and_paint_where_there_is_room() {
    assert!(ActorViewOpts::editor().ticks());
    assert!(!ActorViewOpts::default().ticks());
    assert!(ActorViewOpts { auto_tick: true, ..ActorViewOpts::default() }.ticks());
    let area = |w: f32, h: f32| {
        has_area(Scalar::from_bits(w.to_bits()), Scalar::from_bits(h.to_bits()))
    };
    assert!(area(1.5, 2.0));
    assert!(!area(1.0, 50.0));
    assert!(!area(50.0, 0.0));
    assert!(area(f32::NAN, 50.0));
}
