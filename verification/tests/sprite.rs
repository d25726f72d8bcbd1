use repame::atlas::{AtlasId, AtlasWrite, UvRect};
use repame::scalar::Scalar;
use repame::sprite::batch::{
    blend_runs, draw_order, frame_cell, AtlasUpload, BatchDesc, BatchKey, BatchSlot, BlendRun,
    SpriteBlend,
    TextureFilter,
};
use repame::sprite::fullscreen::{
    FullscreenDesc, FullscreenPass, FullscreenTexture, PassSlots, UploadStep,
};
use repame::sprite::viewport::{
    is_painted, is_touch, paint_order, plan_targets, sane_positive, use_composite, Layer, PickEvent, PointerAt, PointerKind,
    PostKey, PostPlan, PressTracker,
};

fn s(v: f32) -> Scalar {
    Scalar::from_bits(v.to_bits())
}

fn frame_uv(hframes: u32, vframes: u32, frame: u32) -> ([f32; 2], [f32; 2]) {
    let c = frame_cell(hframes, vframes, frame);
    let (w, h) = (1.0 / c.columns as f32, 1.0 / c.rows as f32);
    let min = [c.column as f32 * w, c.row as f32 * h];
    (min, [min[0] + w, min[1] + h])
}

#[test]
fn frame_uv_indexes_row_major() {
    let (mn, mx) = frame_uv(4, 2, 5);
    assert_eq!(mn, [0.25, 0.5]);
    assert_eq!(mx, [0.5, 1.0]);
    assert_eq!(frame_uv(4, 2, 0).0, [0.0, 0.0]);
    assert_eq!(frame_uv(4, 2, 99), frame_uv(4, 2, 7));
    assert_eq!(frame_uv(0, 0, 3), ([0.0, 0.0], [1.0, 1.0]));
}

#[test]
fn sprites_are_drawn_by_depth_then_input() {
    let zs = [2.0, -1.0, 2.0, 0.5, -1.0].map(s).to_vec();
    assert_eq!(draw_order(&zs), vec![1, 4, 3, 0, 2]);
    assert_eq!(draw_order(&Vec::new()), Vec::<usize>::new());
    assert_eq!(draw_order(&[0.0, -0.0].map(s).to_vec()).len(), 2);
}

#[test]
fn sprites_are_split_by_blend_mode() {
    let (alpha, add, mul) = (SpriteBlend::Alpha, SpriteBlend::Additive, SpriteBlend::Multiply);
    let run = |blend, start, end| BlendRun { blend, start, end };
    assert_eq!(
        blend_runs(&vec![alpha, alpha, add, alpha, mul, mul]),
        vec![run(alpha, 0, 2), run(add, 2, 3), run(alpha, 3, 4), run(mul, 4, 6)]
    );
    assert_eq!(blend_runs(&vec![add; 3]), vec![run(add, 0, 3)]);
    assert_eq!(blend_runs(&Vec::new()), Vec::new());
}

#[test]
fn uploads_must_fit_their_layer() {
    let desc = BatchDesc { layer_size: 64, layers: 2, filter: TextureFilter::Nearest };
    let up = |page, x, w: u32, h: u32, len: usize| AtlasUpload {
        page,
        x,
        y: 0,
        w,
        h,
        rgba: vec![0; len],
    };
    assert!(up(1, 60, 4, 4, 64).fits(&desc));
    assert!(!up(2, 60, 4, 4, 64).fits(&desc));
    assert!(!up(1, 61, 4, 4, 64).fits(&desc));
    assert!(!up(1, 60, 4, 4, 63).fits(&desc));
    assert!(!up(0, u32::MAX, u32::MAX, 2, 64).fits(&desc));
    assert_eq!(SpriteBlend::default(), SpriteBlend::Alpha);
}

#[test]
fn atlas_writes_become_uploads() {
    let uv = UvRect { page: 3, min: (1, 2), max: (3, 3), size: 64 };
    let write = AtlasWrite { key: AtlasId(5), page: 3, x: 1, y: 2, w: 2, h: 1, uv };
    let up = AtlasUpload::from_write(&write, vec![9; 8]);
    assert_eq!((up.page, up.x, up.y, up.w, up.h), (3, 1, 2, 2, 1));
    assert_eq!(up.rgba, vec![9; 8]);
}

#[test]
fn batches_grow_and_rebuild() {
    let key = BatchKey { format: 1, samples: 4, desc: BatchDesc::default() };
    let mut slot = BatchSlot::empty();
    assert_eq!(slot.draws(), None);
    let step = slot.prepare(key, 3);
    assert!(step.rebuild && !step.grow);
    assert!(slot.instance_cap >= 3);
    assert_eq!(slot.draws(), Some(3));
    let room = slot.instance_cap as u32;
    let step = slot.prepare(key, room);
    assert!(!step.rebuild && !step.grow);
    let step = slot.prepare(key, room + 1);
    assert!(!step.rebuild && step.grow);
    let step = slot.prepare(BatchKey { samples: 1, ..key }, 0);
    assert!(step.rebuild);
    assert_eq!(slot.draws(), None);
}

fn texture(slot: u32, w: u32, h: u32, len: usize) -> FullscreenTexture {
    FullscreenTexture { slot, w, h, rgba: vec![0; len] }
}

#[test]
fn fullscreen_passes_hold_what_they_are_given() {
    let desc = FullscreenDesc { texture_slots: 1, filter: TextureFilter::Linear };
    let mut pass = FullscreenPass::new("bg", "wgsl", desc);
    pass.set_uniform_bytes(&[1, 2, 3]);
    pass.set_uniform_bytes(&[4]);
    pass.extend_textures(vec![texture(0, 1, 1, 4)]);
    pass.extend_textures(vec![texture(1, 1, 1, 4)]);
    assert_eq!(pass.id(), "bg");
    assert_eq!(pass.wgsl(), "wgsl");
    assert_eq!(pass.desc().texture_slots, 1);
    assert_eq!(pass.uniforms(), &vec![4]);
    assert_eq!(pass.uploads().len(), 2);
}

#[test]
fn passes_paint_once_their_slots_are_filled() {
    let desc = FullscreenDesc { texture_slots: 2, filter: TextureFilter::Linear };
    let mut slots = PassSlots::empty();
    assert!(!slots.paints());
    assert!(slots.ensure(1, 1, &desc, 8));
    assert!(!slots.ensure(1, 1, &desc, 8));
    assert!(!slots.fit_uniforms(16));
    assert!(slots.fit_uniforms(17));
    let (steps, bind) = slots.apply(&vec![texture(0, 2, 2, 16), texture(5, 1, 1, 4)]);
    assert_eq!(steps, vec![UploadStep::Created, UploadStep::Dropped]);
    assert!(!bind);
    assert!(!slots.paints());
    let (steps, bind) = slots.apply(&vec![texture(0, 2, 2, 16), texture(1, 1, 1, 4)]);
    assert_eq!(steps, vec![UploadStep::Written, UploadStep::Created]);
    assert!(bind);
    assert!(slots.paints());
    assert!(slots.ensure(2, 1, &desc, 8));
    assert!(!slots.paints());
}

#[test]
fn touch_gate_and_screen_space() {
    assert!(is_touch(PointerKind::Touch));
    assert!(is_touch(PointerKind::Pen));
    assert!(!is_touch(PointerKind::Mouse));
    let (origin, position) = ([5.0f32, 7.0f32], [10.0f32, 20.0f32]);
    let screen = [origin[0] + position[0], origin[1] + position[1]];
    let mut t = PressTracker::new();
    let at = PointerAt { kind: PointerKind::Touch, id: 3, local: position, world: position, screen };
    let events = t.down(at);
    assert_eq!(
        events,
        vec![
            PickEvent::Press { world: position, screen: [15.0, 27.0] },
            PickEvent::TouchDown { id: 3, screen: [15.0, 27.0] },
        ]
    );
}

#[test]
fn click_slop_cancels_drags() {
    let near = |a: [f32; 2], b: [f32; 2]| {
        let (dx, dy) = (b[0] - a[0], b[1] - a[1]);
        dx * dx + dy * dy <= 12.0 * 12.0
    };
    let at = |p: [f32; 2]| PointerAt {
        kind: PointerKind::Mouse,
        id: 0,
        local: p,
        world: p,
        screen: p,
    };
    let mut t = PressTracker::new();
    t.down(at([100.0, 100.0]));
    let end = [105.0, 105.0];
    let close = near(t.start.unwrap(), end);
    assert_eq!(t.up(at(end), close), vec![PickEvent::Click { world: end, screen: end }]);
    t.down(at([100.0, 100.0]));
    let end = [113.0, 100.0];
    let close = near(t.start.unwrap(), end);
    assert_eq!(t.up(at(end), close), Vec::new());
    assert_eq!(t.up(at([100.0, 100.0]), true), Vec::new());
}

#[test]
fn leaving_lifts_touches() {
    let mut t: PressTracker<u8> = PressTracker::new();
    let p = PointerAt { kind: PointerKind::Pen, id: 8, local: 1, world: 2, screen: 3 };
    t.down(p);
    assert_eq!(
        t.moved(p),
        vec![PickEvent::Hover { world: 2, screen: 3 }, PickEvent::TouchMove { id: 8, screen: 3 }]
    );
    assert_eq!(t.leave(PointerKind::Pen, 8), vec![PickEvent::TouchUp { id: 8 }]);
    assert_eq!(t.up(p, true), vec![PickEvent::TouchUp { id: 8 }]);
}

#[test]
fn overlays_paint_last() {
    assert!(use_composite(s(0.1)));
    assert!(!use_composite(s(0.0)));
    assert_eq!(paint_order(true, true, s(0.0)), vec![Layer::Background, Layer::Sprites, Layer::Overlay]);
    assert_eq!(paint_order(true, true, s(0.5)), vec![Layer::Composite, Layer::Overlay]);
    assert_eq!(paint_order(false, false, s(0.0)), vec![Layer::Sprites]);
}

#[test]
fn targets_follow_the_surface() {
    let want = PostKey { format: 1, samples: 4, w: 8, h: 8 };
    assert_eq!(plan_targets(None, want), Some(PostPlan { samples: 4, resolve: true }));
    assert_eq!(plan_targets(Some(want), want), None);
    let flat = PostKey { samples: 0, ..want };
    assert_eq!(plan_targets(Some(want), flat), Some(PostPlan { samples: 1, resolve: false }));
}

#[test]
fn framing_falls_back_to_one() {
    assert_eq!(sane_positive(s(2.5)), s(2.5));
    for bad in [0.0, -3.0, 1e-7, f32::NAN, f32::INFINITY] {
        assert_eq!(sane_positive(s(bad)), s(1.0));
    }
    assert!(is_painted(s(2.0), s(2.0)));
    assert!(!is_painted(s(1.0), s(2.0)));
}
