use repame::atlas::pack::ShelfPage;
use repame::atlas::upload::{AtlasWrite, PageClear, UploadQueue};
use repame::atlas::{atlas_id, hash_bytes, AllocError, Atlas, AtlasDesc, AtlasId, UvRect};

/// Texture coordinates of a rectangle, normalized to its page.
fn uv(r: UvRect) -> ([f32; 2], [f32; 2]) {
    let n = r.size as f32;
    (
        [r.min.0 as f32 / n, r.min.1 as f32 / n],
        [r.max.0 as f32 / n, r.max.1 as f32 / n],
    )
}

fn fill(atlas: &Atlas) -> f32 {
    let (used, all) = atlas.utilization();
    if all == 0 {
        0.0
    } else {
        used as f32 / all as f32
    }
}

#[test]
fn packs_many_frames_onto_one_page() {
    let mut atlas = Atlas::new(AtlasDesc { size: 256, max_pages: 2 });
    for i in 0..32 {
        let uv = atlas.allocate(AtlasId(i), 48, 32).expect("fits");
        assert_eq!(uv.page, 0, "frame {i} spilled early");
    }
    assert_eq!(atlas.len(), 32);
    assert!(fill(&atlas) > 0.3);
}

#[test]
fn spills_to_new_pages_then_fails_cleanly() {
    let mut atlas = Atlas::new(AtlasDesc { size: 64, max_pages: 2 });
    let mut pages = std::collections::HashSet::new();
    let mut i = 0u64;
    loop {
        match atlas.allocate(AtlasId(i), 32, 32) {
            Ok(uv) => {
                pages.insert(uv.page);
            }
            Err(AllocError::OutOfSpace) => break,
            Err(e) => panic!("unexpected error: {e:?}"),
        }
        i += 1;
        assert!(i < 100, "runaway pack");
    }
    assert_eq!(pages.len(), 2, "both pages used before failing");
    assert_eq!(atlas.page_count(), 2);
}

#[test]
fn duplicate_and_oversize_are_errors_not_panics() {
    let mut atlas = Atlas::new(AtlasDesc { size: 64, max_pages: 1 });
    atlas.alloc_str("hero", 16, 16).unwrap();
    assert_eq!(atlas.alloc_str("hero", 16, 16), Err(AllocError::Duplicate));
    assert_eq!(atlas.alloc_str("boss", 65, 65), Err(AllocError::TooLarge));
    assert_eq!(atlas.alloc_str("zero", 0, 8), Err(AllocError::TooLarge));
}

#[test]
fn uv_rects_are_stable_and_look_up() {
    let mut atlas = Atlas::new(AtlasDesc { size: 128, max_pages: 1 });
    let r = atlas.alloc_str("a", 64, 64).unwrap();
    assert_eq!(uv(r).0, [0.0, 0.0]);
    assert_eq!(uv(r).1, [0.5, 0.5]);
    assert_eq!(atlas.uv_rect(atlas_id("a")), Some(r));
    assert_eq!(atlas.uv_rect(atlas_id("missing")), None);
}

#[test]
fn remove_frees_for_reuse_and_clear_resets() {
    let mut atlas = Atlas::new(AtlasDesc { size: 64, max_pages: 1 });
    let key = atlas_id("temp");
    let uv = atlas.allocate(key, 32, 32).unwrap();
    assert!(atlas.remove(key));
    assert!(!atlas.remove(key));
    assert_eq!(atlas.uv_rect(key), None);
    let uv2 = atlas.allocate(atlas_id("next"), 32, 32).unwrap();
    assert_eq!((uv2.min, uv2.max), (uv.min, uv.max));
    atlas.clear();
    assert!(atlas.is_empty());
    assert_eq!(atlas.page_count(), 0);
    assert_eq!(atlas.drain_clears().len(), 1);
}

#[test]
fn name_hash_is_deterministic() {
    assert_eq!(atlas_id("sprAllyBullet"), atlas_id("sprAllyBullet"));
    assert_ne!(atlas_id("a"), atlas_id("b"));
}

#[test]
fn name_hash_is_fnv_1a() {
    assert_eq!(hash_bytes(b""), AtlasId(0xcbf2_9ce4_8422_2325));
    assert_eq!(hash_bytes(b"a"), AtlasId(0xaf63_dc4c_8601_ec8c));
    assert_eq!(atlas_id("foobar"), AtlasId(0x8594_4171_f739_67e8));
}

#[test]
fn packs_rows_without_overlap() {
    let mut page = ShelfPage::new(64);
    let mut rects = Vec::new();
    for _ in 0..8 {
        let p = page.allocate(16, 16).expect("fits");
        rects.push(p);
    }
    for (i, a) in rects.iter().enumerate() {
        for b in &rects[i + 1..] {
            let overlap = a.x < b.x + b.w && b.x < a.x + a.w && a.y < b.y + b.h && b.y < a.y + a.h;
            assert!(!overlap, "overlap: {a:?} vs {b:?}");
        }
    }
}

#[test]
fn rejects_oversize_and_zero() {
    let mut page = ShelfPage::new(64);
    assert!(page.allocate(65, 16).is_none());
    assert!(page.allocate(16, 65).is_none());
    assert!(page.allocate(0, 16).is_none());
    assert!(page.allocate(16, 0).is_none());
    assert!(page.allocate(64, 64).is_some());
}

#[test]
fn freed_gaps_are_reused() {
    let mut page = ShelfPage::new(64);
    let a = page.allocate(16, 16).unwrap();
    let _b = page.allocate(16, 16).unwrap();
    page.free(a);
    let c = page.allocate(16, 16).expect("gap reused");
    assert_eq!((c.x, c.y), (a.x, a.y));
}

#[test]
fn adjacent_gaps_coalesce() {
    let mut page = ShelfPage::new(64);
    let a = page.allocate(16, 16).unwrap();
    let b = page.allocate(16, 16).unwrap();
    page.free(a);
    page.free(b);
    let c = page.allocate(32, 16).expect("merged gap reused");
    assert_eq!((c.x, c.y), (0, 0));
}

#[test]
fn gaps_on_a_full_shelf_are_reused() {
    let mut page = ShelfPage::new(64);
    let rects: Vec<_> = (0..4).map(|_| page.allocate(16, 64).unwrap()).collect();
    assert!(page.allocate(16, 16).is_none());
    assert_eq!(page.used_area(), 64 * 64);
    page.free(rects[2]);
    assert_eq!(page.used_area(), 64 * 64, "freed gaps still count");
    let again = page.allocate(16, 64).expect("room given back");
    assert_eq!((again.x, again.y), (rects[2].x, rects[2].y));
    assert_eq!(page.page_size(), 64);
}

#[test]
fn placements_come_back_in_either_order() {
    let filled = || {
        let mut page = ShelfPage::new(64);
        let p: Vec<_> = (0..4).map(|_| page.allocate(16, 32).unwrap()).collect();
        let q: Vec<_> = (0..2).map(|_| page.allocate(32, 32).unwrap()).collect();
        (page, p, q)
    };
    let later = |mut page: ShelfPage| {
        let mut got = vec![];
        for (w, h) in [(40, 30), (48, 32), (16, 16), (32, 32), (8, 8)] {
            got.push((page.allocate(w, h), page.used_area()));
        }
        got
    };
    // Neighbours on one shelf, apart on one shelf, and on two shelves.
    for (a, b) in [(0, 1), (1, 2), (0, 2), (3, 4), (0, 5)] {
        let one = |i: usize, p: &Vec<_>, q: &Vec<_>| if i < 4 { p[i] } else { q[i - 4] };
        let (mut left, p, q) = filled();
        left.free(one(a, &p, &q));
        left.free(one(b, &p, &q));
        let (mut right, p, q) = filled();
        right.free(one(b, &p, &q));
        right.free(one(a, &p, &q));
        assert_eq!(later(left), later(right), "{a} and {b}");
    }
}

#[test]
fn used_area_covers_the_live_and_never_shrinks() {
    let mut page = ShelfPage::new(64);
    let mut live = vec![];
    let mut used = 0;
    for (i, (w, h)) in [(20, 10), (30, 8), (10, 30), (64, 20), (9, 9), (5, 10)].iter().enumerate() {
        if let Some(p) = page.allocate(*w, *h) {
            live.push(p);
        }
        assert!(page.used_area() >= used);
        used = page.used_area();
        if i % 2 == 1 {
            page.free(live.remove(0));
            assert_eq!(page.used_area(), used);
        }
        let area: u64 = live.iter().map(|p| p.w as u64 * p.h as u64).sum();
        assert!(area <= used && used <= 64 * 64);
    }
    assert_eq!(page.used_area(), 50 * 10 + 10 * 30 + 64 * 20);
}

#[test]
fn drain_empties_in_order() {
    let mut q = UploadQueue::default();
    let uv = UvRect { page: 0, min: (0, 0), max: (32, 32), size: 64 };
    for i in 0..3 {
        q.push_write(AtlasWrite {
            key: AtlasId(i),
            page: 0,
            x: i as u32 * 8,
            y: 0,
            w: 8,
            h: 8,
            uv,
        });
    }
    q.push_clear(PageClear { page: 1 });
    assert_eq!(q.len(), 4);
    let writes = q.drain_writes();
    assert_eq!(writes.len(), 3);
    assert_eq!(writes[0].x, 0);
    assert_eq!(writes[2].x, 16);
    assert!(q.drain_writes().is_empty());
    assert_eq!(q.drain_clears().len(), 1);
    assert!(q.is_empty());
}

#[test]
fn drained_writes_name_their_places() {
    let mut atlas = Atlas::new(AtlasDesc { size: 64, max_pages: 1 });
    let a = atlas.alloc_str("a", 10, 20).unwrap();
    let writes = atlas.drain_writes();
    assert_eq!(writes.len(), 1);
    assert_eq!(writes[0].key, atlas_id("a"));
    assert_eq!((writes[0].w, writes[0].h), (10, 20));
    assert_eq!((writes[0].x, writes[0].y), a.min);
    assert_eq!((writes[0].x + 10, writes[0].y + 20), a.max);
    assert!(atlas.drain_writes().is_empty());
}
