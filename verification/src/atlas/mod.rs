//! Texture atlas: CPU-side rectangle packing and an upload queue.
//!
//! Packing is shelf-based per square page ([`pack`]); pages spill over
//! automatically and the page index feeds straight into the sprite
//! instances' texture layer.

pub mod pack;
pub mod upload;

pub use pack::{Placement, ShelfPage};
pub use upload::{AtlasWrite, PageClear, UploadQueue};

use std::collections::HashMap;
use vstd::prelude::*;

verus! {

/// Opaque sprite key. Games hash their asset names with [`atlas_id`];
/// explicit ids are fine too as long as they are unique per atlas.
#[derive(Clone, Copy, Debug, PartialEq, Eq, Hash, Structural)]
pub struct AtlasId(pub u64);

pub const FNV_OFFSET: u64 = 0xcbf29ce484222325;

pub const FNV_PRIME: u64 = 0x100000001b3;

/// One FNV-1a round.
pub open spec fn fnv_round(hash: u64, byte: u8) -> u64 {
    ((hash ^ (byte as u64)) as int * FNV_PRIME as int % 0x1_0000_0000_0000_0000) as u64
}

/// FNV-1a over a byte string.
pub open spec fn fnv(bytes: Seq<u8>) -> u64
    decreases bytes.len(),
{
    if bytes.len() == 0 {
        FNV_OFFSET
    } else {
        fnv_round(fnv(bytes.drop_last()), bytes.last())
    }
}

/// FNV-1a over raw bytes.
pub fn hash_bytes(bytes: &[u8]) -> (id: AtlasId)
    ensures
        id == AtlasId(fnv(bytes@)),
{
    let mut hash: u64 = FNV_OFFSET;
    let mut i: usize = 0;
    assert(bytes@.take(0) =~= Seq::<u8>::empty());
    while i < bytes.len()
        invariant
            i <= bytes@.len(),
            hash == fnv(bytes@.take(i as int)),
        decreases bytes@.len() - i,
    {
        proof {
            assert(bytes@.take(i + 1).drop_last() =~= bytes@.take(i as int));
        }
        hash = hash ^ (bytes[i] as u64);
        hash = hash.wrapping_mul(FNV_PRIME);
        i += 1;
    }
    assert(bytes@.take(i as int) =~= bytes@);
    AtlasId(hash)
}

/// Deterministic FNV-1a name hash over the UTF-8 bytes, stable across runs
/// and platforms so packs reproduce byte-identically.
pub fn atlas_id(name: &str) -> (id: AtlasId)
    ensures
        id == AtlasId(fnv(vstd::utf8::encode_utf8(name@))),
{
    hash_bytes(name.as_bytes())
}

/// Texture rectangle of one sprite: `page` selects the atlas layer,
/// `min`/`max` are its corners in texels of a `size` x `size` page (y-down,
/// matching PNG row order). Dividing a corner by `size` normalizes it.
#[derive(Clone, Copy, Debug, PartialEq, Eq)]
pub struct UvRect {
    pub page: u32,
    pub min: (u32, u32),
    pub max: (u32, u32),
    pub size: u32,
}

/// Atlas construction parameters.
#[derive(Clone, Copy, Debug, PartialEq, Eq, Structural)]
pub struct AtlasDesc {
    /// Square page edge in pixels (e.g. 1024, 2048).
    pub size: u32,
    /// Hard cap on page count; allocations beyond it fail cleanly.
    pub max_pages: u32,
}

/// Why an allocation failed. Oversize and exhaustion are normal load-time
/// conditions the game resolves (bigger atlas, split pack, streaming).
#[derive(Clone, Copy, Debug, PartialEq, Eq, Structural)]
pub enum AllocError {
    /// A live entry already owns `key`; remove it first (or keep it -
    /// allocating the same sprite twice is usually a game bug).
    Duplicate,
    /// Empty, or larger than one page in either dimension.
    TooLarge,
    /// Every page is full (and `max_pages` is reached).
    OutOfSpace,
}

/// The atlas: multi-page shelf packer and upload queue.
#[derive(Debug)]
pub struct Atlas {
    desc: AtlasDesc,
    pages: Vec<ShelfPage>,
    entries: HashMap<u64, (u32, Placement)>,
    queue: UploadQueue,
}

/// What an atlas holds: its pages, who lives where, and what is still to be
/// uploaded.
pub struct AtlasModel {
    pub desc: AtlasDesc,
    pub pages: Seq<pack::PageModel>,
    pub entries: Map<u64, (u32, Placement)>,
    pub writes: Seq<AtlasWrite>,
    pub clears: Seq<PageClear>,
}

impl View for Atlas {
    type V = AtlasModel;

    closed spec fn view(&self) -> AtlasModel {
        AtlasModel {
            desc: self.desc,
            pages: Seq::new(self.pages@.len(), |i: int| self.pages@[i]@),
            entries: self.entries@,
            writes: self.queue.pending_writes(),
            clears: self.queue.pending_clears(),
        }
    }
}

/// The placements that live on one page.
pub open spec fn live_on(entries: Map<u64, (u32, Placement)>, page: int) -> Set<Placement> {
    Set::new(
        |p: Placement|
            exists|k: u64| #[trigger] entries.contains_key(k) && entries[k] == (page as u32, p),
    )
}

/// Every entry stands on a page, the entries of a page tile it, and no two
/// keys own the same rect.
pub open spec fn atlas_ok(m: AtlasModel) -> bool {
    &&& m.desc.size > 0
    &&& m.pages.len() <= m.desc.max_pages
    &&& forall|i: int|
        #![trigger m.pages[i]]
        0 <= i < m.pages.len() ==> m.pages[i].size == m.desc.size && pack::tiled(
            m.pages[i],
            live_on(m.entries, i),
        )
    &&& forall|k: u64| #[trigger] m.entries.contains_key(k) ==> m.entries[k].0 < m.pages.len()
    &&& forall|j: u64, k: u64| #[trigger]
        m.entries.contains_key(j) && #[trigger] m.entries.contains_key(k) && j != k
            ==> m.entries[j] != m.entries[k]
}

/// Index of the first page with room for a `w` x `h` rect.
pub open spec fn first_page(pages: Seq<pack::PageModel>, w: int, h: int, i: int) -> bool {
    &&& 0 <= i < pages.len()
    &&& pack::placed_at(pages[i], w, h) is Some
    &&& forall|j: int| 0 <= j < i ==> pack::placed_at(#[trigger] pages[j], w, h) is None
}

/// Where a sprite goes, or why it does not fit.
pub open spec fn alloc_outcome(m: AtlasModel, key: AtlasId, w: u32, h: u32) -> Result<
    (int, Placement),
    AllocError,
> {
    if m.entries.contains_key(key.0) {
        Err(AllocError::Duplicate)
    } else if pack::unplaceable(m.desc.size as int, w as int, h as int) {
        Err(AllocError::TooLarge)
    } else if exists|i: int| first_page(m.pages, w as int, h as int, i) {
        let i = choose|i: int| first_page(m.pages, w as int, h as int, i);
        Ok((i, pack::as_placement(pack::placed_at(m.pages[i], w as int, h as int), w, h)->0))
    } else if m.pages.len() >= m.desc.max_pages {
        Err(AllocError::OutOfSpace)
    } else {
        Ok((m.pages.len() as int, Placement { x: 0, y: 0, w, h }))
    }
}

/// The texture rectangle of a placement.
pub open spec fn uv_model(size: u32, page: u32, p: Placement) -> UvRect {
    UvRect {
        page,
        min: (p.x, p.y),
        max: ((p.x + p.w) as u32, (p.y + p.h) as u32),
        size,
    }
}

/// The upload a placement asks for.
pub open spec fn write_model(size: u32, key: AtlasId, page: u32, p: Placement) -> AtlasWrite {
    AtlasWrite { key, page, x: p.x, y: p.y, w: p.w, h: p.h, uv: uv_model(size, page, p) }
}

/// An empty page.
pub open spec fn fresh_page(size: u32) -> pack::PageModel {
    pack::PageModel { size: size as int, shelves: Seq::empty(), cursor_y: 0 }
}

/// The atlas after `key` was placed on page `i`; `i` may be one past the
/// last page, which is then opened.
pub open spec fn atlas_placed(m: AtlasModel, key: AtlasId, i: int, p: Placement) -> AtlasModel {
    let (w, h) = (p.w as int, p.h as int);
    AtlasModel {
        pages: if i < m.pages.len() {
            m.pages.update(i, pack::page_taken(m.pages[i], w, h))
        } else {
            m.pages.push(pack::page_taken(fresh_page(m.desc.size), w, h))
        },
        entries: m.entries.insert(key.0, (i as u32, p)),
        writes: m.writes.push(write_model(m.desc.size, key, i as u32, p)),
        ..m
    }
}

/// The atlas after `key` was removed.
pub open spec fn atlas_removed(m: AtlasModel, key: AtlasId) -> AtlasModel {
    if m.entries.contains_key(key.0) {
        let (page, p) = m.entries[key.0];
        AtlasModel {
            pages: m.pages.update(page as int, pack::page_freed(m.pages[page as int], p)),
            entries: m.entries.remove(key.0),
            ..m
        }
    } else {
        m
    }
}

/// Sum of the pages' used area.
pub open spec fn pages_area(pages: Seq<pack::PageModel>) -> int
    decreases pages.len(),
{
    if pages.len() == 0 {
        0
    } else {
        pages_area(pages.drop_last()) + pack::shelf_area(pages.last().shelves)
    }
}

impl Atlas {
    /// The atlas's own invariant.
    pub open spec fn wf(&self) -> bool {
        atlas_ok(self@)
    }

    pub fn new(desc: AtlasDesc) -> (atlas: Self)
        requires
            desc.size > 0,
            desc.max_pages > 0,
        ensures
            atlas.wf(),
            atlas@ == (AtlasModel {
                desc,
                pages: Seq::empty(),
                entries: Map::empty(),
                writes: Seq::empty(),
                clears: Seq::empty(),
            }),
    {
        let atlas = Self {
            desc,
            pages: Vec::new(),
            entries: HashMap::new(),
            queue: UploadQueue::default(),
        };
        assert(atlas@.pages =~= Seq::<pack::PageModel>::empty());
        assert(atlas@.entries =~= Map::<u64, (u32, Placement)>::empty());
        atlas
    }

    /// Place a `w` x `h` sprite under `key`. Queues exactly one
    /// [`AtlasWrite`] on success so the backend knows what to upload where,
    /// and changes nothing on failure.
    pub fn allocate(&mut self, key: AtlasId, w: u32, h: u32) -> (r: Result<UvRect, AllocError>)
        requires
            old(self).wf(),
        ensures
            final(self).wf(),
            match alloc_outcome(old(self)@, key, w, h) {
                Ok((page, p)) => {
                    &&& r == Ok::<UvRect, AllocError>(
                        uv_model(old(self)@.desc.size, page as u32, p),
                    )
                    &&& final(self)@ == atlas_placed(old(self)@, key, page, p)
                },
                Err(e) => r == Err::<UvRect, AllocError>(e) && final(self)@ == old(self)@,
            },
    {
        if self.entries.contains_key(&key.0) {
            return Err(AllocError::Duplicate);
        }
        if w == 0 || h == 0 || w > self.desc.size || h > self.desc.size {
            return Err(AllocError::TooLarge);
        }
        let ghost m = self@;
        let mut i: usize = 0;
        while i < self.pages.len()
            invariant
                self@ == m,
                m == old(self)@,
                atlas_ok(m),
                m.pages.len() == self.pages@.len(),
                !m.entries.contains_key(key.0),
                !pack::unplaceable(m.desc.size as int, w as int, h as int),
                i <= self.pages@.len(),
                forall|j: int|
                    0 <= j < i ==> pack::placed_at(#[trigger] m.pages[j], w as int, h as int) is None,
            decreases self.pages@.len() - i,
        {
            let ghost was = self.pages@;
            assert(m.pages[i as int] == was[i as int]@);
            assert(pack::tiled(m.pages[i as int], live_on(m.entries, i as int)));
            let placed = self.pages[i].allocate(w, h);
            match placed {
                Some(p) => {
                    proof {
                        lemma_first_page(m.pages, w as int, h as int, i as int);
                        assert(self@.pages =~= m.pages.update(
                            i as int,
                            pack::page_taken(m.pages[i as int], w as int, h as int),
                        ));
                        lemma_placed_ok(m, key, i as int, p);
                    }
                    let uv = self.insert(key, i as u32, p);
                    assert(self@.pages =~= atlas_placed(m, key, i as int, p).pages);
                    assert(self@ == atlas_placed(m, key, i as int, p));
                    return Ok(uv);
                },
                None => {
                    assert(self@.pages =~= m.pages);
                },
            }
            i += 1;
        }
        proof {
            assert forall|k: int| !first_page(m.pages, w as int, h as int, k) by {}
        }
        if self.pages.len() >= self.desc.max_pages as usize {
            return Err(AllocError::OutOfSpace);
        }
        let mut page = ShelfPage::new(self.desc.size);
        proof {
            pack::law_fresh_page_fits(page@, w as int, h as int);
            pack::law_new_page_is_empty(self.desc.size);
        }
        let placed = page.allocate(w, h);
        let n: usize = self.pages.len();
        self.pages.push(page);
        let p = Placement { x: 0, y: 0, w, h };
        proof {
            assert(placed == Some(p));
            assert(self@.pages =~= atlas_placed(m, key, n as int, p).pages);
            lemma_placed_ok(m, key, n as int, p);
        }
        let uv = self.insert(key, n as u32, p);
        assert(self@.pages =~= atlas_placed(m, key, n as int, p).pages);
        assert(self@ == atlas_placed(m, key, n as int, p));
        Ok(uv)
    }

    /// Convenience wrapper hashing a name with [`atlas_id`].
    pub fn alloc_str(&mut self, name: &str, w: u32, h: u32) -> (r: Result<UvRect, AllocError>)
        requires
            old(self).wf(),
        ensures
            final(self).wf(),
            match alloc_outcome(old(self)@, AtlasId(fnv(vstd::utf8::encode_utf8(name@))), w, h) {
                Ok((page, p)) => {
                    &&& r == Ok::<UvRect, AllocError>(
                        uv_model(old(self)@.desc.size, page as u32, p),
                    )
                    &&& final(self)@ == atlas_placed(
                        old(self)@,
                        AtlasId(fnv(vstd::utf8::encode_utf8(name@))),
                        page,
                        p,
                    )
                },
                Err(e) => r == Err::<UvRect, AllocError>(e) && final(self)@ == old(self)@,
            },
    {
        let key = atlas_id(name);
        self.allocate(key, w, h)
    }

    fn insert(&mut self, key: AtlasId, page: u32, p: Placement) -> (uv: UvRect)
        requires
            p.x + p.w <= u32::MAX,
            p.y + p.h <= u32::MAX,
        ensures
            uv == uv_model(old(self).desc.size, page, p),
            final(self).desc == old(self).desc,
            final(self).pages == old(self).pages,
            final(self).entries@ == old(self).entries@.insert(key.0, (page, p)),
            final(self).queue.pending_writes() == old(self).queue.pending_writes().push(
                write_model(old(self).desc.size, key, page, p),
            ),
            final(self).queue.pending_clears() == old(self).queue.pending_clears(),
    {
        let uv = self.uv_of(page, p);
        self.entries.insert(key.0, (page, p));
        self.queue.push_write(
            AtlasWrite { key, page, x: p.x, y: p.y, w: p.w, h: p.h, uv },
        );
        uv
    }

    /// Look up a live entry's texture rectangle.
    pub fn uv_rect(&self, key: AtlasId) -> (r: Option<UvRect>)
        requires
            self.wf(),
        ensures
            r == if self@.entries.contains_key(key.0) {
                Some(
                    uv_model(
                        self@.desc.size,
                        self@.entries[key.0].0,
                        self@.entries[key.0].1,
                    ),
                )
            } else {
                None
            },
    {
        match self.entries.get(&key.0) {
            Some(entry) => {
                let (page, p): (u32, Placement) = *entry;
                proof {
                    lemma_entry_inside(self@, key.0);
                }
                Some(self.uv_of(page, p))
            },
            None => None,
        }
    }

    fn uv_of(&self, page: u32, p: Placement) -> (uv: UvRect)
        requires
            p.x + p.w <= u32::MAX,
            p.y + p.h <= u32::MAX,
        ensures
            uv == uv_model(self.desc.size, page, p),
    {
        UvRect { page, min: (p.x, p.y), max: (p.x + p.w, p.y + p.h), size: self.desc.size }
    }

    /// Remove an entry, returning its pixels to the page's gap pool.
    /// Returns false when `key` was not live. Removals queue no upload:
    /// stale texels are simply never sampled again.
    pub fn remove(&mut self, key: AtlasId) -> (r: bool)
        requires
            old(self).wf(),
        ensures
            final(self).wf(),
            r == old(self)@.entries.contains_key(key.0),
            final(self)@ == atlas_removed(old(self)@, key),
    {
        let ghost m = self@;
        match self.entries.remove(&key.0) {
            Some(entry) => {
                let (page, p): (u32, Placement) = entry;
                proof {
                    lemma_entry_inside(m, key.0);
                    lemma_removed_ok(m, key);
                    assert(m.pages[page as int] == self.pages@[page as int]@);
                }
                self.pages[page as usize].free(p);
                assert(self@.pages =~= atlas_removed(m, key).pages);
                assert(self@ == atlas_removed(m, key));
                true
            },
            None => {
                assert(self@.entries =~= m.entries);
                false
            },
        }
    }

    /// Drop everything; queues one [`PageClear`] per page so the backend can
    /// recycle whole textures.
    pub fn clear(&mut self)
        requires
            old(self).wf(),
        ensures
            final(self).wf(),
            final(self)@ == (AtlasModel {
                pages: Seq::empty(),
                entries: Map::empty(),
                clears: old(self)@.clears + Seq::new(
                    old(self)@.pages.len(),
                    |i: int| PageClear { page: i as u32 },
                ),
                ..old(self)@
            }),
    {
        let ghost m = self@;
        let n: usize = self.pages.len();
        let mut i: usize = 0;
        while i < n
            invariant
                atlas_ok(m),
                m == old(self)@,
                n == m.pages.len(),
                i <= n,
                self.desc == m.desc,
                self.queue.pending_writes() == m.writes,
                self.queue.pending_clears() == m.clears + Seq::new(
                    i as nat,
                    |k: int| PageClear { page: k as u32 },
                ),
            decreases n - i,
        {
            self.queue.push_clear(PageClear { page: i as u32 });
            assert(Seq::new((i + 1) as nat, |k: int| PageClear { page: k as u32 }) =~= Seq::new(
                i as nat,
                |k: int| PageClear { page: k as u32 },
            ).push(PageClear { page: i as u32 }));
            assert(self.queue.pending_clears() =~= m.clears + Seq::new(
                (i + 1) as nat,
                |k: int| PageClear { page: k as u32 },
            ));
            i += 1;
        }
        self.pages.clear();
        self.entries.clear();
        assert(self@.pages =~= Seq::<pack::PageModel>::empty());
        assert(self@.entries =~= Map::<u64, (u32, Placement)>::empty());
    }

    /// Live entry count.
    pub fn len(&self) -> (n: usize)
        ensures
            n == self@.entries.len(),
    {
        self.entries.len()
    }

    pub fn is_empty(&self) -> (r: bool)
        ensures
            r == (self@.entries.len() == 0),
    {
        self.entries.len() == 0
    }

    /// Pages currently backing the pack (<= `max_pages`).
    pub fn page_count(&self) -> (n: u32)
        requires
            self.wf(),
        ensures
            n == self@.pages.len(),
            n <= self@.desc.max_pages,
    {
        self.pages.len() as u32
    }

    /// Approximate fill over the touched pages: used texels and all texels.
    /// Their quotient is the fill ratio, within 0..1; both are zero while no
    /// page is touched.
    pub fn utilization(&self) -> (fill: (u128, u128))
        requires
            self.wf(),
        ensures
            fill.0 == pages_area(self@.pages),
            fill.1 == self@.desc.size * self@.desc.size * self@.pages.len(),
            fill.0 <= fill.1,
    {
        let ghost m = self@;
        let edge: u128 = self.desc.size as u128;
        assert(edge * edge <= 0x1_0000_0000_0000_0000) by (nonlinear_arith)
            requires
                edge <= u32::MAX,
        ;
        let page_area: u128 = edge * edge;
        let mut used: u128 = 0;
        let mut all: u128 = 0;
        let mut i: usize = 0;
        assert(m.pages.take(0) =~= Seq::<pack::PageModel>::empty());
        while i < self.pages.len()
            invariant
                m == self@,
                atlas_ok(m),
                m.pages.len() == self.pages@.len(),
                page_area == m.desc.size * m.desc.size,
                page_area <= 0x1_0000_0000_0000_0000,
                i <= self.pages@.len(),
                used == pages_area(m.pages.take(i as int)),
                all == page_area * i,
                used <= all,
                all <= i * 0x1_0000_0000_0000_0000,
            decreases self.pages@.len() - i,
        {
            proof {
                assert(m.pages.take(i + 1).drop_last() =~= m.pages.take(i as int));
                assert(m.pages[i as int] == self.pages@[i as int]@);
                assert(pack::tiled(m.pages[i as int], live_on(m.entries, i as int)));
                assert(page_area * (i + 1) == page_area * i + page_area) by (nonlinear_arith);
            }
            used = used + self.pages[i].used_area() as u128;
            all = all + page_area;
            i += 1;
        }
        assert(m.pages.take(i as int) =~= m.pages);
        (used, all)
    }

    pub fn drain_writes(&mut self) -> (out: Vec<AtlasWrite>)
        ensures
            out@ == old(self)@.writes,
            final(self)@ == (AtlasModel { writes: Seq::empty(), ..old(self)@ }),
    {
        let ghost m = self@;
        let out = self.queue.drain_writes();
        assert(self@.pages =~= m.pages);
        out
    }

    pub fn drain_clears(&mut self) -> (out: Vec<PageClear>)
        ensures
            out@ == old(self)@.clears,
            final(self)@ == (AtlasModel { clears: Seq::empty(), ..old(self)@ }),
    {
        let ghost m = self@;
        let out = self.queue.drain_clears();
        assert(self@.pages =~= m.pages);
        out
    }
}

proof fn lemma_first_page(pages: Seq<pack::PageModel>, w: int, h: int, i: int)
    requires
        first_page(pages, w, h, i),
    ensures
        (choose|k: int| first_page(pages, w, h, k)) == i,
{
    let c = choose|k: int| first_page(pages, w, h, k);
    assert(first_page(pages, w, h, c));
    if c < i {
        assert(pack::placed_at(pages[c], w, h) is None);
    }
    if i < c {
        assert(pack::placed_at(pages[i], w, h) is None);
    }
}

/// Every entry is a live rect of its page.
proof fn lemma_entry_inside(m: AtlasModel, k: u64)
    requires
        atlas_ok(m),
        m.entries.contains_key(k),
    ensures
        m.entries[k].0 < m.pages.len(),
        live_on(m.entries, m.entries[k].0 as int).contains(m.entries[k].1),
        pack::inside(m.pages[m.entries[k].0 as int], m.entries[k].1),
        m.entries[k].1.x + m.entries[k].1.w <= u32::MAX,
        m.entries[k].1.y + m.entries[k].1.h <= u32::MAX,
{
    let page = m.entries[k].0 as int;
    let p = m.entries[k].1;
    assert(m.pages[page].size == m.desc.size);
    assert(live_on(m.entries, page).contains(p));
    pack::law_live_is_inside(m.pages[page], live_on(m.entries, page), p);
}

proof fn lemma_live_insert(entries: Map<u64, (u32, Placement)>, k: u64, page: u32, p: Placement)
    requires
        !entries.contains_key(k),
    ensures
        live_on(entries.insert(k, (page, p)), page as int) == live_on(entries, page as int).insert(
            p,
        ),
        forall|i: int|
            0 <= i <= u32::MAX && i != page ==> #[trigger] live_on(
                entries.insert(k, (page, p)),
                i,
            ) == live_on(entries, i),
{
    let after = entries.insert(k, (page, p));
    assert forall|i: int, q: Placement| 0 <= i <= u32::MAX implies #[trigger] live_on(
        after,
        i,
    ).contains(q) == (live_on(entries, i).contains(q) || (i == page && q == p)) by {
        if live_on(after, i).contains(q) {
            let j = choose|j: u64| #[trigger] after.contains_key(j) && after[j] == (i as u32, q);
            if j != k {
                assert(entries.contains_key(j) && entries[j] == (i as u32, q));
            }
        }
        if live_on(entries, i).contains(q) {
            let j = choose|j: u64| #[trigger]
                entries.contains_key(j) && entries[j] == (i as u32, q);
            assert(after.contains_key(j) && after[j] == (i as u32, q));
        }
        if i == page && q == p {
            assert(after.contains_key(k) && after[k] == (i as u32, q));
        }
    }
    assert(live_on(after, page as int) =~= live_on(entries, page as int).insert(p));
    assert forall|i: int| 0 <= i <= u32::MAX && i != page implies #[trigger] live_on(after, i)
        == live_on(entries, i) by {
        assert(live_on(after, i) =~= live_on(entries, i));
    }
}

proof fn lemma_live_remove(entries: Map<u64, (u32, Placement)>, k: u64)
    requires
        entries.contains_key(k),
        forall|i: u64, j: u64| #[trigger]
            entries.contains_key(i) && #[trigger] entries.contains_key(j) && i != j ==> entries[i]
                != entries[j],
    ensures
        live_on(entries.remove(k), entries[k].0 as int) == live_on(
            entries,
            entries[k].0 as int,
        ).remove(entries[k].1),
        forall|i: int|
            0 <= i <= u32::MAX && i != entries[k].0 ==> #[trigger] live_on(entries.remove(k), i)
                == live_on(entries, i),
{
    let after = entries.remove(k);
    let (page, p) = entries[k];
    assert forall|i: int, q: Placement| 0 <= i <= u32::MAX implies #[trigger] live_on(
        after,
        i,
    ).contains(q) == (live_on(entries, i).contains(q) && !(i == page && q == p)) by {
        if live_on(after, i).contains(q) {
            let j = choose|j: u64| #[trigger] after.contains_key(j) && after[j] == (i as u32, q);
            assert(entries.contains_key(j) && entries[j] == (i as u32, q));
        }
        if live_on(entries, i).contains(q) && !(i == page && q == p) {
            let j = choose|j: u64| #[trigger]
                entries.contains_key(j) && entries[j] == (i as u32, q);
            assert(after.contains_key(j) && after[j] == (i as u32, q));
        }
    }
    assert(live_on(after, page as int) =~= live_on(entries, page as int).remove(p));
    assert forall|i: int| 0 <= i <= u32::MAX && i != page implies #[trigger] live_on(after, i)
        == live_on(entries, i) by {
        assert(live_on(after, i) =~= live_on(entries, i));
    }
}

/// Placing a sprite keeps the atlas's invariant.
proof fn lemma_placed_ok(m: AtlasModel, key: AtlasId, i: int, p: Placement)
    requires
        atlas_ok(m),
        !m.entries.contains_key(key.0),
        !pack::unplaceable(m.desc.size as int, p.w as int, p.h as int),
        0 <= i <= m.pages.len(),
        i == m.pages.len() ==> m.pages.len() < m.desc.max_pages && p.x == 0 && p.y == 0,
        i < m.pages.len() ==> pack::as_placement(
            pack::placed_at(m.pages[i], p.w as int, p.h as int),
            p.w,
            p.h,
        ) == Some(p),
    ensures
        atlas_ok(atlas_placed(m, key, i, p)),
        p.x + p.w <= u32::MAX,
        p.y + p.h <= u32::MAX,
{
    let after = atlas_placed(m, key, i, p);
    let (w, h) = (p.w as int, p.h as int);
    let page = if i < m.pages.len() {
        m.pages[i]
    } else {
        fresh_page(m.desc.size)
    };
    if i == m.pages.len() {
        pack::law_new_page_is_empty(m.desc.size);
        pack::law_fresh_page_fits(page, w, h);
        assert(live_on(m.entries, i) =~= Set::<Placement>::empty()) by {
            assert forall|q: Placement| !live_on(m.entries, i).contains(q) by {
                if live_on(m.entries, i).contains(q) {
                    let j = choose|j: u64| #[trigger]
                        m.entries.contains_key(j) && m.entries[j] == (i as u32, q);
                    assert(m.entries[j].0 < m.pages.len());
                }
            }
        }
    }
    let live = live_on(m.entries, i);
    assert(pack::tiled(page, live));
    pack::law_allocations_never_overlap(page, live, p.w, p.h, p);
    lemma_live_insert(m.entries, key.0, i as u32, p);
    assert forall|k: int|
        #![trigger after.pages[k]]
        0 <= k < after.pages.len() implies after.pages[k].size == m.desc.size && pack::tiled(
        after.pages[k],
        live_on(after.entries, k),
    ) by {
        if k != i {
            assert(after.pages[k] == m.pages[k]);
            assert(live_on(after.entries, k) == live_on(m.entries, k));
        }
    }
    assert forall|j: u64, k: u64| #[trigger]
        after.entries.contains_key(j) && #[trigger] after.entries.contains_key(k) && j
            != k implies after.entries[j] != after.entries[k] by {
        if j == key.0 {
            if after.entries[k] == (i as u32, p) {
                assert(m.entries.contains_key(k));
                assert(live.contains(p));
            }
        } else if k == key.0 {
            if after.entries[j] == (i as u32, p) {
                assert(m.entries.contains_key(j));
                assert(live.contains(p));
            }
        }
    }
}

/// Removing a sprite keeps the atlas's invariant.
proof fn lemma_removed_ok(m: AtlasModel, key: AtlasId)
    requires
        atlas_ok(m),
        m.entries.contains_key(key.0),
    ensures
        atlas_ok(atlas_removed(m, key)),
{
    let after = atlas_removed(m, key);
    let (page, p) = m.entries[key.0];
    lemma_entry_inside(m, key.0);
    let live = live_on(m.entries, page as int);
    assert(pack::tiled(m.pages[page as int], live));
    pack::law_free_gives_back(m.pages[page as int], live, p);
    lemma_live_remove(m.entries, key.0);
    assert forall|k: int|
        #![trigger after.pages[k]]
        0 <= k < after.pages.len() implies after.pages[k].size == m.desc.size && pack::tiled(
        after.pages[k],
        live_on(after.entries, k),
    ) by {
        if k != page {
            assert(after.pages[k] == m.pages[k]);
            assert(live_on(after.entries, k) == live_on(m.entries, k));
        }
    }
}

/// No two sprites of an atlas share a pixel, and each lies on its page.
pub proof fn law_sprites_never_overlap(m: AtlasModel, j: u64, k: u64)
    requires
        atlas_ok(m),
        m.entries.contains_key(j),
        m.entries.contains_key(k),
        j != k,
        m.entries[j].0 == m.entries[k].0,
    ensures
        pack::inside(m.pages[m.entries[j].0 as int], m.entries[j].1),
        !pack::overlap(m.entries[j].1, m.entries[k].1),
{
    lemma_entry_inside(m, j);
    lemma_entry_inside(m, k);
    let page = m.entries[j].0 as int;
    assert(pack::tiled(m.pages[page], live_on(m.entries, page)));
}

/// The hash is FNV-1a: of no bytes it is the offset basis, and each further
/// byte is mixed in before the product with the prime, modulo 2^64.
pub proof fn law_bytes_are_mixed_in_one_by_one(bytes: Seq<u8>, b: u8)
    ensures
        fnv(Seq::empty()) == 0xcbf29ce484222325,
        fnv(bytes.push(b)) as int == ((fnv(bytes) ^ (b as u64)) as int * 0x100000001b3)
            % 0x1_0000_0000_0000_0000,
{
    assert(bytes.push(b).drop_last() =~= bytes);
    let x = (fnv(bytes) ^ (b as u64)) as int * FNV_PRIME as int;
    vstd::arithmetic::div_mod::lemma_mod_bound(x, 0x1_0000_0000_0000_0000);
}

/// An allocation is refused as a duplicate exactly if the key is live, as
/// too large exactly if it is empty or exceeds a page, and for want of
/// space only if every page is full and no more may be opened. Else it gets
/// a place of its own size, on the first page that has room.
pub proof fn law_refusals_have_their_reasons(m: AtlasModel, key: AtlasId, w: u32, h: u32)
    ensures
        ({
            let r = alloc_outcome(m, key, w, h);
            let large = w == 0 || h == 0 || w > m.desc.size || h > m.desc.size;
            &&& m.entries.contains_key(key.0) <==> r == Err::<(int, Placement), AllocError>(
                AllocError::Duplicate,
            )
            &&& !m.entries.contains_key(key.0) ==> (large <==> r == Err::<
                (int, Placement),
                AllocError,
            >(AllocError::TooLarge))
            &&& r == Err::<(int, Placement), AllocError>(AllocError::OutOfSpace) ==> m.pages.len()
                >= m.desc.max_pages && forall|i: int|
                0 <= i < m.pages.len() ==> pack::placed_at(
                    #[trigger] m.pages[i],
                    w as int,
                    h as int,
                ) is None
            &&& r matches Ok((page, p)) ==> {
                &&& p.w == w && p.h == h
                &&& 0 <= page <= m.pages.len()
                &&& page == m.pages.len() ==> page < m.desc.max_pages && p.x == 0 && p.y == 0
                &&& forall|i: int|
                    0 <= i < page ==> pack::placed_at(
                        #[trigger] m.pages[i],
                        w as int,
                        h as int,
                    ) is None
                &&& page < m.pages.len() ==> pack::placed_at(
                    m.pages[page],
                    w as int,
                    h as int,
                ) is Some
            }
        }),
{
    let (wi, hi) = (w as int, h as int);
    if !exists|i: int| first_page(m.pages, wi, hi, i) {
        assert forall|i: int| 0 <= i < m.pages.len() implies pack::placed_at(
            #[trigger] m.pages[i],
            wi,
            hi,
        ) is None by {
            lemma_no_first_page(m.pages, wi, hi, i);
        }
    }
}

proof fn lemma_no_first_page(pages: Seq<pack::PageModel>, w: int, h: int, i: int)
    requires
        0 <= i < pages.len(),
        !exists|k: int| first_page(pages, w, h, k),
    ensures
        pack::placed_at(pages[i], w, h) is None,
    decreases i,
{
    assert forall|j: int| 0 <= j < i implies pack::placed_at(#[trigger] pages[j], w, h) is None by {
        lemma_no_first_page(pages, w, h, j);
    }
    assert(!first_page(pages, w, h, i));
}

/// The rectangle of a sprite starts at its place and is as wide and high as
/// the sprite, on its page and in pixels of it.
pub proof fn law_rectangles_span_their_sprites(size: u32, key: AtlasId, page: u32, p: Placement)
    requires
        p.x + p.w <= u32::MAX,
        p.y + p.h <= u32::MAX,
    ensures
        ({
            let uv = uv_model(size, page, p);
            &&& uv.page == page
            &&& uv.size == size
            &&& uv.min.0 == p.x && uv.min.1 == p.y
            &&& uv.max.0 - uv.min.0 == p.w
            &&& uv.max.1 - uv.min.1 == p.h
        }),
        ({
            let write = write_model(size, key, page, p);
            &&& write.key == key
            &&& write.page == page
            &&& write.x == p.x && write.y == p.y && write.w == p.w && write.h == p.h
            &&& write.uv == uv_model(size, page, p)
        }),
{
}

/// A placed sprite is live where it was put, one write for it is pending
/// behind the others, and no other sprite or page is touched. A removed one
/// is gone, and nothing else is; pending work stays.
pub proof fn law_sprites_come_and_go_alone(
    m: AtlasModel,
    key: AtlasId,
    page: int,
    p: Placement,
    other: u64,
)
    requires
        0 <= page <= m.pages.len(),
        m.pages.len() < u32::MAX,
        m.entries.contains_key(key.0) ==> m.entries[key.0].0 < m.pages.len(),
    ensures
        ({
            let a = atlas_placed(m, key, page, p);
            &&& a.desc == m.desc
            &&& a.entries.contains_key(key.0) && a.entries[key.0] == (page as u32, p)
            &&& a.writes.len() == m.writes.len() + 1 && a.writes.drop_last() == m.writes
            &&& a.writes.last().key == key && a.writes.last().page == page
            &&& a.writes.last().x == p.x && a.writes.last().y == p.y
            &&& a.clears == m.clears
            &&& a.pages.len() == if page < m.pages.len() {
                m.pages.len()
            } else {
                m.pages.len() + 1
            }
            &&& forall|i: int|
                0 <= i < m.pages.len() && i != page ==> #[trigger] a.pages[i] == m.pages[i]
            &&& other != key.0 ==> a.entries.contains_key(other) == m.entries.contains_key(other)
            &&& other != key.0 && m.entries.contains_key(other) ==> a.entries[other]
                == m.entries[other]
        }),
        ({
            let r = atlas_removed(m, key);
            &&& !r.entries.contains_key(key.0)
            &&& r.desc == m.desc && r.writes == m.writes && r.clears == m.clears
            &&& r.pages.len() == m.pages.len()
            &&& !m.entries.contains_key(key.0) ==> r == m
            &&& other != key.0 ==> r.entries.contains_key(other) == m.entries.contains_key(other)
            &&& other != key.0 && m.entries.contains_key(other) ==> r.entries[other]
                == m.entries[other]
        }),
{
    assert(atlas_placed(m, key, page, p).writes.drop_last() =~= m.writes);
}

/// A page opens without shelves, at the size of the atlas, and the used
/// area is the sum of the pages'.
pub proof fn law_pages_add_up(pages: Seq<pack::PageModel>, page: pack::PageModel, size: u32)
    ensures
        fresh_page(size).size == size,
        fresh_page(size).cursor_y == 0,
        fresh_page(size).shelves.len() == 0,
        pages_area(Seq::empty()) == 0,
        pages_area(pages.push(page)) == pages_area(pages) + pack::shelf_area(page.shelves),
        pages_area(pages.push(fresh_page(size))) == pages_area(pages),
{
    assert(pages.push(page).drop_last() =~= pages);
    assert(pages.push(fresh_page(size)).drop_last() =~= pages);
}

} // verus!
