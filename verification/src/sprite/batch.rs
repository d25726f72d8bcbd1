//! Sprite batches: sheets, atlas uploads, buffers.

use crate::atlas::upload::AtlasWrite;
use crate::scalar::{self, Scalar};
use vstd::prelude::*;

verus! {

/// Texture sampling for atlas layers.
#[derive(Clone, Copy, Debug, PartialEq, Eq, Hash, Structural)]
pub enum TextureFilter {
    Nearest,
    Linear,
}

impl Default for TextureFilter {
    fn default() -> (f: TextureFilter)
        ensures
            f == TextureFilter::Nearest,
    {
        TextureFilter::Nearest
    }
}

/// Blend mode of a sprite.
#[derive(Clone, Copy, Debug, PartialEq, Eq, Structural)]
pub enum SpriteBlend {
    Alpha,
    /// Adds the sprite by its alpha to what is there.
    Additive,
    Multiply,
}

impl Default for SpriteBlend {
    fn default() -> (b: SpriteBlend)
        ensures
            b == SpriteBlend::Alpha,
    {
        SpriteBlend::Alpha
    }
}

/// Atlas pages of a batch are the layers of one texture array.
#[derive(Clone, Copy, Debug, PartialEq, Eq, Structural)]
pub struct BatchDesc {
    /// Edge of a layer in pixels.
    pub layer_size: u32,
    pub layers: u32,
    pub filter: TextureFilter,
}

impl Default for BatchDesc {
    fn default() -> (d: BatchDesc)
        ensures
            d == (BatchDesc { layer_size: 2048, layers: 4, filter: TextureFilter::Nearest }),
    {
        BatchDesc { layer_size: 2048, layers: 4, filter: TextureFilter::Nearest }
    }
}

/// Pixels for a place in the atlas, tight and row-major.
#[derive(Clone, Debug, PartialEq, Eq)]
pub struct AtlasUpload {
    pub page: u32,
    pub x: u32,
    pub y: u32,
    pub w: u32,
    pub h: u32,
    pub rgba: Vec<u8>,
}

/// An upload goes into the texture of `desc`: its page exists, it lies
/// within the layer, and it has exactly its pixels.
pub open spec fn upload_fits(up: AtlasUpload, desc: BatchDesc) -> bool {
    &&& up.page < desc.layers
    &&& up.x + up.w <= desc.layer_size
    &&& up.y + up.h <= desc.layer_size
    &&& up.rgba@.len() == up.w * up.h * 4
}

impl AtlasUpload {
    /// The upload for an atlas placement.
    pub fn from_write(write: &AtlasWrite, rgba: Vec<u8>) -> (u: AtlasUpload)
        ensures
            u.page == write.page,
            u.x == write.x,
            u.y == write.y,
            u.w == write.w,
            u.h == write.h,
            u.rgba@ == rgba@,
    {
        AtlasUpload { page: write.page, x: write.x, y: write.y, w: write.w, h: write.h, rgba }
    }

    /// Whether the upload is applied; others are dropped.
    pub fn fits(&self, desc: &BatchDesc) -> (r: bool)
        ensures
            r == upload_fits(*self, *desc),
    {
        let (w, h) = (self.w as u128, self.h as u128);
        let right: u64 = self.x as u64 + self.w as u64;
        let bottom: u64 = self.y as u64 + self.h as u64;
        proof {
            assert(w * h <= 0xffff_ffff * 0xffff_ffff) by (nonlinear_arith)
                requires
                    w <= 0xffff_ffff,
                    h <= 0xffff_ffff,
            ;
        }
        let expected: u128 = w * h * 4;
        self.page < desc.layers && right <= desc.layer_size as u64 && bottom
            <= desc.layer_size as u64 && self.rgba.len() as u128 == expected
    }
}

/// An upload of an atlas sprite fits where the atlas and the batch agree on
/// their pages.
pub proof fn law_atlas_sprites_fit(up: AtlasUpload, desc: BatchDesc, page_size: u32, pages: u32)
    requires
        page_size <= desc.layer_size,
        pages <= desc.layers,
        up.page < pages,
        up.x + up.w <= page_size,
        up.y + up.h <= page_size,
        up.rgba@.len() == up.w * up.h * 4,
    ensures
        upload_fits(up, desc),
{
}

/// A cell of a sheet: its column and row, and how many there are. Its
/// texture coordinates run from `column / columns` and `row / rows` to the
/// next of each.
#[derive(Clone, Copy, Debug, PartialEq, Eq, Structural)]
pub struct SheetCell {
    pub column: u32,
    pub row: u32,
    pub columns: u32,
    pub rows: u32,
}

pub open spec fn at_least_one(n: u32) -> int {
    if n < 1 {
        1
    } else {
        n as int
    }
}

/// The last cell of a sheet.
pub open spec fn last_cell(hframes: u32, vframes: u32) -> int {
    at_least_one(hframes) * at_least_one(vframes) - 1
}

/// The frame that is shown: the last one where there are not as many.
pub open spec fn shown_frame(hframes: u32, vframes: u32, frame: u32) -> int {
    if frame <= last_cell(hframes, vframes) {
        frame as int
    } else {
        last_cell(hframes, vframes)
    }
}

/// `c` is the cell of the frame on a sheet.
pub open spec fn cell_shows(hframes: u32, vframes: u32, frame: u32, c: SheetCell) -> bool {
    &&& c.columns == at_least_one(hframes)
    &&& c.rows == at_least_one(vframes)
    &&& c.column < c.columns
    &&& c.row < c.rows
    &&& c.row * c.columns + c.column == shown_frame(hframes, vframes, frame)
}

/// The cell of a frame, counted row by row from the top left. Frames past
/// the end stay on the last cell; a sheet without columns or rows has one.
pub fn frame_cell(hframes: u32, vframes: u32, frame: u32) -> (c: SheetCell)
    ensures
        cell_shows(hframes, vframes, frame, c),
{
    let columns: u32 = if hframes < 1 {
        1
    } else {
        hframes
    };
    let rows: u32 = if vframes < 1 {
        1
    } else {
        vframes
    };
    proof {
        assert(columns * rows <= 0xffff_ffff * 0xffff_ffff) by (nonlinear_arith)
            requires
                columns <= 0xffff_ffff,
                rows <= 0xffff_ffff,
        ;
        assert(columns * rows >= 1) by (nonlinear_arith)
            requires
                columns >= 1,
                rows >= 1,
        ;
    }
    let last: u64 = columns as u64 * rows as u64 - 1;
    let at: u64 = if (frame as u64) < last {
        frame as u64
    } else {
        last
    };
    let column: u64 = at % columns as u64;
    let row: u64 = at / columns as u64;
    proof {
        let (a, n, m) = (at as int, columns as int, rows as int);
        vstd::arithmetic::div_mod::lemma_fundamental_div_mod(a, n);
        vstd::arithmetic::div_mod::lemma_mod_bound(a, n);
        let (q, r) = (a / n, a % n);
        assert(q < m) by (nonlinear_arith)
            requires
                a == n * q + r,
                0 <= r,
                a < n * m,
                n >= 1,
        ;
        assert(row == q && column == r);
        assert(q * n == n * q) by (nonlinear_arith);
    }
    SheetCell { column: column as u32, row: row as u32, columns, rows }
}

/// A frame has one cell on a sheet, and frames that are shown apart have
/// cells of their own.
pub proof fn law_frames_have_their_cells(
    hframes: u32,
    vframes: u32,
    f: u32,
    g: u32,
    a: SheetCell,
    b: SheetCell,
)
    requires
        cell_shows(hframes, vframes, f, a),
        cell_shows(hframes, vframes, g, b),
    ensures
        a == b <==> shown_frame(hframes, vframes, f) == shown_frame(hframes, vframes, g),
{
    let n = a.columns as int;
    if shown_frame(hframes, vframes, f) == shown_frame(hframes, vframes, g) {
        assert(a.row == b.row) by (nonlinear_arith)
            requires
                a.row * n + a.column == b.row * n + b.column,
                0 <= a.column < n,
                0 <= b.column < n,
        ;
    }
}

/// What the resources of a batch were built for. Formats are the caller's
/// codes.
#[derive(Clone, Copy, Debug, PartialEq, Eq, Structural)]
pub struct BatchKey {
    pub format: u64,
    pub samples: u32,
    pub desc: BatchDesc,
}

/// Resources of one batch: what they were built for, how many instances
/// they hold, and how many the last frame had.
#[derive(Clone, Copy, Debug, PartialEq, Eq)]
pub struct BatchSlot {
    pub key: Option<BatchKey>,
    pub instance_cap: usize,
    pub last_count: u32,
}

/// What a frame does to the resources.
#[derive(Clone, Copy, Debug, PartialEq, Eq, Structural)]
pub struct BatchStep {
    /// Build everything anew; the atlas contents are lost.
    pub rebuild: bool,
    /// Replace the instance buffer by one of the slot's new capacity.
    pub grow: bool,
}

/// Instances that a buffer for `len` of them holds: at least one.
pub open spec fn cap_for(len: usize) -> usize {
    if len < 1 {
        1
    } else {
        len
    }
}

/// What a frame of `len` instances does to the resources.
pub open spec fn step_for(slot: BatchSlot, key: BatchKey, len: u32) -> BatchStep {
    BatchStep {
        rebuild: slot.key != Some(key),
        grow: slot.key == Some(key) && len > slot.instance_cap,
    }
}

/// The resources after it.
pub open spec fn slot_for(slot: BatchSlot, key: BatchKey, len: u32) -> BatchSlot {
    BatchSlot {
        key: Some(key),
        instance_cap: if slot.key != Some(key) || len > slot.instance_cap {
            cap_for(len as usize)
        } else {
            slot.instance_cap
        },
        last_count: len,
    }
}

impl BatchSlot {
    pub fn empty() -> (s: BatchSlot)
        ensures
            s == (BatchSlot { key: None, instance_cap: 0, last_count: 0 }),
    {
        BatchSlot { key: None, instance_cap: 0, last_count: 0 }
    }

    /// Prepare a frame of `len` instances: rebuild where the key changed,
    /// and grow a buffer that is too small.
    pub fn prepare(&mut self, key: BatchKey, len: u32) -> (step: BatchStep)
        ensures
            step == step_for(*old(self), key, len),
            *final(self) == slot_for(*old(self), key, len),
    {
        let cap: usize = if len < 1 {
            1
        } else {
            len as usize
        };
        let same = match self.key {
            Some(k) => k == key,
            None => false,
        };
        if !same {
            *self = BatchSlot { key: Some(key), instance_cap: cap, last_count: len };
            return BatchStep { rebuild: true, grow: false };
        }
        let grow = len as usize > self.instance_cap;
        if grow {
            self.instance_cap = cap;
        }
        self.last_count = len;
        BatchStep { rebuild: false, grow }
    }

    /// Instances to draw; nothing before a frame was prepared or when it
    /// was empty.
    pub fn draws(&self) -> (r: Option<u32>)
        ensures
            r == if self.key is Some && self.last_count > 0 {
                Some(self.last_count)
            } else {
                None
            },
    {
        match self.key {
            Some(_) => {
                if self.last_count == 0 {
                    None
                } else {
                    Some(self.last_count)
                }
            },
            None => None,
        }
    }
}

/// After a frame was prepared its instances fit the buffer, and preparing
/// the same frame again does nothing.
pub proof fn law_instances_fit(slot: BatchSlot, key: BatchKey, len: u32)
    ensures
        ({
            let after = slot_for(slot, key, len);
            &&& after.last_count <= after.instance_cap
            &&& step_for(after, key, len) == (BatchStep { rebuild: false, grow: false })
            &&& slot_for(after, key, len) == after
        }),
{
}

/// Sprites drawn one after the other with the same blend mode: those from
/// `start` up to `end`.
#[derive(Clone, Copy, Debug, PartialEq, Eq, Structural)]
pub struct BlendRun {
    pub blend: SpriteBlend,
    pub start: usize,
    pub end: usize,
}

/// The runs follow each other over all sprites, each holds at least one,
/// every sprite is in a run of its own blend mode, and the mode changes
/// from run to run.
pub open spec fn are_runs(runs: Seq<BlendRun>, blends: Seq<SpriteBlend>) -> bool {
    &&& runs.len() == 0 <==> blends.len() == 0
    &&& runs.len() > 0 ==> runs[0].start == 0 && runs[runs.len() - 1].end == blends.len()
    &&& forall|k: int|
        0 <= k < runs.len() ==> (#[trigger] runs[k]).start < runs[k].end <= blends.len()
    &&& forall|k: int, i: int|
        0 <= k < runs.len() && runs[k].start <= i < runs[k].end ==> #[trigger] blends[i] == (
        #[trigger] runs[k]).blend
    &&& forall|j: int, k: int|
        0 <= j && j + 1 == k && k < runs.len() ==> (#[trigger] runs[j]).end == (
        #[trigger] runs[k]).start && runs[j].blend != runs[k].blend
}

/// Sprites in drawing order, split where their blend mode changes.
pub fn blend_runs(blends: &Vec<SpriteBlend>) -> (runs: Vec<BlendRun>)
    ensures
        are_runs(runs@, blends@),
{
    let mut runs: Vec<BlendRun> = Vec::new();
    let mut i: usize = 0;
    while i < blends.len()
        invariant
            i <= blends.len(),
            are_runs(runs@, blends@.take(i as int)),
        decreases blends.len() - i,
    {
        let ghost had = runs@;
        let ghost seen = blends@.take(i as int);
        let ghost now = blends@.take(i + 1);
        assert forall|j: int| 0 <= j < i implies #[trigger] now[j] == seen[j] by {}
        assert(now[i as int] == blends@[i as int]);
        let blend: SpriteBlend = blends[i];
        let n: usize = runs.len();
        if n > 0 && runs[n - 1].blend == blend {
            let start: usize = runs[n - 1].start;
            runs.set(n - 1, BlendRun { blend, start, end: i + 1 });
            assert forall|j: int| 0 <= j < n - 1 implies #[trigger] runs@[j] == had[j] by {}
        } else {
            runs.push(BlendRun { blend, start: i, end: i + 1 });
            assert forall|j: int| 0 <= j < n implies #[trigger] runs@[j] == had[j] by {}
        }
        assert forall|k: int, j: int|
            0 <= k < runs@.len() && runs@[k].start <= j < runs@[k].end implies #[trigger] now[j]
            == (#[trigger] runs@[k]).blend by {
            if j < i {
                assert(seen[j] == had[k].blend);
            }
        }
        i += 1;
    }
    assert(blends@.take(i as int) =~= blends@);
    runs
}

/// There is one way to split sprites by their blend mode.
pub proof fn law_blend_runs_are_unique(
    blends: Seq<SpriteBlend>,
    a: Seq<BlendRun>,
    b: Seq<BlendRun>,
)
    requires
        are_runs(a, blends),
        are_runs(b, blends),
    ensures
        a == b,
{
    if a.len() <= b.len() {
        lemma_runs_shared(blends, a, b);
    } else {
        lemma_runs_shared(blends, b, a);
    }
}

proof fn lemma_runs_shared(blends: Seq<SpriteBlend>, a: Seq<BlendRun>, b: Seq<BlendRun>)
    requires
        are_runs(a, blends),
        are_runs(b, blends),
        a.len() <= b.len(),
    ensures
        a == b,
{
    assert forall|k: int| 0 <= k < a.len() implies #[trigger] a[k] == b[k] by {
        lemma_run_at(blends, a, b, k);
    }
    if a.len() < b.len() {
        let last = a.len() - 1;
        assert(a[last] == b[last]);
        assert(b[last].end == b[last + 1].start);
    }
    assert(a =~= b);
}

proof fn lemma_run_at(blends: Seq<SpriteBlend>, a: Seq<BlendRun>, b: Seq<BlendRun>, k: int)
    requires
        are_runs(a, blends),
        are_runs(b, blends),
        0 <= k < a.len(),
        k < b.len(),
    ensures
        a[k] == b[k],
    decreases k,
{
    if k > 0 {
        lemma_run_at(blends, a, b, k - 1);
        assert(a[k - 1].end == a[k].start);
        assert(b[k - 1].end == b[k].start);
    }
    assert(blends[a[k].start as int] == a[k].blend);
    assert(blends[b[k].start as int] == b[k].blend);
    lemma_run_ends(blends, a, b, k);
    lemma_run_ends(blends, b, a, k);
}

proof fn lemma_run_ends(blends: Seq<SpriteBlend>, a: Seq<BlendRun>, b: Seq<BlendRun>, k: int)
    requires
        are_runs(a, blends),
        are_runs(b, blends),
        0 <= k < a.len(),
        k < b.len(),
        a[k].start == b[k].start,
        a[k].blend == b[k].blend,
    ensures
        a[k].end >= b[k].end,
{
    if a[k].end < b[k].end {
        assert(k + 1 < a.len());
        assert(a[k].end == a[k + 1].start);
        assert(blends[a[k + 1].start as int] == a[k + 1].blend);
        assert(blends[a[k].end as int] == b[k].blend);
    }
}

/// `order` lists the indices below `n`, each once.
pub open spec fn is_order(order: Seq<usize>, n: int) -> bool {
    &&& order.len() == n
    &&& order.no_duplicates()
    &&& forall|k: int| 0 <= k < n ==> (#[trigger] order[k]) < n
}

/// `a` is drawn before `b`: it lies deeper, or came first at the same depth.
pub open spec fn drawn_before(zs: Seq<Scalar>, a: usize, b: usize) -> bool {
    ||| zs[a as int].rank() < zs[b as int].rank()
    ||| zs[a as int].rank() == zs[b as int].rank() && a < b
}

/// `order` goes from the deepest to the topmost.
pub open spec fn goes_up(zs: Seq<Scalar>, order: Seq<usize>) -> bool {
    forall|i: int, j: int|
        0 <= i < j < order.len() ==> drawn_before(zs, #[trigger] order[i], #[trigger] order[j])
}

fn deeper(a: Scalar, b: Scalar) -> (r: bool)
    ensures
        r == (a.rank() < b.rank()),
{
    if a.bits >= scalar::SIGN {
        if b.bits >= scalar::SIGN {
            a.bits > b.bits
        } else {
            a.bits > scalar::SIGN || b.bits > 0
        }
    } else {
        b.bits < scalar::SIGN && a.bits < b.bits
    }
}

/// Indices in drawing order: by depth, and as they came at the same depth.
pub fn draw_order(zs: &Vec<Scalar>) -> (order: Vec<usize>)
    ensures
        is_order(order@, zs@.len() as int),
        goes_up(zs@, order@),
{
    let mut order: Vec<usize> = Vec::new();
    let mut i: usize = 0;
    while i < zs.len()
        invariant
            i <= zs.len(),
            is_order(order@, i as int),
            goes_up(zs@, order@),
        decreases zs.len() - i,
    {
        let ghost had = order@;
        let mut at: usize = order.len();
        while at > 0 && deeper(zs[i], zs[order[at - 1]])
            invariant
                at <= order.len(),
                order@ == had,
                i < zs.len(),
                is_order(had, i as int),
                forall|k: int| at <= k < order.len() ==> zs@[i as int].rank() < zs@[(
                #[trigger] order@[k]) as int].rank(),
            decreases at,
        {
            at -= 1;
        }
        order.insert(at, i);
        proof {
            let now = order@;
            assert(now =~= had.insert(at as int, i));
            assert forall|k: int| 0 <= k < now.len() implies #[trigger] now[k] < i + 1 by {
                if k < at {
                    assert(now[k] == had[k]);
                } else if k > at {
                    assert(now[k] == had[k - 1]);
                }
            }
            assert forall|a: int, b: int| 0 <= a < b < now.len() implies drawn_before(
                zs@,
                #[trigger] now[a],
                #[trigger] now[b],
            ) by {
                if b < at {
                    assert(drawn_before(zs@, had[a], had[b]));
                } else if b == at {
                    let top = had[at - 1];
                    if a < at - 1 {
                        assert(drawn_before(zs@, had[a], top));
                    }
                    assert(had[a] < i);
                } else if a > at {
                    assert(drawn_before(zs@, had[a - 1], had[b - 1]));
                } else if a == at {
                    assert(now[b] == had[b - 1]);
                } else {
                    assert(drawn_before(zs@, had[a], had[b - 1]));
                }
            }
            assert(now.no_duplicates()) by {
                assert forall|a: int, b: int| 0 <= a < b < now.len() implies now[a] != now[b] by {
                    assert(drawn_before(zs@, now[a], now[b]));
                }
            }
        }
        i += 1;
    }
    order
}

/// There is one drawing order.
pub proof fn law_draw_order_is_unique(zs: Seq<Scalar>, a: Seq<usize>, b: Seq<usize>)
    requires
        is_order(a, zs.len() as int),
        goes_up(zs, a),
        is_order(b, zs.len() as int),
        goes_up(zs, b),
    ensures
        a == b,
{
    let n = zs.len() as int;
    lemma_order_covers(a, n);
    lemma_order_covers(b, n);
    assert forall|k: int| 0 <= k < n implies a[k] == b[k] by {
        lemma_same_at(zs, a, b, k);
    }
    assert(a =~= b);
}

proof fn lemma_same_at(zs: Seq<Scalar>, a: Seq<usize>, b: Seq<usize>, k: int)
    requires
        is_order(a, zs.len() as int),
        goes_up(zs, a),
        is_order(b, zs.len() as int),
        goes_up(zs, b),
        forall|v: usize| v < zs.len() ==> a.contains(v),
        forall|v: usize| v < zs.len() ==> b.contains(v),
        0 <= k < zs.len(),
    ensures
        a[k] == b[k],
    decreases k,
{
    assert forall|j: int| 0 <= j < k implies a[j] == b[j] by {
        lemma_same_at(zs, a, b, j);
    }
    if a[k] != b[k] {
        assert(b.contains(a[k]));
        let p = choose|p: int| 0 <= p < b.len() && b[p] == a[k];
        assert(a.contains(b[k]));
        let q = choose|q: int| 0 <= q < a.len() && a[q] == b[k];
        if p < k {
            assert(a[p] == b[p]);
            assert(a[p] == a[k]);
            assert(false);
        }
        if q < k {
            assert(a[q] == b[q]);
            assert(b[q] == b[k]);
            assert(false);
        }
        assert(p != k && q != k);
        assert(drawn_before(zs, b[k], b[p]));
        assert(drawn_before(zs, a[k], a[q]));
    }
}

proof fn lemma_order_covers(order: Seq<usize>, n: int)
    requires
        is_order(order, n),
    ensures
        forall|v: usize| v < n ==> #[trigger] order.contains(v),
{
    let ints = Seq::new(order.len(), |k: int| order[k] as int);
    let all = vstd::set_lib::set_int_range(0, n);
    vstd::set_lib::lemma_int_range(0, n);
    assert(ints.no_duplicates());
    ints.unique_seq_to_set();
    assert(ints.to_set().subset_of(all)) by {
        assert forall|x: int| ints.to_set().contains(x) implies all.contains(x) by {
            let k = choose|k: int| 0 <= k < ints.len() && ints[k] == x;
            assert(order[k] < n);
        }
    }
    vstd::set_lib::lemma_subset_equality(ints.to_set(), all);
    assert forall|v: usize| v < n implies #[trigger] order.contains(v) by {
        assert(all.contains(v as int));
        assert(ints.to_set().contains(v as int));
        let k = choose|k: int| 0 <= k < ints.len() && ints[k] == v as int;
        assert(order[k] == v);
    }
}

/// Of two sprites the deeper one is drawn first; of two at the same depth
/// the one that came first.
pub proof fn law_deeper_sprites_are_drawn_first(
    zs: Seq<Scalar>,
    order: Seq<usize>,
    i: int,
    j: int,
)
    requires
        goes_up(zs, order),
        0 <= i < j < order.len(),
        !zs[order[i] as int].nan(),
        !zs[order[j] as int].nan(),
    ensures
        zs[order[i] as int].le(zs[order[j] as int]),
        zs[order[i] as int].eqv(zs[order[j] as int]) ==> order[i] < order[j],
{
    assert(drawn_before(zs, order[i], order[j]));
}

/// Frames count along the rows from the top left: the first is in the
/// corner, the next beside it, the one below it a row of columns later, and
/// those past the end stay on the last cell.
pub proof fn law_frames_count_along_the_rows(
    hframes: u32,
    vframes: u32,
    frame: u32,
    c: SheetCell,
)
    requires
        cell_shows(hframes, vframes, frame, c),
        hframes > 0,
        vframes > 0,
    ensures
        c.columns == hframes,
        c.rows == vframes,
        frame < hframes ==> c.row == 0 && c.column == frame,
        frame < hframes * vframes ==> c.row * hframes + c.column == frame,
        frame >= hframes * vframes ==> c.row == vframes - 1 && c.column == hframes - 1,
        c.column < hframes,
        c.row < vframes,
{
    let (n, v) = (hframes as int, vframes as int);
    let (r, k) = (c.row as int, c.column as int);
    assert(r * n + k == shown_frame(hframes, vframes, frame));
    assert(n <= n * v) by (nonlinear_arith)
        requires
            n >= 1,
            v >= 1,
    ;
    assert(r * n + k < n ==> r == 0 && r * n == 0) by (nonlinear_arith)
        requires
            r >= 0,
            k >= 0,
            n >= 1,
    ;
    assert(r * n + k == n * v - 1 ==> r == v - 1 && k == n - 1) by (nonlinear_arith)
        requires
            0 <= k < n,
            0 <= r < v,
            n >= 1,
    ;
}

/// An upload fits exactly if its page exists, if it lies within the layer,
/// touching its edges at most, and if it has four bytes for each pixel.
pub proof fn law_uploads_fit_their_layer(up: AtlasUpload, desc: BatchDesc)
    ensures
        up.page >= desc.layers ==> !upload_fits(up, desc),
        up.x + up.w > desc.layer_size || up.y + up.h > desc.layer_size ==> !upload_fits(up, desc),
        up.rgba@.len() != 4 * (up.w * up.h) ==> !upload_fits(up, desc),
        up.page < desc.layers && up.x + up.w <= desc.layer_size && up.y + up.h <= desc.layer_size
            && up.rgba@.len() == 4 * (up.w * up.h) ==> upload_fits(up, desc),
{
    assert(up.w * up.h * 4 == 4 * (up.w * up.h)) by (nonlinear_arith);
}

/// Resources are built anew exactly if their target or layout changed; else
/// the buffer grows exactly if the frame has more instances than it holds,
/// and never shrinks.
pub proof fn law_buffers_grow_when_full(slot: BatchSlot, key: BatchKey, len: u32)
    ensures
        step_for(slot, key, len).rebuild <==> slot.key != Some(key),
        step_for(slot, key, len).grow ==> !step_for(slot, key, len).rebuild,
        slot.key == Some(key) ==> (step_for(slot, key, len).grow <==> len > slot.instance_cap),
        slot.key == Some(key) ==> slot_for(slot, key, len).instance_cap >= slot.instance_cap,
        slot.key == Some(key) && len <= slot.instance_cap ==> slot_for(
            slot,
            key,
            len,
        ).instance_cap == slot.instance_cap,
        slot_for(slot, key, len).instance_cap >= len,
        slot_for(slot, key, len).key == Some(key),
        slot_for(slot, key, len).last_count == len,
        slot.key != Some(key) && len >= 1 ==> slot_for(slot, key, len).instance_cap == len,
        slot.key != Some(key) && len == 0 ==> slot_for(slot, key, len).instance_cap == 1,
{
}

} // verus!
