//! Shelf rectangle packer for one square page.
//!
//! Allocations stack left-to-right on shelves; a freed rect returns a gap
//! to its shelf, and gaps are reused first-fit with adjacent-gap
//! coalescing. Shelves never shrink, so workloads with stable working sets
//! (sprite frames) do not fragment.
//!
//! The contracts speak of a [`PageModel`]: the shelves as mathematical
//! values. [`tiled`] says what it means for a set of placements to be live
//! on a page, and the laws at the end of the file show that allocating and
//! freeing keep it.

use vstd::prelude::*;

verus! {

/// Placement of one allocation inside a page, in pixels.
#[derive(Clone, Copy, Debug, PartialEq, Eq, Structural)]
pub struct Placement {
    pub x: u32,
    pub y: u32,
    pub w: u32,
    pub h: u32,
}

#[derive(Clone, Copy, Debug)]
struct Gap {
    x: u32,
    w: u32,
}

#[derive(Clone, Debug)]
struct Shelf {
    y: u32,
    h: u32,
    cursor: u32,
    gaps: Vec<Gap>,
}

/// One packable page. Not thread-safe; games drive it at load time or
/// behind their own lock.
#[derive(Clone, Debug)]
pub struct ShelfPage {
    size: u32,
    shelves: Vec<Shelf>,
    cursor_y: u32,
}

// ---------------------------------------------------------------------
// Model
// ---------------------------------------------------------------------

/// A freed stretch of a shelf, `x .. x + w`.
pub struct GapModel {
    pub x: int,
    pub w: int,
}

/// One shelf: rows `y .. y + h`, columns `0 .. cursor` handed out so far,
/// of which `gaps` came back.
pub struct ShelfModel {
    pub y: int,
    pub h: int,
    pub cursor: int,
    pub gaps: Seq<GapModel>,
}

/// One page: shelves stacked from the top, the next one starts at row
/// `cursor_y`.
pub struct PageModel {
    pub size: int,
    pub shelves: Seq<ShelfModel>,
    pub cursor_y: int,
}

impl Gap {
    spec fn model(self) -> GapModel {
        GapModel { x: self.x as int, w: self.w as int }
    }
}

spec fn gap_models(gaps: Seq<Gap>) -> Seq<GapModel> {
    Seq::new(gaps.len(), |i: int| gaps[i].model())
}

impl Shelf {
    spec fn model(&self) -> ShelfModel {
        ShelfModel {
            y: self.y as int,
            h: self.h as int,
            cursor: self.cursor as int,
            gaps: gap_models(self.gaps@),
        }
    }
}

impl View for ShelfPage {
    type V = PageModel;

    closed spec fn view(&self) -> PageModel {
        PageModel {
            size: self.size as int,
            shelves: Seq::new(self.shelves@.len(), |i: int| self.shelves@[i].model()),
            cursor_y: self.cursor_y as int,
        }
    }
}

/// Index of the first gap at least `w` wide.
pub open spec fn first_gap(gaps: Seq<GapModel>, w: int, i: int) -> bool {
    &&& 0 <= i < gaps.len()
    &&& gaps[i].w >= w
    &&& forall|j: int| 0 <= j < i ==> (#[trigger] gaps[j]).w < w
}

/// Some gap is at least `w` wide.
pub open spec fn has_gap(gaps: Seq<GapModel>, w: int) -> bool {
    exists|i: int| 0 <= i < gaps.len() && (#[trigger] gaps[i]).w >= w
}

/// The gap a `w` wide rect goes into, if any is wide enough.
pub open spec fn gap_choice(gaps: Seq<GapModel>, w: int) -> Option<int> {
    if exists|i: int| first_gap(gaps, w, i) {
        Some(choose|i: int| first_gap(gaps, w, i))
    } else {
        None
    }
}

/// The shelf is tall enough and has a stretch for a `w` wide rect.
pub open spec fn shelf_fits(shelf: ShelfModel, size: int, w: int, h: int) -> bool {
    &&& shelf.h >= h
    &&& (shelf.cursor + w <= size || has_gap(shelf.gaps, w))
}

/// Index of the shortest fitting shelf; the topmost of equally short ones.
pub open spec fn best_shelf(m: PageModel, w: int, h: int, i: int) -> bool {
    &&& 0 <= i < m.shelves.len()
    &&& shelf_fits(m.shelves[i], m.size, w, h)
    &&& forall|j: int|
        #![trigger m.shelves[j]]
        0 <= j < m.shelves.len() && shelf_fits(m.shelves[j], m.size, w, h) ==> {
            ||| m.shelves[i].h < m.shelves[j].h
            ||| m.shelves[i].h == m.shelves[j].h && i <= j
        }
}

/// The shelf a `w` x `h` rect goes onto, if any fits.
pub open spec fn shelf_choice(m: PageModel, w: int, h: int) -> Option<int> {
    if exists|i: int| best_shelf(m, w, h, i) {
        Some(choose|i: int| best_shelf(m, w, h, i))
    } else {
        None
    }
}

/// Column at which a `w` wide rect lands on the shelf: a gap before the
/// open end.
pub open spec fn shelf_column(shelf: ShelfModel, w: int) -> int {
    match gap_choice(shelf.gaps, w) {
        Some(g) => shelf.gaps[g].x,
        None => shelf.cursor,
    }
}

/// The shelf with a `w` wide rect taken out of its gap or its open end.
pub open spec fn shelf_taken(shelf: ShelfModel, w: int) -> ShelfModel {
    match gap_choice(shelf.gaps, w) {
        Some(g) => ShelfModel {
            gaps: if shelf.gaps[g].w == w {
                shelf.gaps.remove(g)
            } else {
                shelf.gaps.update(
                    g,
                    GapModel { x: shelf.gaps[g].x + w, w: shelf.gaps[g].w - w },
                )
            },
            ..shelf
        },
        None => ShelfModel { cursor: shelf.cursor + w, ..shelf },
    }
}

/// A rect no page of this size can take.
pub open spec fn unplaceable(size: int, w: int, h: int) -> bool {
    w == 0 || h == 0 || w > size || h > size
}

/// Where a `w` x `h` rect lands, or `None` when it does not fit.
pub open spec fn placed_at(m: PageModel, w: int, h: int) -> Option<(int, int)> {
    if unplaceable(m.size, w, h) {
        None
    } else {
        match shelf_choice(m, w, h) {
            Some(i) => Some((shelf_column(m.shelves[i], w), m.shelves[i].y)),
            None => if m.cursor_y + h > m.size {
                None
            } else {
                Some((0, m.cursor_y))
            },
        }
    }
}

/// The page after a `w` x `h` rect was asked for.
pub open spec fn page_taken(m: PageModel, w: int, h: int) -> PageModel {
    if unplaceable(m.size, w, h) {
        m
    } else {
        match shelf_choice(m, w, h) {
            Some(i) => PageModel {
                shelves: m.shelves.update(i, shelf_taken(m.shelves[i], w)),
                ..m
            },
            None => if m.cursor_y + h > m.size {
                m
            } else {
                PageModel {
                    shelves: m.shelves.push(
                        ShelfModel { y: m.cursor_y, h, cursor: w, gaps: Seq::empty() },
                    ),
                    cursor_y: m.cursor_y + h,
                    ..m
                }
            },
        }
    }
}

/// `g` put behind every gap that starts no further right.
pub open spec fn insert_by_x(gaps: Seq<GapModel>, g: GapModel) -> Seq<GapModel>
    decreases gaps.len(),
{
    if gaps.len() == 0 || gaps.last().x <= g.x {
        gaps.push(g)
    } else {
        insert_by_x(gaps.drop_last(), g).push(gaps.last())
    }
}

/// The gaps in the order of their start; equal starts keep their order.
pub open spec fn by_x(gaps: Seq<GapModel>) -> Seq<GapModel>
    decreases gaps.len(),
{
    if gaps.len() == 0 {
        gaps
    } else {
        insert_by_x(by_x(gaps.drop_last()), gaps.last())
    }
}

/// Every gap that starts where its left neighbour ends is merged into it.
pub open spec fn coalesced(gaps: Seq<GapModel>) -> Seq<GapModel>
    decreases gaps.len(),
{
    if gaps.len() == 0 {
        gaps
    } else {
        let left = coalesced(gaps.drop_last());
        let g = gaps.last();
        if left.len() > 0 && left.last().x + left.last().w == g.x {
            left.drop_last().push(GapModel { x: left.last().x, w: left.last().w + g.w })
        } else {
            left.push(g)
        }
    }
}

/// Index of the topmost shelf that can have handed out `p`.
pub open spec fn home_shelf(m: PageModel, p: Placement, i: int) -> bool {
    &&& 0 <= i < m.shelves.len()
    &&& m.shelves[i].y == p.y
    &&& m.shelves[i].h >= p.h
    &&& forall|j: int|
        0 <= j < i ==> !((#[trigger] m.shelves[j]).y == p.y && m.shelves[j].h >= p.h)
}

/// The shelf with `x .. x + w` back in its gap list.
pub open spec fn shelf_freed(shelf: ShelfModel, x: int, w: int) -> ShelfModel {
    ShelfModel { gaps: coalesced(by_x(shelf.gaps.push(GapModel { x, w }))), ..shelf }
}

/// The page after `p` came back; unchanged when no shelf has its row.
pub open spec fn page_freed(m: PageModel, p: Placement) -> PageModel {
    if exists|i: int| home_shelf(m, p, i) {
        let i = choose|i: int| home_shelf(m, p, i);
        PageModel {
            shelves: m.shelves.update(i, shelf_freed(m.shelves[i], p.x as int, p.w as int)),
            ..m
        }
    } else {
        m
    }
}

/// Sum of `cursor * h` over the shelves.
pub open spec fn shelf_area(shelves: Seq<ShelfModel>) -> int
    decreases shelves.len(),
{
    if shelves.len() == 0 {
        0
    } else {
        shelf_area(shelves.drop_last()) + shelves.last().cursor * shelves.last().h
    }
}

/// The shelves are stacked without room between them, the last one ends
/// where the next will start, and no shelf handed out more than a row.
pub open spec fn stacked(m: PageModel) -> bool {
    &&& 0 <= m.cursor_y <= m.size
    &&& forall|i: int| #![trigger m.shelves[i]] 0 <= i < m.shelves.len() ==> {
        &&& m.shelves[i].h > 0
        &&& 0 <= m.shelves[i].cursor <= m.size
        &&& m.shelves[i].y == row_of(m.shelves, i)
    }
    &&& m.cursor_y == row_of(m.shelves, m.shelves.len() as int)
}

/// Total height of the first `n` shelves.
pub open spec fn row_of(shelves: Seq<ShelfModel>, n: int) -> int
    decreases n,
{
    if n <= 0 {
        0
    } else {
        row_of(shelves, n - 1) + shelves[n - 1].h
    }
}

/// What holds of every page the library hands out: the shelves are
/// stacked and every gap ends inside the number range.
pub open spec fn page_ok(m: PageModel) -> bool {
    &&& stacked(m)
    &&& m.size <= u32::MAX
    &&& forall|i: int, j: int|
        #![trigger m.shelves[i].gaps[j]]
        0 <= i < m.shelves.len() && 0 <= j < m.shelves[i].gaps.len() ==> gap_ok(
            m.shelves[i].gaps[j],
        )
}

/// The gap is a range of `u32` columns.
pub open spec fn gap_ok(g: GapModel) -> bool {
    0 <= g.x && 0 <= g.w && g.x + g.w <= u32::MAX
}

/// A position as the placement of a `w` x `h` rect.
pub open spec fn as_placement(at: Option<(int, int)>, w: u32, h: u32) -> Option<Placement> {
    match at {
        Some((x, y)) => Some(Placement { x: x as u32, y: y as u32, w, h }),
        None => None,
    }
}

// ---------------------------------------------------------------------
// Code
// ---------------------------------------------------------------------

impl Shelf {
    spec fn gaps_ok(&self) -> bool {
        all_gaps_ok(self.gaps@)
    }

    /// The first gap at least `w` wide.
    fn find_gap(&self, w: u32) -> (r: Option<usize>)
        ensures
            match r {
                Some(i) => first_gap(self.model().gaps, w as int, i as int),
                None => !has_gap(self.model().gaps, w as int),
            },
    {
        let mut i: usize = 0;
        while i < self.gaps.len()
            invariant
                i <= self.gaps@.len(),
                forall|j: int| 0 <= j < i ==> (#[trigger] self.gaps@[j]).w < w,
            decreases self.gaps@.len() - i,
        {
            if self.gaps[i].w >= w {
                assert(self.model().gaps[i as int] == self.gaps@[i as int].model());
                return Some(i);
            }
            i += 1;
        }
        None
    }

    /// Whether a `w` x `h` rect fits on this shelf of a `size` wide page.
    fn fits(&self, size: u32, w: u32, h: u32) -> (r: bool)
        requires
            w <= size,
        ensures
            r == shelf_fits(self.model(), size as int, w as int, h as int),
    {
        if self.h < h {
            return false;
        }
        if self.cursor <= size - w {
            return true;
        }
        let gap = self.find_gap(w);
        proof {
            if let Some(g) = gap {
                assert(self.model().gaps[g as int].w >= w);
            }
        }
        gap.is_some()
    }

    /// Take a `w` wide stretch: the first gap that fits, else the open end.
    fn take(&mut self, size: u32, w: u32) -> (x: u32)
        requires
            old(self).gaps_ok(),
            old(self).cursor <= size,
            w > 0,
            old(self).cursor + w <= size || has_gap(old(self).model().gaps, w as int),
        ensures
            final(self).gaps_ok(),
            final(self).model() == shelf_taken(old(self).model(), w as int),
            x == shelf_column(old(self).model(), w as int),
            final(self).cursor <= size,
    {
        let ghost before = self.model();
        // Prefer reusing a freed gap over growing the cursor.
        match self.find_gap(w) {
            Some(g) => {
                proof {
                    lemma_gap_choice(before.gaps, w as int, g as int);
                }
                let gap: Gap = self.gaps[g];
                assert(gap_ok(self.gaps@[g as int].model()));
                if gap.w == w {
                    let ghost was = self.gaps@;
                    self.gaps.remove(g);
                    assert(self.model().gaps =~= before.gaps.remove(g as int));
                    assert forall|j: int| 0 <= j < self.gaps@.len() implies gap_ok(
                        #[trigger] self.gaps@[j].model(),
                    ) by {
                        let k = if j < g { j } else { j + 1 };
                        assert(gap_ok(was[k].model()));
                    }
                } else {
                    self.gaps[g] = Gap { x: gap.x + w, w: gap.w - w };
                    assert(self.model().gaps =~= before.gaps.update(
                        g as int,
                        GapModel { x: gap.x + w, w: gap.w - w },
                    ));
                }
                gap.x
            },
            None => {
                proof {
                    assert(gap_choice(before.gaps, w as int) is None);
                }
                let x: u32 = self.cursor;
                self.cursor = self.cursor + w;
                x
            },
        }
    }
}

spec fn all_gaps_ok(gaps: Seq<Gap>) -> bool {
    forall|j: int| 0 <= j < gaps.len() ==> gap_ok(#[trigger] gaps[j].model())
}

/// The gaps in the order of their start.
fn sort_gaps(gaps: &Vec<Gap>) -> (out: Vec<Gap>)
    requires
        all_gaps_ok(gaps@),
    ensures
        all_gaps_ok(out@),
        gap_models(out@) == by_x(gap_models(gaps@)),
{
    let mut out: Vec<Gap> = Vec::new();
    let mut i: usize = 0;
    assert(gap_models(gaps@).take(0) =~= Seq::<GapModel>::empty());
    assert(gap_models(out@) =~= Seq::<GapModel>::empty());
    while i < gaps.len()
        invariant
            i <= gaps@.len(),
            all_gaps_ok(gaps@),
            all_gaps_ok(out@),
            out@.len() == i,
            gap_models(out@) == by_x(gap_models(gaps@).take(i as int)),
        decreases gaps@.len() - i,
    {
        let gap: Gap = gaps[i];
        let ghost was = out@;
        let mut k: usize = i;
        while k > 0 && out[k - 1].x > gap.x
            invariant
                k <= i,
                out@ == was,
                was.len() == i,
                forall|j: int| k <= j < i ==> (#[trigger] was[j]).x > gap.x,
            decreases k,
        {
            k -= 1;
        }
        out.insert(k, gap);
        proof {
            let done = gap_models(was);
            assert forall|j: int| k <= j < i implies (#[trigger] done[j]).x > gap.x by {
                assert(was[j].x > gap.x);
            }
            if k > 0 {
                assert(done[k - 1].x == was[k - 1].x);
            }
            lemma_insert_by_x(done, gap.model(), k as int);
            assert(gap_models(out@) =~= done.insert(k as int, gap.model()));
            let all = gap_models(gaps@);
            assert(all.take(i + 1).drop_last() =~= all.take(i as int));
            assert(all.take(i + 1).last() == gap.model());
            assert forall|j: int| 0 <= j < out@.len() implies gap_ok(
                #[trigger] out@[j].model(),
            ) by {
                if j < k {
                    assert(gap_ok(was[j].model()));
                } else if j == k {
                    assert(gap_ok(gaps@[i as int].model()));
                } else {
                    assert(gap_ok(was[j - 1].model()));
                }
            }
        }
        i += 1;
    }
    assert(gap_models(gaps@).take(i as int) =~= gap_models(gaps@));
    out
}

/// Adjacent gaps merged.
fn coalesce_gaps(gaps: &Vec<Gap>) -> (out: Vec<Gap>)
    requires
        all_gaps_ok(gaps@),
    ensures
        all_gaps_ok(out@),
        gap_models(out@) == coalesced(gap_models(gaps@)),
{
    let mut out: Vec<Gap> = Vec::new();
    let mut i: usize = 0;
    assert(gap_models(gaps@).take(0) =~= Seq::<GapModel>::empty());
    assert(gap_models(out@) =~= Seq::<GapModel>::empty());
    while i < gaps.len()
        invariant
            i <= gaps@.len(),
            all_gaps_ok(gaps@),
            all_gaps_ok(out@),
            gap_models(out@) == coalesced(gap_models(gaps@).take(i as int)),
        decreases gaps@.len() - i,
    {
        let gap: Gap = gaps[i];
        let ghost was = out@;
        let ghost left = gap_models(was);
        proof {
            let all = gap_models(gaps@);
            assert(all.take(i + 1).drop_last() =~= all.take(i as int));
            assert(all.take(i + 1).last() == gap.model());
            assert(gap_ok(gaps@[i as int].model()));
            if was.len() > 0 {
                assert(gap_ok(was[was.len() - 1].model()));
                assert(left.last() == was.last().model());
            }
        }
        let n: usize = out.len();
        if n > 0 && out[n - 1].x + out[n - 1].w == gap.x {
            let last: Gap = out[n - 1];
            out[n - 1] = Gap { x: last.x, w: last.w + gap.w };
            assert(gap_models(out@) =~= left.drop_last().push(
                GapModel { x: left.last().x, w: left.last().w + gap.w },
            ));
        } else {
            out.push(gap);
            assert(gap_models(out@) =~= left.push(gap.model()));
        }
        i += 1;
    }
    assert(gap_models(gaps@).take(i as int) =~= gap_models(gaps@));
    out
}

impl Shelf {
    /// Put `x .. x + w` back, coalescing neighbours.
    fn give_back(&mut self, x: u32, w: u32)
        requires
            all_gaps_ok(old(self).gaps@),
            x + w <= u32::MAX,
        ensures
            all_gaps_ok(final(self).gaps@),
            final(self).model() == shelf_freed(old(self).model(), x as int, w as int),
    {
        let ghost before = self.model();
        let ghost was = self.gaps@;
        self.gaps.push(Gap { x, w });
        proof {
            assert forall|j: int| 0 <= j < self.gaps@.len() implies gap_ok(
                #[trigger] self.gaps@[j].model(),
            ) by {
                if j < was.len() {
                    assert(gap_ok(was[j].model()));
                }
            }
            assert(gap_models(self.gaps@) =~= before.gaps.push(
                GapModel { x: x as int, w: w as int },
            ));
        }
        let sorted = sort_gaps(&self.gaps);
        self.gaps = coalesce_gaps(&sorted);
    }
}

impl ShelfPage {
    /// The page's own invariant.
    pub open spec fn wf(&self) -> bool {
        page_ok(self@)
    }

    pub fn new(size: u32) -> (page: Self)
        ensures
            page.wf(),
            page@ == (PageModel { size: size as int, shelves: Seq::empty(), cursor_y: 0 }),
    {
        let page = Self { size, shelves: Vec::new(), cursor_y: 0 };
        assert(page@.shelves =~= Seq::<ShelfModel>::empty());
        page
    }

    /// Try to place a `w` x `h` rect. Returns its placement on success.
    ///
    /// Best fit over the shelves (shortest that fits, to keep squat shelves
    /// for squat sprites), first fit over the gaps of that shelf, else a new
    /// shelf below the last one.
    pub fn allocate(&mut self, w: u32, h: u32) -> (r: Option<Placement>)
        requires
            old(self).wf(),
        ensures
            final(self).wf(),
            final(self)@ == page_taken(old(self)@, w as int, h as int),
            r == as_placement(placed_at(old(self)@, w as int, h as int), w, h),
    {
        if w == 0 || h == 0 || w > self.size || h > self.size {
            return None;
        }
        let ghost m = self@;
        if let Some(b) = self.find_shelf(w, h) {
            proof {
                lemma_shelf_choice(m, w as int, h as int, b as int);
            }
            return Some(self.place_on_shelf(b, w, h));
        }
        proof {
            assert(shelf_choice(m, w as int, h as int) is None);
        }
        // New shelf below the last one.
        if self.cursor_y > self.size - h {
            return None;
        }
        let y: u32 = self.cursor_y;
        let shelf = Shelf { y, h, cursor: w, gaps: Vec::new() };
        proof {
            assert(shelf.model().gaps =~= Seq::<GapModel>::empty());
            lemma_stacked_push(m, w as int, h as int);
        }
        self.cursor_y = self.cursor_y + h;
        self.shelves.push(shelf);
        assert(self@.shelves =~= m.shelves.push(
            ShelfModel { y: m.cursor_y, h: h as int, cursor: w as int, gaps: Seq::empty() },
        ));
        Some(Placement { x: 0, y, w, h })
    }

    /// The shortest fitting shelf.
    fn find_shelf(&self, w: u32, h: u32) -> (r: Option<usize>)
        requires
            w <= self@.size,
        ensures
            match r {
                Some(b) => best_shelf(self@, w as int, h as int, b as int),
                None => forall|j: int|
                    #![trigger self@.shelves[j]]
                    0 <= j < self@.shelves.len() ==> !shelf_fits(
                        self@.shelves[j],
                        self@.size,
                        w as int,
                        h as int,
                    ),
            },
    {
        let ghost m = self@;
        let mut best: Option<usize> = None;
        let mut i: usize = 0;
        while i < self.shelves.len()
            invariant
                m == self@,
                m.shelves.len() == self.shelves@.len(),
                i <= self.shelves@.len(),
                w <= self.size,
                match best {
                    Some(b) => {
                        &&& b < i
                        &&& shelf_fits(m.shelves[b as int], m.size, w as int, h as int)
                        &&& forall|j: int|
                            #![trigger m.shelves[j]]
                            0 <= j < i && shelf_fits(m.shelves[j], m.size, w as int, h as int) ==> {
                                ||| m.shelves[b as int].h < m.shelves[j].h
                                ||| m.shelves[b as int].h == m.shelves[j].h && b <= j
                            }
                    },
                    None => forall|j: int|
                        #![trigger m.shelves[j]]
                        0 <= j < i ==> !shelf_fits(m.shelves[j], m.size, w as int, h as int),
                },
            decreases self.shelves@.len() - i,
        {
            assert(m.shelves[i as int] == self.shelves@[i as int].model());
            if self.shelves[i].fits(self.size, w, h) {
                match best {
                    Some(b) => {
                        assert(m.shelves[b as int] == self.shelves@[b as int].model());
                        if self.shelves[b].h > self.shelves[i].h {
                            best = Some(i);
                        }
                    },
                    None => {
                        best = Some(i);
                    },
                }
            }
            i += 1;
        }
        best
    }

    fn place_on_shelf(&mut self, i: usize, w: u32, h: u32) -> (p: Placement)
        requires
            page_ok(old(self)@),
            0 < w <= old(self)@.size,
            i < old(self)@.shelves.len(),
            shelf_fits(old(self)@.shelves[i as int], old(self)@.size, w as int, h as int),
        ensures
            page_ok(final(self)@),
            final(self)@ == (PageModel {
                shelves: old(self)@.shelves.update(
                    i as int,
                    shelf_taken(old(self)@.shelves[i as int], w as int),
                ),
                ..old(self)@
            }),
            p == (Placement {
                x: shelf_column(old(self)@.shelves[i as int], w as int) as u32,
                y: old(self)@.shelves[i as int].y as u32,
                w,
                h,
            }),
    {
        let ghost m = self@;
        assert(m.shelves[i as int] == self.shelves@[i as int].model());
        let size: u32 = self.size;
        let y: u32 = self.shelves[i].y;
        assert(self.shelves@[i as int].gaps_ok()) by {
            assert forall|j: int| 0 <= j < self.shelves@[i as int].gaps@.len() implies gap_ok(
                #[trigger] self.shelves@[i as int].gaps@[j].model(),
            ) by {
                assert(gap_ok(m.shelves[i as int].gaps[j]));
            }
        }
        let x: u32 = self.shelves[i].take(size, w);
        proof {
            let after = m.shelves.update(i as int, shelf_taken(m.shelves[i as int], w as int));
            assert(self@.shelves =~= after);
            lemma_stacked_update(m, i as int, shelf_taken(m.shelves[i as int], w as int));
            assert forall|a: int, j: int|
                #![trigger self@.shelves[a].gaps[j]]
                0 <= a < self@.shelves.len() && 0 <= j < self@.shelves[a].gaps.len() implies gap_ok(
                self@.shelves[a].gaps[j],
            ) by {
                if a == i {
                    assert(self.shelves@[a].gaps_ok());
                    assert(gap_ok(self.shelves@[a].gaps@[j].model()));
                } else {
                    assert(m.shelves[a] == self@.shelves[a]);
                    assert(gap_ok(m.shelves[a].gaps[j]));
                }
            }
        }
        Placement { x, y, w, h }
    }

    /// Return a placement's columns to shelf `i`.
    fn give_back_to(&mut self, i: usize, p: Placement)
        requires
            old(self).wf(),
            i < old(self)@.shelves.len(),
            p.x + p.w <= u32::MAX,
        ensures
            final(self).wf(),
            final(self)@ == (PageModel {
                shelves: old(self)@.shelves.update(
                    i as int,
                    shelf_freed(old(self)@.shelves[i as int], p.x as int, p.w as int),
                ),
                ..old(self)@
            }),
    {
        let ghost m = self@;
        let ghost shelf = shelf_freed(m.shelves[i as int], p.x as int, p.w as int);
        assert(m.shelves[i as int] == self.shelves@[i as int].model());
        assert forall|j: int| 0 <= j < self.shelves@[i as int].gaps@.len() implies gap_ok(
            #[trigger] self.shelves@[i as int].gaps@[j].model(),
        ) by {
            assert(gap_ok(m.shelves[i as int].gaps[j]));
        }
        self.shelves[i].give_back(p.x, p.w);
        proof {
            assert(self@.shelves =~= m.shelves.update(i as int, shelf));
            lemma_stacked_update(m, i as int, shelf);
            assert forall|a: int, j: int|
                #![trigger self@.shelves[a].gaps[j]]
                0 <= a < self@.shelves.len() && 0 <= j < self@.shelves[a].gaps.len() implies gap_ok(
                self@.shelves[a].gaps[j],
            ) by {
                if a == i {
                    assert(gap_ok(self.shelves@[a].gaps@[j].model()));
                } else {
                    assert(m.shelves[a] == self@.shelves[a]);
                    assert(gap_ok(m.shelves[a].gaps[j]));
                }
            }
        }
    }

    /// Return a placement to its shelf's gap list, coalescing neighbours.
    /// Ignored when no shelf has its row.
    pub fn free(&mut self, p: Placement)
        requires
            old(self).wf(),
            p.x + p.w <= u32::MAX,
        ensures
            final(self).wf(),
            final(self)@ == page_freed(old(self)@, p),
    {
        let ghost m = self@;
        let mut i: usize = 0;
        while i < self.shelves.len()
            invariant
                *self == *old(self),
                m == self@,
                m.shelves.len() == self.shelves@.len(),
                i <= self.shelves@.len(),
                page_ok(m),
                p.x + p.w <= u32::MAX,
                forall|j: int|
                    0 <= j < i ==> !((#[trigger] m.shelves[j]).y == p.y && m.shelves[j].h >= p.h),
            decreases self.shelves@.len() - i,
        {
            assert(m.shelves[i as int] == self.shelves@[i as int].model());
            if self.shelves[i].y == p.y && self.shelves[i].h >= p.h {
                proof {
                    lemma_home_shelf(m, p, i as int);
                }
                self.give_back_to(i, p);
                return ;
            }
            i += 1;
        }
        proof {
            assert forall|k: int| !home_shelf(m, p, k) by {}
        }
    }

    /// Allocated pixel area (approximate: freed gaps still count until
    /// their shelf is reused, which is exactly the fragmentation cost).
    pub fn used_area(&self) -> (area: u64)
        requires
            self.wf(),
        ensures
            area == shelf_area(self@.shelves),
            area <= self@.size * self@.size,
    {
        let ghost m = self@;
        let mut area: u64 = 0;
        let mut i: usize = 0;
        assert(m.shelves.take(0) =~= Seq::<ShelfModel>::empty());
        while i < self.shelves.len()
            invariant
                m == self@,
                m.shelves.len() == self.shelves@.len(),
                m.size == self.size,
                i <= self.shelves@.len(),
                page_ok(m),
                area == shelf_area(m.shelves.take(i as int)),
            decreases self.shelves@.len() - i,
        {
            proof {
                assert(m.shelves[i as int] == self.shelves@[i as int].model());
                assert(m.shelves.take(i + 1).drop_last() =~= m.shelves.take(i as int));
                lemma_area_bound(m, i + 1);
                let c = self.shelves@[i as int].cursor;
                let h = self.shelves@[i as int].h;
                assert(c as int * h as int <= u64::MAX) by (nonlinear_arith)
                    requires
                        0 <= c <= u32::MAX,
                        0 <= h <= u32::MAX,
                ;
                assert(m.size * m.size <= u64::MAX) by (nonlinear_arith)
                    requires
                        0 <= m.size <= u32::MAX,
                ;
            }
            area = area + self.shelves[i].cursor as u64 * self.shelves[i].h as u64;
            i += 1;
        }
        proof {
            assert(m.shelves.take(i as int) =~= m.shelves);
            lemma_area_bound(m, i as int);
        }
        area
    }

    pub fn page_size(&self) -> (size: u32)
        ensures
            size == self@.size,
    {
        self.size
    }
}

// ---------------------------------------------------------------------
// Proofs
// ---------------------------------------------------------------------

proof fn lemma_gap_choice(gaps: Seq<GapModel>, w: int, g: int)
    requires
        first_gap(gaps, w, g),
    ensures
        gap_choice(gaps, w) == Some(g),
{
    let c = choose|i: int| first_gap(gaps, w, i);
    assert(first_gap(gaps, w, c));
    if c < g {
        assert(gaps[c].w < w);
    }
    if g < c {
        assert(gaps[g].w < w);
    }
}

proof fn lemma_shelf_choice(m: PageModel, w: int, h: int, b: int)
    requires
        best_shelf(m, w, h, b),
    ensures
        shelf_choice(m, w, h) == Some(b),
{
    let c = choose|i: int| best_shelf(m, w, h, i);
    assert(best_shelf(m, w, h, c));
    assert(m.shelves[b].h >= h && m.shelves[c].h >= h);
}

proof fn lemma_home_shelf(m: PageModel, p: Placement, i: int)
    requires
        home_shelf(m, p, i),
    ensures
        page_freed(m, p) == (PageModel {
            shelves: m.shelves.update(i, shelf_freed(m.shelves[i], p.x as int, p.w as int)),
            ..m
        }),
{
    let c = choose|k: int| home_shelf(m, p, k);
    assert(home_shelf(m, p, c));
    if c < i {
        assert(m.shelves[c].y == p.y);
    }
    if i < c {
        assert(m.shelves[i].y == p.y);
    }
}

/// `insert_by_x` as an insertion at the place `k` it stops at.
proof fn lemma_insert_by_x(gaps: Seq<GapModel>, g: GapModel, k: int)
    requires
        0 <= k <= gaps.len(),
        k > 0 ==> gaps[k - 1].x <= g.x,
        forall|j: int| k <= j < gaps.len() ==> (#[trigger] gaps[j]).x > g.x,
    ensures
        insert_by_x(gaps, g) == gaps.insert(k, g),
    decreases gaps.len(),
{
    if k == gaps.len() {
        assert(gaps.insert(k, g) =~= gaps.push(g));
    } else {
        let front = gaps.drop_last();
        assert(gaps[gaps.len() - 1].x > g.x);
        assert forall|j: int| k <= j < front.len() implies (#[trigger] front[j]).x > g.x by {
            assert(gaps[j].x > g.x);
        }
        lemma_insert_by_x(front, g, k);
        assert(front.insert(k, g).push(gaps.last()) =~= gaps.insert(k, g));
    }
}

/// The area of the first `n` shelves is at most that of their rows.
proof fn lemma_area_bound(m: PageModel, n: int)
    requires
        stacked(m),
        0 <= n <= m.shelves.len(),
    ensures
        0 <= shelf_area(m.shelves.take(n)) <= m.size * row_of(m.shelves, n),
        row_of(m.shelves, n) <= m.size,
        m.size * row_of(m.shelves, n) <= m.size * m.size,
    decreases n,
{
    lemma_rows_grow(m, n, m.shelves.len() as int);
    if n == 0 {
        assert(m.shelves.take(0) =~= Seq::<ShelfModel>::empty());
        assert(m.size * row_of(m.shelves, n) == 0) by (nonlinear_arith)
            requires
                row_of(m.shelves, n) == 0,
        ;
        assert(0 <= m.size * m.size) by (nonlinear_arith)
            requires
                0 <= m.size,
        ;
    } else {
        lemma_area_bound(m, n - 1);
        assert(m.shelves.take(n).drop_last() =~= m.shelves.take(n - 1));
        let s = m.shelves[n - 1];
        let below = row_of(m.shelves, n - 1);
        assert(0 <= s.cursor * s.h <= m.size * s.h) by (nonlinear_arith)
            requires
                0 <= s.cursor <= m.size,
                0 < s.h,
        ;
        assert(m.size * below + m.size * s.h == m.size * (below + s.h)) by (nonlinear_arith);
        let rows = below + s.h;
        assert(m.size * rows <= m.size * m.size) by (nonlinear_arith)
            requires
                0 <= rows <= m.size,
        ;
    }
}

/// Rows grow from shelf to shelf.
proof fn lemma_rows_grow(m: PageModel, i: int, j: int)
    requires
        stacked(m),
        0 <= i <= j <= m.shelves.len(),
    ensures
        0 <= row_of(m.shelves, i) <= row_of(m.shelves, j),
        i < j ==> row_of(m.shelves, i) + m.shelves[i].h <= row_of(m.shelves, j),
    decreases j,
{
    if i < j {
        assert(m.shelves[j - 1].h > 0);
        lemma_rows_grow(m, i, j - 1);
    } else if i > 0 {
        assert(m.shelves[i - 1].h > 0);
        lemma_rows_grow(m, i - 1, i - 1);
    }
}

proof fn lemma_row_of_same(a: Seq<ShelfModel>, b: Seq<ShelfModel>, n: int)
    requires
        n <= a.len(),
        n <= b.len(),
        forall|i: int| 0 <= i < n ==> (#[trigger] a[i]).h == b[i].h,
    ensures
        row_of(a, n) == row_of(b, n),
    decreases n,
{
    if n > 0 {
        assert(a[n - 1].h == b[n - 1].h);
        lemma_row_of_same(a, b, n - 1);
    }
}

proof fn lemma_stacked_push(m: PageModel, w: int, h: int)
    requires
        stacked(m),
        0 < h,
        0 <= w <= m.size,
        m.cursor_y + h <= m.size,
    ensures
        stacked(
            PageModel {
                shelves: m.shelves.push(
                    ShelfModel { y: m.cursor_y, h, cursor: w, gaps: Seq::empty() },
                ),
                cursor_y: m.cursor_y + h,
                ..m
            },
        ),
{
    let shelf = ShelfModel { y: m.cursor_y, h, cursor: w, gaps: Seq::empty() };
    let after = m.shelves.push(shelf);
    let n = m.shelves.len() as int;
    assert forall|i: int| 0 <= i <= n implies row_of(after, i) == row_of(m.shelves, i) by {
        lemma_row_of_same(m.shelves, after, i);
    }
    assert forall|i: int| #![trigger after[i]] 0 <= i < after.len() implies {
        &&& after[i].h > 0
        &&& 0 <= after[i].cursor <= m.size
        &&& after[i].y == row_of(after, i)
    } by {
        if i < n {
            assert(after[i] == m.shelves[i]);
        }
    }
}

/// Replacing a shelf by one with the same rows keeps the stack.
proof fn lemma_stacked_update(m: PageModel, i: int, shelf: ShelfModel)
    requires
        stacked(m),
        0 <= i < m.shelves.len(),
        shelf.y == m.shelves[i].y,
        shelf.h == m.shelves[i].h,
        0 <= shelf.cursor <= m.size,
    ensures
        stacked(PageModel { shelves: m.shelves.update(i, shelf), ..m }),
{
    let after = m.shelves.update(i, shelf);
    assert forall|k: int| 0 <= k <= after.len() implies row_of(after, k) == row_of(
        m.shelves,
        k,
    ) by {
        lemma_row_of_same(m.shelves, after, k);
    }
    assert forall|k: int| #![trigger after[k]] 0 <= k < after.len() implies {
        &&& after[k].h > 0
        &&& 0 <= after[k].cursor <= m.size
        &&& after[k].y == row_of(after, k)
    } by {
        assert(m.shelves[k].h > 0);
    }
}

// ---------------------------------------------------------------------
// Live placements
// ---------------------------------------------------------------------

/// The two rects share a pixel.
pub open spec fn overlap(a: Placement, b: Placement) -> bool {
    a.x < b.x + b.w && b.x < a.x + a.w && a.y < b.y + b.h && b.y < a.y + a.h
}

/// A rect with an area that lies on the page.
pub open spec fn inside(m: PageModel, p: Placement) -> bool {
    p.w > 0 && p.h > 0 && p.x + p.w <= m.size && p.y + p.h <= m.size
}

/// The rect stands on shelf `i`, within the columns handed out.
pub open spec fn on_shelf(m: PageModel, p: Placement, i: int) -> bool {
    &&& 0 <= i < m.shelves.len()
    &&& m.shelves[i].y == p.y
    &&& 0 < p.h <= m.shelves[i].h
    &&& 0 < p.w
    &&& p.x + p.w <= m.shelves[i].cursor
}

/// The columns of the rect and of the gap do not meet.
pub open spec fn apart(p: Placement, g: GapModel) -> bool {
    p.x + p.w <= g.x || g.x + g.w <= p.x
}

/// The gaps lie left to right within the columns handed out.
pub open spec fn gaps_tiled(gaps: Seq<GapModel>, cursor: int) -> bool {
    &&& forall|j: int|
        0 <= j < gaps.len() ==> 0 <= (#[trigger] gaps[j]).x && 0 < gaps[j].w && gaps[j].x
            + gaps[j].w <= cursor
    &&& forall|j: int, k: int|
        0 <= j < k < gaps.len() ==> (#[trigger] gaps[j]).x + gaps[j].w <= (#[trigger] gaps[k]).x
}

/// `live` are placements of this page: each stands on a shelf, clear of
/// the shelf's gaps, and no two of them share a pixel.
pub open spec fn tiled(m: PageModel, live: Set<Placement>) -> bool {
    &&& page_ok(m)
    &&& forall|i: int|
        #![trigger m.shelves[i]]
        0 <= i < m.shelves.len() ==> gaps_tiled(m.shelves[i].gaps, m.shelves[i].cursor)
    &&& forall|p: Placement| #[trigger] live.contains(p) ==> exists|i: int| on_shelf(m, p, i)
    &&& forall|p: Placement, i: int, j: int|
        #![trigger on_shelf(m, p, i), m.shelves[i].gaps[j]]
        live.contains(p) && on_shelf(m, p, i) && 0 <= j < m.shelves[i].gaps.len() ==> apart(
            p,
            m.shelves[i].gaps[j],
        )
    &&& forall|p: Placement, q: Placement|
        #[trigger] live.contains(p) && #[trigger] live.contains(q) && p != q ==> !overlap(p, q)
}

proof fn lemma_rows_apart(m: PageModel, i: int, k: int)
    requires
        stacked(m),
        0 <= i < m.shelves.len(),
        0 <= k < m.shelves.len(),
        i != k,
    ensures
        m.shelves[i].y + m.shelves[i].h <= m.shelves[k].y || m.shelves[k].y + m.shelves[k].h
            <= m.shelves[i].y,
        m.shelves[i].y != m.shelves[k].y,
{
    assert(m.shelves[i].h > 0 && m.shelves[k].h > 0);
    if i < k {
        lemma_rows_grow(m, i, k);
    } else {
        lemma_rows_grow(m, k, i);
    }
}

proof fn lemma_row_inside(m: PageModel, i: int)
    requires
        stacked(m),
        0 <= i < m.shelves.len(),
    ensures
        0 <= m.shelves[i].y,
        m.shelves[i].y + m.shelves[i].h <= m.cursor_y,
{
    assert(m.shelves[i].h > 0);
    lemma_rows_grow(m, i, m.shelves.len() as int);
}

/// What a live placement's shelf says of its pixels.
proof fn lemma_on_shelf_inside(m: PageModel, p: Placement, i: int)
    requires
        stacked(m),
        on_shelf(m, p, i),
    ensures
        inside(m, p),
{
    lemma_row_inside(m, i);
    assert(m.shelves[i].cursor <= m.size);
}

/// A rect on shelf `i` that is clear of the other live rects of that shelf
/// is clear of all of them.
proof fn lemma_other_shelves_clear(m: PageModel, p: Placement, q: Placement, i: int, k: int)
    requires
        stacked(m),
        0 <= i < m.shelves.len(),
        p.y == m.shelves[i].y,
        p.h <= m.shelves[i].h,
        on_shelf(m, q, k),
        i == k ==> p.x + p.w <= q.x || q.x + q.w <= p.x,
    ensures
        !overlap(p, q),
{
    if i != k {
        lemma_rows_apart(m, i, k);
    }
}

/// Every live placement lies on the page.
pub proof fn law_live_is_inside(m: PageModel, live: Set<Placement>, p: Placement)
    requires
        tiled(m, live),
        live.contains(p),
    ensures
        inside(m, p),
{
    let i = choose|i: int| on_shelf(m, p, i);
    assert(on_shelf(m, p, i));
    lemma_on_shelf_inside(m, p, i);
}

/// A page without allocations has no live placement.
pub proof fn law_new_page_is_empty(size: u32)
    ensures
        tiled(
            PageModel { size: size as int, shelves: Seq::empty(), cursor_y: 0 },
            Set::empty(),
        ),
{
}

/// What [`ShelfPage::allocate`] hands out lies on the page, shares no pixel
/// with any live placement, and is live from then on.
#[verifier::rlimit(60)]
pub proof fn law_allocations_never_overlap(
    m: PageModel,
    live: Set<Placement>,
    w: u32,
    h: u32,
    p: Placement,
)
    requires
        tiled(m, live),
        as_placement(placed_at(m, w as int, h as int), w, h) == Some(p),
    ensures
        inside(m, p),
        !live.contains(p),
        forall|q: Placement| #[trigger] live.contains(q) ==> !overlap(p, q),
        tiled(page_taken(m, w as int, h as int), live.insert(p)),
{
    let (wi, hi) = (w as int, h as int);
    let after = page_taken(m, wi, hi);
    match shelf_choice(m, wi, hi) {
        Some(i) => {
            assert(best_shelf(m, wi, hi, i));
            let s = m.shelves[i];
            let t = shelf_taken(s, wi);
            assert(gaps_tiled(s.gaps, s.cursor));
            lemma_taken_tiled(s, m.size, wi);
            lemma_row_inside(m, i);
            assert(p.x == shelf_column(s, wi) && p.y == s.y);
            lemma_stacked_update(m, i, t);
            assert(after.shelves[i] == t);
            assert(on_shelf(after, p, i));
            lemma_on_shelf_inside(after, p, i);
            assert forall|q: Placement| #[trigger] live.contains(q) implies !overlap(p, q) by {
                let k = choose|k: int| on_shelf(m, q, k);
                assert(on_shelf(m, q, k));
                if k == i {
                    lemma_taken_clear(s, wi, q);
                }
                lemma_other_shelves_clear(m, p, q, i, k);
            }
            assert(!live.contains(p)) by {
                if live.contains(p) {
                    assert(overlap(p, p));
                }
            }
            assert forall|q: Placement| #[trigger]
                live.insert(p).contains(q) implies exists|k: int| on_shelf(after, q, k) by {
                if q == p {
                    assert(on_shelf(after, q, i));
                } else {
                    let k = choose|k: int| on_shelf(m, q, k);
                    assert(on_shelf(m, q, k));
                    assert(on_shelf(after, q, k));
                }
            }
            assert forall|q: Placement, k: int, j: int|
                #![trigger on_shelf(after, q, k), after.shelves[k].gaps[j]]
                live.insert(p).contains(q) && on_shelf(after, q, k) && 0 <= j
                    < after.shelves[k].gaps.len() implies apart(q, after.shelves[k].gaps[j]) by {
                if q == p {
                    if k != i {
                        lemma_rows_apart(after, i, k);
                    }
                    assert(k == i);
                } else {
                    let k0 = choose|k0: int| on_shelf(m, q, k0);
                    assert(on_shelf(m, q, k0));
                    assert(on_shelf(after, q, k0));
                    if k != k0 {
                        lemma_rows_apart(after, k, k0);
                    }
                    assert(on_shelf(m, q, k));
                    if k == i {
                        lemma_taken_gaps(s, wi, j);
                        let g = choose|g: int|
                            0 <= g < s.gaps.len() && (#[trigger] s.gaps[g]).x <= t.gaps[j].x
                                && t.gaps[j].x + t.gaps[j].w <= s.gaps[g].x + s.gaps[g].w;
                        assert(apart(q, m.shelves[i].gaps[g]));
                    } else {
                        assert(apart(q, m.shelves[k].gaps[j]));
                    }
                }
            }
            assert(page_ok(after)) by {
                assert forall|a: int, j: int|
                    #![trigger after.shelves[a].gaps[j]]
                    0 <= a < after.shelves.len() && 0 <= j < after.shelves[a].gaps.len() implies gap_ok(
                    after.shelves[a].gaps[j],
                ) by {
                    assert(0 <= after.shelves[a].cursor <= m.size);
                    if a == i {
                        assert(t.gaps[j].x + t.gaps[j].w <= t.cursor);
                    } else {
                        assert(gap_ok(m.shelves[a].gaps[j]));
                    }
                }
            }
        },
        None => {
            lemma_stacked_push(m, wi, hi);
            let n = m.shelves.len() as int;
            assert(after.shelves[n].y == m.cursor_y);
            assert(on_shelf(after, p, n));
            lemma_on_shelf_inside(after, p, n);
            assert forall|q: Placement| #[trigger] live.contains(q) implies !overlap(p, q)
                && exists|k: int| on_shelf(after, q, k) by {
                let k = choose|k: int| on_shelf(m, q, k);
                assert(on_shelf(m, q, k));
                assert(after.shelves[k] == m.shelves[k]);
                assert(on_shelf(after, q, k));
                lemma_other_shelves_clear(after, p, q, n, k);
            }
            assert(!live.contains(p)) by {
                if live.contains(p) {
                    assert(overlap(p, p));
                }
            }
            assert forall|q: Placement, k: int, j: int|
                #![trigger on_shelf(after, q, k), after.shelves[k].gaps[j]]
                live.insert(p).contains(q) && on_shelf(after, q, k) && 0 <= j
                    < after.shelves[k].gaps.len() implies apart(q, after.shelves[k].gaps[j]) by {
                if k < n {
                    assert(after.shelves[k] == m.shelves[k]);
                    if q == p {
                        lemma_rows_apart(after, k, n);
                    } else {
                        assert(on_shelf(m, q, k));
                        assert(apart(q, m.shelves[k].gaps[j]));
                    }
                }
            }
            assert(page_ok(after)) by {
                assert forall|a: int, j: int|
                    #![trigger after.shelves[a].gaps[j]]
                    0 <= a < after.shelves.len() && 0 <= j < after.shelves[a].gaps.len() implies gap_ok(
                    after.shelves[a].gaps[j],
                ) by {
                    if a < n {
                        assert(gap_ok(m.shelves[a].gaps[j]));
                    }
                }
            }
        },
    }
    assert forall|q: Placement, r: Placement| #[trigger]
        live.insert(p).contains(q) && #[trigger] live.insert(p).contains(r) && q
            != r implies !overlap(q, r) by {
        if q == p {
            assert(live.contains(r));
            assert(!overlap(p, r));
        } else if r == p {
            assert(live.contains(q));
            assert(!overlap(p, q));
        }
    }
}

/// Taking a stretch keeps the gaps in order and inside the shelf.
proof fn lemma_taken_tiled(s: ShelfModel, size: int, w: int)
    requires
        gaps_tiled(s.gaps, s.cursor),
        0 <= s.cursor <= size,
        0 < w,
        s.cursor + w <= size || has_gap(s.gaps, w),
    ensures
        gaps_tiled(shelf_taken(s, w).gaps, shelf_taken(s, w).cursor),
        0 <= shelf_taken(s, w).cursor <= size,
        s.cursor <= shelf_taken(s, w).cursor,
        0 <= shelf_column(s, w),
        shelf_column(s, w) + w <= shelf_taken(s, w).cursor,
        forall|j: int|
            0 <= j < shelf_taken(s, w).gaps.len() ==> {
                ||| shelf_column(s, w) + w <= (#[trigger] shelf_taken(s, w).gaps[j]).x
                ||| shelf_taken(s, w).gaps[j].x + shelf_taken(s, w).gaps[j].w <= shelf_column(s, w)
            },
{
    match gap_choice(s.gaps, w) {
        Some(g) => {
            assert(first_gap(s.gaps, w, g));
            let t = shelf_taken(s, w);
            if s.gaps[g].w == w {
                assert forall|j: int| 0 <= j < t.gaps.len() implies t.gaps[j] == s.gaps[if j < g {
                    j
                } else {
                    j + 1
                }] by {}
            }
        },
        None => {
            lemma_some_gap_chosen(s.gaps, w);
        },
    }
}

/// A wide enough gap means that one is chosen.
proof fn lemma_some_gap_chosen(gaps: Seq<GapModel>, w: int)
    ensures
        has_gap(gaps, w) <==> gap_choice(gaps, w) is Some,
        gap_choice(gaps, w) matches Some(g) ==> first_gap(gaps, w, g),
{
    if has_gap(gaps, w) {
        let i = choose|i: int| 0 <= i < gaps.len() && (#[trigger] gaps[i]).w >= w;
        lemma_least_gap(gaps, w, i);
    }
    if gap_choice(gaps, w) is Some {
        let g = gap_choice(gaps, w)->0;
        assert(first_gap(gaps, w, g));
        assert(gaps[g].w >= w);
    }
}

proof fn lemma_least_gap(gaps: Seq<GapModel>, w: int, i: int)
    requires
        0 <= i < gaps.len(),
        gaps[i].w >= w,
    ensures
        exists|k: int| first_gap(gaps, w, k),
    decreases i,
{
    if exists|j: int| 0 <= j < i && (#[trigger] gaps[j]).w >= w {
        let j = choose|j: int| 0 <= j < i && (#[trigger] gaps[j]).w >= w;
        lemma_least_gap(gaps, w, j);
    } else {
        assert(first_gap(gaps, w, i));
    }
}

/// A live rect of the shelf is clear of the stretch that is taken.
proof fn lemma_taken_clear(s: ShelfModel, w: int, q: Placement)
    requires
        gaps_tiled(s.gaps, s.cursor),
        0 < w,
        q.x + q.w <= s.cursor,
        forall|j: int| 0 <= j < s.gaps.len() ==> apart(q, #[trigger] s.gaps[j]),
    ensures
        shelf_column(s, w) + w <= q.x || q.x + q.w <= shelf_column(s, w),
{
    lemma_some_gap_chosen(s.gaps, w);
    match gap_choice(s.gaps, w) {
        Some(g) => {
            assert(apart(q, s.gaps[g]));
        },
        None => {},
    }
}

/// What is left of the gaps lies within the gaps that were there.
proof fn lemma_taken_gaps(s: ShelfModel, w: int, j: int)
    requires
        0 < w,
        0 <= j < shelf_taken(s, w).gaps.len(),
    ensures
        exists|g: int|
            0 <= g < s.gaps.len() && (#[trigger] s.gaps[g]).x <= shelf_taken(s, w).gaps[j].x
                && shelf_taken(s, w).gaps[j].x + shelf_taken(s, w).gaps[j].w <= s.gaps[g].x
                + s.gaps[g].w,
{
    lemma_some_gap_chosen(s.gaps, w);
    match gap_choice(s.gaps, w) {
        Some(g) => {
            let k = if s.gaps[g].w == w && j >= g {
                j + 1
            } else {
                j
            };
            assert(s.gaps[k].x <= shelf_taken(s, w).gaps[j].x);
        },
        None => {
            assert(s.gaps[j].x <= shelf_taken(s, w).gaps[j].x);
        },
    }
}

/// Freeing a live placement takes it out of the live set and nothing else.
#[verifier::rlimit(60)]
pub proof fn law_free_gives_back(m: PageModel, live: Set<Placement>, p: Placement)
    requires
        tiled(m, live),
        live.contains(p),
    ensures
        tiled(page_freed(m, p), live.remove(p)),
{
    let i = choose|i: int| on_shelf(m, p, i);
    assert(on_shelf(m, p, i));
    lemma_home_of_live(m, p, i);
    lemma_home_shelf(m, p, i);
    lemma_on_shelf_inside(m, p, i);
    let after = page_freed(m, p);
    let s = m.shelves[i];
    let t = shelf_freed(s, p.x as int, p.w as int);
    assert(gaps_tiled(s.gaps, s.cursor));
    assert forall|j: int| 0 <= j < s.gaps.len() implies apart(p, #[trigger] s.gaps[j]) by {
        assert(apart(p, m.shelves[i].gaps[j]));
    }
    lemma_freed_tiled(s, p);
    lemma_stacked_update(m, i, t);
    assert forall|q: Placement, k: int| #[trigger] on_shelf(after, q, k) <==> on_shelf(
        m,
        q,
        k,
    ) by {
        if 0 <= k < m.shelves.len() && k != i {
            assert(after.shelves[k] == m.shelves[k]);
        }
    }
    assert forall|q: Placement| #[trigger] live.remove(p).contains(q) implies exists|k: int|
        on_shelf(after, q, k) by {
        let k = choose|k: int| on_shelf(m, q, k);
        assert(on_shelf(m, q, k));
        assert(on_shelf(after, q, k));
    }
    assert forall|q: Placement, k: int, j: int|
        #![trigger on_shelf(after, q, k), after.shelves[k].gaps[j]]
        live.remove(p).contains(q) && on_shelf(after, q, k) && 0 <= j
            < after.shelves[k].gaps.len() implies apart(q, after.shelves[k].gaps[j]) by {
        assert(on_shelf(m, q, k));
        if k == i {
            assert(!overlap(p, q));
            assert(p.x + p.w <= q.x || q.x + q.w <= p.x);
            assert forall|g: int| 0 <= g < s.gaps.len() implies apart(q, #[trigger] s.gaps[g]) by {
                assert(apart(q, m.shelves[k].gaps[g]));
            }
            lemma_freed_clear(s, p, q, j);
        } else {
            assert(apart(q, m.shelves[k].gaps[j]));
        }
    }
    assert(page_ok(after)) by {
        assert forall|a: int, j: int|
            #![trigger after.shelves[a].gaps[j]]
            0 <= a < after.shelves.len() && 0 <= j < after.shelves[a].gaps.len() implies gap_ok(
            after.shelves[a].gaps[j],
        ) by {
            assert(0 <= after.shelves[a].cursor <= m.size);
            if a == i {
                assert(t.gaps[j].x + t.gaps[j].w <= t.cursor);
            } else {
                assert(gap_ok(m.shelves[a].gaps[j]));
            }
        }
    }
}

/// A freed rect can be placed again at once: freed gaps are reused, also on
/// a shelf whose columns are all handed out.
pub proof fn law_freed_room_is_reused(m: PageModel, live: Set<Placement>, p: Placement)
    requires
        tiled(m, live),
        live.contains(p),
    ensures
        placed_at(page_freed(m, p), p.w as int, p.h as int) is Some,
{
    let i = choose|i: int| on_shelf(m, p, i);
    assert(on_shelf(m, p, i));
    lemma_home_of_live(m, p, i);
    lemma_home_shelf(m, p, i);
    lemma_on_shelf_inside(m, p, i);
    let after = page_freed(m, p);
    let s = m.shelves[i];
    let t = shelf_freed(s, p.x as int, p.w as int);
    assert(gaps_tiled(s.gaps, s.cursor));
    assert forall|j: int| 0 <= j < s.gaps.len() implies apart(p, #[trigger] s.gaps[j]) by {
        assert(apart(p, m.shelves[i].gaps[j]));
    }
    lemma_freed_tiled(s, p);
    assert(after.shelves[i] == t);
    assert(has_gap(t.gaps, p.w as int));
    assert(shelf_fits(after.shelves[i], after.size, p.w as int, p.h as int));
    lemma_some_shelf_best(after, p.w as int, p.h as int, i);
}

/// When some shelf fits, one of them is best.
proof fn lemma_some_shelf_best(m: PageModel, w: int, h: int, i: int)
    requires
        0 <= i < m.shelves.len(),
        shelf_fits(m.shelves[i], m.size, w, h),
    ensures
        exists|b: int| best_shelf(m, w, h, b),
{
    lemma_best_up_to(m, w, h, m.shelves.len() as int, i);
    let b = choose|b: int| #[trigger] best_of_first(m, w, h, m.shelves.len() as int, b);
    assert(best_shelf(m, w, h, b));
}

/// `b` is the best of the first `n` shelves.
spec fn best_of_first(m: PageModel, w: int, h: int, n: int, b: int) -> bool {
    &&& 0 <= b < n
    &&& shelf_fits(m.shelves[b], m.size, w, h)
    &&& forall|j: int|
        #![trigger m.shelves[j]]
        0 <= j < n && shelf_fits(m.shelves[j], m.size, w, h) ==> {
            ||| m.shelves[b].h < m.shelves[j].h
            ||| m.shelves[b].h == m.shelves[j].h && b <= j
        }
}

proof fn lemma_best_up_to(m: PageModel, w: int, h: int, n: int, i: int)
    requires
        0 <= i < n <= m.shelves.len(),
        shelf_fits(m.shelves[i], m.size, w, h),
    ensures
        exists|b: int| #[trigger] best_of_first(m, w, h, n, b),
    decreases n,
{
    let last = n - 1;
    if exists|k: int|
        0 <= k < last && shelf_fits(#[trigger] m.shelves[k], m.size, w, h) {
        let k = choose|k: int|
            0 <= k < last && shelf_fits(#[trigger] m.shelves[k], m.size, w, h);
        lemma_best_up_to(m, w, h, last, k);
        let b = choose|b: int| #[trigger] best_of_first(m, w, h, last, b);
        if shelf_fits(m.shelves[last], m.size, w, h) && m.shelves[last].h < m.shelves[b].h {
            assert(best_of_first(m, w, h, n, last));
        } else {
            assert(best_of_first(m, w, h, n, b));
        }
    } else {
        assert(i == last);
        assert(best_of_first(m, w, h, n, last));
    }
}

/// The shelf a live placement stands on is the one it is freed to.
proof fn lemma_home_of_live(m: PageModel, p: Placement, i: int)
    requires
        stacked(m),
        on_shelf(m, p, i),
    ensures
        home_shelf(m, p, i),
{
    assert forall|j: int| 0 <= j < i implies !((#[trigger] m.shelves[j]).y == p.y
        && m.shelves[j].h >= p.h) by {
        lemma_rows_apart(m, j, i);
    }
}

/// Ordered gaps stay as they are when sorted.
proof fn lemma_by_x_keeps(gaps: Seq<GapModel>, cursor: int)
    requires
        gaps_tiled(gaps, cursor),
    ensures
        by_x(gaps) == gaps,
    decreases gaps.len(),
{
    if gaps.len() > 0 {
        let front = gaps.drop_last();
        assert forall|j: int| 0 <= j < front.len() implies #[trigger] front[j] == gaps[j] by {}
        lemma_by_x_keeps(front, cursor);
        if front.len() > 0 {
            assert(gaps[front.len() - 1].x <= gaps.last().x);
        }
        assert(front.push(gaps.last()) =~= gaps);
    }
}

/// The place a new gap is sorted to.
proof fn lemma_place_by_x(gaps: Seq<GapModel>, cursor: int, g: GapModel) -> (k: int)
    requires
        gaps_tiled(gaps, cursor),
    ensures
        0 <= k <= gaps.len(),
        k > 0 ==> gaps[k - 1].x <= g.x,
        forall|j: int| k <= j < gaps.len() ==> (#[trigger] gaps[j]).x > g.x,
        insert_by_x(gaps, g) == gaps.insert(k, g),
    decreases gaps.len(),
{
    if gaps.len() == 0 || gaps.last().x <= g.x {
        assert(gaps.insert(gaps.len() as int, g) =~= gaps.push(g));
        gaps.len() as int
    } else {
        let front = gaps.drop_last();
        assert forall|j: int| 0 <= j < front.len() implies #[trigger] front[j] == gaps[j] by {}
        let k = lemma_place_by_x(front, cursor, g);
        assert forall|j: int| k <= j < gaps.len() implies (#[trigger] gaps[j]).x > g.x by {
            if j < front.len() {
                assert(front[j].x > g.x);
            }
        }
        if k > 0 {
            assert(front[k - 1] == gaps[k - 1]);
        }
        lemma_insert_by_x(gaps, g, k);
        k
    }
}

/// The gaps of the shelf with those of `p` among them, before merging.
spec fn with_gap(s: ShelfModel, p: Placement) -> Seq<GapModel> {
    by_x(s.gaps.push(GapModel { x: p.x as int, w: p.w as int }))
}

proof fn lemma_with_gap(s: ShelfModel, p: Placement) -> (k: int)
    requires
        gaps_tiled(s.gaps, s.cursor),
        0 < p.w,
        p.x + p.w <= s.cursor,
        forall|j: int| 0 <= j < s.gaps.len() ==> apart(p, #[trigger] s.gaps[j]),
    ensures
        0 <= k <= s.gaps.len(),
        with_gap(s, p) == s.gaps.insert(k, GapModel { x: p.x as int, w: p.w as int }),
        gaps_tiled(with_gap(s, p), s.cursor),
{
    let g = GapModel { x: p.x as int, w: p.w as int };
    let all = s.gaps.push(g);
    assert(all.drop_last() =~= s.gaps);
    lemma_by_x_keeps(s.gaps, s.cursor);
    let k = lemma_place_by_x(s.gaps, s.cursor, g);
    let out = s.gaps.insert(k, g);
    assert forall|j: int| 0 <= j < k implies (#[trigger] s.gaps[j]).x + s.gaps[j].w <= g.x by {
        assert(apart(p, s.gaps[j]));
        if j < k - 1 {
            assert(s.gaps[j].x + s.gaps[j].w <= s.gaps[k - 1].x);
        }
    }
    assert forall|j: int| k <= j < s.gaps.len() implies g.x + g.w <= (#[trigger] s.gaps[j]).x by {
        assert(apart(p, s.gaps[j]));
        assert(s.gaps[j].w > 0);
    }
    assert forall|j: int| 0 <= j < out.len() implies 0 <= (#[trigger] out[j]).x && 0 < out[j].w
        && out[j].x + out[j].w <= s.cursor by {
        if j < k {
            assert(out[j] == s.gaps[j]);
        } else if j > k {
            assert(out[j] == s.gaps[j - 1]);
        }
    }
    assert forall|a: int, b: int| 0 <= a < b < out.len() implies (#[trigger] out[a]).x + out[a].w
        <= (#[trigger] out[b]).x by {
        let ga = if a < k {
            s.gaps[a]
        } else if a == k {
            g
        } else {
            s.gaps[a - 1]
        };
        let gb = if b < k {
            s.gaps[b]
        } else if b == k {
            g
        } else {
            s.gaps[b - 1]
        };
        assert(out[a] == ga && out[b] == gb);
    }
    k
}

/// Merging neighbours keeps the order, covers what was covered, and meets
/// only what was met.
proof fn lemma_coalesced(gaps: Seq<GapModel>, cursor: int)
    requires
        gaps_tiled(gaps, cursor),
    ensures
        gaps_tiled(coalesced(gaps), cursor),
        gaps.len() > 0 ==> coalesced(gaps).len() > 0 && coalesced(gaps).last().x
            + coalesced(gaps).last().w == gaps.last().x + gaps.last().w,
        forall|j: int|
            0 <= j < gaps.len() ==> has_gap(coalesced(gaps), (#[trigger] gaps[j]).w),
        forall|q: Placement, j: int|
            #![trigger apart(q, coalesced(gaps)[j])]
            0 < q.w && (forall|g: int| 0 <= g < gaps.len() ==> apart(q, #[trigger] gaps[g])) && 0
                <= j < coalesced(gaps).len() ==> apart(q, coalesced(gaps)[j]),
    decreases gaps.len(),
{
    if gaps.len() > 0 {
        let front = gaps.drop_last();
        let g = gaps.last();
        assert forall|j: int| 0 <= j < front.len() implies #[trigger] front[j] == gaps[j] by {}
        lemma_coalesced(front, cursor);
        let left = coalesced(front);
        let out = coalesced(gaps);
        if front.len() > 0 {
            assert(gaps[front.len() - 1].x + gaps[front.len() - 1].w <= g.x);
        }
        assert(gaps[gaps.len() - 1] == g);
        if left.len() > 0 && left.last().x + left.last().w == g.x {
            let n = left.len() - 1;
            assert(out[n] == (GapModel { x: left[n].x, w: left[n].w + g.w }));
            assert(left[n].w > 0);
            assert forall|j: int| 0 <= j < n implies #[trigger] out[j] == left[j] by {}
            assert forall|j: int| 0 <= j < gaps.len() implies has_gap(out, (#[trigger] gaps[j]).w) by {
                if j < front.len() {
                    assert(has_gap(left, front[j].w));
                    let k = choose|k: int| 0 <= k < left.len() && (#[trigger] left[k]).w
                        >= front[j].w;
                    assert(out[k].w >= gaps[j].w);
                } else {
                    assert(out[n].w >= gaps[j].w);
                }
            }
            assert forall|q: Placement, j: int|
                #![trigger apart(q, out[j])]
                0 < q.w && (forall|g: int| 0 <= g < gaps.len() ==> apart(q, #[trigger] gaps[g]))
                    && 0 <= j < out.len() implies apart(q, out[j]) by {
                assert forall|k: int| 0 <= k < front.len() implies apart(q, #[trigger] front[k]) by {
                    assert(apart(q, gaps[k]));
                }
                assert(apart(q, left[j]));
                assert(apart(q, gaps[gaps.len() - 1]));
            }
        } else {
            let n = left.len() as int;
            assert(out[n] == g);
            assert forall|j: int| 0 <= j < n implies #[trigger] out[j] == left[j] by {}
            assert forall|j: int| 0 <= j < gaps.len() implies has_gap(out, (#[trigger] gaps[j]).w) by {
                if j < front.len() {
                    assert(has_gap(left, front[j].w));
                    let k = choose|k: int| 0 <= k < left.len() && (#[trigger] left[k]).w
                        >= front[j].w;
                    assert(out[k].w >= gaps[j].w);
                } else {
                    assert(out[n].w >= gaps[j].w);
                }
            }
            assert forall|a: int, b: int| 0 <= a < b < out.len() implies (#[trigger] out[a]).x
                + out[a].w <= (#[trigger] out[b]).x by {
                if b == n {
                    assert(left[a].x + left[a].w <= left[n - 1].x + left[n - 1].w);
                }
            }
            assert forall|q: Placement, j: int|
                #![trigger apart(q, out[j])]
                0 < q.w && (forall|g: int| 0 <= g < gaps.len() ==> apart(q, #[trigger] gaps[g]))
                    && 0 <= j < out.len() implies apart(q, out[j]) by {
                if j < n {
                    assert forall|k: int| 0 <= k < front.len() implies apart(
                        q,
                        #[trigger] front[k],
                    ) by {
                        assert(apart(q, gaps[k]));
                    }
                    assert(apart(q, left[j]));
                } else {
                    assert(apart(q, gaps[gaps.len() - 1]));
                }
            }
        }
    }
}

proof fn lemma_freed_tiled(s: ShelfModel, p: Placement)
    requires
        gaps_tiled(s.gaps, s.cursor),
        0 < p.w,
        p.x + p.w <= s.cursor,
        forall|j: int| 0 <= j < s.gaps.len() ==> apart(p, #[trigger] s.gaps[j]),
    ensures
        gaps_tiled(shelf_freed(s, p.x as int, p.w as int).gaps, s.cursor),
        has_gap(shelf_freed(s, p.x as int, p.w as int).gaps, p.w as int),
{
    let k = lemma_with_gap(s, p);
    let all = with_gap(s, p);
    lemma_coalesced(all, s.cursor);
    assert(has_gap(coalesced(all), all[k].w));
}

proof fn lemma_freed_clear(s: ShelfModel, p: Placement, q: Placement, j: int)
    requires
        gaps_tiled(s.gaps, s.cursor),
        0 < p.w,
        0 < q.w,
        p.x + p.w <= s.cursor,
        forall|g: int| 0 <= g < s.gaps.len() ==> apart(p, #[trigger] s.gaps[g]),
        forall|g: int| 0 <= g < s.gaps.len() ==> apart(q, #[trigger] s.gaps[g]),
        p.x + p.w <= q.x || q.x + q.w <= p.x,
        0 <= j < shelf_freed(s, p.x as int, p.w as int).gaps.len(),
    ensures
        apart(q, shelf_freed(s, p.x as int, p.w as int).gaps[j]),
{
    let k = lemma_with_gap(s, p);
    let all = with_gap(s, p);
    lemma_coalesced(all, s.cursor);
    assert forall|g: int| 0 <= g < all.len() implies apart(q, #[trigger] all[g]) by {
        if g < k {
            assert(all[g] == s.gaps[g]);
        } else if g > k {
            assert(all[g] == s.gaps[g - 1]);
        }
    }
    assert(apart(q, coalesced(all)[j]));
}

/// A page without allocations takes every rect that is no larger than
/// itself, at its top left corner.
pub proof fn law_fresh_page_fits(m: PageModel, w: int, h: int)
    requires
        m.shelves.len() == 0,
        m.cursor_y == 0,
        !unplaceable(m.size, w, h),
    ensures
        0 <= w && 0 <= h ==> placed_at(m, w, h) == Some((0int, 0int)),
{
    assert forall|i: int| !best_shelf(m, w, h, i) by {}
}

// ---------------------------------------------------------------------
// Columns that came back
// ---------------------------------------------------------------------

/// Column `x` lies in one of the gaps.
spec fn in_gaps(gaps: Seq<GapModel>, x: int) -> bool {
    exists|j: int| 0 <= j < gaps.len() && (#[trigger] gaps[j]).x <= x < gaps[j].x + gaps[j].w
}

/// No gap starts where another ends.
spec fn separate(gaps: Seq<GapModel>) -> bool {
    forall|j: int, k: int|
        0 <= j < k < gaps.len() ==> (#[trigger] gaps[j]).x + gaps[j].w < (#[trigger] gaps[k]).x
}

/// The columns of the last gap and those of the others.
proof fn lemma_in_gaps_last(gaps: Seq<GapModel>, x: int)
    requires
        gaps.len() > 0,
    ensures
        in_gaps(gaps, x) <==> in_gaps(gaps.drop_last(), x) || gaps.last().x <= x < gaps.last().x
            + gaps.last().w,
{
    let front = gaps.drop_last();
    if in_gaps(gaps, x) {
        let j = choose|j: int|
            0 <= j < gaps.len() && (#[trigger] gaps[j]).x <= x < gaps[j].x + gaps[j].w;
        if j < front.len() {
            assert(front[j] == gaps[j]);
        }
    }
    if in_gaps(front, x) {
        let j = choose|j: int|
            0 <= j < front.len() && (#[trigger] front[j]).x <= x < front[j].x + front[j].w;
        assert(gaps[j] == front[j]);
    }
    if gaps.last().x <= x < gaps.last().x + gaps.last().w {
        assert(gaps[gaps.len() - 1].x <= x);
    }
}

/// Merging neighbours leaves separate gaps over the same columns.
proof fn lemma_coalesced_columns(gaps: Seq<GapModel>, cursor: int)
    requires
        gaps_tiled(gaps, cursor),
    ensures
        separate(coalesced(gaps)),
        forall|x: int| #[trigger] in_gaps(coalesced(gaps), x) <==> in_gaps(gaps, x),
    decreases gaps.len(),
{
    if gaps.len() > 0 {
        let front = gaps.drop_last();
        let g = gaps.last();
        assert forall|j: int| 0 <= j < front.len() implies #[trigger] front[j] == gaps[j] by {}
        assert(gaps_tiled(front, cursor));
        lemma_coalesced_columns(front, cursor);
        lemma_coalesced(front, cursor);
        let left = coalesced(front);
        let out = coalesced(gaps);
        let n = left.len() as int;
        if front.len() > 0 {
            assert(gaps[front.len() - 1].x + gaps[front.len() - 1].w <= g.x);
        }
        assert(gaps[gaps.len() - 1].w > 0);
        if n > 0 {
            assert(left[n - 1].w > 0);
        }
        let joins = n > 0 && left.last().x + left.last().w == g.x;
        assert forall|j: int, k: int| 0 <= j < k < out.len() implies (#[trigger] out[j]).x
            + out[j].w < (#[trigger] out[k]).x by {
            assert(out[j] == left[j]);
            if joins {
                assert(left[j].x + left[j].w < left[k].x);
            } else if k < n {
                assert(out[k] == left[k]);
            } else {
                assert(out[k] == g);
                if j < n - 1 {
                    assert(left[j].x + left[j].w < left[n - 1].x);
                }
            }
        }
        assert forall|x: int| #[trigger] in_gaps(out, x) <==> in_gaps(gaps, x) by {
            lemma_in_gaps_last(gaps, x);
            lemma_in_gaps_last(out, x);
            assert(in_gaps(left, x) <==> in_gaps(front, x));
            if joins {
                assert(out.drop_last() =~= left.drop_last());
                lemma_in_gaps_last(left, x);
            } else {
                assert(out.drop_last() =~= left);
            }
        }
    }
}

/// Separate gaps are the only ones over their columns.
proof fn lemma_columns_fix_gaps(a: Seq<GapModel>, b: Seq<GapModel>, cursor: int)
    requires
        gaps_tiled(a, cursor),
        gaps_tiled(b, cursor),
        separate(a),
        separate(b),
        forall|x: int| #[trigger] in_gaps(a, x) <==> in_gaps(b, x),
    ensures
        a == b,
    decreases a.len(),
{
    if a.len() == 0 {
        if b.len() > 0 {
            assert(b[0].w > 0);
            assert(in_gaps(b, b[0].x));
            assert(in_gaps(a, b[0].x));
        }
        assert(a =~= b);
    } else {
        assert(a[0].w > 0);
        assert(in_gaps(a, a[0].x));
        assert(in_gaps(b, a[0].x));
        let (m, n) = (a.len() - 1, b.len() - 1);
        lemma_last_ends_last(a, b, cursor);
        lemma_last_ends_last(b, a, cursor);
        lemma_last_starts(a, b, cursor);
        lemma_last_starts(b, a, cursor);
        assert(a[m] == b[n]);
        let (fa, fb) = (a.drop_last(), b.drop_last());
        assert forall|j: int| 0 <= j < fa.len() implies #[trigger] fa[j] == a[j] by {}
        assert forall|j: int| 0 <= j < fb.len() implies #[trigger] fb[j] == b[j] by {}
        assert forall|x: int| #[trigger] in_gaps(fa, x) <==> in_gaps(fb, x) by {
            lemma_in_gaps_last(a, x);
            lemma_in_gaps_last(b, x);
            assert(in_gaps(a, x) <==> in_gaps(b, x));
            if in_gaps(fa, x) {
                lemma_front_left_of_last(a, x);
            }
            if in_gaps(fb, x) {
                lemma_front_left_of_last(b, x);
            }
        }
        lemma_columns_fix_gaps(fa, fb, cursor);
        assert(fa.push(a[m]) =~= a);
        assert(fb.push(b[n]) =~= b);
    }
}

/// Columns of the gaps before the last one lie left of it.
proof fn lemma_front_left_of_last(gaps: Seq<GapModel>, x: int)
    requires
        gaps.len() > 0,
        separate(gaps),
        in_gaps(gaps.drop_last(), x),
    ensures
        x < gaps.last().x,
{
    let front = gaps.drop_last();
    let j = choose|j: int|
        0 <= j < front.len() && (#[trigger] front[j]).x <= x < front[j].x + front[j].w;
    assert(front[j] == gaps[j]);
    assert(gaps[j].x + gaps[j].w < gaps[gaps.len() - 1].x);
}

/// Gaps over the same columns end in the same column.
proof fn lemma_last_ends_last(a: Seq<GapModel>, b: Seq<GapModel>, cursor: int)
    requires
        gaps_tiled(a, cursor),
        gaps_tiled(b, cursor),
        a.len() > 0,
        b.len() > 0,
        forall|x: int| #[trigger] in_gaps(a, x) <==> in_gaps(b, x),
    ensures
        a.last().x + a.last().w <= b.last().x + b.last().w,
{
    let n = b.len() - 1;
    assert(a[a.len() - 1].w > 0);
    let x = a.last().x + a.last().w - 1;
    lemma_in_gaps_last(a, x);
    assert(in_gaps(a, x));
    let j = choose|j: int| 0 <= j < b.len() && (#[trigger] b[j]).x <= x < b[j].x + b[j].w;
    if j < n {
        assert(b[j].x + b[j].w <= b[n].x);
    }
    assert(b[n].w > 0);
}

/// And their last ones start in the same column.
proof fn lemma_last_starts(a: Seq<GapModel>, b: Seq<GapModel>, cursor: int)
    requires
        gaps_tiled(a, cursor),
        gaps_tiled(b, cursor),
        separate(b),
        a.len() > 0,
        b.len() > 0,
        a.last().x + a.last().w == b.last().x + b.last().w,
        forall|x: int| #[trigger] in_gaps(a, x) <==> in_gaps(b, x),
    ensures
        a.last().x >= b.last().x,
{
    let n = b.len() - 1;
    assert(b[n].w > 0);
    if a.last().x < b.last().x {
        let x = b.last().x - 1;
        lemma_in_gaps_last(a, x);
        assert(in_gaps(a, x));
        let j = choose|j: int| 0 <= j < b.len() && (#[trigger] b[j]).x <= x < b[j].x + b[j].w;
        if j < n {
            assert(b[j].x + b[j].w < b[n].x);
        }
    }
}

/// A freed stretch adds its columns to the gaps.
proof fn lemma_freed_columns(s: ShelfModel, p: Placement)
    requires
        gaps_tiled(s.gaps, s.cursor),
        0 < p.w,
        p.x + p.w <= s.cursor,
        forall|j: int| 0 <= j < s.gaps.len() ==> apart(p, #[trigger] s.gaps[j]),
    ensures
        separate(shelf_freed(s, p.x as int, p.w as int).gaps),
        forall|x: int| #[trigger]
            in_gaps(shelf_freed(s, p.x as int, p.w as int).gaps, x) <==> in_gaps(s.gaps, x) || p.x
                <= x < p.x + p.w,
{
    let k = lemma_with_gap(s, p);
    let all = with_gap(s, p);
    lemma_coalesced_columns(all, s.cursor);
    assert forall|x: int| #[trigger] in_gaps(coalesced(all), x) <==> in_gaps(s.gaps, x) || p.x
        <= x < p.x + p.w by {
        if in_gaps(all, x) {
            let j = choose|j: int|
                0 <= j < all.len() && (#[trigger] all[j]).x <= x < all[j].x + all[j].w;
            if j < k {
                assert(s.gaps[j] == all[j]);
            } else if j > k {
                assert(s.gaps[j - 1] == all[j]);
            }
        }
        if in_gaps(s.gaps, x) {
            let j = choose|j: int|
                0 <= j < s.gaps.len() && (#[trigger] s.gaps[j]).x <= x < s.gaps[j].x + s.gaps[j].w;
            assert(all[if j < k {
                j
            } else {
                j + 1
            }] == s.gaps[j]);
        }
        if p.x <= x < p.x + p.w {
            assert(all[k].x <= x);
        }
    }
}

/// Two stretches of one shelf can come back in either order.
proof fn lemma_shelf_frees_commute(s: ShelfModel, p: Placement, q: Placement)
    requires
        gaps_tiled(s.gaps, s.cursor),
        0 < p.w,
        0 < q.w,
        p.x + p.w <= s.cursor,
        q.x + q.w <= s.cursor,
        p.x + p.w <= q.x || q.x + q.w <= p.x,
        forall|g: int| 0 <= g < s.gaps.len() ==> apart(p, #[trigger] s.gaps[g]),
        forall|g: int| 0 <= g < s.gaps.len() ==> apart(q, #[trigger] s.gaps[g]),
    ensures
        shelf_freed(shelf_freed(s, p.x as int, p.w as int), q.x as int, q.w as int) == shelf_freed(
            shelf_freed(s, q.x as int, q.w as int),
            p.x as int,
            p.w as int,
        ),
{
    let sp = shelf_freed(s, p.x as int, p.w as int);
    let sq = shelf_freed(s, q.x as int, q.w as int);
    lemma_freed_tiled(s, p);
    lemma_freed_tiled(s, q);
    lemma_freed_columns(s, p);
    lemma_freed_columns(s, q);
    assert forall|j: int| 0 <= j < sp.gaps.len() implies apart(q, #[trigger] sp.gaps[j]) by {
        lemma_freed_clear(s, p, q, j);
    }
    assert forall|j: int| 0 <= j < sq.gaps.len() implies apart(p, #[trigger] sq.gaps[j]) by {
        lemma_freed_clear(s, q, p, j);
    }
    lemma_freed_tiled(sp, q);
    lemma_freed_tiled(sq, p);
    lemma_freed_columns(sp, q);
    lemma_freed_columns(sq, p);
    let a = shelf_freed(sp, q.x as int, q.w as int).gaps;
    let b = shelf_freed(sq, p.x as int, p.w as int).gaps;
    assert forall|x: int| #[trigger] in_gaps(a, x) <==> in_gaps(b, x) by {
        assert(in_gaps(sp.gaps, x) <==> in_gaps(s.gaps, x) || p.x <= x < p.x + p.w);
        assert(in_gaps(sq.gaps, x) <==> in_gaps(s.gaps, x) || q.x <= x < q.x + q.w);
        assert(in_gaps(b, x) <==> in_gaps(sq.gaps, x) || p.x <= x < p.x + p.w);
    }
    lemma_columns_fix_gaps(a, b, s.cursor);
}

/// Live placements can be freed in either order: the page is the same
/// afterwards, and so is everything it does from then on.
pub proof fn law_frees_commute(m: PageModel, live: Set<Placement>, p: Placement, q: Placement)
    requires
        tiled(m, live),
        live.contains(p),
        live.contains(q),
        p != q,
    ensures
        page_freed(page_freed(m, p), q) == page_freed(page_freed(m, q), p),
{
    let i = choose|i: int| on_shelf(m, p, i);
    let k = choose|k: int| on_shelf(m, q, k);
    assert(on_shelf(m, p, i));
    assert(on_shelf(m, q, k));
    lemma_home_of_live(m, p, i);
    lemma_home_of_live(m, q, k);
    lemma_home_shelf(m, p, i);
    lemma_home_shelf(m, q, k);
    law_free_gives_back(m, live, p);
    law_free_gives_back(m, live, q);
    let (mp, mq) = (page_freed(m, p), page_freed(m, q));
    assert(on_shelf(mp, q, k));
    assert(on_shelf(mq, p, i));
    lemma_home_of_live(mp, q, k);
    lemma_home_of_live(mq, p, i);
    lemma_home_shelf(mp, q, k);
    lemma_home_shelf(mq, p, i);
    if i == k {
        let s = m.shelves[i];
        assert(!overlap(p, q));
        assert(gaps_tiled(s.gaps, s.cursor));
        assert forall|g: int| 0 <= g < s.gaps.len() implies apart(p, #[trigger] s.gaps[g]) by {
            assert(apart(p, m.shelves[i].gaps[g]));
        }
        assert forall|g: int| 0 <= g < s.gaps.len() implies apart(q, #[trigger] s.gaps[g]) by {
            assert(apart(q, m.shelves[i].gaps[g]));
        }
        lemma_shelf_frees_commute(s, p, q);
    }
    assert(page_freed(mp, q).shelves =~= page_freed(mq, p).shelves);
}

// ---------------------------------------------------------------------
// Area
// ---------------------------------------------------------------------

/// Pixels of the live placements together.
pub open spec fn live_area(live: Set<Placement>) -> int
    decreases live.len(),
    when live.finite()
{
    if live.len() == 0 {
        0
    } else {
        let p = live.choose();
        live_area(live.remove(p)) + p.w * p.h
    }
}

/// Columns of the gaps together.
spec fn gap_width(gaps: Seq<GapModel>) -> int
    decreases gaps.len(),
{
    if gaps.len() == 0 {
        0
    } else {
        gap_width(gaps.drop_last()) + gaps.last().w
    }
}

/// Pixels of the gaps of all shelves, each as tall as its shelf.
spec fn gap_area(shelves: Seq<ShelfModel>) -> int
    decreases shelves.len(),
{
    if shelves.len() == 0 {
        0
    } else {
        gap_area(shelves.drop_last()) + gap_width(shelves.last().gaps) * shelves.last().h
    }
}

proof fn lemma_gap_width_insert(gaps: Seq<GapModel>, k: int, g: GapModel)
    requires
        0 <= k <= gaps.len(),
    ensures
        gap_width(gaps.insert(k, g)) == gap_width(gaps) + g.w,
    decreases gaps.len(),
{
    let out = gaps.insert(k, g);
    if k == gaps.len() {
        assert(out.drop_last() =~= gaps);
    } else {
        let front = gaps.drop_last();
        assert(out.drop_last() =~= front.insert(k, g));
        lemma_gap_width_insert(front, k, g);
    }
}

proof fn lemma_gap_width_coalesced(gaps: Seq<GapModel>)
    ensures
        gap_width(coalesced(gaps)) == gap_width(gaps),
    decreases gaps.len(),
{
    if gaps.len() > 0 {
        lemma_gap_width_coalesced(gaps.drop_last());
        let left = coalesced(gaps.drop_last());
        let out = coalesced(gaps);
        if left.len() > 0 && left.last().x + left.last().w == gaps.last().x {
            assert(out.drop_last() =~= left.drop_last());
        } else {
            assert(out.drop_last() =~= left);
        }
    }
}

proof fn lemma_gap_width_bound(gaps: Seq<GapModel>, cursor: int)
    requires
        gaps_tiled(gaps, cursor),
    ensures
        0 <= gap_width(gaps),
        gaps.len() > 0 ==> gap_width(gaps) <= gaps.last().x + gaps.last().w,
    decreases gaps.len(),
{
    if gaps.len() > 0 {
        let front = gaps.drop_last();
        assert forall|j: int| 0 <= j < front.len() implies #[trigger] front[j] == gaps[j] by {}
        lemma_gap_width_bound(front, cursor);
        assert(gaps[gaps.len() - 1].w > 0 && gaps[gaps.len() - 1].x >= 0);
        if front.len() > 0 {
            assert(gaps[front.len() - 1].x + gaps[front.len() - 1].w <= gaps.last().x);
        }
    }
}

/// A shelf is not smaller than its gaps.
proof fn lemma_gap_area_bound(m: PageModel, live: Set<Placement>, n: int)
    requires
        tiled(m, live),
        0 <= n <= m.shelves.len(),
    ensures
        gap_area(m.shelves.take(n)) <= shelf_area(m.shelves.take(n)),
    decreases n,
{
    if n > 0 {
        lemma_gap_area_bound(m, live, n - 1);
        assert(m.shelves.take(n).drop_last() =~= m.shelves.take(n - 1));
        let s = m.shelves[n - 1];
        assert(gaps_tiled(s.gaps, s.cursor));
        lemma_gap_width_bound(s.gaps, s.cursor);
        if s.gaps.len() > 0 {
            assert(s.gaps[s.gaps.len() - 1].x + s.gaps[s.gaps.len() - 1].w <= s.cursor);
        }
        assert(gap_width(s.gaps) * s.h <= s.cursor * s.h) by (nonlinear_arith)
            requires
                gap_width(s.gaps) <= s.cursor,
                0 < s.h,
        ;
    }
}

/// What replacing one shelf does to the areas.
proof fn lemma_areas_update(shelves: Seq<ShelfModel>, i: int, t: ShelfModel)
    requires
        0 <= i < shelves.len(),
        t.h == shelves[i].h,
    ensures
        shelf_area(shelves.update(i, t)) == shelf_area(shelves) + (t.cursor - shelves[i].cursor)
            * t.h,
        gap_area(shelves.update(i, t)) == gap_area(shelves) + (gap_width(t.gaps) - gap_width(
            shelves[i].gaps,
        )) * t.h,
    decreases shelves.len(),
{
    let after = shelves.update(i, t);
    let front = shelves.drop_last();
    let s = shelves[i];
    if i == shelves.len() - 1 {
        assert(after.drop_last() =~= front);
        assert(t.cursor * t.h == s.cursor * t.h + (t.cursor - s.cursor) * t.h) by (nonlinear_arith);
        let (a, b) = (gap_width(t.gaps), gap_width(s.gaps));
        assert(a * t.h == b * t.h + (a - b) * t.h) by (nonlinear_arith);
    } else {
        assert(after.drop_last() =~= front.update(i, t));
        assert(front[i] == s);
        lemma_areas_update(front, i, t);
    }
}

/// Live pixels and pixels that came back are among those handed out.
proof fn lemma_live_and_gaps(m: PageModel, live: Set<Placement>)
    requires
        tiled(m, live),
        live.finite(),
    ensures
        live_area(live) + gap_area(m.shelves) <= shelf_area(m.shelves),
    decreases live.len(),
{
    if live.len() == 0 {
        lemma_gap_area_bound(m, live, m.shelves.len() as int);
        assert(m.shelves.take(m.shelves.len() as int) =~= m.shelves);
    } else {
        let p = live.choose();
        assert(live.contains(p));
        let i = choose|i: int| on_shelf(m, p, i);
        assert(on_shelf(m, p, i));
        lemma_home_of_live(m, p, i);
        lemma_home_shelf(m, p, i);
        law_free_gives_back(m, live, p);
        lemma_live_and_gaps(page_freed(m, p), live.remove(p));
        let s = m.shelves[i];
        let t = shelf_freed(s, p.x as int, p.w as int);
        assert(gaps_tiled(s.gaps, s.cursor));
        assert forall|j: int| 0 <= j < s.gaps.len() implies apart(p, #[trigger] s.gaps[j]) by {
            assert(apart(p, m.shelves[i].gaps[j]));
        }
        let k = lemma_with_gap(s, p);
        lemma_gap_width_insert(s.gaps, k, GapModel { x: p.x as int, w: p.w as int });
        lemma_gap_width_coalesced(with_gap(s, p));
        lemma_areas_update(m.shelves, i, t);
        assert((t.cursor - s.cursor) * t.h == 0) by (nonlinear_arith)
            requires
                t.cursor == s.cursor,
        ;
        let w = p.w as int;
        assert(w * p.h <= w * t.h) by (nonlinear_arith)
            requires
                0 < w,
                p.h <= t.h,
        ;
    }
}

/// The used area is at least that of the live placements, and at most that
/// of the page.
pub proof fn law_used_area_covers_the_live(m: PageModel, live: Set<Placement>)
    requires
        tiled(m, live),
        live.finite(),
    ensures
        live_area(live) <= shelf_area(m.shelves) <= m.size * m.size,
{
    lemma_live_and_gaps(m, live);
    lemma_area_bound(m, m.shelves.len() as int);
    assert(m.shelves.take(m.shelves.len() as int) =~= m.shelves);
    lemma_gap_area_positive(m, live, m.shelves.len() as int);
}

proof fn lemma_gap_area_positive(m: PageModel, live: Set<Placement>, n: int)
    requires
        tiled(m, live),
        0 <= n <= m.shelves.len(),
    ensures
        0 <= gap_area(m.shelves.take(n)),
    decreases n,
{
    if n > 0 {
        lemma_gap_area_positive(m, live, n - 1);
        assert(m.shelves.take(n).drop_last() =~= m.shelves.take(n - 1));
        let s = m.shelves[n - 1];
        assert(gaps_tiled(s.gaps, s.cursor));
        lemma_gap_width_bound(s.gaps, s.cursor);
        assert(0 <= gap_width(s.gaps) * s.h) by (nonlinear_arith)
            requires
                0 <= gap_width(s.gaps),
                0 < s.h,
        ;
    }
}

/// The used area stays when a placement comes back, as its gap still
/// counts, and no allocation lowers it.
pub proof fn law_used_area_never_shrinks(m: PageModel, p: Placement, w: u32, h: u32)
    requires
        page_ok(m),
    ensures
        shelf_area(page_freed(m, p).shelves) == shelf_area(m.shelves),
        shelf_area(page_taken(m, w as int, h as int).shelves) >= shelf_area(m.shelves),
{
    if exists|i: int| home_shelf(m, p, i) {
        let i = choose|i: int| home_shelf(m, p, i);
        let t = shelf_freed(m.shelves[i], p.x as int, p.w as int);
        lemma_areas_update(m.shelves, i, t);
        assert((t.cursor - m.shelves[i].cursor) * t.h == 0) by (nonlinear_arith)
            requires
                t.cursor == m.shelves[i].cursor,
        ;
    }
    let (w, h) = (w as int, h as int);
    if !unplaceable(m.size, w, h) {
        match shelf_choice(m, w, h) {
            Some(i) => {
                assert(best_shelf(m, w, h, i));
                let t = shelf_taken(m.shelves[i], w);
                assert(m.shelves[i].h > 0);
                lemma_areas_update(m.shelves, i, t);
                assert((t.cursor - m.shelves[i].cursor) * t.h >= 0) by (nonlinear_arith)
                    requires
                        t.cursor >= m.shelves[i].cursor,
                        t.h > 0,
                ;
            },
            None => {
                if m.cursor_y + h <= m.size {
                    let after = page_taken(m, w, h).shelves;
                    assert(after.drop_last() =~= m.shelves);
                    assert(w * h >= 0) by (nonlinear_arith)
                        requires
                            w >= 0,
                            h >= 0,
                    ;
                }
            },
        }
    }
}

/// A rectangle goes to a shelf of the least height that has room for it, and
/// to the first of those; so no shelf that has room is lower than the one it
/// stands on, which it does not exceed.
pub proof fn law_low_shelves_are_preferred(m: PageModel, w: int, h: int, i: int)
    requires
        !unplaceable(m.size, w, h),
        0 <= i < m.shelves.len(),
        m.shelves[i].h >= h,
        m.shelves[i].cursor + w <= m.size || exists|g: int|
            0 <= g < m.shelves[i].gaps.len() && (#[trigger] m.shelves[i].gaps[g]).w >= w,
    ensures
        placed_at(m, w, h) matches Some(at) && exists|k: int|
            0 <= k < m.shelves.len() && at.1 == (#[trigger] m.shelves[k]).y && h <= m.shelves[k].h
                && (m.shelves[k].h < m.shelves[i].h || m.shelves[k].h == m.shelves[i].h && k <= i),
        page_taken(m, w, h).shelves.len() == m.shelves.len(),
        page_taken(m, w, h).cursor_y == m.cursor_y,
{
    lemma_some_shelf_best(m, w, h, i);
    let b = choose|b: int| best_shelf(m, w, h, b);
    assert(best_shelf(m, w, h, b));
    lemma_shelf_choice(m, w, h, b);
    assert(m.shelves[i].h >= h && m.shelves[b].h >= h);
}

/// A rectangle that no shelf has room for opens a shelf of its own height at
/// the top of the others and starts it; where that goes past the page, there
/// is no place for it.
pub proof fn law_new_shelves_go_on_top(m: PageModel, w: int, h: int)
    requires
        0 < w <= m.size,
        0 < h <= m.size,
        forall|i: int|
            #![trigger m.shelves[i]]
            0 <= i < m.shelves.len() ==> m.shelves[i].h < h || m.shelves[i].cursor + w > m.size
                && forall|g: int|
                0 <= g < m.shelves[i].gaps.len() ==> (#[trigger] m.shelves[i].gaps[g]).w < w,
    ensures
        m.cursor_y + h > m.size ==> placed_at(m, w, h) is None && page_taken(m, w, h) == m,
        m.cursor_y + h <= m.size ==> {
            let after = page_taken(m, w, h);
            &&& placed_at(m, w, h) == Some((0int, m.cursor_y))
            &&& after.cursor_y == m.cursor_y + h
            &&& after.shelves.drop_last() == m.shelves
            &&& after.shelves.last().y == m.cursor_y
            &&& after.shelves.last().h == h
            &&& after.shelves.last().cursor == w
            &&& after.shelves.last().gaps.len() == 0
        },
{
    if exists|b: int| best_shelf(m, w, h, b) {
        let b = choose|b: int| best_shelf(m, w, h, b);
        assert(best_shelf(m, w, h, b));
        assert(m.shelves[b].h >= h);
    }
    if m.cursor_y + h <= m.size {
        assert(page_taken(m, w, h).shelves.drop_last() =~= m.shelves);
    }
}

/// On its shelf a rectangle takes the first gap that is wide enough, from
/// its left end, and what is left of the gap stays; without such a gap it
/// follows the others.
pub proof fn law_gaps_are_filled_first(s: ShelfModel, w: int, g: int)
    ensures
        0 <= g < s.gaps.len() && s.gaps[g].w >= w && (forall|j: int|
            0 <= j < g ==> (#[trigger] s.gaps[j]).w < w) ==> {
            &&& shelf_column(s, w) == s.gaps[g].x
            &&& shelf_taken(s, w).cursor == s.cursor
            &&& s.gaps[g].w == w ==> shelf_taken(s, w).gaps.len() == s.gaps.len() - 1
            &&& s.gaps[g].w > w ==> shelf_taken(s, w).gaps.len() == s.gaps.len() && shelf_taken(
                s,
                w,
            ).gaps[g].x == s.gaps[g].x + w && shelf_taken(s, w).gaps[g].x + shelf_taken(
                s,
                w,
            ).gaps[g].w == s.gaps[g].x + s.gaps[g].w
        },
        (forall|j: int| 0 <= j < s.gaps.len() ==> (#[trigger] s.gaps[j]).w < w) ==> {
            &&& shelf_column(s, w) == s.cursor
            &&& shelf_taken(s, w).cursor == s.cursor + w
            &&& shelf_taken(s, w).gaps == s.gaps
        },
        shelf_taken(s, w).y == s.y,
        shelf_taken(s, w).h == s.h,
{
    if 0 <= g < s.gaps.len() && s.gaps[g].w >= w && (forall|j: int|
        0 <= j < g ==> (#[trigger] s.gaps[j]).w < w) {
        assert(first_gap(s.gaps, w, g));
        lemma_gap_choice(s.gaps, w, g);
    }
    if forall|j: int| 0 <= j < s.gaps.len() ==> (#[trigger] s.gaps[j]).w < w {
        assert forall|i: int| !first_gap(s.gaps, w, i) by {}
    }
}

/// A rectangle is refused outright exactly if it is empty or larger than the
/// page.
pub proof fn law_only_odd_sizes_are_unplaceable(size: int, w: int, h: int)
    requires
        0 <= w,
        0 <= h,
    ensures
        unplaceable(size, w, h) <==> !(0 < w <= size && 0 < h <= size),
{
}

} // verus!
