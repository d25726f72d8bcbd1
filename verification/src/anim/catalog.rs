//! Packed animation catalog: every frame of every strip placed in one
//! atlas, in the order of the strip names.

use super::{frame_key, stem, AnimDef};
use crate::atlas::{self, AllocError, Atlas, AtlasDesc, UvRect};
use crate::text::{self, str_eq, str_less};
use vstd::prelude::*;

verus! {

/// Why catalog construction failed.
#[derive(Clone, Debug, PartialEq, Eq)]
pub enum CatalogError {
    /// Atlas exhausted mid-pack; `placed` frames landed before it.
    AtlasFull { placed: usize },
    /// A single cell is larger than one page (or empty).
    CellTooLarge { name: String },
    /// Two definition keys stem to the same name (e.g.
    /// `images/a/foo.png` and `images/b/foo.png` both -> `foo`).
    DuplicateStem { stem: String, first: String, second: String },
}

/// A [`CatalogError`] with its names as characters.
pub enum CatalogFault {
    AtlasFull { placed: nat },
    CellTooLarge { name: Seq<char> },
    DuplicateStem { stem: Seq<char>, first: Seq<char>, second: Seq<char> },
}

impl View for CatalogError {
    type V = CatalogFault;

    open spec fn view(&self) -> CatalogFault {
        match *self {
            CatalogError::AtlasFull { placed } => CatalogFault::AtlasFull { placed: placed as nat },
            CatalogError::CellTooLarge { name } => CatalogFault::CellTooLarge { name: name@ },
            CatalogError::DuplicateStem { stem, first, second } => CatalogFault::DuplicateStem {
                stem: stem@,
                first: first@,
                second: second@,
            },
        }
    }
}

#[derive(Debug)]
struct Strip {
    name: String,
    def: AnimDef,
}

/// Packed catalog. Owns the [`Atlas`]; games drain its upload queue into
/// their backend after construction (and after streaming more anims in
/// later).
#[derive(Debug)]
pub struct AnimCatalog {
    strips: Vec<Strip>,
    atlas: Atlas,
}

/// A definition with its name.
pub type NamedDef = (Seq<char>, AnimDef);

/// What a catalog holds: the strips in the order of their names, and the
/// atlas their frames are packed in.
pub struct CatalogModel {
    pub strips: Seq<NamedDef>,
    pub atlas: atlas::AtlasModel,
}

impl Strip {
    spec fn model(&self) -> NamedDef {
        (self.name@, self.def)
    }
}

spec fn strip_models(strips: Seq<Strip>) -> Seq<NamedDef> {
    Seq::new(strips.len(), |i: int| strips[i].model())
}

impl View for AnimCatalog {
    type V = CatalogModel;

    closed spec fn view(&self) -> CatalogModel {
        CatalogModel { strips: strip_models(self.strips@), atlas: self.atlas@ }
    }
}

/// Raw definitions as characters.
pub open spec fn raw_model(raw: Seq<(String, AnimDef)>) -> Seq<NamedDef> {
    Seq::new(raw.len(), |i: int| (raw[i].0@, raw[i].1))
}

/// The stems of the definitions are pairwise different.
pub open spec fn distinct_stems(raw: Seq<NamedDef>) -> bool {
    forall|i: int, j: int|
        0 <= i < j < raw.len() ==> super::stem_of((#[trigger] raw[i]).0) != super::stem_of(
            (#[trigger] raw[j]).0,
        )
}

/// `j` is the first definition whose stem an earlier one, `i`, has taken.
pub open spec fn stem_clash(raw: Seq<NamedDef>, i: int, j: int) -> bool {
    &&& 0 <= i < j < raw.len()
    &&& super::stem_of(raw[i].0) == super::stem_of(raw[j].0)
    &&& distinct_stems(raw.take(j))
}

/// `d` put behind every strip whose name comes before its own.
pub open spec fn insert_named(strips: Seq<NamedDef>, d: NamedDef) -> Seq<NamedDef>
    decreases strips.len(),
{
    if strips.len() == 0 || text::name_less(strips.last().0, d.0) {
        strips.push(d)
    } else {
        insert_named(strips.drop_last(), d).push(strips.last())
    }
}

/// The definitions under their stems, in the order of the stems.
pub open spec fn sorted_strips(raw: Seq<NamedDef>) -> Seq<NamedDef>
    decreases raw.len(),
{
    if raw.len() == 0 {
        raw
    } else {
        insert_named(
            sorted_strips(raw.drop_last()),
            (super::stem_of(raw.last().0), raw.last().1),
        )
    }
}

/// The atlas after the first `n` frames of a strip were placed, or the
/// error and how many sprites the atlas held when it came.
pub open spec fn packed_frames(
    m: atlas::AtlasModel,
    d: NamedDef,
    n: nat,
) -> Result<atlas::AtlasModel, (AllocError, nat)>
    decreases n,
{
    if n == 0 {
        Ok(m)
    } else {
        match packed_frames(m, d, (n - 1) as nat) {
            Ok(a) => {
                let key = super::frame_id(d.0, (n - 1) as u32);
                match atlas::alloc_outcome(a, key, d.1.w, d.1.h) {
                    Ok((page, p)) => Ok(atlas::atlas_placed(a, key, page, p)),
                    Err(e) => Err((e, a.entries.len())),
                }
            },
            Err(e) => Err(e),
        }
    }
}

/// The atlas after the first `k` strips were placed frame by frame.
pub open spec fn packed_strips(
    m: atlas::AtlasModel,
    strips: Seq<NamedDef>,
    k: nat,
) -> Result<atlas::AtlasModel, CatalogFault>
    decreases k,
{
    if k == 0 {
        Ok(m)
    } else {
        match packed_strips(m, strips, (k - 1) as nat) {
            Ok(a) => {
                let d = strips[k - 1];
                match packed_frames(a, d, d.1.frames as nat) {
                    Ok(b) => Ok(b),
                    Err((e, placed)) => if e == AllocError::TooLarge {
                        Err(CatalogFault::CellTooLarge { name: d.0 })
                    } else {
                        Err(CatalogFault::AtlasFull { placed })
                    },
                }
            },
            Err(e) => Err(e),
        }
    }
}

/// An atlas without sprites.
pub open spec fn empty_atlas(desc: AtlasDesc) -> atlas::AtlasModel {
    atlas::AtlasModel {
        desc,
        pages: Seq::empty(),
        entries: Map::empty(),
        writes: Seq::empty(),
        clears: Seq::empty(),
    }
}

/// The catalog of a list of definitions, or why there is none.
pub open spec fn catalog_outcome(raw: Seq<NamedDef>, desc: AtlasDesc) -> Result<
    CatalogModel,
    CatalogFault,
> {
    if exists|i: int, j: int| stem_clash(raw, i, j) {
        let (i, j) = choose|i: int, j: int| stem_clash(raw, i, j);
        Err(
            CatalogFault::DuplicateStem {
                stem: super::stem_of(raw[j].0),
                first: raw[i].0,
                second: raw[j].0,
            },
        )
    } else {
        let strips = sorted_strips(raw);
        match packed_strips(empty_atlas(desc), strips, strips.len()) {
            Ok(atlas) => Ok(CatalogModel { strips, atlas }),
            Err(e) => Err(e),
        }
    }
}

/// Index of the strip called `name`.
pub open spec fn strip_at(strips: Seq<NamedDef>, name: Seq<char>, i: int) -> bool {
    &&& 0 <= i < strips.len()
    &&& strips[i].0 == name
    &&& forall|j: int| 0 <= j < i ==> (#[trigger] strips[j]).0 != name
}

/// The definition called `name`.
pub open spec fn strip_named(strips: Seq<NamedDef>, name: Seq<char>) -> Option<AnimDef> {
    if exists|i: int| strip_at(strips, name, i) {
        Some(strips[choose|i: int| strip_at(strips, name, i)].1)
    } else {
        None
    }
}

/// The definition a strip name or a full path addresses.
pub open spec fn strip_for(strips: Seq<NamedDef>, name: Seq<char>) -> Option<AnimDef> {
    match strip_named(strips, name) {
        Some(d) => Some(d),
        None => strip_named(strips, super::stem_of(name)),
    }
}

impl AnimCatalog {
    /// The catalog's own invariant.
    pub open spec fn wf(&self) -> bool {
        atlas::atlas_ok(self@.atlas)
    }

    /// Empty catalog (no strips, empty atlas): lookups resolve nothing.
    /// Startup default so schedules can boot before art loads; the game
    /// replaces it on load.
    pub fn empty() -> (c: Self)
        ensures
            c.wf(),
            c@ == (CatalogModel {
                strips: Seq::empty(),
                atlas: empty_atlas(AtlasDesc { size: 64, max_pages: 1 }),
            }),
    {
        let c = Self {
            strips: Vec::new(),
            atlas: Atlas::new(AtlasDesc { size: 64, max_pages: 1 }),
        };
        assert(c@.strips =~= Seq::<NamedDef>::empty());
        c
    }

    /// Pack every frame of the definitions. Strips are packed in the order
    /// of their names, so packs are deterministic regardless of the order
    /// of `raw`. Definition keys are stemmed, so bare names and full paths
    /// address the same entry.
    pub fn from_defs(raw: &Vec<(String, AnimDef)>, desc: AtlasDesc) -> (r: Result<
        Self,
        CatalogError,
    >)
        requires
            desc.size > 0,
            desc.max_pages > 0,
        ensures
            match catalog_outcome(raw_model(raw@), desc) {
                Ok(m) => r matches Ok(c) && c@ == m && c.wf(),
                Err(e) => r matches Err(f) && f@ == e,
            },
    {
        let ghost all = raw_model(raw@);
        let strips = match collect_strips(raw) {
            Ok(strips) => strips,
            Err(e) => {
                return Err(e);
            },
        };
        let mut atlas = Atlas::new(desc);
        let ghost named = strip_models(strips@);
        let mut k: usize = 0;
        while k < strips.len()
            invariant
                k <= strips@.len(),
                named == strip_models(strips@),
                named == sorted_strips(all),
                forall|i: int, j: int| !stem_clash(all, i, j),
                all == raw_model(raw@),
                atlas.wf(),
                packed_strips(empty_atlas(desc), named, k as nat) == Ok::<
                    atlas::AtlasModel,
                    CatalogFault,
                >(atlas@),
            decreases strips@.len() - k,
        {
            let ghost before = atlas@;
            let ghost d = named[k as int];
            assert(d == strips@[k as int].model());
            let def: AnimDef = strips[k].def;
            let mut frame: u32 = 0;
            while frame < def.frames
                invariant
                    k < strips@.len(),
                    named == strip_models(strips@),
                    named == sorted_strips(all),
                    forall|i: int, j: int| !stem_clash(all, i, j),
                    all == raw_model(raw@),
                    d == named[k as int],
                    d == strips@[k as int].model(),
                    def == d.1,
                    frame <= def.frames,
                    atlas.wf(),
                    packed_strips(empty_atlas(desc), named, k as nat) == Ok::<
                        atlas::AtlasModel,
                        CatalogFault,
                    >(before),
                    packed_frames(before, d, frame as nat) == Ok::<
                        atlas::AtlasModel,
                        (AllocError, nat),
                    >(atlas@),
                decreases def.frames - frame,
            {
                let key = frame_key(strips[k].name.as_str(), frame);
                let placed: usize = atlas.len();
                let ghost a = atlas@;
                match atlas.allocate(key, def.w, def.h) {
                    Ok(_) => {},
                    Err(e) => {
                        proof {
                            lemma_frames_fail(before, d, frame as nat, def.frames as nat);
                            lemma_strips_fail(
                                empty_atlas(desc),
                                named,
                                (k + 1) as nat,
                                named.len() as nat,
                            );
                        }
                        if e == AllocError::TooLarge {
                            return Err(
                                CatalogError::CellTooLarge { name: strips[k].name.clone() },
                            );
                        }
                        return Err(CatalogError::AtlasFull { placed });
                    },
                }
                frame += 1;
            }
            k += 1;
        }
        Ok(Self { strips, atlas })
    }

    /// Position of the strip called `name`.
    fn find(&self, name: &str) -> (r: Option<usize>)
        ensures
            match r {
                Some(i) => strip_at(self@.strips, name@, i as int) && strip_named(
                    self@.strips,
                    name@,
                ) == Some(self@.strips[i as int].1) && i < self.strips@.len(),
                None => strip_named(self@.strips, name@) is None,
            },
    {
        let ghost named = self@.strips;
        let mut i: usize = 0;
        while i < self.strips.len()
            invariant
                i <= self.strips@.len(),
                named == strip_models(self.strips@),
                forall|j: int| 0 <= j < i ==> (#[trigger] named[j]).0 != name@,
            decreases self.strips@.len() - i,
        {
            assert(named[i as int] == self.strips@[i as int].model());
            if str_eq(self.strips[i].name.as_str(), name) {
                proof {
                    assert(strip_at(named, name@, i as int));
                    let c = choose|c: int| strip_at(named, name@, c);
                    assert(strip_at(named, name@, c));
                    assert(c == i);
                }
                return Some(i);
            }
            i += 1;
        }
        None
    }

    /// Animation definition by strip name or full path.
    pub fn def(&self, name: &str) -> (r: Option<AnimDef>)
        ensures
            r == strip_for(self@.strips, name@),
    {
        if let Some(i) = self.find(name) {
            return Some(self.strips[i].def);
        }
        match self.find(stem(name)) {
            Some(i) => Some(self.strips[i].def),
            None => None,
        }
    }

    /// Strip names, sorted.
    pub fn names(&self) -> (out: Vec<&str>)
        ensures
            out@.len() == self@.strips.len(),
            forall|i: int| 0 <= i < out@.len() ==> (#[trigger] out@[i])@ == self@.strips[i].0,
    {
        let mut out: Vec<&str> = Vec::new();
        let mut i: usize = 0;
        while i < self.strips.len()
            invariant
                i <= self.strips@.len(),
                out@.len() == i,
                forall|j: int| 0 <= j < i ==> (#[trigger] out@[j])@ == self.strips@[j].name@,
            decreases self.strips@.len() - i,
        {
            out.push(self.strips[i].name.as_str());
            i += 1;
        }
        out
    }

    /// Atlas rectangle of one frame (the index wraps to the strip).
    pub fn uv(&self, name: &str, frame: i32) -> (r: Option<UvRect>)
        requires
            self.wf(),
        ensures
            r == match strip_for(self@.strips, name@) {
                Some(d) => frame_rect(
                    self@.atlas,
                    super::frame_id(
                        super::stem_of(name@),
                        super::wrapped(d.frames, frame as int) as u32,
                    ).0,
                ),
                None => None,
            },
    {
        match self.def(name) {
            Some(d) => {
                let cell: u32 = d.wrap_frame(frame);
                self.atlas.uv_rect(frame_key(stem(name), cell))
            },
            None => None,
        }
    }

    /// Source rectangle inside the strip image (horizontal frames):
    /// `[x, y, w, h]`. The game blits this into the atlas placement from
    /// the matching drain entry.
    pub fn src_rect(&self, name: &str, frame: i32) -> (r: Option<[u32; 4]>)
        requires
            strip_for(self@.strips, name@) matches Some(d) ==> super::wrapped(
                d.frames,
                frame as int,
            ) * d.w <= u32::MAX,
        ensures
            match strip_for(self@.strips, name@) {
                Some(d) => r matches Some(rect) && rect@ == seq![
                    (super::wrapped(d.frames, frame as int) * d.w) as u32,
                    0u32,
                    d.w,
                    d.h,
                ],
                None => r is None,
            },
    {
        match self.def(name) {
            Some(d) => {
                let f: u32 = d.wrap_frame(frame);
                let rect: [u32; 4] = [f * d.w, 0, d.w, d.h];
                assert(rect@ =~= seq![(f * d.w) as u32, 0u32, d.w, d.h]);
                Some(rect)
            },
            None => None,
        }
    }

    /// Total packed frames.
    pub fn frame_count(&self) -> (n: usize)
        ensures
            n == self@.atlas.entries.len(),
    {
        self.atlas.len()
    }

    pub fn atlas(&self) -> (a: &Atlas)
        ensures
            a@ == self@.atlas,
    {
        &self.atlas
    }

    pub fn atlas_mut(&mut self) -> (a: &mut Atlas)
        ensures
            a@ == old(self)@.atlas,
            final(self)@ == (CatalogModel { atlas: final(a)@, ..old(self)@ }),
    {
        &mut self.atlas
    }
}

impl Default for AnimCatalog {
    fn default() -> (c: Self)
        ensures
            c.wf(),
            c@ == (CatalogModel {
                strips: Seq::empty(),
                atlas: empty_atlas(AtlasDesc { size: 64, max_pages: 1 }),
            }),
    {
        Self::empty()
    }
}

/// The rectangle of a live sprite.
pub open spec fn frame_rect(m: atlas::AtlasModel, key: u64) -> Option<UvRect> {
    if m.entries.contains_key(key) {
        Some(atlas::uv_model(m.desc.size, m.entries[key].0, m.entries[key].1))
    } else {
        None
    }
}

/// Some strip came from definition `b`.
spec fn has_source(sources: Seq<usize>, b: int) -> bool {
    exists|a: int| 0 <= a < sources.len() && #[trigger] sources[a] == b
}

/// The definitions under their stems, in the order of the stems, or the
/// first clash of two of them.
fn collect_strips(raw: &Vec<(String, AnimDef)>) -> (r: Result<Vec<Strip>, CatalogError>)
    ensures
        match r {
            Ok(strips) => {
                &&& strip_models(strips@) == sorted_strips(raw_model(raw@))
                &&& forall|i: int, j: int| !stem_clash(raw_model(raw@), i, j)
            },
            Err(e) => {
                &&& exists|i: int, j: int| stem_clash(raw_model(raw@), i, j)
                &&& catalog_outcome(raw_model(raw@), AtlasDesc { size: 0, max_pages: 0 }) == Err::<
                    CatalogModel,
                    CatalogFault,
                >(e@)
                &&& e@ is DuplicateStem
            },
        },
{
    let ghost all = raw_model(raw@);
    let mut strips: Vec<Strip> = Vec::new();
    let mut sources: Vec<usize> = Vec::new();
    let mut i: usize = 0;
    assert(all.take(0) =~= Seq::<NamedDef>::empty());
    assert(strip_models(strips@) =~= Seq::<NamedDef>::empty());
    while i < raw.len()
        invariant
            i <= raw@.len(),
            all == raw_model(raw@),
            strips@.len() == i,
            sources@.len() == i,
            strip_models(strips@) == sorted_strips(all.take(i as int)),
            distinct_stems(all.take(i as int)),
            forall|a: int|
                0 <= a < i ==> (#[trigger] sources@[a]) < i && super::stem_of(
                    all[sources@[a] as int].0,
                ) == strips@[a].name@,
            forall|b: int| 0 <= b < i ==> #[trigger] has_source(sources@, b),
        decreases raw@.len() - i,
    {
        let s = stem(raw[i].0.as_str());
        let ghost was = strips@;
        let ghost origin = sources@;
        assert(all[i as int] == (raw@[i as int].0@, raw@[i as int].1));
        // Clash with a strip already there?
        let mut j: usize = 0;
        while j < strips.len()
            invariant
                i < raw@.len(),
                all == raw_model(raw@),
                j <= strips@.len(),
                strips@ == was,
                sources@ == origin,
                was.len() == i,
                origin.len() == i,
                s@ == super::stem_of(all[i as int].0),
                distinct_stems(all.take(i as int)),
                forall|a: int|
                    0 <= a < i ==> (#[trigger] origin[a]) < i && super::stem_of(
                        all[origin[a] as int].0,
                    ) == was[a].name@,
                forall|a: int| 0 <= a < j ==> (#[trigger] was[a]).name@ != s@,
            decreases strips@.len() - j,
        {
            if str_eq(strips[j].name.as_str(), s) {
                let first: usize = sources[j];
                proof {
                    assert(stem_clash(all, first as int, i as int));
                    lemma_clash_unique(all, first as int, i as int);
                }
                assert(raw@[first as int].0@ == all[first as int].0);
                return Err(
                    CatalogError::DuplicateStem {
                        stem: s.to_owned(),
                        first: raw[first].0.clone(),
                        second: raw[i].0.clone(),
                    },
                );
            }
            j += 1;
        }
        proof {
            assert forall|a: int, b: int|
                0 <= a < b < all.take(i + 1).len() implies super::stem_of(
                (#[trigger] all.take(i + 1)[a]).0,
            ) != super::stem_of((#[trigger] all.take(i + 1)[b]).0) by {
                if b < i {
                    assert(all.take(i as int)[a] == all[a]);
                    assert(all.take(i as int)[b] == all[b]);
                } else {
                    assert(has_source(origin, a));
                    let c = choose|c: int| 0 <= c < i && #[trigger] origin[c] == a;
                    assert(was[c].name@ != s@);
                }
            }
        }
        let mut k: usize = strips.len();
        while k > 0 && !str_less(strips[k - 1].name.as_str(), s)
            invariant
                k <= strips@.len(),
                strips@ == was,
                forall|a: int|
                    k <= a < was.len() ==> !text::name_less((#[trigger] was[a]).name@, s@),
            decreases k,
        {
            k -= 1;
        }
        let strip = Strip { name: s.to_owned(), def: raw[i].1 };
        let ghost d = strip.model();
        strips.insert(k, strip);
        sources.insert(k, i);
        proof {
            let done = strip_models(was);
            assert forall|a: int| k <= a < done.len() implies !text::name_less(
                (#[trigger] done[a]).0,
                d.0,
            ) by {
                assert(!text::name_less(was[a].name@, s@));
            }
            if k > 0 {
                assert(done[k - 1] == was[k - 1].model());
            }
            lemma_insert_named(done, d, k as int);
            assert(strip_models(strips@) =~= done.insert(k as int, d));
            assert(all.take(i + 1).drop_last() =~= all.take(i as int));
            assert(all.take(i + 1).last() == all[i as int]);
            assert forall|a: int| 0 <= a < i + 1 implies (#[trigger] sources@[a]) < i + 1
                && super::stem_of(all[sources@[a] as int].0) == strips@[a].name@ by {
                if a < k {
                    assert(sources@[a] == origin[a]);
                } else if a > k {
                    assert(sources@[a] == origin[a - 1]);
                    assert(strips@[a] == was[a - 1]);
                }
            }
            assert forall|b: int| 0 <= b < i + 1 implies #[trigger] has_source(sources@, b) by {
                if b == i {
                    assert(sources@[k as int] == b);
                } else {
                    assert(has_source(origin, b));
                    let c = choose|c: int| 0 <= c < i && #[trigger] origin[c] == b;
                    if c < k {
                        assert(sources@[c] == b);
                    } else {
                        assert(sources@[c + 1] == b);
                    }
                }
            }
        }
        i += 1;
    }
    proof {
        assert(all.take(i as int) =~= all);
        assert forall|a: int, b: int| !stem_clash(all, a, b) by {
            if stem_clash(all, a, b) {
                assert(super::stem_of(all[a].0) != super::stem_of(all[b].0));
            }
        }
    }
    Ok(strips)
}

proof fn lemma_clash_unique(raw: Seq<NamedDef>, i: int, j: int)
    requires
        stem_clash(raw, i, j),
    ensures
        (choose|a: int, b: int| stem_clash(raw, a, b)) == (i, j),
{
    let (a, b) = choose|a: int, b: int| stem_clash(raw, a, b);
    assert(stem_clash(raw, a, b));
    if b < j {
        assert(raw.take(j)[a] == raw[a] && raw.take(j)[b] == raw[b]);
    }
    if j < b {
        assert(raw.take(b)[i] == raw[i] && raw.take(b)[j] == raw[j]);
    }
    if a < i {
        assert(raw.take(j)[a] == raw[a] && raw.take(j)[i] == raw[i]);
    }
    if i < a {
        assert(raw.take(j)[a] == raw[a] && raw.take(j)[i] == raw[i]);
    }
}

proof fn lemma_insert_named(strips: Seq<NamedDef>, d: NamedDef, k: int)
    requires
        0 <= k <= strips.len(),
        k > 0 ==> text::name_less(strips[k - 1].0, d.0),
        forall|j: int|
            k <= j < strips.len() ==> !text::name_less((#[trigger] strips[j]).0, d.0),
    ensures
        insert_named(strips, d) == strips.insert(k, d),
    decreases strips.len(),
{
    if k == strips.len() {
        assert(strips.insert(k, d) =~= strips.push(d));
    } else {
        let front = strips.drop_last();
        assert(!text::name_less(strips[strips.len() - 1].0, d.0));
        assert forall|j: int| k <= j < front.len() implies !text::name_less(
            (#[trigger] front[j]).0,
            d.0,
        ) by {
            assert(!text::name_less(strips[j].0, d.0));
        }
        lemma_insert_named(front, d, k);
        assert(front.insert(k, d).push(strips.last()) =~= strips.insert(k, d));
    }
}

proof fn lemma_frames_fail(m: atlas::AtlasModel, d: NamedDef, n: nat, all: nat)
    requires
        n < all,
        packed_frames(m, d, n + 1) is Err,
    ensures
        packed_frames(m, d, all) == packed_frames(m, d, n + 1),
    decreases all,
{
    if all > n + 1 {
        lemma_frames_fail(m, d, n, (all - 1) as nat);
    }
}

proof fn lemma_strips_fail(
    m: atlas::AtlasModel,
    strips: Seq<NamedDef>,
    k: nat,
    all: nat,
)
    requires
        k <= all,
        packed_strips(m, strips, k) is Err,
    ensures
        packed_strips(m, strips, all) == packed_strips(m, strips, k),
    decreases all,
{
    if all > k {
        lemma_strips_fail(m, strips, k, (all - 1) as nat);
    }
}

/// The names come in strictly ascending order.
pub open spec fn strictly_sorted(strips: Seq<NamedDef>) -> bool {
    forall|i: int, j: int|
        0 <= i < j < strips.len() ==> text::name_less(
            (#[trigger] strips[i]).0,
            (#[trigger] strips[j]).0,
        )
}

/// `d` is one of the definitions, under its stem.
pub open spec fn listed(raw: Seq<NamedDef>, d: NamedDef) -> bool {
    exists|i: int|
        0 <= i < raw.len() && super::stem_of((#[trigger] raw[i]).0) == d.0 && raw[i].1 == d.1
}

/// The strips of a catalog are its definitions in ascending order of their
/// stems, none lost and none added.
pub proof fn law_strips_are_sorted(raw: Seq<NamedDef>)
    requires
        distinct_stems(raw),
    ensures
        strictly_sorted(sorted_strips(raw)),
        forall|d: NamedDef| sorted_strips(raw).contains(d) <==> listed(raw, d),
    decreases raw.len(),
{
    if raw.len() > 0 {
        let front = raw.drop_last();
        let e = (super::stem_of(raw.last().0), raw.last().1);
        assert forall|i: int, j: int| 0 <= i < j < front.len() implies super::stem_of(
            (#[trigger] front[i]).0,
        ) != super::stem_of((#[trigger] front[j]).0) by {
            assert(front[i] == raw[i] && front[j] == raw[j]);
        }
        law_strips_are_sorted(front);
        let s = sorted_strips(front);
        assert forall|i: int| 0 <= i < s.len() implies (#[trigger] s[i]).0 != e.0 by {
            assert(s.contains(s[i]));
            assert(listed(front, s[i]));
            let k = choose|k: int|
                0 <= k < front.len() && super::stem_of((#[trigger] front[k]).0) == s[i].0
                    && front[k].1 == s[i].1;
            assert(raw[k] == front[k]);
            assert(super::stem_of(raw[k].0) != super::stem_of(raw[raw.len() - 1].0));
        }
        let k = lemma_place_named(s, e);
        let out = s.insert(k, e);
        assert forall|i: int, j: int| 0 <= i < j < out.len() implies text::name_less(
            (#[trigger] out[i]).0,
            (#[trigger] out[j]).0,
        ) by {
            if i < k && j == k {
                assert(out[i] == s[i] && out[j] == e);
            } else if i == k {
                assert(out[j] == s[j - 1]);
            } else {
                let a = if i < k {
                    i
                } else {
                    i - 1
                };
                let b = if j < k {
                    j
                } else {
                    j - 1
                };
                assert(out[i] == s[a] && out[j] == s[b]);
            }
        }
        assert forall|d: NamedDef| out.contains(d) <==> listed(raw, d) by {
            if out.contains(d) {
                let i = choose|i: int| 0 <= i < out.len() && out[i] == d;
                if i == k {
                    assert(super::stem_of(raw[raw.len() - 1].0) == d.0);
                } else {
                    let a = if i < k {
                        i
                    } else {
                        i - 1
                    };
                    assert(s[a] == d);
                    assert(s.contains(d));
                    assert(listed(front, d));
                    let c = choose|c: int|
                        0 <= c < front.len() && super::stem_of((#[trigger] front[c]).0) == d.0
                            && front[c].1 == d.1;
                    assert(raw[c] == front[c]);
                }
            }
            if listed(raw, d) {
                let c = choose|c: int|
                    0 <= c < raw.len() && super::stem_of((#[trigger] raw[c]).0) == d.0 && raw[c].1
                        == d.1;
                if c < front.len() {
                    assert(front[c] == raw[c]);
                    assert(listed(front, d));
                    assert(s.contains(d));
                    let a = choose|a: int| 0 <= a < s.len() && s[a] == d;
                    let i = if a < k {
                        a
                    } else {
                        a + 1
                    };
                    assert(out[i] == d);
                } else {
                    assert(d == e);
                    assert(out[k] == d);
                }
            }
        }
    }
}

/// Where a new name goes among strictly sorted ones.
proof fn lemma_place_named(s: Seq<NamedDef>, e: NamedDef) -> (k: int)
    requires
        strictly_sorted(s),
        forall|i: int| 0 <= i < s.len() ==> (#[trigger] s[i]).0 != e.0,
    ensures
        0 <= k <= s.len(),
        forall|i: int| 0 <= i < k ==> text::name_less((#[trigger] s[i]).0, e.0),
        forall|i: int| k <= i < s.len() ==> text::name_less(e.0, (#[trigger] s[i]).0),
        insert_named(s, e) == s.insert(k, e),
    decreases s.len(),
{
    if s.len() == 0 {
        assert(s.insert(0, e) =~= s.push(e));
        0
    } else if text::name_less(s.last().0, e.0) {
        let n = s.len() as int;
        assert(s.insert(n, e) =~= s.push(e));
        assert forall|i: int| 0 <= i < n implies text::name_less(
            (#[trigger] s[i]).0,
            e.0,
        ) by {
            if i < n - 1 {
                text::law_names_are_ordered(s[i].0, s[n - 1].0, e.0);
            }
        }
        n
    } else {
        let front = s.drop_last();
        assert forall|i: int| 0 <= i < front.len() implies #[trigger] front[i] == s[i] by {}
        let k = lemma_place_named(front, e);
        text::law_names_are_ordered(s.last().0, e.0, e.0);
        assert(s[s.len() - 1].0 != e.0);
        assert forall|i: int| 0 <= i < k implies text::name_less(
            (#[trigger] s[i]).0,
            e.0,
        ) by {
            assert(front[i] == s[i]);
        }
        assert forall|i: int| k <= i < s.len() implies text::name_less(
            e.0,
            (#[trigger] s[i]).0,
        ) by {
            if i < front.len() {
                assert(front[i] == s[i]);
            }
        }
        assert(front.insert(k, e).push(s.last()) =~= s.insert(k, e));
        k
    }
}

/// Two strictly sorted lists with the same members are the same list.
proof fn lemma_sorted_unique(s: Seq<NamedDef>, t: Seq<NamedDef>)
    requires
        strictly_sorted(s),
        strictly_sorted(t),
        forall|d: NamedDef| s.contains(d) <==> t.contains(d),
    ensures
        s == t,
    decreases s.len(),
{
    if s.len() == 0 {
        if t.len() > 0 {
            assert(t.contains(t[0]));
        }
        assert(s =~= t);
    } else {
        let a = s.last();
        assert(s[s.len() - 1] == a);
        assert(s.contains(a));
        assert(t.contains(a));
        let j = choose|j: int| 0 <= j < t.len() && t[j] == a;
        let b = t.last();
        assert(t[t.len() - 1] == b);
        assert(t.contains(b));
        assert(s.contains(b));
        let i = choose|i: int| 0 <= i < s.len() && s[i] == b;
        text::law_names_are_ordered(a.0, b.0, a.0);
        if j < t.len() - 1 && i < s.len() - 1 {
            assert(text::name_less(t[j].0, t[t.len() - 1].0));
            assert(text::name_less(s[i].0, s[s.len() - 1].0));
        }
        if j == t.len() - 1 || i == s.len() - 1 {
            assert(a == b);
        }
        let (s1, t1) = (s.drop_last(), t.drop_last());
        assert forall|d: NamedDef| s1.contains(d) <==> t1.contains(d) by {
            text::law_names_are_ordered(a.0, a.0, a.0);
            if s1.contains(d) {
                let k = choose|k: int| 0 <= k < s1.len() && s1[k] == d;
                assert(s[k] == d);
                assert(s.contains(d));
                assert(text::name_less(s[k].0, s[s.len() - 1].0));
                let l = choose|l: int| 0 <= l < t.len() && t[l] == d;
                assert(l < t1.len());
                assert(t1[l] == d);
            }
            if t1.contains(d) {
                let k = choose|k: int| 0 <= k < t1.len() && t1[k] == d;
                assert(t[k] == d);
                assert(t.contains(d));
                assert(text::name_less(t[k].0, t[t.len() - 1].0));
                let l = choose|l: int| 0 <= l < s.len() && s[l] == d;
                assert(l < s1.len());
                assert(s1[l] == d);
            }
        }
        assert forall|x: int, y: int| 0 <= x < y < s1.len() implies text::name_less(
            (#[trigger] s1[x]).0,
            (#[trigger] s1[y]).0,
        ) by {
            assert(s1[x] == s[x] && s1[y] == s[y]);
        }
        assert forall|x: int, y: int| 0 <= x < y < t1.len() implies text::name_less(
            (#[trigger] t1[x]).0,
            (#[trigger] t1[y]).0,
        ) by {
            assert(t1[x] == t[x] && t1[y] == t[y]);
        }
        lemma_sorted_unique(s1, t1);
        assert(s =~= s1.push(a));
        assert(t =~= t1.push(b));
    }
}

/// Packs are deterministic: the order the definitions come in does not
/// matter.
pub proof fn law_definition_order_is_irrelevant(
    a: Seq<NamedDef>,
    b: Seq<NamedDef>,
    desc: AtlasDesc,
)
    requires
        distinct_stems(a),
        distinct_stems(b),
        forall|d: NamedDef| listed(a, d) <==> listed(b, d),
    ensures
        catalog_outcome(a, desc) == catalog_outcome(b, desc),
{
    law_strips_are_sorted(a);
    law_strips_are_sorted(b);
    assert forall|d: NamedDef| sorted_strips(a).contains(d) <==> sorted_strips(b).contains(d) by {
        assert(listed(a, d) <==> listed(b, d));
    }
    lemma_sorted_unique(sorted_strips(a), sorted_strips(b));
    assert forall|i: int, j: int| !stem_clash(a, i, j) by {
        if stem_clash(a, i, j) {
            assert(super::stem_of(a[i].0) != super::stem_of(a[j].0));
        }
    }
    assert forall|i: int, j: int| !stem_clash(b, i, j) by {
        if stem_clash(b, i, j) {
            assert(super::stem_of(b[i].0) != super::stem_of(b[j].0));
        }
    }
}

/// A full path addresses the strip of its stem, unless a strip goes by the
/// path itself.
pub proof fn law_paths_address_their_stem(strips: Seq<NamedDef>, path: Seq<char>)
    requires
        strip_named(strips, path) is None,
        !super::has_png(super::stem_of(path)),
    ensures
        strip_for(strips, path) == strip_for(strips, super::stem_of(path)),
        forall|frame: u32|
            super::frame_id(super::stem_of(path), frame) == super::frame_id(
                super::stem_of(super::stem_of(path)),
                frame,
            ),
{
    super::law_stems_are_stable(path);
}

/// When the frames of a strip were packed, each of them is live under its
/// key at the size of the strip's cell, and what was live before still is.
pub proof fn law_packed_frames_are_live(m: atlas::AtlasModel, d: NamedDef, n: nat, k: nat)
    requires
        packed_frames(m, d, n) is Ok,
        k < n,
        n <= u32::MAX,
    ensures
        ({
            let a = packed_frames(m, d, n)->Ok_0;
            let key = super::frame_id(d.0, k as u32).0;
            &&& a.entries.contains_key(key)
            &&& a.entries[key].1.w == d.1.w
            &&& a.entries[key].1.h == d.1.h
            &&& forall|old: u64| #[trigger]
                m.entries.contains_key(old) ==> a.entries.contains_key(old) && a.entries[old]
                    == m.entries[old]
            &&& a.writes.len() == m.writes.len() + n
        }),
    decreases n,
{
    let b = packed_frames(m, d, (n - 1) as nat)->Ok_0;
    let key = super::frame_id(d.0, (n - 1) as u32);
    atlas::law_refusals_have_their_reasons(b, key, d.1.w, d.1.h);
    lemma_packed_keeps(m, d, (n - 1) as nat);
    if k < n - 1 {
        law_packed_frames_are_live(m, d, (n - 1) as nat, k);
        assert(!b.entries.contains_key(key.0));
    }
}

proof fn lemma_packed_keeps(m: atlas::AtlasModel, d: NamedDef, n: nat)
    requires
        packed_frames(m, d, n) is Ok,
    ensures
        packed_frames(m, d, n)->Ok_0.writes.len() == m.writes.len() + n,
        forall|old: u64| #[trigger]
            m.entries.contains_key(old) ==> packed_frames(m, d, n)->Ok_0.entries.contains_key(old)
                && packed_frames(m, d, n)->Ok_0.entries[old] == m.entries[old],
    decreases n,
{
    if n > 0 {
        lemma_packed_keeps(m, d, (n - 1) as nat);
        let b = packed_frames(m, d, (n - 1) as nat)->Ok_0;
        let key = super::frame_id(d.0, (n - 1) as u32);
        atlas::law_refusals_have_their_reasons(b, key, d.1.w, d.1.h);
        assert(!b.entries.contains_key(key.0));
    }
}

/// A strip is found by its name: of several of one name the first, and
/// none where no strip is called so.
pub proof fn law_strips_are_found_by_name(strips: Seq<NamedDef>, name: Seq<char>, k: int)
    requires
        0 <= k < strips.len(),
        forall|j: int| 0 <= j < k ==> (#[trigger] strips[j]).0 != name,
    ensures
        strips[k].0 == name ==> strip_named(strips, name) == Some(strips[k].1),
        strip_named(strips.take(k), name) is None,
{
    if strips[k].0 == name {
        assert(strip_at(strips, name, k));
        let c = choose|i: int| strip_at(strips, name, i);
        assert(strip_at(strips, name, c));
        assert(c < k ==> strips[c].0 != name);
        assert(k < c ==> strips[k].0 != name);
    }
    let head = strips.take(k);
    assert forall|i: int| !strip_at(head, name, i) by {
        if 0 <= i < head.len() {
            assert(head[i] == strips[i]);
        }
    }
}

/// A frame has a rectangle exactly while its sprite is live, and it is that
/// of its place and page.
pub proof fn law_live_frames_have_rectangles(m: atlas::AtlasModel, key: u64)
    ensures
        !m.entries.contains_key(key) ==> frame_rect(m, key) is None,
        m.entries.contains_key(key) ==> frame_rect(m, key) == Some(
            atlas::uv_model(m.desc.size, m.entries[key].0, m.entries[key].1),
        ),
{
}

/// Strips are packed one after the other: the next goes into the atlas that
/// the ones before it left, and a failure before it stands.
pub proof fn law_strips_are_packed_in_turn(
    m: atlas::AtlasModel,
    strips: Seq<NamedDef>,
    k: nat,
)
    requires
        k < strips.len(),
    ensures
        packed_strips(m, strips, 0) == Ok::<_, CatalogFault>(m),
        packed_strips(m, strips, k) is Err ==> packed_strips(m, strips, k + 1) == packed_strips(
            m,
            strips,
            k,
        ),
        packed_strips(m, strips, k) matches Ok(a) ==> {
            let (d, next) = (strips[k as int], packed_strips(m, strips, k + 1));
            match packed_frames(a, d, d.1.frames as nat) {
                Ok(b) => next == Ok::<_, CatalogFault>(b),
                Err((AllocError::TooLarge, _)) => next == Err::<atlas::AtlasModel, _>(
                    CatalogFault::CellTooLarge { name: d.0 },
                ),
                Err((_, placed)) => next == Err::<atlas::AtlasModel, _>(
                    CatalogFault::AtlasFull { placed },
                ),
            }
        },
{
}

} // verus!
