//! Fullscreen passes: their data, and what their resources need.

use crate::sprite::batch::TextureFilter;
use vstd::prelude::*;

verus! {

/// Construction parameters of an effect.
#[derive(Clone, Copy, Debug, PartialEq, Eq, Structural)]
pub struct FullscreenDesc {
    pub texture_slots: u32,
    /// Sampling of all slots.
    pub filter: TextureFilter,
}

/// Pixels for a texture slot, tight and row-major.
#[derive(Clone, Debug, PartialEq, Eq)]
pub struct FullscreenTexture {
    pub slot: u32,
    pub w: u32,
    pub h: u32,
    pub rgba: Vec<u8>,
}

/// An effect of a game, rebuilt every frame: uniforms go along each time,
/// texture uploads only when they change.
pub struct FullscreenPass {
    id: String,
    wgsl: &'static str,
    desc: FullscreenDesc,
    uniforms: Vec<u8>,
    uploads: Vec<FullscreenTexture>,
}

#[verifier::ext_equal]
pub struct PassModel {
    pub id: Seq<char>,
    pub wgsl: Seq<char>,
    pub desc: FullscreenDesc,
    pub uniforms: Seq<u8>,
    pub uploads: Seq<FullscreenTexture>,
}

impl View for FullscreenPass {
    type V = PassModel;

    closed spec fn view(&self) -> PassModel {
        PassModel {
            id: self.id@,
            wgsl: self.wgsl@,
            desc: self.desc,
            uniforms: self.uniforms@,
            uploads: self.uploads@,
        }
    }
}

impl FullscreenPass {
    /// `id` tells passes of one app apart.
    pub fn new(id: &str, wgsl: &'static str, desc: FullscreenDesc) -> (p: FullscreenPass)
        ensures
            p@ == (PassModel {
                id: id@,
                wgsl: wgsl@,
                desc,
                uniforms: Seq::empty(),
                uploads: Seq::empty(),
            }),
    {
        FullscreenPass {
            id: id.to_owned(),
            wgsl,
            desc,
            uniforms: Vec::new(),
            uploads: Vec::new(),
        }
    }

    /// Replace the uniforms.
    pub fn set_uniform_bytes(&mut self, bytes: &[u8])
        ensures
            final(self)@ == (PassModel { uniforms: bytes@, ..old(self)@ }),
    {
        let mut uniforms: Vec<u8> = Vec::new();
        let mut i: usize = 0;
        while i < bytes.len()
            invariant
                i <= bytes@.len(),
                uniforms@ == bytes@.take(i as int),
            decreases bytes@.len() - i,
        {
            uniforms.push(bytes[i]);
            assert(uniforms@ =~= bytes@.take(i + 1));
            i += 1;
        }
        assert(bytes@.take(bytes@.len() as int) =~= bytes@);
        self.uniforms = uniforms;
    }

    /// Queue texture uploads behind those that wait.
    pub fn extend_textures(&mut self, uploads: Vec<FullscreenTexture>)
        ensures
            final(self)@ == (PassModel {
                uploads: old(self)@.uploads + uploads@,
                ..old(self)@
            }),
    {
        let mut uploads = uploads;
        self.uploads.append(&mut uploads);
    }

    pub fn id(&self) -> (id: &str)
        ensures
            id@ == self@.id,
    {
        self.id.as_str()
    }

    pub fn wgsl(&self) -> (w: &'static str)
        ensures
            w@ == self@.wgsl,
    {
        self.wgsl
    }

    pub fn desc(&self) -> (d: FullscreenDesc)
        ensures
            d == self@.desc,
    {
        self.desc
    }

    pub fn uniforms(&self) -> (u: &Vec<u8>)
        ensures
            u@ == self@.uniforms,
    {
        &self.uniforms
    }

    pub fn uploads(&self) -> (u: &Vec<FullscreenTexture>)
        ensures
            u@ == self@.uploads,
    {
        &self.uploads
    }
}

/// What becomes of an upload.
#[derive(Clone, Copy, Debug, PartialEq, Eq, Structural)]
pub enum UploadStep {
    /// No such slot, no pixels, or not exactly its pixels.
    Dropped,
    /// A new texture of that size, then the pixels.
    Created,
    /// The pixels, into the texture that is there.
    Written,
}

pub open spec fn texture_fits(up: FullscreenTexture, slots: int) -> bool {
    &&& up.slot < slots
    &&& up.w != 0
    &&& up.h != 0
    &&& up.rgba@.len() == up.w * up.h * 4
}

/// What becomes of an upload, given the slots.
pub open spec fn upload_step(slots: Seq<Option<(u32, u32)>>, up: FullscreenTexture) -> UploadStep {
    if !texture_fits(up, slots.len() as int) {
        UploadStep::Dropped
    } else if slots[up.slot as int] == Some((up.w, up.h)) {
        UploadStep::Written
    } else {
        UploadStep::Created
    }
}

/// The slots after an upload.
pub open spec fn slots_after(slots: Seq<Option<(u32, u32)>>, up: FullscreenTexture) -> Seq<
    Option<(u32, u32)>,
> {
    if upload_step(slots, up) == UploadStep::Created {
        slots.update(up.slot as int, Some((up.w, up.h)))
    } else {
        slots
    }
}

/// The slots after uploads, one after the other.
pub open spec fn slots_after_all(
    slots: Seq<Option<(u32, u32)>>,
    ups: Seq<FullscreenTexture>,
) -> Seq<Option<(u32, u32)>>
    decreases ups.len(),
{
    if ups.len() == 0 {
        slots
    } else {
        slots_after(slots_after_all(slots, ups.drop_last()), ups.last())
    }
}

pub open spec fn all_filled(slots: Seq<Option<(u32, u32)>>) -> bool {
    forall|k: int| 0 <= k < slots.len() ==> (#[trigger] slots[k]) is Some
}

/// Resources of one pass: its target, room for uniforms, its textures, and
/// whether they are bound.
pub struct PassSlots {
    /// Format code and sample count of the target that the pipeline is for.
    key: Option<(u64, u32)>,
    uniform_cap: u64,
    slots: Vec<Option<(u32, u32)>>,
    bound: bool,
}

#[verifier::ext_equal]
pub struct SlotsModel {
    pub key: Option<(u64, u32)>,
    pub uniform_cap: u64,
    pub slots: Seq<Option<(u32, u32)>>,
    pub bound: bool,
}

impl View for PassSlots {
    type V = SlotsModel;

    closed spec fn view(&self) -> SlotsModel {
        SlotsModel {
            key: self.key,
            uniform_cap: self.uniform_cap,
            slots: self.slots@,
            bound: self.bound,
        }
    }
}

/// Bytes of a uniform buffer for `len` of them: at least one block of 16.
pub open spec fn uniform_room(len: u64) -> u64 {
    if len < 16 {
        16
    } else {
        len
    }
}

impl PassSlots {
    pub fn empty() -> (s: PassSlots)
        ensures
            s@ == (SlotsModel {
                key: None,
                uniform_cap: 0,
                slots: Seq::empty(),
                bound: false,
            }),
    {
        PassSlots { key: None, uniform_cap: 0, slots: Vec::new(), bound: false }
    }

    /// Build the resources for a target unless they are there: true if they
    /// were built, and everything in them is gone.
    pub fn ensure(&mut self, format: u64, samples: u32, desc: &FullscreenDesc, uniform_len: u64) -> (
    built: bool)
        ensures
            built == (old(self)@.key != Some((format, samples))),
            !built ==> final(self)@ == old(self)@,
            built ==> final(self)@ == (SlotsModel {
                key: Some((format, samples)),
                uniform_cap: uniform_room(uniform_len),
                slots: Seq::new(desc.texture_slots as nat, |k: int| None),
                bound: false,
            }),
    {
        if let Some((f, s)) = self.key {
            if f == format && s == samples {
                return false;
            }
        }
        let mut slots: Vec<Option<(u32, u32)>> = Vec::new();
        let mut i: u32 = 0;
        while i < desc.texture_slots
            invariant
                i <= desc.texture_slots,
                slots@.len() == i,
                forall|k: int| 0 <= k < i ==> (#[trigger] slots@[k]) is None,
            decreases desc.texture_slots - i,
        {
            slots.push(None);
            i += 1;
        }
        assert(slots@ =~= Seq::new(desc.texture_slots as nat, |k: int| None));
        let uniform_cap: u64 = if uniform_len < 16 {
            16
        } else {
            uniform_len
        };
        *self = PassSlots { key: Some((format, samples)), uniform_cap, slots, bound: false };
        true
    }

    /// Make room for uniforms: true if the buffer has to be replaced by one
    /// of the new capacity.
    pub fn fit_uniforms(&mut self, len: u64) -> (grown: bool)
        ensures
            grown == (len > old(self)@.uniform_cap),
            final(self)@ == (SlotsModel {
                uniform_cap: if grown {
                    uniform_room(len)
                } else {
                    old(self)@.uniform_cap
                },
                ..old(self)@
            }),
    {
        if len <= self.uniform_cap {
            return false;
        }
        self.uniform_cap = if len < 16 {
            16
        } else {
            len
        };
        true
    }

    fn take(&mut self, up: &FullscreenTexture) -> (step: UploadStep)
        ensures
            step == upload_step(old(self)@.slots, *up),
            final(self)@ == (SlotsModel {
                slots: slots_after(old(self)@.slots, *up),
                ..old(self)@
            }),
    {
        let (w, h) = (up.w as u128, up.h as u128);
        proof {
            assert(w * h <= 0xffff_ffff * 0xffff_ffff) by (nonlinear_arith)
                requires
                    w <= 0xffff_ffff,
                    h <= 0xffff_ffff,
            ;
        }
        let expected: u128 = w * h * 4;
        if up.slot as usize >= self.slots.len() || up.w == 0 || up.h == 0 || up.rgba.len() as u128
            != expected {
            return UploadStep::Dropped;
        }
        let at: usize = up.slot as usize;
        if let Some((w, h)) = self.slots[at] {
            if w == up.w && h == up.h {
                return UploadStep::Written;
            }
        }
        self.slots.set(at, Some((up.w, up.h)));
        UploadStep::Created
    }

    fn filled(&self) -> (r: bool)
        ensures
            r == all_filled(self@.slots),
    {
        let mut i: usize = 0;
        while i < self.slots.len()
            invariant
                i <= self.slots.len(),
                forall|k: int| 0 <= k < i ==> (#[trigger] self.slots@[k]) is Some,
            decreases self.slots.len() - i,
        {
            if self.slots[i].is_none() {
                return false;
            }
            i += 1;
        }
        true
    }

    /// Apply uploads in order. The steps say what each needs; true if the
    /// textures have to be bound anew.
    pub fn apply(&mut self, uploads: &Vec<FullscreenTexture>) -> (r: (Vec<UploadStep>, bool))
        ensures
            r.0@.len() == uploads@.len(),
            forall|k: int|
                0 <= k < uploads@.len() ==> (#[trigger] r.0@[k]) == upload_step(
                    slots_after_all(old(self)@.slots, uploads@.take(k)),
                    uploads@[k],
                ),
            r.1 == (r.0@.contains(UploadStep::Created) && all_filled(
                slots_after_all(old(self)@.slots, uploads@),
            )),
            final(self)@ == (SlotsModel {
                slots: slots_after_all(old(self)@.slots, uploads@),
                bound: old(self)@.bound || r.1,
                ..old(self)@
            }),
    {
        let ghost before = self@;
        let mut steps: Vec<UploadStep> = Vec::new();
        let mut created: bool = false;
        let mut i: usize = 0;
        assert(uploads@.take(0) =~= Seq::<FullscreenTexture>::empty());
        while i < uploads.len()
            invariant
                i <= uploads.len(),
                steps@.len() == i,
                before == old(self)@,
                self@ == (SlotsModel {
                    slots: slots_after_all(before.slots, uploads@.take(i as int)),
                    ..before
                }),
                forall|k: int|
                    0 <= k < i ==> (#[trigger] steps@[k]) == upload_step(
                        slots_after_all(before.slots, uploads@.take(k)),
                        uploads@[k],
                    ),
                created == steps@.contains(UploadStep::Created),
            decreases uploads.len() - i,
        {
            let ghost had = steps@;
            let step = self.take(&uploads[i]);
            steps.push(step);
            if step == UploadStep::Created {
                created = true;
            }
            proof {
                assert(uploads@.take(i + 1).drop_last() =~= uploads@.take(i as int));
                assert(steps@.contains(UploadStep::Created) <==> had.contains(UploadStep::Created)
                    || step == UploadStep::Created) by {
                    if had.contains(UploadStep::Created) {
                        let k = choose|k: int|
                            0 <= k < had.len() && had[k] == UploadStep::Created;
                        assert(steps@[k] == UploadStep::Created);
                    }
                    if steps@.contains(UploadStep::Created) {
                        let k = choose|k: int|
                            0 <= k < steps@.len() && steps@[k] == UploadStep::Created;
                        if k < had.len() {
                            assert(had[k] == UploadStep::Created);
                        }
                    }
                    assert(steps@[i as int] == step);
                }
            }
            i += 1;
        }
        assert(uploads@.take(uploads@.len() as int) =~= uploads@);
        let rebind = created && self.filled();
        if rebind {
            self.bound = true;
        }
        (steps, rebind)
    }

    /// Whether there is anything to draw: a pass with texture slots waits
    /// until all of them were filled once.
    pub fn paints(&self) -> (r: bool)
        ensures
            r == (self@.key is Some && (self@.slots.len() == 0 || self@.bound)),
    {
        self.key.is_some() && (self.slots.len() == 0 || self.bound)
    }
}

/// Uploads never change how many slots there are, and a slot that was
/// filled stays filled.
pub proof fn law_slots_stay_filled(slots: Seq<Option<(u32, u32)>>, ups: Seq<FullscreenTexture>, k: int)
    requires
        0 <= k < slots.len(),
    ensures
        slots_after_all(slots, ups).len() == slots.len(),
        slots[k] is Some ==> slots_after_all(slots, ups)[k] is Some,
    decreases ups.len(),
{
    if ups.len() > 0 {
        law_slots_stay_filled(slots, ups.drop_last(), k);
    }
}

/// A texture is dropped exactly if its slot does not exist, if it is empty,
/// or if it has not exactly its pixels, four bytes each. Else it is written
/// into the texture of its size, and where there is none one is created.
pub proof fn law_uploads_are_dropped_created_or_written(
    slots: Seq<Option<(u32, u32)>>,
    up: FullscreenTexture,
)
    ensures
        ({
            let good = up.slot < slots.len() && up.w > 0 && up.h > 0 && up.rgba@.len() == 4 * (up.w
                * up.h);
            let same = slots[up.slot as int] == Some((up.w, up.h));
            &&& upload_step(slots, up) is Dropped <==> !good
            &&& upload_step(slots, up) is Written <==> good && same
            &&& upload_step(slots, up) is Created <==> good && !same
        }),
{
    let n = up.w * up.h;
    assert(up.w * up.h * 4 == 4 * (up.w * up.h)) by (nonlinear_arith);
}

/// Uploading changes the slot of the texture to its size where it was
/// created, and no other slot, and none where it was dropped or written.
pub proof fn law_uploads_change_their_slot_alone(
    slots: Seq<Option<(u32, u32)>>,
    up: FullscreenTexture,
    k: int,
)
    requires
        0 <= k < slots.len(),
    ensures
        slots_after(slots, up).len() == slots.len(),
        k != up.slot ==> slots_after(slots, up)[k] == slots[k],
        k == up.slot && !(upload_step(slots, up) is Dropped) ==> slots_after(slots, up)[k] == Some(
            (up.w, up.h),
        ),
        upload_step(slots, up) is Dropped ==> slots_after(slots, up) == slots,
{
}

/// A uniform buffer has room for what it is for, and for sixteen bytes at
/// least.
pub proof fn law_uniforms_have_room(len: u64)
    ensures
        uniform_room(len) >= len,
        uniform_room(len) >= 16,
        uniform_room(len) == len || uniform_room(len) == 16,
{
}

/// The slots are filled exactly if each of them has a texture.
pub proof fn law_filled_slots_all_have_textures(
    slots: Seq<Option<(u32, u32)>>,
    put: Option<(u32, u32)>,
)
    ensures
        all_filled(Seq::empty()),
        all_filled(slots.push(put)) <==> all_filled(slots) && put is Some,
{
    let all = slots.push(put);
    if all_filled(all) {
        assert(all[slots.len() as int] == put);
        assert forall|k: int| 0 <= k < slots.len() implies (#[trigger] slots[k]) is Some by {
            assert(all[k] == slots[k]);
        }
    }
}

} // verus!
