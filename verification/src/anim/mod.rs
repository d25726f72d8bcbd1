//! Animation strips: names, per-frame keys, the packed catalog and the
//! frame player.

pub mod catalog;
pub mod player;

pub use catalog::{AnimCatalog, CatalogError};
pub use player::{AnimPlayer, LoopMode, StripEnds, StripMotion};

use crate::atlas::{self, AtlasId};
use crate::scalar::Scalar;
use crate::text;
use vstd::prelude::*;
use vstd::string::StrSliceExecFns;

verus! {

/// One animation definition: a horizontal strip of `frames` cells.
#[derive(Clone, Copy, Debug, PartialEq, Eq, Structural)]
pub struct AnimDef {
    /// Frame count in the strip.
    pub frames: u32,
    /// Cell size in pixels.
    pub w: u32,
    pub h: u32,
    /// Playback rate; game-side timers consume this.
    pub fps: Scalar,
    /// Origin in pixels.
    pub xorigin: Scalar,
    pub yorigin: Scalar,
}

/// `frame` wrapped to a strip of `frames` cells; 0 on an empty strip.
pub open spec fn wrapped(frames: u32, frame: int) -> int {
    if frames == 0 {
        0
    } else {
        frame % (frames as int)
    }
}

impl AnimDef {
    /// Frame index wrapped to the strip (negative-safe for ping-pong).
    pub fn wrap_frame(&self, frame: i32) -> (r: u32)
        ensures
            r == wrapped(self.frames, frame as int),
            self.frames > 0 ==> r < self.frames,
    {
        if self.frames == 0 {
            return 0;
        }
        if frame >= 0 {
            frame as u32 % self.frames
        } else {
            let back: u32 = (-(frame as i64)) as u32;
            let rest: u32 = back % self.frames;
            proof {
                let n = self.frames as int;
                let q = back as int / n;
                vstd::arithmetic::div_mod::lemma_fundamental_div_mod(back as int, n);
                if rest == 0 {
                    assert(frame as int == (-q) * n) by (nonlinear_arith)
                        requires
                            back as int == n * q,
                            frame as int == -(back as int),
                    ;
                    vstd::arithmetic::div_mod::lemma_fundamental_div_mod_converse(
                        frame as int,
                        n,
                        -q,
                        0,
                    );
                } else {
                    assert(frame as int == (-q - 1) * n + (n - rest)) by (nonlinear_arith)
                        requires
                            back as int == n * q + rest as int,
                            frame as int == -(back as int),
                    ;
                    vstd::arithmetic::div_mod::lemma_fundamental_div_mod_converse(
                        frame as int,
                        n,
                        -q - 1,
                        n - rest,
                    );
                }
            }
            if rest == 0 {
                0
            } else {
                self.frames - rest
            }
        }
    }
}

/// The characters after the last `/`.
pub open spec fn base_name(s: Seq<char>) -> Seq<char>
    decreases s.len(),
{
    if s.len() == 0 || s.last() == '/' {
        Seq::empty()
    } else {
        base_name(s.drop_last()).push(s.last())
    }
}

/// The strip suffix.
pub open spec fn png() -> Seq<char> {
    seq!['.', 'p', 'n', 'g']
}

/// The string ends in `.png`.
pub open spec fn has_png(s: Seq<char>) -> bool {
    s.len() >= 4 && s.skip(s.len() - 4) == png()
}

/// Base name without a final `.png`.
pub open spec fn stem_of(path: Seq<char>) -> Seq<char> {
    let base = base_name(path);
    if has_png(base) {
        base.take(base.len() - 4)
    } else {
        base
    }
}

proof fn lemma_base_name(s: Seq<char>, start: int)
    requires
        0 <= start <= s.len(),
        start > 0 ==> s[start - 1] == '/',
        forall|i: int| start <= i < s.len() ==> s[i] != '/',
    ensures
        base_name(s) == s.skip(start),
    decreases s.len(),
{
    if s.len() == start {
        assert(s.skip(start) =~= Seq::<char>::empty());
        if s.len() > 0 {
            assert(s.last() == s[start - 1]);
        }
    } else {
        let front = s.drop_last();
        assert(s.last() != '/');
        lemma_base_name(front, start);
        assert(front.skip(start).push(s.last()) =~= s.skip(start));
    }
}

/// Strip a lookup key to its anim stem: `"images/sprRad.png"` ->
/// `"sprRad"`, `"sprRad"` -> `"sprRad"`, so full paths and bare names
/// resolve to one entry.
pub fn stem(path: &str) -> (r: &str)
    ensures
        r@ == stem_of(path@),
{
    let chars = text::chars_of(path);
    let n: usize = chars.len();
    let mut start: usize = n;
    while start > 0 && chars[start - 1] != '/'
        invariant
            start <= n,
            n == chars@.len(),
            forall|i: int| start <= i < n ==> chars@[i] != '/',
        decreases start,
    {
        start -= 1;
    }
    proof {
        lemma_base_name(path@, start as int);
    }
    let ghost base = path@.skip(start as int);
    let mut end: usize = n;
    if n - start >= 4 {
        if chars[n - 4] == '.' && chars[n - 3] == 'p' && chars[n - 2] == 'n' && chars[n - 1] == 'g' {
            assert(base.skip(base.len() - 4) =~= png());
            end = n - 4;
        } else {
            proof {
                let tail = base.skip(base.len() - 4);
                if tail == png() {
                    assert(tail[0] == png()[0] && tail[1] == png()[1] && tail[2] == png()[2]
                        && tail[3] == png()[3]);
                }
            }
        }
    }
    let r = path.substring_char(start, end);
    assert(r@ =~= stem_of(path@));
    r
}

/// The bytes a frame key is hashed from: `"{name}#{frame}"`.
pub open spec fn frame_label(name: Seq<char>, frame: u32) -> Seq<u8> {
    vstd::utf8::encode_utf8(name) + seq![35u8] + text::decimal(frame as nat)
}

/// The key of one frame of a strip.
pub open spec fn frame_id(name: Seq<char>, frame: u32) -> AtlasId {
    AtlasId(atlas::fnv(frame_label(name, frame)))
}

/// Deterministic per-frame key: `"{name}#{frame}"` hashed.
pub fn frame_key(name: &str, frame: u32) -> (id: AtlasId)
    ensures
        id == frame_id(name@, frame),
{
    let mut label: Vec<u8> = Vec::new();
    let bytes = name.as_bytes();
    let mut i: usize = 0;
    while i < bytes.len()
        invariant
            i <= bytes@.len(),
            label@ == bytes@.take(i as int),
        decreases bytes@.len() - i,
    {
        label.push(bytes[i]);
        i += 1;
        assert(label@ =~= bytes@.take(i as int));
    }
    assert(bytes@.take(i as int) =~= bytes@);
    label.push(35);
    text::push_decimal(&mut label, frame);
    assert(label@ =~= frame_label(name@, frame));
    atlas::hash_bytes(&label)
}

/// Deterministic per-frame key from a path *or* name.
pub fn frame_key_for(path: &str, frame: u32) -> (id: AtlasId)
    ensures
        id == frame_id(stem_of(path@), frame),
{
    frame_key(stem(path), frame)
}

/// A stem holds no `/`, so stemming leaves it alone unless it still ends in
/// `.png`.
pub proof fn law_stems_are_stable(path: Seq<char>)
    ensures
        forall|i: int| 0 <= i < stem_of(path).len() ==> stem_of(path)[i] != '/',
        !has_png(stem_of(path)) ==> stem_of(stem_of(path)) == stem_of(path),
{
    lemma_no_slash(path);
    let s = stem_of(path);
    let base = base_name(path);
    assert forall|i: int| 0 <= i < s.len() implies s[i] != '/' by {
        assert(s[i] == base[i]);
    }
    lemma_base_name(s, 0);
    assert(s.skip(0) =~= s);
}

proof fn lemma_no_slash(s: Seq<char>)
    ensures
        forall|i: int| 0 <= i < base_name(s).len() ==> base_name(s)[i] != '/',
    decreases s.len(),
{
    if s.len() > 0 && s.last() != '/' {
        let front = base_name(s.drop_last());
        lemma_no_slash(s.drop_last());
        assert forall|i: int| 0 <= i < base_name(s).len() implies base_name(s)[i] != '/' by {
            if i < front.len() {
                assert(front[i] != '/');
            }
        }
    }
}

/// A frame and the same frame any number of laps later share their cell.
pub proof fn law_laps_share_cells(frames: u32, frame: int, laps: int)
    requires
        frames > 0,
    ensures
        wrapped(frames, frame + laps * frames) == wrapped(frames, frame),
{
    vstd::arithmetic::div_mod::lemma_mod_multiples_vanish(laps, frame, frames as int);
    assert(laps * (frames as int) == (frames as int) * laps) by (nonlinear_arith);
}

/// A frame of the strip is its own cell; the one before the first is the
/// last, and the one behind the last is the first. No cell lies outside.
pub proof fn law_frames_wrap_into_the_strip(frames: u32, frame: int)
    requires
        frames > 0,
    ensures
        0 <= wrapped(frames, frame) < frames,
        0 <= frame < frames ==> wrapped(frames, frame) == frame,
        wrapped(frames, -1) == frames - 1,
        wrapped(frames, frames as int) == 0,
{
    let n = frames as int;
    vstd::arithmetic::div_mod::lemma_mod_bound(frame, n);
    if 0 <= frame < n {
        vstd::arithmetic::div_mod::lemma_small_mod(frame as nat, n as nat);
    }
    vstd::arithmetic::div_mod::lemma_fundamental_div_mod_converse(-1, n, -1, n - 1);
    vstd::arithmetic::div_mod::lemma_mod_self_0(n);
}

/// The stem of a path is the last part of it without `.png`: directories
/// are dropped, the suffix once, and a bare name is its own stem.
pub proof fn law_stems_drop_directories_and_suffix(dirs: Seq<char>, name: Seq<char>)
    requires
        forall|i: int| 0 <= i < name.len() ==> name[i] != '/',
    ensures
        stem_of(dirs.push('/') + name + seq!['.', 'p', 'n', 'g']) == name,
        stem_of(name + seq!['.', 'p', 'n', 'g']) == name,
        !(name.len() >= 4 && name.skip(name.len() - 4) == seq!['.', 'p', 'n', 'g']) ==> stem_of(
            dirs.push('/') + name,
        ) == name && stem_of(name) == name,
{
    let dot = seq!['.', 'p', 'n', 'g'];
    let file = name + dot;
    let at = dirs.len() as int + 1;
    let path = dirs.push('/') + file;
    assert(dirs.push('/') + name + dot =~= path);
    lemma_base_name(path, at);
    assert(path.skip(at) =~= file);
    lemma_base_name(file, 0);
    assert(file.skip(0) =~= file);
    assert(file.skip(file.len() - 4) =~= png());
    assert(file.take(file.len() - 4) =~= name);
    let bare = dirs.push('/') + name;
    lemma_base_name(bare, at);
    assert(bare.skip(at) =~= name);
    lemma_base_name(name, 0);
    assert(name.skip(0) =~= name);
    assert(png() =~= dot);
}

/// The key of a frame is hashed from the name, a `#`, and the number of the
/// frame in decimal: different numbers give different labels of one name.
pub proof fn law_frame_labels_number_their_frames(name: Seq<char>, a: u32, b: u32)
    ensures
        frame_label(name, a).take(vstd::utf8::encode_utf8(name).len() as int)
            == vstd::utf8::encode_utf8(name),
        frame_label(name, a)[vstd::utf8::encode_utf8(name).len() as int] == 0x23,
        a < 10 ==> frame_label(name, a).last() == 0x30 + a,
        frame_label(name, a) == frame_label(name, b) ==> a == b,
{
    let bytes = vstd::utf8::encode_utf8(name);
    let (x, y) = (frame_label(name, a), frame_label(name, b));
    assert(x.take(bytes.len() as int) =~= bytes);
    let at = bytes.len() as int + 1;
    assert(x.skip(at) =~= text::decimal(a as nat));
    assert(y.skip(at) =~= text::decimal(b as nat));
    if a < 10 {
        assert(x.last() == text::decimal(a as nat).last());
    }
    if x == y {
        text::law_decimals_are_told_apart(a as nat, b as nat);
    }
}

/// On an empty strip every frame is the first one, and frames a strip's
/// length apart are the same.
pub proof fn law_frames_repeat_with_the_strip(frames: u32, frame: int)
    ensures
        frames == 0 ==> wrapped(frames, frame) == 0,
        frames > 0 ==> wrapped(frames, frame + frames) == wrapped(frames, frame),
{
    if frames > 0 {
        vstd::arithmetic::div_mod::lemma_mod_add_multiples_vanish(frame, frames as int);
    }
}

} // verus!
