//! Upload queue: the atlas owns geometry, never pixels.
//!
//! Games decode their own images and blit them into backend textures. The
//! atlas tells the backend *where* each sprite landed via [`AtlasWrite`];
//! a bulk reset surfaces as one [`PageClear`] per page. Backends drain
//! these once per frame (or once per load).

use super::{AtlasId, UvRect};
use vstd::prelude::*;

verus! {

/// One pending pixel upload: the game blits the sprite's RGBA8 pixels
/// (identified by `key`) into `page` at (`x`, `y`, `w`, `h`).
#[derive(Clone, Copy, Debug, PartialEq, Eq)]
pub struct AtlasWrite {
    pub key: AtlasId,
    pub page: u32,
    pub x: u32,
    pub y: u32,
    pub w: u32,
    pub h: u32,
    pub uv: UvRect,
}

/// A page whose contents were bulk-invalidated (after `Atlas::clear`);
/// the backend should drop or re-upload it wholesale.
#[derive(Clone, Copy, Debug, PartialEq, Eq, Structural)]
pub struct PageClear {
    pub page: u32,
}

/// FIFO queue drained by the backend. Order is allocation order, which
/// keeps load-time uploads sequential per page.
#[derive(Clone, Debug)]
pub struct UploadQueue {
    writes: Vec<AtlasWrite>,
    clears: Vec<PageClear>,
}

impl Default for UploadQueue {
    fn default() -> (q: Self)
        ensures
            q.pending_writes() == Seq::<AtlasWrite>::empty(),
            q.pending_clears() == Seq::<PageClear>::empty(),
    {
        UploadQueue { writes: Vec::new(), clears: Vec::new() }
    }
}

impl UploadQueue {
    /// Writes not drained yet, oldest first.
    pub closed spec fn pending_writes(&self) -> Seq<AtlasWrite> {
        self.writes@
    }

    /// Clears not drained yet, oldest first.
    pub closed spec fn pending_clears(&self) -> Seq<PageClear> {
        self.clears@
    }

    pub fn push_write(&mut self, write: AtlasWrite)
        ensures
            final(self).pending_writes() == old(self).pending_writes().push(write),
            final(self).pending_clears() == old(self).pending_clears(),
    {
        self.writes.push(write);
    }

    pub fn push_clear(&mut self, clear: PageClear)
        ensures
            final(self).pending_clears() == old(self).pending_clears().push(clear),
            final(self).pending_writes() == old(self).pending_writes(),
    {
        self.clears.push(clear);
    }

    pub fn drain_writes(&mut self) -> (out: Vec<AtlasWrite>)
        ensures
            out@ == old(self).pending_writes(),
            final(self).pending_writes() == Seq::<AtlasWrite>::empty(),
            final(self).pending_clears() == old(self).pending_clears(),
    {
        let mut out: Vec<AtlasWrite> = Vec::new();
        core::mem::swap(&mut out, &mut self.writes);
        out
    }

    pub fn drain_clears(&mut self) -> (out: Vec<PageClear>)
        ensures
            out@ == old(self).pending_clears(),
            final(self).pending_clears() == Seq::<PageClear>::empty(),
            final(self).pending_writes() == old(self).pending_writes(),
    {
        let mut out: Vec<PageClear> = Vec::new();
        core::mem::swap(&mut out, &mut self.clears);
        out
    }

    pub fn is_empty(&self) -> (r: bool)
        ensures
            r == (self.pending_writes().len() == 0 && self.pending_clears().len() == 0),
    {
        self.writes.len() == 0 && self.clears.len() == 0
    }

    /// Pending writes and clears together.
    pub fn len(&self) -> (n: usize)
        requires
            self.pending_writes().len() + self.pending_clears().len() <= usize::MAX,
        ensures
            n == self.pending_writes().len() + self.pending_clears().len(),
    {
        self.writes.len() + self.clears.len()
    }
}

} // verus!
