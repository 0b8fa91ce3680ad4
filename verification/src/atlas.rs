//! The glyph atlas cache: a fixed-size single-channel pixel buffer, a
//! packing index from glyph keys to atlas rectangles, and a queue of
//! glyphs waiting to be packed.
//!
//! Packing is deterministic shelf packing: glyphs are placed left to
//! right along the current shelf in the order they were first queued; a
//! new shelf starts below the current one when the remaining width is
//! insufficient, and a glyph that cannot be placed at all is dropped
//! (the atlas never evicts or repacks what it already holds).

use vstd::prelude::*;

use vstd::arithmetic::div_mod::lemma_fundamental_div_mod;
use vstd::arithmetic::div_mod::lemma_fundamental_div_mod_converse;
use vstd::arithmetic::mul::lemma_mul_inequality;

use crate::glyph::{AtlasRect, Bitmap, GlyphKey};

verus! {

/// One resolved glyph: its key and the atlas rectangle holding its bitmap.
#[derive(Clone, Copy, PartialEq, Eq, Structural, Debug)]
pub struct AtlasEntry {
    pub key: GlyphKey,
    pub rect: AtlasRect,
}

/// A glyph queued for packing: its key and its rasterized bitmap.
#[derive(Clone, Debug)]
pub struct PendingGlyph {
    pub key: GlyphKey,
    pub bitmap: Bitmap,
}

/// The mathematical state of a [`GlyphAtlas`].
pub struct AtlasModel {
    pub width: int,
    pub height: int,
    pub pixels: Seq<u8>,
    pub entries: Seq<AtlasEntry>,
    pub pending: Seq<PendingGlyph>,
    pub shelf_x: int,
    pub shelf_y: int,
    pub shelf_row_h: int,
    pub dirty: bool,
}

/// The atlas rectangle of `key` among `entries`: the rectangle of the
/// first (and, in a well-formed atlas, only) entry carrying `key`.
pub open spec fn find_entry(entries: Seq<AtlasEntry>, key: GlyphKey) -> Option<AtlasRect>
    decreases entries.len(),
{
    if entries.len() == 0 {
        None
    } else if entries[0].key == key {
        Some(entries[0].rect)
    } else {
        find_entry(entries.skip(1), key)
    }
}

/// Whether some entry carries `key`.
pub open spec fn has_entry(entries: Seq<AtlasEntry>, key: GlyphKey) -> bool {
    find_entry(entries, key) is Some
}

/// Whether some queued glyph carries `key`.
pub open spec fn pending_has(pending: Seq<PendingGlyph>, key: GlyphKey) -> bool {
    exists|i: int| 0 <= i < pending.len() && (#[trigger] pending[i]).key == key
}

/// One byte of the pixel buffer after a bitmap of size `w x h` has been
/// copied to position `(x, y)` of a buffer with row stride `stride`.
pub open spec fn blit_byte(
    pixels: Seq<u8>,
    stride: int,
    x: int,
    y: int,
    w: int,
    h: int,
    data: Seq<u8>,
    i: int,
) -> u8 {
    let col = i % stride;
    let row = i / stride;
    if x <= col < x + w && y <= row < y + h && 0 <= (row - y) * w + (col - x) < data.len() {
        data[(row - y) * w + (col - x)]
    } else {
        pixels[i]
    }
}

/// The pixel buffer after a bitmap of size `w x h` has been copied to
/// position `(x, y)`: the bitmap's bytes inside the target rectangle,
/// the old bytes everywhere else.
pub open spec fn blit(
    pixels: Seq<u8>,
    stride: int,
    x: int,
    y: int,
    w: int,
    h: int,
    data: Seq<u8>,
) -> Seq<u8> {
    Seq::new(pixels.len(), |i: int| blit_byte(pixels, stride, x, y, w, h, data, i))
}

impl AtlasModel {
    /// Where the shelf cursor would place a bitmap `w` pixels wide: on
    /// the current shelf if the remaining width suffices, else at the
    /// start of a fresh shelf below it. Returns the target position and
    /// the height of the target shelf's row so far.
    pub open spec fn shelf_target(self, w: int) -> (int, int, int) {
        if self.shelf_x + w <= self.width {
            (self.shelf_x, self.shelf_y, self.shelf_row_h)
        } else {
            (0, self.shelf_y + self.shelf_row_h, 0)
        }
    }

    /// The atlas after one packing attempt for `p`. On success the
    /// bitmap is copied into the pixel buffer, an entry is added, the
    /// cursor advances and the atlas becomes dirty; when neither the
    /// target shelf nor a fresh one can hold the bitmap, the glyph is
    /// dropped and nothing changes. The queue itself is not touched.
    pub open spec fn place_one(self, p: PendingGlyph) -> AtlasModel {
        let w = p.bitmap.width as int;
        let h = p.bitmap.height as int;
        let (tx, ty, trh) = self.shelf_target(w);
        if tx + w <= self.width && ty + h <= self.height {
            AtlasModel {
                pixels: blit(self.pixels, self.width, tx, ty, w, h, p.bitmap.data@),
                entries: self.entries.push(
                    AtlasEntry {
                        key: p.key,
                        rect: AtlasRect {
                            x: tx as u32,
                            y: ty as u32,
                            width: p.bitmap.width,
                            height: p.bitmap.height,
                        },
                    },
                ),
                shelf_x: tx + w,
                shelf_y: ty,
                shelf_row_h: if trh >= h { trh } else { h },
                dirty: true,
                ..self
            }
        } else {
            self
        }
    }

    /// One resolution step: a packing attempt for the first queued
    /// glyph, which is removed from the queue whether or not it packed.
    pub open spec fn resolve_step(self) -> AtlasModel
        recommends
            self.pending.len() > 0,
    {
        AtlasModel { pending: self.pending.skip(1), ..self.place_one(self.pending[0]) }
    }

    /// The atlas after every queued glyph has been packed (or dropped),
    /// in queue order, leaving the queue empty.
    pub open spec fn resolve_model(self) -> AtlasModel
        decreases self.pending.len(),
    {
        if self.pending.len() == 0 {
            self
        } else {
            self.resolve_step().resolve_model()
        }
    }

    /// The atlas after `key` has been queued: unchanged when the key is
    /// already resolved or already queued, else with the glyph appended
    /// to the queue.
    pub open spec fn queue_model(self, key: GlyphKey, bitmap: Bitmap) -> AtlasModel {
        if has_entry(self.entries, key) || pending_has(self.pending, key) {
            self
        } else {
            AtlasModel {
                pending: self.pending.push(PendingGlyph { key, bitmap }),
                ..self
            }
        }
    }

    /// The atlas after its pixel buffer has been flushed to the caller.
    pub open spec fn flush_model(self) -> AtlasModel {
        AtlasModel { dirty: false, ..self }
    }

    /// A rectangle already accounted for by the shelf cursor: it lies
    /// either wholly above the current shelf, or on the current shelf
    /// left of the cursor and within the row height seen so far.
    pub open spec fn behind_cursor(self, r: AtlasRect) -> bool {
        ||| r.y + r.height <= self.shelf_y
        ||| (r.y == self.shelf_y && r.x + r.width <= self.shelf_x && r.height <= self.shelf_row_h)
    }

    /// Well-formedness of the atlas state: the pixel buffer matches the
    /// atlas size; every resolved rectangle lies in bounds, behind the
    /// shelf cursor, and overlaps no other; keys are unique among the
    /// entries and among the queued glyphs; queued glyphs are not yet
    /// resolved and carry well-formed bitmaps; and the cursor itself
    /// lies within the atlas.
    pub open spec fn wf(self) -> bool {
        &&& 0 < self.width <= u32::MAX
        &&& 0 < self.height <= u32::MAX
        &&& self.pixels.len() == self.width * self.height
        &&& forall|i: int|
            0 <= i < self.entries.len() ==> (#[trigger] self.entries[i]).rect.in_bounds(
                self.width,
                self.height,
            )
        &&& forall|i: int|
            0 <= i < self.entries.len() ==> self.behind_cursor((#[trigger] self.entries[i]).rect)
        &&& forall|i: int, j: int|
            0 <= i < self.entries.len() && 0 <= j < self.entries.len() && i != j
                ==> (#[trigger] self.entries[i]).rect.disjoint((#[trigger] self.entries[j]).rect)
                    && self.entries[i].key != self.entries[j].key
        &&& forall|i: int, j: int|
            0 <= i < self.pending.len() && 0 <= j < self.pending.len() && i != j
                ==> (#[trigger] self.pending[i]).key != (#[trigger] self.pending[j]).key
        &&& forall|i: int|
            0 <= i < self.pending.len() ==> !has_entry(
                self.entries,
                (#[trigger] self.pending[i]).key,
            )
        &&& forall|i: int| 0 <= i < self.pending.len() ==> (#[trigger] self.pending[i]).bitmap.wf()
        &&& 0 <= self.shelf_x <= self.width
        &&& 0 <= self.shelf_y
        &&& 0 <= self.shelf_row_h
        &&& self.shelf_y + self.shelf_row_h <= self.height
    }
}

/// One byte of the pixel buffer after the first `done` bytes of a
/// bitmap `w` pixels wide have been copied, in row-major order, to
/// position `(x, y)` of a buffer with row stride `stride`.
pub open spec fn blit_prefix_byte(
    pixels: Seq<u8>,
    stride: int,
    x: int,
    y: int,
    w: int,
    data: Seq<u8>,
    done: int,
    i: int,
) -> u8 {
    let col = i % stride;
    let row = i / stride;
    let cell = (row - y) * w + (col - x);
    if x <= col < x + w && y <= row && 0 <= cell < done && cell < data.len() {
        data[cell]
    } else {
        pixels[i]
    }
}

/// The pixel buffer after the first `done` bytes of a bitmap `w` pixels
/// wide have been copied to position `(x, y)`.
pub open spec fn blit_prefix(
    pixels: Seq<u8>,
    stride: int,
    x: int,
    y: int,
    w: int,
    data: Seq<u8>,
    done: int,
) -> Seq<u8> {
    Seq::new(pixels.len(), |i: int| blit_prefix_byte(pixels, stride, x, y, w, data, done, i))
}

/// Copying zero bytes changes nothing.
proof fn lemma_blit_prefix_zero(pixels: Seq<u8>, stride: int, x: int, y: int, w: int, data: Seq<u8>)
    ensures
        blit_prefix(pixels, stride, x, y, w, data, 0) =~= pixels,
{
}

/// Copying all `w * h` bytes of the bitmap is the full blit.
proof fn lemma_blit_prefix_full(
    pixels: Seq<u8>,
    stride: int,
    x: int,
    y: int,
    w: int,
    h: int,
    data: Seq<u8>,
)
    requires
        0 < stride,
        0 <= x,
        0 <= y,
        0 <= w,
        0 <= h,
        data.len() == w * h,
    ensures
        blit_prefix(pixels, stride, x, y, w, data, w * h) =~= blit(
            pixels,
            stride,
            x,
            y,
            w,
            h,
            data,
        ),
{
    assert forall|k: int| 0 <= k < pixels.len() implies blit_prefix(
        pixels,
        stride,
        x,
        y,
        w,
        data,
        w * h,
    )[k] == blit(pixels, stride, x, y, w, h, data)[k] by {
        let col = k % stride;
        let row = k / stride;
        let cell = (row - y) * w + (col - x);
        if x <= col < x + w && y <= row {
            if row < y + h {
                assert(0 <= cell < w * h) by (nonlinear_arith)
                    requires
                        cell == (row - y) * w + (col - x),
                        0 <= row - y,
                        row - y <= h - 1,
                        0 <= col - x,
                        col - x <= w - 1,
                        0 < w,
                ;
            } else {
                assert(cell >= w * h) by (nonlinear_arith)
                    requires
                        cell == (row - y) * w + (col - x),
                        row - y >= h,
                        0 <= col - x,
                        0 < w,
                        0 <= h,
                ;
            }
        }
    }
}

/// Copying one more byte updates exactly one position of the buffer:
/// byte `j * w + i` of the bitmap lands at column `x + i` of row `y + j`.
proof fn lemma_blit_prefix_step(
    pixels: Seq<u8>,
    stride: int,
    x: int,
    y: int,
    w: int,
    data: Seq<u8>,
    j: int,
    i: int,
)
    requires
        0 < stride,
        0 <= x,
        0 <= y,
        0 < w,
        x + w <= stride,
        0 <= i < w,
        0 <= j,
        j * w + i < data.len(),
        (y + j) * stride + (x + i) < pixels.len(),
    ensures
        blit_prefix(pixels, stride, x, y, w, data, j * w + i + 1) =~= blit_prefix(
            pixels,
            stride,
            x,
            y,
            w,
            data,
            j * w + i,
        ).update((y + j) * stride + (x + i), data[j * w + i]),
{
    let done = j * w + i;
    let idx = (y + j) * stride + (x + i);
    lemma_fundamental_div_mod_converse(idx, stride, y + j, x + i);
    assert(idx % stride == x + i);
    assert(idx / stride == y + j);
    assert forall|k: int| 0 <= k < pixels.len() implies blit_prefix(
        pixels,
        stride,
        x,
        y,
        w,
        data,
        done + 1,
    )[k] == blit_prefix(pixels, stride, x, y, w, data, done).update(idx, data[done])[k] by {
        let col = k % stride;
        let row = k / stride;
        let cell = (row - y) * w + (col - x);
        if k == idx {
            assert(col == x + i);
            assert(row == y + j);
            assert(cell == done);
        } else {
            if x <= col < x + w && y <= row && cell == done {
                // the decomposition of `done` into a row and a column is
                // unique, so `k` would have to be `idx` itself
                lemma_fundamental_div_mod_converse(done, w, j, i);
                lemma_fundamental_div_mod_converse(cell, w, row - y, col - x);
                assert(row - y == j && col - x == i);
                lemma_fundamental_div_mod(k, stride);
                assert(k == stride * (k / stride) + k % stride);
                assert(k == idx) by (nonlinear_arith)
                    requires
                        k == stride * (k / stride) + k % stride,
                        k / stride == y + j,
                        k % stride == x + i,
                        idx == (y + j) * stride + (x + i),
                ;
            }
        }
    }
}

/// Copies `bitmap` into the rectangle with corner `(x, y)` of a pixel
/// buffer with row stride `stride`.
#[verifier::loop_isolation(false)]
fn blit_into(pixels: &mut Vec<u8>, stride: u32, x: u32, y: u32, bitmap: &Bitmap)
    requires
        bitmap.wf(),
        0 < stride,
        x + bitmap.width <= stride,
        (y + bitmap.height) * stride <= old(pixels)@.len(),
    ensures
        final(pixels)@ == blit(
            old(pixels)@,
            stride as int,
            x as int,
            y as int,
            bitmap.width as int,
            bitmap.height as int,
            bitmap.data@,
        ),
{
    let w = bitmap.width;
    let h = bitmap.height;
    let dlen: usize = bitmap.data.len();
    let plen: usize = pixels.len();
    let ghost p0 = pixels@;
    proof {
        lemma_blit_prefix_zero(p0, stride as int, x as int, y as int, w as int, bitmap.data@);
        lemma_mul_inequality(y as int, y as int + h as int, stride as int);
        assert((y as int) * (stride as int) <= plen);
    }
    let stride_us = stride as usize;
    let mut base: usize = (y as usize) * stride_us;
    let mut src: usize = 0;
    let mut j: u32 = 0;
    while j < h
        invariant
            j <= h,
            base == (y + j) * stride,
            src == j * w,
            pixels@ == blit_prefix(
                p0,
                stride as int,
                x as int,
                y as int,
                w as int,
                bitmap.data@,
                j as int * w as int,
            ),
        decreases h - j,
    {
        proof {
            lemma_mul_inequality(y as int + j as int + 1, y as int + h as int, stride as int);
            assert((y + j + 1) * stride == (y + j) * stride + stride) by (nonlinear_arith);
            lemma_mul_inequality(j as int + 1, h as int, w as int);
            assert((j + 1) * w == j * w + w) by (nonlinear_arith);
            assert(h as int * w as int == w as int * h as int) by (nonlinear_arith);
        }
        let mut i: u32 = 0;
        while i < w
            invariant
                i <= w,
                j < h,
                src == j * w + i,
                pixels@ == blit_prefix(
                    p0,
                    stride as int,
                    x as int,
                    y as int,
                    w as int,
                    bitmap.data@,
                    src as int,
                ),
            decreases w - i,
        {
            proof {
                assert(src < dlen) by (nonlinear_arith)
                    requires
                        src == j * w + i,
                        0 <= i < w,
                        0 <= j < h,
                        dlen == w * h,
                ;
            }
            let idx: usize = base + (x as usize) + (i as usize);
            let b = bitmap.data[src];
            let ghost before = pixels@;
            pixels[idx] = b;
            proof {
                lemma_blit_prefix_step(
                    p0,
                    stride as int,
                    x as int,
                    y as int,
                    w as int,
                    bitmap.data@,
                    j as int,
                    i as int,
                );
                assert(pixels@ =~= blit_prefix(
                    p0,
                    stride as int,
                    x as int,
                    y as int,
                    w as int,
                    bitmap.data@,
                    src as int + 1,
                ));
            }
            src += 1;
            i += 1;
        }
        base += stride_us;
        j += 1;
    }
    proof {
        lemma_blit_prefix_full(
            p0,
            stride as int,
            x as int,
            y as int,
            w as int,
            h as int,
            bitmap.data@,
        );
    }
}

/// The glyph atlas cache: the CPU-side pixel buffer (the single source
/// of truth for the GPU texture mirroring it), the packing index, the
/// queue of glyphs awaiting packing, the shelf cursor and the dirty
/// flag that defers uploads until the next flush.
#[derive(Clone, Debug)]
pub struct GlyphAtlas {
    pub width: u32,
    pub height: u32,
    pub pixels: Vec<u8>,
    pub entries: Vec<AtlasEntry>,
    pub pending: Vec<PendingGlyph>,
    pub shelf_x: u32,
    pub shelf_y: u32,
    pub shelf_row_h: u32,
    pub dirty: bool,
}

impl View for GlyphAtlas {
    type V = AtlasModel;

    open spec fn view(&self) -> AtlasModel {
        AtlasModel {
            width: self.width as int,
            height: self.height as int,
            pixels: self.pixels@,
            entries: self.entries@,
            pending: self.pending@,
            shelf_x: self.shelf_x as int,
            shelf_y: self.shelf_y as int,
            shelf_row_h: self.shelf_row_h as int,
            dirty: self.dirty,
        }
    }
}

impl GlyphAtlas {
    /// An empty atlas of the given size: all pixels zero, no entries,
    /// nothing queued, the cursor at the origin, nothing to upload.
    pub fn new(width: u32, height: u32) -> (atlas: GlyphAtlas)
        requires
            0 < width,
            0 < height,
            width * height <= usize::MAX,
        ensures
            atlas@.wf(),
            atlas@.width == width,
            atlas@.height == height,
            atlas@.pixels =~= Seq::new((width * height) as nat, |i: int| 0u8),
            atlas@.entries.len() == 0,
            atlas@.pending.len() == 0,
            atlas@.shelf_x == 0,
            atlas@.shelf_y == 0,
            atlas@.shelf_row_h == 0,
            atlas@.dirty == false,
    {
        let len: usize = (width as usize) * (height as usize);
        GlyphAtlas {
            width,
            height,
            pixels: vec![0u8; len],
            entries: Vec::new(),
            pending: Vec::new(),
            shelf_x: 0,
            shelf_y: 0,
            shelf_row_h: 0,
            dirty: false,
        }
    }

    /// The atlas rectangle of a previously resolved glyph, or `None` for
    /// a glyph that was never queued, is still queued, or was dropped on
    /// atlas exhaustion.
    pub fn rect_for(&self, key: GlyphKey) -> (r: Option<AtlasRect>)
        ensures
            r == find_entry(self@.entries, key),
    {
        let n = self.entries.len();
        let mut i: usize = 0;
        proof {
            assert(self@.entries.skip(0) =~= self@.entries);
        }
        while i < n
            invariant
                n == self.entries@.len(),
                0 <= i <= n,
                find_entry(self@.entries, key) == find_entry(
                    self@.entries.skip(i as int),
                    key,
                ),
            decreases n - i,
        {
            if self.entries[i].key == key {
                proof {
                    assert(self@.entries.skip(i as int)[0] == self@.entries[i as int]);
                }
                return Some(self.entries[i].rect);
            }
            proof {
                assert(self@.entries.skip(i as int)[0] == self@.entries[i as int]);
                assert(self@.entries.skip(i as int).skip(1) =~= self@.entries.skip(i + 1));
            }
            i += 1;
        }
        proof {
            assert(self@.entries.skip(n as int).len() == 0);
        }
        None
    }

    /// Whether `key` is currently queued for packing.
    pub fn pending_contains(&self, key: GlyphKey) -> (r: bool)
        ensures
            r == pending_has(self@.pending, key),
    {
        let n = self.pending.len();
        let mut i: usize = 0;
        while i < n
            invariant
                n == self.pending@.len(),
                0 <= i <= n,
                forall|j: int| 0 <= j < i ==> (#[trigger] self.pending@[j]).key != key,
            decreases n - i,
        {
            if self.pending[i].key == key {
                return true;
            }
            i += 1;
        }
        false
    }

    /// Records that `key` will be needed, handing over its rasterized
    /// bitmap. A no-op when the glyph is already resolved or already
    /// queued (its packed rectangle, if any, never moves); never fails.
    pub fn queue(&mut self, key: GlyphKey, bitmap: Bitmap)
        requires
            old(self)@.wf(),
            bitmap.wf(),
        ensures
            final(self)@.wf(),
            final(self)@ == old(self)@.queue_model(key, bitmap),
    {
        if self.rect_for(key).is_some() {
            return ;
        }
        if self.pending_contains(key) {
            return ;
        }
        self.pending.push(PendingGlyph { key, bitmap });
        proof {
            let m = old(self)@;
            let new_pending = self@.pending;
            assert forall|i: int, j: int|
                0 <= i < new_pending.len() && 0 <= j < new_pending.len() && i != j implies (
            #[trigger] new_pending[i]).key != (#[trigger] new_pending[j]).key by {
                if i < m.pending.len() && j < m.pending.len() {
                } else if i == m.pending.len() {
                    assert(new_pending[j] == m.pending[j]);
                } else if j == m.pending.len() {
                    assert(new_pending[i] == m.pending[i]);
                }
            }
        }
    }

    /// Packs every glyph queued since the last resolution, in the order
    /// first queued, copying each rasterized bitmap into the pixel
    /// buffer at its assigned rectangle and marking the atlas dirty; a
    /// glyph for which no free rectangle remains is dropped and stays
    /// unresolved. Entries already resolved never move.
    #[verifier::loop_isolation(false)]
    pub fn resolve_pending(&mut self)
        requires
            old(self)@.wf(),
        ensures
            final(self)@.wf(),
            final(self)@ == old(self)@.resolve_model(),
    {
        let mut work: Vec<PendingGlyph> = Vec::new();
        core::mem::swap(&mut work, &mut self.pending);
        let ghost m0 = old(self)@;
        let ghost pend = work@;
        proof {
            assert(pend.skip(0) =~= pend);
            assert(m0 == (AtlasModel { pending: pend.skip(0), ..self@ }));
        }
        let n = work.len();
        let mut k: usize = 0;
        while k < n
            invariant
                k <= n,
                self@.pending.len() == 0,
                (AtlasModel { pending: pend.skip(k as int), ..self@ }).wf(),
                m0.resolve_model() == (AtlasModel {
                    pending: pend.skip(k as int),
                    ..self@
                }).resolve_model(),
            decreases n - k,
        {
            let ghost mid = AtlasModel { pending: pend.skip(k as int), ..self@ };
            let p = &work[k];
            proof {
                assert(mid.pending[0] == pend[k as int]);
                lemma_resolve_step(mid);
                assert(pend.skip(k as int).skip(1) =~= pend.skip(k as int + 1));
            }
            let w = p.bitmap.width;
            let h = p.bitmap.height;
            let mut tx = self.shelf_x;
            let mut ty = self.shelf_y;
            let mut trh = self.shelf_row_h;
            if (tx as u64) + (w as u64) > (self.width as u64) {
                ty = ty + trh;
                tx = 0;
                trh = 0;
            }
            if (tx as u64) + (w as u64) <= (self.width as u64) && (ty as u64) + (h as u64) <= (
            self.height as u64) {
                proof {
                    assert(((ty + h) as int) * (self.width as int) <= self@.pixels.len())
                        by (nonlinear_arith)
                        requires
                            ty as int + h as int <= self@.height,
                            0 <= self@.width,
                            self@.pixels.len() == self@.width * self@.height,
                    ;
                }
                blit_into(&mut self.pixels, self.width, tx, ty, &p.bitmap);
                self.entries.push(
                    AtlasEntry { key: p.key, rect: AtlasRect { x: tx, y: ty, width: w, height: h } },
                );
                self.shelf_x = tx + w;
                self.shelf_y = ty;
                self.shelf_row_h = if trh >= h {
                    trh
                } else {
                    h
                };
                self.dirty = true;
                proof {
                    assert((AtlasModel { pending: pend.skip(k as int + 1), ..self@ })
                        == mid.resolve_step());
                }
            } else {
                proof {
                    assert((AtlasModel { pending: pend.skip(k as int + 1), ..self@ })
                        == mid.resolve_step());
                }
            }
            k += 1;
        }
        proof {
            assert(pend.skip(n as int) =~= self@.pending);
            assert((AtlasModel { pending: pend.skip(n as int), ..self@ }) == self@);
        }
    }

    /// If the pixel buffer has changed since the last flush, hands back
    /// a copy of it for upload and clears the dirty flag; otherwise
    /// nothing is returned and nothing changes.
    pub fn flush_if_dirty(&mut self) -> (r: Option<Vec<u8>>)
        requires
            old(self)@.wf(),
        ensures
            final(self)@.wf(),
            final(self)@ == old(self)@.flush_model(),
            match r {
                Some(pixels) => old(self)@.dirty && pixels@ == old(self)@.pixels,
                None => !old(self)@.dirty,
            },
    {
        let r = if self.dirty {
            self.dirty = false;
            Some(clone_bytes(&self.pixels))
        } else {
            None
        };
        proof {
            let m0 = old(self)@;
            let m1 = self@;
            assert(m1.entries == m0.entries);
            assert(m1.pending == m0.pending);
            assert(m1.wf());
        }
        r
    }
}

/// Relates the packing index to its entries: a key is found exactly
/// when some entry carries it, and the rectangle found is that entry's.
pub proof fn lemma_find_entry_index(entries: Seq<AtlasEntry>, key: GlyphKey)
    ensures
        match find_entry(entries, key) {
            None => forall|i: int|
                0 <= i < entries.len() ==> (#[trigger] entries[i]).key != key,
            Some(r) => exists|i: int|
                0 <= i < entries.len() && (#[trigger] entries[i]).key == key && entries[i].rect
                    == r,
        },
    decreases entries.len(),
{
    if entries.len() == 0 {
    } else {
        lemma_find_entry_index(entries.skip(1), key);
        if entries[0].key == key {
        } else {
            match find_entry(entries.skip(1), key) {
                None => {
                    assert forall|i: int| 0 <= i < entries.len() implies (
                    #[trigger] entries[i]).key != key by {
                        if i > 0 {
                            assert(entries.skip(1)[i - 1] == entries[i]);
                        }
                    }
                },
                Some(r) => {
                    let i = choose|i: int|
                        0 <= i < entries.skip(1).len() && (#[trigger] entries.skip(1)[i]).key
                            == key && entries.skip(1)[i].rect == r;
                    assert(entries[i + 1] == entries.skip(1)[i]);
                },
            }
        }
    }
}

/// Appending an entry never changes what earlier keys resolve to; the
/// new key resolves to the new rectangle if it was not resolved before.
pub proof fn lemma_find_entry_push(entries: Seq<AtlasEntry>, e: AtlasEntry, key: GlyphKey)
    ensures
        find_entry(entries.push(e), key) == if has_entry(entries, key) {
            find_entry(entries, key)
        } else if e.key == key {
            Some(e.rect)
        } else {
            None::<AtlasRect>
        },
    decreases entries.len(),
{
    reveal_with_fuel(find_entry, 3);
    if entries.len() == 0 {
        assert(entries.push(e)[0] == e);
        assert(entries.push(e).skip(1).len() == 0);
    } else {
        assert(entries.push(e)[0] == entries[0]);
        if entries[0].key == key {
            assert(find_entry(entries.push(e), key) == Some(entries[0].rect));
            assert(find_entry(entries, key) == Some(entries[0].rect));
        } else {
            assert(entries.push(e).skip(1) =~= entries.skip(1).push(e));
            lemma_find_entry_push(entries.skip(1), e, key);
            assert(find_entry(entries, key) == find_entry(entries.skip(1), key));
            assert(find_entry(entries.push(e), key) == find_entry(
                entries.skip(1).push(e),
                key,
            ));
        }
    }
}

/// One resolution step keeps the atlas well formed, never disturbs an
/// existing entry or what an already-resolved key resolves to, and
/// consumes the first queued glyph.
pub proof fn lemma_resolve_step(m: AtlasModel)
    requires
        m.wf(),
        0 < m.pending.len(),
    ensures
        m.resolve_step().wf(),
        m.resolve_step().width == m.width,
        m.resolve_step().height == m.height,
        m.resolve_step().pixels.len() == m.pixels.len(),
        m.resolve_step().pending == m.pending.skip(1),
        m.resolve_step().entries.len() >= m.entries.len(),
        forall|i: int|
            0 <= i < m.entries.len() ==> #[trigger] m.resolve_step().entries[i] == m.entries[i],
        forall|key: GlyphKey|
            has_entry(m.entries, key) ==> #[trigger] find_entry(m.resolve_step().entries, key)
                == find_entry(m.entries, key),
        m.dirty ==> m.resolve_step().dirty,
{
    let p = m.pending[0];
    let s = m.resolve_step();
    let w = p.bitmap.width as int;
    let h = p.bitmap.height as int;
    let (tx, ty, trh) = m.shelf_target(w);

    // the queue shrinks by its head in either outcome
    assert forall|i: int, j: int|
        0 <= i < s.pending.len() && 0 <= j < s.pending.len() && i != j implies (
    #[trigger] s.pending[i]).key != (#[trigger] s.pending[j]).key by {
        assert(s.pending[i] == m.pending[i + 1]);
        assert(s.pending[j] == m.pending[j + 1]);
    }
    assert(forall|i: int| 0 <= i < s.pending.len() ==> #[trigger] s.pending[i] == m.pending[i + 1]);

    if tx + w <= m.width && ty + h <= m.height {
        let e = AtlasEntry {
            key: p.key,
            rect: AtlasRect {
                x: tx as u32,
                y: ty as u32,
                width: p.bitmap.width,
                height: p.bitmap.height,
            },
        };
        assert(s.entries == m.entries.push(e));
        assert(e.rect.x == tx && e.rect.y == ty);
        lemma_find_entry_index(m.entries, p.key);

        // every rectangle, the new one included, is behind the new cursor
        assert forall|i: int| 0 <= i < s.entries.len() implies s.behind_cursor(
            (#[trigger] s.entries[i]).rect,
        ) by {
            if i < m.entries.len() {
                assert(s.entries[i] == m.entries[i]);
                assert(m.behind_cursor(m.entries[i].rect));
            } else {
                assert(s.entries[i] == e);
            }
        }

        // the new rectangle is disjoint from every old one
        assert forall|i: int| 0 <= i < m.entries.len() implies e.rect.disjoint(
            (#[trigger] m.entries[i]).rect,
        ) && m.entries[i].rect.disjoint(e.rect) && m.entries[i].key != e.key by {
            assert(m.behind_cursor(m.entries[i].rect));
        }
        assert forall|i: int, j: int|
            0 <= i < s.entries.len() && 0 <= j < s.entries.len() && i != j implies (
        #[trigger] s.entries[i]).rect.disjoint((#[trigger] s.entries[j]).rect) && s.entries[i].key
            != s.entries[j].key by {
            if i < m.entries.len() && j < m.entries.len() {
                assert(s.entries[i] == m.entries[i] && s.entries[j] == m.entries[j]);
            } else if j == m.entries.len() {
                assert(s.entries[i] == m.entries[i] && s.entries[j] == e);
            } else {
                assert(s.entries[j] == m.entries[j] && s.entries[i] == e);
            }
        }

        // queued glyphs behind the head are still unresolved
        assert forall|i: int| 0 <= i < s.pending.len() implies !has_entry(
            s.entries,
            (#[trigger] s.pending[i]).key,
        ) by {
            assert(s.pending[i] == m.pending[i + 1]);
            assert(!has_entry(m.entries, m.pending[i + 1].key));
            assert(m.pending[i + 1].key != p.key);
            lemma_find_entry_push(m.entries, e, m.pending[i + 1].key);
        }

        // already-resolved keys still resolve to the same rectangle
        assert forall|key: GlyphKey| has_entry(m.entries, key) implies #[trigger] find_entry(
            s.entries,
            key,
        ) == find_entry(m.entries, key) by {
            lemma_find_entry_push(m.entries, e, key);
        }
    } else {
        assert(s.entries == m.entries);
    }
}

/// Resolving keeps the atlas well formed, empties the queue, and never
/// disturbs an existing entry or what an already-resolved key resolves
/// to.
pub proof fn lemma_resolve_props(m: AtlasModel)
    requires
        m.wf(),
    ensures
        m.resolve_model().wf(),
        m.resolve_model().width == m.width,
        m.resolve_model().height == m.height,
        m.resolve_model().pixels.len() == m.pixels.len(),
        m.resolve_model().pending.len() == 0,
        m.resolve_model().entries.len() >= m.entries.len(),
        forall|i: int|
            0 <= i < m.entries.len() ==> #[trigger] m.resolve_model().entries[i] == m.entries[i],
        forall|key: GlyphKey|
            has_entry(m.entries, key) ==> #[trigger] find_entry(m.resolve_model().entries, key)
                == find_entry(m.entries, key),
        m.dirty ==> m.resolve_model().dirty,
    decreases m.pending.len(),
{
    if m.pending.len() == 0 {
    } else {
        lemma_resolve_step(m);
        lemma_resolve_props(m.resolve_step());
        let s = m.resolve_step();
        let r = m.resolve_model();
        assert(r == s.resolve_model());
        assert forall|key: GlyphKey| has_entry(m.entries, key) implies #[trigger] find_entry(
            r.entries,
            key,
        ) == find_entry(m.entries, key) by {
            assert(find_entry(s.entries, key) == find_entry(m.entries, key));
            assert(has_entry(s.entries, key));
        }
    }
}

/// In a well-formed atlas, every resolved glyph's rectangle lies fully
/// inside the atlas bounds.
pub proof fn lemma_resolved_rect_in_bounds(m: AtlasModel, key: GlyphKey)
    requires
        m.wf(),
        find_entry(m.entries, key) is Some,
    ensures
        find_entry(m.entries, key)->Some_0.in_bounds(m.width, m.height),
{
    lemma_find_entry_index(m.entries, key);
}

/// In a well-formed atlas, the rectangles of two distinct resolved
/// glyphs never overlap.
pub proof fn lemma_resolved_rects_disjoint(m: AtlasModel, k1: GlyphKey, k2: GlyphKey)
    requires
        m.wf(),
        find_entry(m.entries, k1) is Some,
        find_entry(m.entries, k2) is Some,
        k1 != k2,
    ensures
        find_entry(m.entries, k1)->Some_0.disjoint(find_entry(m.entries, k2)->Some_0),
{
    lemma_find_entry_index(m.entries, k1);
    lemma_find_entry_index(m.entries, k2);
    let r1 = find_entry(m.entries, k1)->Some_0;
    let r2 = find_entry(m.entries, k2)->Some_0;
    let i = choose|i: int|
        0 <= i < m.entries.len() && (#[trigger] m.entries[i]).key == k1 && m.entries[i].rect == r1;
    let j = choose|j: int|
        0 <= j < m.entries.len() && (#[trigger] m.entries[j]).key == k2 && m.entries[j].rect == r2;
    assert(i != j);
}

/// Queuing an already-resolved glyph again changes nothing, and
/// resolving never re-rasterizes or moves it: its rectangle is stable.
pub proof fn lemma_requeue_stable(m: AtlasModel, key: GlyphKey, bitmap: Bitmap)
    requires
        m.wf(),
        find_entry(m.entries, key) is Some,
    ensures
        m.queue_model(key, bitmap) == m,
        find_entry(m.resolve_model().entries, key) == find_entry(m.entries, key),
{
    lemma_resolve_props(m);
}

/// An exact copy of a byte vector.
fn clone_bytes(v: &Vec<u8>) -> (r: Vec<u8>)
    ensures
        r@ == v@,
{
    let mut r: Vec<u8> = Vec::new();
    let n = v.len();
    let mut i: usize = 0;
    while i < n
        invariant
            n == v@.len(),
            0 <= i <= n,
            r@ =~= v@.take(i as int),
        decreases n - i,
    {
        r.push(v[i]);
        proof {
            assert(r@ =~= v@.take(i + 1));
        }
        i += 1;
    }
    proof {
        assert(v@.take(n as int) =~= v@);
    }
    r
}

} // verus!
