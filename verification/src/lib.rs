//! A glyph-atlas cache and quad-batching core for 2D text overlays.
//!
//! The library tracks which glyph bitmaps are resident in a fixed-size
//! texture atlas, packs newly requested glyphs with a deterministic
//! shelf-packing strategy, accumulates per-frame text requests, and turns
//! them into an ordered frame plan: an optional atlas upload, followed by
//! one render pass that draws one textured quad batch per request.
//! All geometry is carried in exact integer form (pixel coordinates and
//! rational normalized-device / texture coordinates); a thin GPU-facing
//! layer outside this crate executes the plan.

pub mod atlas;
pub mod geometry;
pub mod glyph;
pub mod pending;

use vstd::prelude::*;

use crate::atlas::{AtlasEntry, AtlasModel, GlyphAtlas};
use crate::geometry::{build_vertices, request_vertices, Vertex};
use crate::glyph::{positioned, GlyphShape, PositionedGlyph, TextRequest};
use crate::pending::PendingQueue;

verus! {

/// Width in pixels of the glyph atlas owned by a `DrawText` context.
pub const ATLAS_WIDTH: u32 = 1000;

/// Height in pixels of the glyph atlas owned by a `DrawText` context.
pub const ATLAS_HEIGHT: u32 = 1000;

/// The size in pixels of a render target.
#[derive(Clone, Copy, PartialEq, Eq, Structural, Debug)]
pub struct Extent {
    pub width: u32,
    pub height: u32,
}

/// Why a frame could not be drawn.
#[derive(Clone, Copy, PartialEq, Eq, Structural, Debug)]
pub enum DrawTextError {
    /// The framebuffer chosen for this frame does not have the extent
    /// the renderer's viewport was configured with; `resize` must be
    /// called before the next frame is drawn against it.
    SwapchainMismatch,
}

/// One frame's render plan, to be recorded into a command stream in
/// field order: first the atlas upload, if any; then one render pass
/// over the target framebuffer, with the viewport set to `viewport`,
/// drawing each batch of `batches` in order; then the end of the pass.
/// By this ordering the atlas write is always recorded before every
/// draw that samples the atlas texture.
#[derive(Debug)]
pub struct FramePlan {
    /// The full atlas pixel buffer, present exactly when the atlas
    /// changed since the last upload; to be copied into the atlas
    /// texture before the render pass begins.
    pub atlas_upload: Option<Vec<u8>>,
    /// The index of the framebuffer this frame targets.
    pub frame_index: usize,
    /// The viewport extent of the render pass.
    pub viewport: Extent,
    /// One non-empty vertex batch per drained text request that
    /// contributed at least one vertex, in request order; one draw call
    /// each.
    pub batches: Vec<Vec<Vertex>>,
}

/// The mathematical contents of a list of vertex batches.
pub open spec fn batch_views(batches: Seq<Vec<Vertex>>) -> Seq<Seq<Vertex>> {
    batches.map_values(|b: Vec<Vertex>| b@)
}

/// One step in the command order a frame plan stands for.
pub enum PlanCommand {
    /// Copy the atlas pixel buffer into the atlas texture.
    UploadAtlas { pixels: Seq<u8> },
    /// Begin the render pass over the target framebuffer and bind the
    /// quad pipeline, the viewport and the atlas texture.
    BeginPass { frame_index: int, viewport: Extent },
    /// Issue one draw call for one request's vertex batch.
    DrawQuads { vertices: Seq<Vertex> },
    /// End the render pass.
    EndPass,
}

impl FramePlan {
    /// The command order this plan stands for: the upload, if any, then
    /// the render pass around one draw per batch.
    pub open spec fn commands(self) -> Seq<PlanCommand> {
        let upload = match self.atlas_upload {
            Some(pixels) => seq![PlanCommand::UploadAtlas { pixels: pixels@ }],
            None => Seq::<PlanCommand>::empty(),
        };
        let draws = batch_views(self.batches@).map_values(
            |b: Seq<Vertex>| PlanCommand::DrawQuads { vertices: b },
        );
        upload + seq![
            PlanCommand::BeginPass { frame_index: self.frame_index as int, viewport: self.viewport },
        ] + draws + seq![PlanCommand::EndPass]
    }
}

/// The read-after-write ordering every frame plan obeys: the atlas
/// upload, when present, is recorded strictly before the render pass
/// begins, and every draw that samples the atlas lies strictly between
/// the beginning and the end of the one pass.
pub proof fn lemma_plan_command_order(plan: FramePlan)
    ensures
        plan.commands().last() is EndPass,
        forall|i: int, j: int|
            0 <= i < plan.commands().len() && 0 <= j < plan.commands().len()
                && (#[trigger] plan.commands()[i]) is UploadAtlas
                && (#[trigger] plan.commands()[j]) is BeginPass ==> i < j,
        forall|i: int, j: int|
            0 <= i < plan.commands().len() && 0 <= j < plan.commands().len()
                && (#[trigger] plan.commands()[i]) is BeginPass
                && (#[trigger] plan.commands()[j]) is DrawQuads ==> i < j,
        forall|i: int|
            0 <= i < plan.commands().len() && (#[trigger] plan.commands()[i]) is DrawQuads
                ==> i < plan.commands().len() - 1,
{
    let cs = plan.commands();
    let ulen: int = match plan.atlas_upload {
        Some(pixels) => 1,
        None => 0,
    };
    let draws = batch_views(plan.batches@).map_values(
        |b: Seq<Vertex>| PlanCommand::DrawQuads { vertices: b },
    );
    assert(cs.len() == ulen + 1 + draws.len() + 1);
    assert(forall|i: int| 0 <= i < ulen ==> (#[trigger] cs[i]) is UploadAtlas);
    assert(cs[ulen] is BeginPass);
    assert(forall|i: int|
        ulen + 1 <= i < ulen + 1 + draws.len() ==> (#[trigger] cs[i]) == draws[i - ulen - 1]);
    assert(forall|i: int|
        ulen + 1 <= i < ulen + 1 + draws.len() ==> (#[trigger] cs[i]) is DrawQuads);
    assert(cs[cs.len() - 1] is EndPass);
    assert forall|i: int|
        0 <= i < cs.len() && (#[trigger] cs[i]) is UploadAtlas implies i < ulen by {
        if i >= ulen {
            if i == ulen {
            } else if i < ulen + 1 + draws.len() {
            } else {
            }
        }
    }
    assert forall|i: int|
        0 <= i < cs.len() && (#[trigger] cs[i]) is BeginPass implies i == ulen by {
        if i < ulen {
        } else if i > ulen && i < ulen + 1 + draws.len() {
        } else if i == cs.len() - 1 {
        }
    }
    assert forall|i: int|
        0 <= i < cs.len() && (#[trigger] cs[i]) is DrawQuads implies ulen < i < cs.len() - 1 by {
        if i < ulen {
        } else if i == ulen {
        } else if i == cs.len() - 1 {
        }
    }
}

/// The atlas after every shape of a laid-out string has been queued, in
/// string order.
pub open spec fn queue_all(m: AtlasModel, shapes: Seq<GlyphShape>) -> AtlasModel
    decreases shapes.len(),
{
    if shapes.len() == 0 {
        m
    } else {
        queue_all(m.queue_model(shapes[0].key, shapes[0].bitmap), shapes.skip(1))
    }
}

/// The vertex batches of one frame: the batch of every request that
/// contributes at least one vertex, in request order; requests whose
/// glyphs are all unresolved issue no draw call and are skipped.
pub open spec fn frame_batches(
    requests: Seq<TextRequest>,
    entries: Seq<AtlasEntry>,
    sw: u32,
    sh: u32,
    aw: u32,
    ah: u32,
) -> Seq<Seq<Vertex>>
    decreases requests.len(),
{
    if requests.len() == 0 {
        Seq::empty()
    } else {
        let first = request_vertices(
            requests[0].glyphs@,
            entries,
            requests[0].color,
            sw,
            sh,
            aw,
            ah,
        );
        let rest = frame_batches(requests.skip(1), entries, sw, sh, aw, ah);
        if first.len() == 0 {
            rest
        } else {
            seq![first] + rest
        }
    }
}

/// Extending the request list by one request appends its batch, if that
/// batch is non-empty.
pub proof fn lemma_frame_batches_push(
    requests: Seq<TextRequest>,
    r: TextRequest,
    entries: Seq<AtlasEntry>,
    sw: u32,
    sh: u32,
    aw: u32,
    ah: u32,
)
    ensures
        frame_batches(requests.push(r), entries, sw, sh, aw, ah) == frame_batches(
            requests,
            entries,
            sw,
            sh,
            aw,
            ah,
        ) + (if request_vertices(r.glyphs@, entries, r.color, sw, sh, aw, ah).len() == 0 {
            Seq::<Seq<Vertex>>::empty()
        } else {
            seq![request_vertices(r.glyphs@, entries, r.color, sw, sh, aw, ah)]
        }),
    decreases requests.len(),
{
    reveal_with_fuel(frame_batches, 3);
    if requests.len() == 0 {
        assert(requests.push(r)[0] == r);
        assert(requests.push(r).skip(1).len() == 0);
        assert(frame_batches(requests.push(r), entries, sw, sh, aw, ah) =~= frame_batches(
            requests,
            entries,
            sw,
            sh,
            aw,
            ah,
        ) + (if request_vertices(r.glyphs@, entries, r.color, sw, sh, aw, ah).len() == 0 {
            Seq::<Seq<Vertex>>::empty()
        } else {
            seq![request_vertices(r.glyphs@, entries, r.color, sw, sh, aw, ah)]
        }));
    } else {
        assert(requests.push(r)[0] == requests[0]);
        assert(requests.push(r).skip(1) =~= requests.skip(1).push(r));
        lemma_frame_batches_push(requests.skip(1), r, entries, sw, sh, aw, ah);
        assert(frame_batches(requests.push(r), entries, sw, sh, aw, ah) =~= frame_batches(
            requests,
            entries,
            sw,
            sh,
            aw,
            ah,
        ) + (if request_vertices(r.glyphs@, entries, r.color, sw, sh, aw, ah).len() == 0 {
            Seq::<Seq<Vertex>>::empty()
        } else {
            seq![request_vertices(r.glyphs@, entries, r.color, sw, sh, aw, ah)]
        }));
    }
}

/// A text-overlay rendering context: the glyph atlas cache, the pending
/// draw queue, and the framebuffer extents it renders against. One
/// frame is produced per `draw_text` call: the renderer syncs the
/// atlas, opens one render pass, draws each request's batch, and closes
/// the pass (the plan it returns encodes exactly that sequence).
#[derive(Debug)]
pub struct DrawText {
    /// The glyph atlas cache and packing index.
    pub atlas: GlyphAtlas,
    /// The pending draw queue of this frame's text requests.
    pub queue: PendingQueue,
    /// The viewport extent the quad pipeline is configured for.
    pub viewport: Extent,
    /// The extent of each framebuffer of the render target.
    pub framebuffer_extents: Vec<Extent>,
}

impl DrawText {
    /// A context is well formed when its atlas is.
    pub open spec fn wf(self) -> bool {
        self.atlas@.wf()
    }

    /// A rendering context for framebuffers of the given extents, with
    /// an empty atlas and an empty queue; the viewport is taken from
    /// the first framebuffer.
    pub fn new(framebuffer_extents: Vec<Extent>) -> (ctx: DrawText)
        requires
            framebuffer_extents@.len() > 0,
        ensures
            ctx.wf(),
            ctx.atlas@.width == ATLAS_WIDTH,
            ctx.atlas@.height == ATLAS_HEIGHT,
            ctx.atlas@.entries.len() == 0,
            ctx.atlas@.pending.len() == 0,
            ctx.atlas@.dirty == false,
            ctx.queue.requests@.len() == 0,
            ctx.viewport == framebuffer_extents@[0],
            ctx.framebuffer_extents@ == framebuffer_extents@,
    {
        let viewport = framebuffer_extents[0];
        DrawText {
            atlas: GlyphAtlas::new(ATLAS_WIDTH, ATLAS_HEIGHT),
            queue: PendingQueue::new(),
            viewport,
            framebuffer_extents,
        }
    }

    /// Enqueues one laid-out string for this frame: every glyph shape
    /// is handed to the atlas cache (a no-op for glyphs already
    /// resolved or already queued), and one text request holding the
    /// positioned glyphs and the color, unmodified, joins the pending
    /// draw queue. Never fails; a string that laid out to no glyphs
    /// enqueues an empty request.
    #[verifier::loop_isolation(false)]
    pub fn queue_text(&mut self, shapes: Vec<GlyphShape>, color: [u32; 4])
        requires
            old(self).wf(),
            forall|i: int| 0 <= i < shapes@.len() ==> (#[trigger] shapes@[i]).wf(),
        ensures
            final(self).wf(),
            final(self).atlas@ == queue_all(old(self).atlas@, shapes@),
            final(self).queue.requests@.len() == old(self).queue.requests@.len() + 1,
            final(self).queue.requests@.drop_last() == old(self).queue.requests@,
            final(self).queue.requests@.last().glyphs@ == positioned(shapes@),
            final(self).queue.requests@.last().color == color,
            final(self).viewport == old(self).viewport,
            final(self).framebuffer_extents@ == old(self).framebuffer_extents@,
    {
        let ghost shapes0 = shapes@;
        let ghost m0 = self.atlas@;
        let mut shapes = shapes;
        let mut glyphs: Vec<PositionedGlyph> = Vec::new();
        proof {
            assert(shapes0.skip(0) =~= shapes0);
            assert(positioned(shapes0.take(0)) =~= glyphs@);
        }
        let mut k: usize = 0;
        let n = shapes.len();
        while k < n
            invariant
                k <= n,
                n == shapes0.len(),
                shapes@ == shapes0.skip(k as int),
                glyphs@ == positioned(shapes0.take(k as int)),
                self.atlas@.wf(),
                queue_all(m0, shapes0) == queue_all(self.atlas@, shapes0.skip(k as int)),
                self.queue == old(self).queue,
                self.viewport == old(self).viewport,
                self.framebuffer_extents == old(self).framebuffer_extents,
            decreases n - k,
        {
            let s = shapes.remove(0);
            proof {
                assert(shapes0.skip(k as int)[0] == shapes0[k as int]);
                assert(shapes0.skip(k as int).skip(1) =~= shapes0.skip(k as int + 1));
                assert(shapes@ =~= shapes0.skip(k as int + 1));
                assert(positioned(shapes0.take(k as int + 1)) =~= positioned(
                    shapes0.take(k as int),
                ).push(PositionedGlyph { key: s.key, screen_rect: s.screen_rect }));
            }
            glyphs.push(PositionedGlyph { key: s.key, screen_rect: s.screen_rect });
            self.atlas.queue(s.key, s.bitmap);
            k += 1;
        }
        proof {
            assert(shapes0.skip(n as int).len() == 0);
        }
        self.queue.enqueue(TextRequest { glyphs, color });
    }

    /// Reconfigures the renderer for new framebuffers, taking the
    /// viewport from the first; to be called whenever the render
    /// target's extent changes, before the next frame is drawn. The
    /// atlas and any pending requests are kept.
    pub fn resize(&mut self, framebuffer_extents: Vec<Extent>)
        requires
            old(self).wf(),
            framebuffer_extents@.len() > 0,
        ensures
            final(self).wf(),
            final(self).atlas@ == old(self).atlas@,
            final(self).queue.requests@ == old(self).queue.requests@,
            final(self).viewport == framebuffer_extents@[0],
            final(self).framebuffer_extents@ == framebuffer_extents@,
    {
        self.viewport = framebuffer_extents[0];
        self.framebuffer_extents = framebuffer_extents;
    }

    /// Produces one frame: resolves every queued glyph into the atlas,
    /// flushes the pixel buffer for upload if it changed, drains the
    /// pending draw queue, and builds one vertex batch per request. The
    /// returned plan records the frame's command order: the upload (if
    /// any) strictly before the render pass whose draws sample the
    /// atlas. Fails, changing nothing, when the chosen framebuffer's
    /// extent does not match the configured viewport: the caller must
    /// `resize` first rather than draw with a stale viewport.
    #[verifier::loop_isolation(false)]
    pub fn draw_text(&mut self, frame_index: usize) -> (r: Result<FramePlan, DrawTextError>)
        requires
            old(self).wf(),
            frame_index < old(self).framebuffer_extents@.len(),
        ensures
            final(self).wf(),
            final(self).viewport == old(self).viewport,
            final(self).framebuffer_extents@ == old(self).framebuffer_extents@,
            match r {
                Err(e) => {
                    &&& e == DrawTextError::SwapchainMismatch
                    &&& old(self).framebuffer_extents@[frame_index as int] != old(self).viewport
                    &&& *final(self) == *old(self)
                },
                Ok(plan) => {
                    let m = old(self).atlas@.resolve_model();
                    &&& old(self).framebuffer_extents@[frame_index as int] == old(self).viewport
                    &&& final(self).atlas@ == m.flush_model()
                    &&& final(self).queue.requests@.len() == 0
                    &&& plan.frame_index == frame_index
                    &&& plan.viewport == old(self).viewport
                    &&& match plan.atlas_upload {
                        Some(pixels) => m.dirty && pixels@ == m.pixels,
                        None => !m.dirty,
                    }
                    &&& batch_views(plan.batches@) == frame_batches(
                        old(self).queue.requests@,
                        m.entries,
                        old(self).viewport.width,
                        old(self).viewport.height,
                        old(self).atlas.width,
                        old(self).atlas.height,
                    )
                },
            },
    {
        let ext = self.framebuffer_extents[frame_index];
        if ext.width != self.viewport.width || ext.height != self.viewport.height {
            return Err(DrawTextError::SwapchainMismatch);
        }
        proof {
            assert(ext == (Extent { width: ext.width, height: ext.height }));
            assert(self.viewport == (Extent {
                width: self.viewport.width,
                height: self.viewport.height,
            }));
            assert(ext == self.viewport);
        }
        proof {
            crate::atlas::lemma_resolve_props(self.atlas@);
        }
        self.atlas.resolve_pending();
        let atlas_upload = self.atlas.flush_if_dirty();
        let requests = self.queue.drain();
        let ghost entries = self.atlas@.entries;
        let sw = self.viewport.width;
        let sh = self.viewport.height;
        let aw = self.atlas.width;
        let ah = self.atlas.height;
        let mut batches: Vec<Vec<Vertex>> = Vec::new();
        proof {
            assert(requests@.take(0) =~= Seq::<TextRequest>::empty());
            assert(batch_views(batches@) =~= frame_batches(
                requests@.take(0),
                entries,
                sw,
                sh,
                aw,
                ah,
            ));
        }
        let n = requests.len();
        let mut i: usize = 0;
        while i < n
            invariant
                i <= n,
                n == requests@.len(),
                batch_views(batches@) == frame_batches(
                    requests@.take(i as int),
                    entries,
                    sw,
                    sh,
                    aw,
                    ah,
                ),
            decreases n - i,
        {
            let req = &requests[i];
            proof {
                assert(requests@.take(i as int + 1) =~= requests@.take(i as int).push(
                    requests@[i as int],
                ));
                lemma_frame_batches_push(
                    requests@.take(i as int),
                    requests@[i as int],
                    entries,
                    sw,
                    sh,
                    aw,
                    ah,
                );
            }
            let verts = build_vertices(&self.atlas, &req.glyphs, req.color, sw, sh);
            if verts.len() > 0 {
                let ghost pre = batch_views(batches@);
                batches.push(verts);
                proof {
                    assert(batch_views(batches@) =~= pre.push(verts@));
                    assert(batch_views(batches@) =~= frame_batches(
                        requests@.take(i as int + 1),
                        entries,
                        sw,
                        sh,
                        aw,
                        ah,
                    ));
                }
            } else {
                proof {
                    assert(batch_views(batches@) =~= frame_batches(
                        requests@.take(i as int + 1),
                        entries,
                        sw,
                        sh,
                        aw,
                        ah,
                    ));
                }
            }
            i += 1;
        }
        proof {
            assert(requests@.take(n as int) =~= requests@);
        }
        proof {
            assert((Extent { width: sw, height: sh }) == self.viewport);
        }
        Ok(
            FramePlan {
                atlas_upload,
                frame_index,
                viewport: Extent { width: sw, height: sh },
                batches,
            },
        )
    }
}

} // verus!

