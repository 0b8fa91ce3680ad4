use vulkano_text::glyph::{Bitmap, GlyphKey, GlyphShape, PixelRect, TextRequest};
use vulkano_text::pending::PendingQueue;
use vulkano_text::{DrawText, DrawTextError, Extent};

fn key(id: u32) -> GlyphKey {
    GlyphKey { font_id: 0, glyph_id: id, scale: 15 }
}

/// Two glyph shapes standing for the laid-out string "Hi" at the given
/// origin: an 8x10 'H' and a 3x10 'i', one pixel apart.
fn hi_shapes(x: i32, y: i32) -> Vec<GlyphShape> {
    vec![
        GlyphShape {
            key: key(72),
            screen_rect: PixelRect { min_x: x, min_y: y, max_x: x + 8, max_y: y + 10 },
            bitmap: Bitmap { width: 8, height: 10, data: vec![255; 80] },
        },
        GlyphShape {
            key: key(105),
            screen_rect: PixelRect { min_x: x + 9, min_y: y, max_x: x + 12, max_y: y + 10 },
            bitmap: Bitmap { width: 3, height: 10, data: vec![255; 30] },
        },
    ]
}

const WHITE: [u32; 4] = [0x3f800000, 0x3f800000, 0x3f800000, 0x3f800000];

#[test]
fn drain_returns_requests_in_order_and_empties() {
    let mut queue = PendingQueue::new();
    for c in 0..3u32 {
        queue.enqueue(TextRequest { glyphs: Vec::new(), color: [c, c, c, c] });
    }
    let drained = queue.drain();
    assert_eq!(drained.len(), 3);
    for (i, r) in drained.iter().enumerate() {
        assert_eq!(r.color, [i as u32; 4]);
    }
    assert!(queue.drain().is_empty());
}

#[test]
fn empty_frame_draws_nothing() {
    let mut ctx = DrawText::new(vec![Extent { width: 640, height: 480 }]);
    let plan = ctx.draw_text(0).unwrap();
    assert_eq!(plan.frame_index, 0);
    assert_eq!(plan.viewport, Extent { width: 640, height: 480 });
    assert!(plan.atlas_upload.is_none());
    assert!(plan.batches.is_empty());
}

#[test]
fn hi_against_empty_atlas_builds_one_batch_of_twelve() {
    let mut ctx = DrawText::new(vec![Extent { width: 640, height: 480 }]);
    ctx.queue_text(hi_shapes(0, 0), WHITE);
    let plan = ctx.draw_text(0).unwrap();
    // two unique glyph keys requested, two atlas entries created
    assert!(ctx.atlas.rect_for(key(72)).is_some());
    assert!(ctx.atlas.rect_for(key(105)).is_some());
    // the first rasterization dirtied the atlas, so the frame uploads it
    let pixels = plan.atlas_upload.expect("first frame must upload the atlas");
    assert_eq!(pixels.len(), 1000 * 1000);
    // one draw call of 2 glyphs x 6 vertices
    assert_eq!(plan.batches.len(), 1);
    assert_eq!(plan.batches[0].len(), 12);
    for v in &plan.batches[0] {
        assert_eq!(v.color, WHITE);
    }
}

#[test]
fn same_text_twice_in_one_frame_draws_twice_from_one_cache_entry() {
    let mut ctx = DrawText::new(vec![Extent { width: 640, height: 480 }]);
    ctx.queue_text(hi_shapes(0, 0), WHITE);
    ctx.queue_text(hi_shapes(100, 50), WHITE);
    let plan = ctx.draw_text(0).unwrap();
    // still two unique glyph keys: the second request hit the cache
    let h_rect = ctx.atlas.rect_for(key(72)).unwrap();
    let i_rect = ctx.atlas.rect_for(key(105)).unwrap();
    assert_ne!(h_rect, i_rect);
    // two independent requests, two draw calls, 24 vertices in all
    assert_eq!(plan.batches.len(), 2);
    assert_eq!(plan.batches[0].len(), 12);
    assert_eq!(plan.batches[1].len(), 12);
}

#[test]
fn cached_glyphs_upload_nothing_on_later_frames() {
    let mut ctx = DrawText::new(vec![Extent { width: 640, height: 480 }]);
    ctx.queue_text(hi_shapes(0, 0), WHITE);
    let first = ctx.draw_text(0).unwrap();
    assert!(first.atlas_upload.is_some());
    // the same text in a later frame re-rasterizes nothing
    ctx.queue_text(hi_shapes(5, 5), WHITE);
    let second = ctx.draw_text(0).unwrap();
    assert!(second.atlas_upload.is_none());
    assert_eq!(second.batches.len(), 1);
    assert_eq!(second.batches[0].len(), 12);
}

#[test]
fn mismatched_framebuffer_extent_fails_loudly() {
    let mut ctx = DrawText::new(vec![
        Extent { width: 640, height: 480 },
        Extent { width: 800, height: 600 },
    ]);
    // the viewport was configured from the first framebuffer
    assert_eq!(ctx.draw_text(1).unwrap_err(), DrawTextError::SwapchainMismatch);
    // nothing was drawn or drained by the failed frame
    ctx.queue_text(hi_shapes(0, 0), WHITE);
    assert_eq!(ctx.draw_text(1).unwrap_err(), DrawTextError::SwapchainMismatch);
    let plan = ctx.draw_text(0).unwrap();
    assert_eq!(plan.batches.len(), 1);
}

#[test]
fn resize_reconfigures_the_viewport_between_frames() {
    let mut ctx = DrawText::new(vec![Extent { width: 640, height: 480 }]);
    ctx.queue_text(hi_shapes(0, 0), WHITE);
    let before = ctx.draw_text(0).unwrap();
    assert_eq!(before.viewport, Extent { width: 640, height: 480 });
    // the swapchain was recreated with another extent
    ctx.resize(vec![Extent { width: 1024, height: 768 }]);
    ctx.queue_text(hi_shapes(0, 0), WHITE);
    let after = ctx.draw_text(0).unwrap();
    assert_eq!(after.viewport, Extent { width: 1024, height: 768 });
    // same glyph, same atlas rectangle, but positions follow the new extent
    assert_eq!(before.batches[0][1].x.den, 640);
    assert_eq!(after.batches[0][1].x.den, 1024);
    assert_eq!(
        (before.batches[0][1].u.num, before.batches[0][1].u.den),
        (after.batches[0][1].u.num, after.batches[0][1].u.den),
    );
}

#[test]
fn empty_string_enqueues_an_empty_request() {
    let mut ctx = DrawText::new(vec![Extent { width: 640, height: 480 }]);
    ctx.queue_text(Vec::new(), WHITE);
    let plan = ctx.draw_text(0).unwrap();
    // a request with no glyphs issues no draw call; that is not an error
    assert!(plan.batches.is_empty());
    assert!(plan.atlas_upload.is_none());
}
