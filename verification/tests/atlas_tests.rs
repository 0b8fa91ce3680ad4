use vulkano_text::atlas::GlyphAtlas;
use vulkano_text::glyph::{AtlasRect, Bitmap, GlyphKey};

fn key(id: u32) -> GlyphKey {
    GlyphKey { font_id: 0, glyph_id: id, scale: 15 }
}

fn bitmap(w: u32, h: u32, value: u8) -> Bitmap {
    Bitmap { width: w, height: h, data: vec![value; (w * h) as usize] }
}

#[test]
fn rect_for_unqueued_key_is_none() {
    let atlas = GlyphAtlas::new(100, 100);
    assert_eq!(atlas.rect_for(key(1)), None);
}

#[test]
fn queued_glyph_is_pending_until_resolved() {
    let mut atlas = GlyphAtlas::new(100, 100);
    atlas.queue(key(1), bitmap(10, 5, 255));
    assert!(atlas.pending_contains(key(1)));
    assert_eq!(atlas.rect_for(key(1)), None);
    atlas.resolve_pending();
    assert!(!atlas.pending_contains(key(1)));
    assert_eq!(atlas.rect_for(key(1)), Some(AtlasRect { x: 0, y: 0, width: 10, height: 5 }));
}

#[test]
fn resolve_copies_bitmap_and_marks_dirty() {
    let mut atlas = GlyphAtlas::new(100, 100);
    atlas.queue(key(1), bitmap(10, 5, 255));
    atlas.resolve_pending();
    let pixels = atlas.flush_if_dirty().expect("atlas must be dirty after first resolve");
    assert_eq!(pixels.len(), 100 * 100);
    // row 0, columns 0..10 hold the bitmap; the rest stays zero
    assert_eq!(pixels[0], 255);
    assert_eq!(pixels[9], 255);
    assert_eq!(pixels[10], 0);
    // row 4 is still inside the glyph, row 5 is not
    assert_eq!(pixels[4 * 100], 255);
    assert_eq!(pixels[5 * 100], 0);
    // a second flush with no new glyphs has nothing to upload
    assert_eq!(atlas.flush_if_dirty(), None);
}

#[test]
fn shelf_packing_is_first_fit_in_queue_order() {
    let mut atlas = GlyphAtlas::new(100, 100);
    atlas.queue(key(1), bitmap(60, 10, 1));
    atlas.queue(key(2), bitmap(30, 20, 2));
    atlas.queue(key(3), bitmap(30, 5, 3));
    atlas.resolve_pending();
    // first fit along the shelf, then a new shelf below the tallest row
    assert_eq!(atlas.rect_for(key(1)), Some(AtlasRect { x: 0, y: 0, width: 60, height: 10 }));
    assert_eq!(atlas.rect_for(key(2)), Some(AtlasRect { x: 60, y: 0, width: 30, height: 20 }));
    assert_eq!(atlas.rect_for(key(3)), Some(AtlasRect { x: 0, y: 20, width: 30, height: 5 }));
}

#[test]
fn resolved_rects_stay_inside_bounds_and_disjoint() {
    let mut atlas = GlyphAtlas::new(100, 100);
    atlas.queue(key(1), bitmap(60, 10, 1));
    atlas.queue(key(2), bitmap(30, 20, 2));
    atlas.queue(key(3), bitmap(30, 5, 3));
    atlas.resolve_pending();
    let rects: Vec<AtlasRect> =
        [1, 2, 3].iter().map(|id| atlas.rect_for(key(*id)).unwrap()).collect();
    for r in &rects {
        assert!(r.x + r.width <= 100 && r.y + r.height <= 100);
    }
    for (i, a) in rects.iter().enumerate() {
        for (j, b) in rects.iter().enumerate() {
            if i != j {
                let disjoint = a.x + a.width <= b.x
                    || b.x + b.width <= a.x
                    || a.y + a.height <= b.y
                    || b.y + b.height <= a.y;
                assert!(disjoint, "rects {:?} and {:?} overlap", a, b);
            }
        }
    }
}

#[test]
fn requeueing_a_resolved_glyph_changes_nothing() {
    let mut atlas = GlyphAtlas::new(100, 100);
    atlas.queue(key(1), bitmap(10, 5, 255));
    atlas.resolve_pending();
    let first = atlas.rect_for(key(1));
    assert!(atlas.flush_if_dirty().is_some());
    // queue the same key again, in the same and in a later frame
    atlas.queue(key(1), bitmap(10, 5, 255));
    atlas.queue(key(1), bitmap(10, 5, 128));
    assert!(!atlas.pending_contains(key(1)));
    atlas.resolve_pending();
    assert_eq!(atlas.rect_for(key(1)), first);
    // nothing was re-rasterized, so there is nothing to upload
    assert_eq!(atlas.flush_if_dirty(), None);
}

#[test]
fn exhausted_atlas_drops_glyphs_and_keeps_earlier_ones() {
    let mut atlas = GlyphAtlas::new(50, 50);
    atlas.queue(key(1), bitmap(40, 40, 1));
    atlas.resolve_pending();
    let first = atlas.rect_for(key(1));
    assert_eq!(first, Some(AtlasRect { x: 0, y: 0, width: 40, height: 40 }));
    // no free rectangle of this size is left anywhere
    atlas.queue(key(2), bitmap(40, 40, 2));
    atlas.resolve_pending();
    assert_eq!(atlas.rect_for(key(2)), None);
    assert_eq!(atlas.rect_for(key(1)), first);
    // a smaller glyph still fits on the current shelf
    atlas.queue(key(3), bitmap(10, 10, 3));
    atlas.resolve_pending();
    assert_eq!(atlas.rect_for(key(3)), Some(AtlasRect { x: 40, y: 0, width: 10, height: 10 }));
    assert_eq!(atlas.rect_for(key(1)), first);
}

#[test]
fn glyph_wider_than_the_atlas_never_packs() {
    let mut atlas = GlyphAtlas::new(50, 50);
    atlas.queue(key(1), bitmap(60, 1, 1));
    atlas.queue(key(2), bitmap(5, 5, 2));
    atlas.resolve_pending();
    assert_eq!(atlas.rect_for(key(1)), None);
    assert_eq!(atlas.rect_for(key(2)), Some(AtlasRect { x: 0, y: 0, width: 5, height: 5 }));
}
