use vulkano_text::atlas::GlyphAtlas;
use vulkano_text::geometry::{build_vertices, to_ndc};
use vulkano_text::glyph::{Bitmap, GlyphKey, PixelRect, PositionedGlyph};

fn key(id: u32) -> GlyphKey {
    GlyphKey { font_id: 0, glyph_id: id, scale: 15 }
}

#[test]
fn ndc_endpoints_and_midpoint() {
    // ndc = (px / dim - 1/2) * 2, carried as (2 * px - dim) / dim
    let left = to_ndc(0, 100);
    assert_eq!((left.num, left.den), (-100, 100));
    let mid = to_ndc(50, 100);
    assert_eq!((mid.num, mid.den), (0, 100));
    let right = to_ndc(100, 100);
    assert_eq!((right.num, right.den), (100, 100));
    let outside = to_ndc(-25, 100);
    assert_eq!((outside.num, outside.den), (-150, 100));
}

#[test]
fn ndc_round_trip_recovers_pixels() {
    for &dim in &[1u32, 2, 99, 100, 1920] {
        for &px in &[-500i32, -1, 0, 1, 37, 640, 1920, 4000] {
            let c = to_ndc(px, dim);
            // exact inverse on the rational representation
            assert_eq!((c.num + c.den as i64) / 2, px as i64);
            // inverse of the floating-point transform, within tolerance
            let ndc = c.num as f64 / c.den as f64;
            let back = (ndc / 2.0 + 0.5) * dim as f64;
            assert!((back - px as f64).abs() < 1e-6);
        }
    }
}

#[test]
fn quad_covers_screen_rect_with_atlas_uvs() {
    let mut atlas = GlyphAtlas::new(100, 100);
    atlas.queue(key(7), Bitmap { width: 20, height: 20, data: vec![255; 400] });
    atlas.resolve_pending();
    let glyphs = vec![PositionedGlyph {
        key: key(7),
        screen_rect: PixelRect { min_x: 10, min_y: 20, max_x: 30, max_y: 40 },
    }];
    let color = [1, 2, 3, 4];
    let verts = build_vertices(&atlas, &glyphs, color, 200, 100);
    assert_eq!(verts.len(), 6);
    // x: min -> (2*10-200)/200, max -> (2*30-200)/200
    let x_min = (2 * 10 - 200, 200u32);
    let x_max = (2 * 30 - 200, 200u32);
    let y_min = (2 * 20 - 100, 100u32);
    let y_max = (2 * 40 - 100, 100u32);
    let corners: Vec<(i64, u32, i64, u32)> =
        verts.iter().map(|v| (v.x.num, v.x.den, v.y.num, v.y.den)).collect();
    let expect = [
        (x_min, y_max),
        (x_min, y_min),
        (x_max, y_min),
        (x_max, y_min),
        (x_max, y_max),
        (x_min, y_max),
    ];
    for (got, want) in corners.iter().zip(expect.iter()) {
        assert_eq!(*got, ((want.0).0 as i64, (want.0).1, (want.1).0 as i64, (want.1).1));
    }
    // uv: the glyph sits at atlas rect (0, 0, 20, 20) in a 100x100 atlas
    let uvs: Vec<(u32, u32, u32, u32)> =
        verts.iter().map(|v| (v.u.num, v.u.den, v.v.num, v.v.den)).collect();
    let u_min = (0u32, 100u32);
    let u_max = (20u32, 100u32);
    let v_min = (0u32, 100u32);
    let v_max = (20u32, 100u32);
    let expect_uv = [
        (u_min, v_max),
        (u_min, v_min),
        (u_max, v_min),
        (u_max, v_min),
        (u_max, v_max),
        (u_min, v_max),
    ];
    for (got, want) in uvs.iter().zip(expect_uv.iter()) {
        assert_eq!(*got, ((want.0).0, (want.0).1, (want.1).0, (want.1).1));
    }
    // the flat color rides along unmodified
    for v in &verts {
        assert_eq!(v.color, color);
    }
}

#[test]
fn unresolved_glyphs_contribute_no_vertices() {
    let mut atlas = GlyphAtlas::new(100, 100);
    atlas.queue(key(1), Bitmap { width: 4, height: 4, data: vec![255; 16] });
    atlas.resolve_pending();
    let glyphs = vec![
        PositionedGlyph {
            key: key(1),
            screen_rect: PixelRect { min_x: 0, min_y: 0, max_x: 4, max_y: 4 },
        },
        PositionedGlyph {
            key: key(2),
            screen_rect: PixelRect { min_x: 4, min_y: 0, max_x: 8, max_y: 4 },
        },
    ];
    let verts = build_vertices(&atlas, &glyphs, [0, 0, 0, 0], 100, 100);
    // only the resolved glyph contributes a quad
    assert_eq!(verts.len(), 6);
}
