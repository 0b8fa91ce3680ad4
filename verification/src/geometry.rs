//! The quad geometry builder: turns a text request's positioned glyphs
//! and their resolved atlas rectangles into an ordered vertex list, six
//! vertices (two triangles) per glyph.
//!
//! Coordinates are exact rationals. A screen pixel coordinate `px` on an
//! axis of size `dim` maps to the normalized device coordinate
//! `(px / dim - 1/2) * 2 = (2 * px - dim) / dim`, carried as the pair
//! `(2 * px - dim, dim)`; an atlas pixel coordinate `apx` maps to the
//! texture coordinate `apx / dim`, carried as `(apx, dim)`. The layer
//! that hands vertices to the GPU performs the one division per
//! coordinate.

use vstd::prelude::*;

use vstd::arithmetic::div_mod::lemma_fundamental_div_mod_converse;

use crate::atlas::{find_entry, AtlasEntry, GlyphAtlas};
use crate::atlas::lemma_find_entry_index;
use crate::glyph::{AtlasRect, PixelRect, PositionedGlyph};

verus! {

/// A normalized device coordinate, as the exact rational `num / den`
/// with `den` the screen extent on this axis.
#[derive(Clone, Copy, PartialEq, Eq, Structural, Debug)]
pub struct NdcCoord {
    pub num: i64,
    pub den: u32,
}

/// A texture coordinate into the atlas, as the exact rational
/// `num / den` with `den` the atlas extent on this axis.
#[derive(Clone, Copy, PartialEq, Eq, Structural, Debug)]
pub struct UvCoord {
    pub num: u32,
    pub den: u32,
}

/// One vertex of a glyph quad: a position in normalized device
/// coordinates, a texture position into the atlas, and the request's
/// color, carried through unmodified.
#[derive(Clone, Copy, PartialEq, Eq, Debug)]
pub struct Vertex {
    pub x: NdcCoord,
    pub y: NdcCoord,
    pub u: UvCoord,
    pub v: UvCoord,
    pub color: [u32; 4],
}

/// The numerator of the normalized device coordinate of pixel `px` on
/// an axis of size `dim`: `(px / dim - 1/2) * 2 == (2 * px - dim) / dim`.
pub open spec fn ndc_num(px: int, dim: int) -> int {
    2 * px - dim
}

/// The pixel coordinate recovered from a normalized device coordinate
/// `num / den`: the inverse transform `(num / den / 2 + 1/2) * den`.
pub open spec fn px_of_ndc(num: int, den: int) -> int {
    (num + den) / 2
}

/// The normalized device coordinate of pixel `px` on an axis of size `dim`.
pub open spec fn ndc_point(px: i32, dim: u32) -> NdcCoord {
    NdcCoord { num: ndc_num(px as int, dim as int) as i64, den: dim }
}

/// Converting a pixel coordinate to a normalized device coordinate and
/// back with the inverse transform recovers it exactly.
pub proof fn lemma_ndc_round_trip(px: int, dim: int)
    ensures
        px_of_ndc(ndc_num(px, dim), dim) == px,
{
    lemma_fundamental_div_mod_converse(2 * px, 2, px, 0);
}

/// The round trip of [`lemma_ndc_round_trip`], for every corner of a
/// glyph's screen rectangle: converting a rectangle to normalized
/// device coordinates and back recovers the original pixel rectangle.
pub proof fn lemma_rect_round_trip(r: PixelRect, screen_width: int, screen_height: int)
    ensures
        px_of_ndc(ndc_num(r.min_x as int, screen_width), screen_width) == r.min_x,
        px_of_ndc(ndc_num(r.max_x as int, screen_width), screen_width) == r.max_x,
        px_of_ndc(ndc_num(r.min_y as int, screen_height), screen_height) == r.min_y,
        px_of_ndc(ndc_num(r.max_y as int, screen_height), screen_height) == r.max_y,
{
    lemma_ndc_round_trip(r.min_x as int, screen_width);
    lemma_ndc_round_trip(r.max_x as int, screen_width);
    lemma_ndc_round_trip(r.min_y as int, screen_height);
    lemma_ndc_round_trip(r.max_y as int, screen_height);
}

/// The normalized device coordinate of pixel `px` on an axis of size `dim`.
pub fn to_ndc(px: i32, dim: u32) -> (c: NdcCoord)
    ensures
        c == ndc_point(px, dim),
{
    NdcCoord { num: 2 * (px as i64) - (dim as i64), den: dim }
}

/// The six vertices of one glyph's quad: two triangles covering the
/// glyph's screen rectangle, textured with its atlas rectangle, all
/// carrying the request's color. The corner order matches triangle
/// winding: (left, bottom), (left, top), (right, top) and (right, top),
/// (right, bottom), (left, bottom).
pub open spec fn quad_vertices(
    srect: PixelRect,
    arect: AtlasRect,
    color: [u32; 4],
    sw: u32,
    sh: u32,
    aw: u32,
    ah: u32,
) -> Seq<Vertex> {
    let x_min = ndc_point(srect.min_x, sw);
    let x_max = ndc_point(srect.max_x, sw);
    let y_min = ndc_point(srect.min_y, sh);
    let y_max = ndc_point(srect.max_y, sh);
    let u_min = UvCoord { num: arect.x, den: aw };
    let u_max = UvCoord { num: (arect.x + arect.width) as u32, den: aw };
    let v_min = UvCoord { num: arect.y, den: ah };
    let v_max = UvCoord { num: (arect.y + arect.height) as u32, den: ah };
    seq![
        Vertex { x: x_min, y: y_max, u: u_min, v: v_max, color },
        Vertex { x: x_min, y: y_min, u: u_min, v: v_min, color },
        Vertex { x: x_max, y: y_min, u: u_max, v: v_min, color },
        Vertex { x: x_max, y: y_min, u: u_max, v: v_min, color },
        Vertex { x: x_max, y: y_max, u: u_max, v: v_max, color },
        Vertex { x: x_min, y: y_max, u: u_min, v: v_max, color },
    ]
}

/// The vertices one glyph contributes: its quad if its key is resolved
/// in the packing index, nothing otherwise.
pub open spec fn glyph_vertices(
    g: PositionedGlyph,
    entries: Seq<AtlasEntry>,
    color: [u32; 4],
    sw: u32,
    sh: u32,
    aw: u32,
    ah: u32,
) -> Seq<Vertex> {
    match find_entry(entries, g.key) {
        None => Seq::empty(),
        Some(arect) => quad_vertices(g.screen_rect, arect, color, sw, sh, aw, ah),
    }
}

/// The vertex batch of one text request: the concatenation of every
/// glyph's vertices, in glyph order; glyphs whose key is unresolved
/// contribute nothing.
pub open spec fn request_vertices(
    glyphs: Seq<PositionedGlyph>,
    entries: Seq<AtlasEntry>,
    color: [u32; 4],
    sw: u32,
    sh: u32,
    aw: u32,
    ah: u32,
) -> Seq<Vertex>
    decreases glyphs.len(),
{
    if glyphs.len() == 0 {
        Seq::empty()
    } else {
        glyph_vertices(glyphs[0], entries, color, sw, sh, aw, ah) + request_vertices(
            glyphs.skip(1),
            entries,
            color,
            sw,
            sh,
            aw,
            ah,
        )
    }
}

/// Extending the glyph list by one glyph appends that glyph's vertices.
pub proof fn lemma_request_vertices_push(
    glyphs: Seq<PositionedGlyph>,
    g: PositionedGlyph,
    entries: Seq<AtlasEntry>,
    color: [u32; 4],
    sw: u32,
    sh: u32,
    aw: u32,
    ah: u32,
)
    ensures
        request_vertices(glyphs.push(g), entries, color, sw, sh, aw, ah) == request_vertices(
            glyphs,
            entries,
            color,
            sw,
            sh,
            aw,
            ah,
        ) + glyph_vertices(g, entries, color, sw, sh, aw, ah),
    decreases glyphs.len(),
{
    reveal_with_fuel(request_vertices, 3);
    if glyphs.len() == 0 {
        assert(glyphs.push(g)[0] == g);
        assert(glyphs.push(g).skip(1).len() == 0);
        assert(request_vertices(glyphs.push(g), entries, color, sw, sh, aw, ah) =~= Seq::empty()
            + glyph_vertices(g, entries, color, sw, sh, aw, ah));
    } else {
        assert(glyphs.push(g)[0] == glyphs[0]);
        assert(glyphs.push(g).skip(1) =~= glyphs.skip(1).push(g));
        lemma_request_vertices_push(glyphs.skip(1), g, entries, color, sw, sh, aw, ah);
        assert(request_vertices(glyphs.push(g), entries, color, sw, sh, aw, ah)
            =~= request_vertices(glyphs, entries, color, sw, sh, aw, ah) + glyph_vertices(
            g,
            entries,
            color,
            sw,
            sh,
            aw,
            ah,
        ));
    }
}

/// Builds the vertex batch for one text request: six vertices per glyph
/// whose key resolves in the atlas, in glyph order; unresolved glyphs
/// are skipped and contribute nothing. Pure: the atlas is only read.
#[verifier::loop_isolation(false)]
pub fn build_vertices(
    atlas: &GlyphAtlas,
    glyphs: &Vec<PositionedGlyph>,
    color: [u32; 4],
    screen_width: u32,
    screen_height: u32,
) -> (out: Vec<Vertex>)
    requires
        atlas@.wf(),
    ensures
        out@ == request_vertices(
            glyphs@,
            atlas@.entries,
            color,
            screen_width,
            screen_height,
            atlas.width,
            atlas.height,
        ),
{
    let mut out: Vec<Vertex> = Vec::new();
    let n = glyphs.len();
    let mut idx: usize = 0;
    proof {
        assert(glyphs@.take(0) =~= Seq::<PositionedGlyph>::empty());
    }
    while idx < n
        invariant
            idx <= n,
            out@ == request_vertices(
                glyphs@.take(idx as int),
                atlas@.entries,
                color,
                screen_width,
                screen_height,
                atlas.width,
                atlas.height,
            ),
        decreases n - idx,
    {
        let g = &glyphs[idx];
        proof {
            assert(glyphs@.take(idx as int + 1) =~= glyphs@.take(idx as int).push(glyphs@[idx as int]));
            lemma_request_vertices_push(
                glyphs@.take(idx as int),
                glyphs@[idx as int],
                atlas@.entries,
                color,
                screen_width,
                screen_height,
                atlas.width,
                atlas.height,
            );
        }
        match atlas.rect_for(g.key) {
            Some(arect) => {
                proof {
                    lemma_find_entry_index(atlas@.entries, g.key);
                    let w = choose|i: int|
                        0 <= i < atlas@.entries.len() && (#[trigger] atlas@.entries[i]).key
                            == g.key && atlas@.entries[i].rect == arect;
                    assert(atlas@.entries[w].rect.in_bounds(atlas@.width, atlas@.height));
                }
                let x_min = to_ndc(g.screen_rect.min_x, screen_width);
                let x_max = to_ndc(g.screen_rect.max_x, screen_width);
                let y_min = to_ndc(g.screen_rect.min_y, screen_height);
                let y_max = to_ndc(g.screen_rect.max_y, screen_height);
                let u_min = UvCoord { num: arect.x, den: atlas.width };
                let u_max = UvCoord { num: arect.x + arect.width, den: atlas.width };
                let v_min = UvCoord { num: arect.y, den: atlas.height };
                let v_max = UvCoord { num: arect.y + arect.height, den: atlas.height };
                out.push(Vertex { x: x_min, y: y_max, u: u_min, v: v_max, color });
                out.push(Vertex { x: x_min, y: y_min, u: u_min, v: v_min, color });
                out.push(Vertex { x: x_max, y: y_min, u: u_max, v: v_min, color });
                out.push(Vertex { x: x_max, y: y_min, u: u_max, v: v_min, color });
                out.push(Vertex { x: x_max, y: y_max, u: u_max, v: v_max, color });
                out.push(Vertex { x: x_min, y: y_max, u: u_min, v: v_max, color });
                proof {
                    assert(out@ =~= request_vertices(
                        glyphs@.take(idx as int + 1),
                        atlas@.entries,
                        color,
                        screen_width,
                        screen_height,
                        atlas.width,
                        atlas.height,
                    ));
                }
            },
            None => {
                proof {
                    assert(out@ =~= request_vertices(
                        glyphs@.take(idx as int + 1),
                        atlas@.entries,
                        color,
                        screen_width,
                        screen_height,
                        atlas.width,
                        atlas.height,
                    ));
                }
            },
        }
        idx += 1;
    }
    proof {
        assert(glyphs@.take(n as int) =~= glyphs@);
    }
    out
}

} // verus!
