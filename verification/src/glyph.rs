//! Plain data carried through the text-rendering core: glyph identities,
//! pixel rectangles, rasterized bitmaps and per-frame text requests.
//!
//! Positions and sizes are integers (screen pixels and atlas pixels).
//! Colors are carried as four opaque 32-bit channel words and passed
//! through unmodified; the GPU-facing layer decides how to interpret them.

use vstd::prelude::*;

verus! {

/// Identity of a cached glyph: font, glyph index and pixel scale.
///
/// The scale is carried as an opaque 32-bit word (for example the bit
/// pattern of the pixel size the layout service used); the core only
/// compares it for equality.
#[derive(Clone, Copy, PartialEq, Eq, Structural, Debug, Hash)]
pub struct GlyphKey {
    pub font_id: u32,
    pub glyph_id: u32,
    pub scale: u32,
}

/// An axis-aligned rectangle in screen pixel space, as a half-open box
/// `[min_x, max_x) x [min_y, max_y)`. Coordinates may be negative: a glyph
/// may lie partly outside the target.
#[derive(Clone, Copy, PartialEq, Eq, Structural, Debug)]
pub struct PixelRect {
    pub min_x: i32,
    pub min_y: i32,
    pub max_x: i32,
    pub max_y: i32,
}

impl PixelRect {
    /// A screen rectangle is well formed when its corners are ordered.
    pub open spec fn wf(self) -> bool {
        self.min_x <= self.max_x && self.min_y <= self.max_y
    }
}

/// An axis-aligned rectangle in atlas pixel space, as an origin and size;
/// it covers the half-open box `[x, x + width) x [y, y + height)`.
#[derive(Clone, Copy, PartialEq, Eq, Structural, Debug)]
pub struct AtlasRect {
    pub x: u32,
    pub y: u32,
    pub width: u32,
    pub height: u32,
}

impl AtlasRect {
    /// True when the rectangle lies fully inside an atlas of the given size.
    pub open spec fn in_bounds(self, atlas_width: int, atlas_height: int) -> bool {
        self.x + self.width <= atlas_width && self.y + self.height <= atlas_height
    }

    /// True when the two rectangles cover no common pixel.
    pub open spec fn disjoint(self, other: AtlasRect) -> bool {
        ||| self.x + self.width <= other.x
        ||| other.x + other.width <= self.x
        ||| self.y + self.height <= other.y
        ||| other.y + other.height <= self.y
    }
}

/// A rasterized glyph image: `width * height` single-channel coverage
/// bytes in row-major order.
#[derive(Clone, Debug)]
pub struct Bitmap {
    pub width: u32,
    pub height: u32,
    pub data: Vec<u8>,
}

impl Bitmap {
    /// A bitmap is well formed when it holds exactly one byte per pixel.
    pub open spec fn wf(self) -> bool {
        self.data@.len() == self.width * self.height
    }
}

/// A glyph as delivered by the font-layout service: its identity, where
/// it lands on screen, and its rasterized image.
#[derive(Clone, Debug)]
pub struct GlyphShape {
    pub key: GlyphKey,
    pub screen_rect: PixelRect,
    pub bitmap: Bitmap,
}

impl GlyphShape {
    /// A shape is well formed when its rectangle is ordered and its
    /// bitmap holds one byte per pixel.
    pub open spec fn wf(self) -> bool {
        self.screen_rect.wf() && self.bitmap.wf()
    }
}

/// A glyph retained by a text request after its bitmap has been handed
/// to the atlas cache: identity plus screen placement.
#[derive(Clone, Copy, PartialEq, Eq, Structural, Debug)]
pub struct PositionedGlyph {
    pub key: GlyphKey,
    pub screen_rect: PixelRect,
}

/// One queued "draw this text" request: the positioned glyphs of the laid
/// out string and the flat color all of its quads carry.
#[derive(Clone, Debug)]
pub struct TextRequest {
    pub glyphs: Vec<PositionedGlyph>,
    pub color: [u32; 4],
}

/// The glyphs a sequence of shapes places on screen, with bitmaps dropped.
pub open spec fn positioned(shapes: Seq<GlyphShape>) -> Seq<PositionedGlyph> {
    shapes.map_values(
        |s: GlyphShape| (PositionedGlyph { key: s.key, screen_rect: s.screen_rect }),
    )
}

} // verus!
