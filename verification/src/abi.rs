//! Vertex formats and flags shared with the UI shaders.
//!
//! Numbers are single-precision bit patterns throughout.

use vstd::prelude::*;

verus! {

/// The quad samples an icon.
pub const UI_FLAG_TEXTURED: u32 = 0x1;

/// The left border edge is drawn.
pub const UI_FLAG_BORDER_LEFT: u32 = 0x2;

/// The top border edge is drawn.
pub const UI_FLAG_BORDER_TOP: u32 = 0x4;

/// The right border edge is drawn.
pub const UI_FLAG_BORDER_RIGHT: u32 = 0x8;

/// The bottom border edge is drawn.
pub const UI_FLAG_BORDER_BOTTOM: u32 = 0x10;

/// All border edges are drawn.
pub const UI_FLAG_BORDER_ANY: u32 = 0x1e;

/// The quad is one segment of a linear gradient.
pub const UI_FLAG_GRADIENT: u32 = 0x20;

/// The gradient segment interpolates hue, saturation and lightness.
pub const UI_FLAG_GRADIENT_SPACE_HSLA: u32 = 0x40;

/// The gradient segment also fills what lies before its start.
pub const UI_FLAG_FILL_START: u32 = 0x80;

/// The gradient segment also fills what lies beyond its end.
pub const UI_FLAG_FILL_END: u32 = 0x100;

/// Bit position of the shading mode among the flags.
pub const UI_MODE_SHIFT: u32 = 16;

/// The flag bits that hold the shading mode.
pub const UI_MODE_MASK: u32 = 0xf_0000;

/// Shading mode of the alpha checkerboard.
pub const UI_MODE_ALPHA_PATTERN: u32 = 1;

/// Shading mode of a color plane.
pub const UI_MODE_COLOR_PLANE: u32 = 2;

/// Color plane over red and green.
pub const UI_PLANE_RG: u32 = 0;

/// Color plane over red and blue.
pub const UI_PLANE_RB: u32 = 1;

/// Color plane over green and blue.
pub const UI_PLANE_GB: u32 = 2;

/// Color plane over hue and saturation.
pub const UI_PLANE_HS: u32 = 3;

/// Color plane over hue and lightness.
pub const UI_PLANE_HL: u32 = 4;

/// Bits of one.
pub const ONE: u32 = 0x3f80_0000;

/// Two numbers.
#[derive(Debug, Clone, Copy, PartialEq, Eq, Structural)]
pub struct Point {
    pub x: u32,
    pub y: u32,
}

/// Four numbers: a color, four radii, or four edge widths.
#[derive(Debug, Clone, Copy, PartialEq, Eq, Structural)]
pub struct Quadruple {
    pub x: u32,
    pub y: u32,
    pub z: u32,
    pub w: u32,
}

/// One point per corner of a quad, in drawing order.
#[derive(Debug, Clone, Copy, PartialEq, Eq, Structural)]
pub struct CornerPoints {
    pub top_left: Point,
    pub top_right: Point,
    pub bottom_right: Point,
    pub bottom_left: Point,
}

/// One number per corner of a quad, in drawing order.
#[derive(Debug, Clone, Copy, PartialEq, Eq, Structural)]
pub struct CornerValues {
    pub top_left: u32,
    pub top_right: u32,
    pub bottom_right: u32,
    pub bottom_left: u32,
}

/// A rectangle by its extreme corners.
#[derive(Debug, Clone, Copy, PartialEq, Eq, Structural)]
pub struct RectBits {
    pub min: Point,
    pub max: Point,
}

impl Point {
    /// The point at the origin.
    #[verifier::allow_in_spec]
    pub fn origin() -> Point
        returns
            (Point { x: 0, y: 0 }),
    {
        Point { x: 0, y: 0 }
    }
}

impl Quadruple {
    /// Four zeros.
    #[verifier::allow_in_spec]
    pub fn zeros() -> Quadruple
        returns
            (Quadruple { x: 0, y: 0, z: 0, w: 0 }),
    {
        Quadruple { x: 0, y: 0, z: 0, w: 0 }
    }
}

/// A rectangle of whole pixels by its extreme corners.
#[derive(Debug, Clone, Copy, PartialEq, Eq, Structural)]
pub struct PixelRect {
    pub min_x: i32,
    pub min_y: i32,
    pub max_x: i32,
    pub max_y: i32,
}

/// One UI vertex.
#[derive(Debug, Clone, Copy, PartialEq, Eq, Structural)]
pub struct UiVertex {
    pub pos: Point,
    pub uv: Point,
    pub color: Quadruple,
    pub color2: Quadruple,
    pub radius: Quadruple,
    pub border: Quadruple,
    pub size: Point,
    pub point: Point,
    pub flags: u32,
    pub tex_slot: u32,
}

/// One box-shadow vertex.
#[derive(Debug, Clone, Copy, PartialEq, Eq, Structural)]
pub struct UiShadowVertex {
    pub pos: Point,
    pub uv: Point,
    pub color: Quadruple,
    pub size: Point,
    pub radius: Quadruple,
    pub blur: u32,
    pub bounds: Point,
}

/// One glyph to draw.
#[derive(Debug, Clone, Copy, PartialEq, Eq, Structural)]
pub struct TextGlyphInstance {
    pub pen_doc: Point,
    pub glyph_id: u32,
    pub color: u32,
}

} // verus!
