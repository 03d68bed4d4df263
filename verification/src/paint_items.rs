//! Sortable paint primitives and the vertices they turn into.

use vstd::prelude::*;

use crate::abi::{
    CornerPoints, CornerValues, Point, Quadruple, RectBits, UiShadowVertex, UiVertex, ONE,
    UI_FLAG_FILL_END, UI_FLAG_FILL_START, UI_FLAG_GRADIENT, UI_FLAG_GRADIENT_SPACE_HSLA,
    UI_MODE_SHIFT,
};
use crate::float_bits;
use crate::segments::{GradientSegment, GradientSegments};

verus! {

// ---------------------------------------------------------------------------
// Clipping

/// The corners of a quad on the target and in the node's own space.
#[derive(Debug, Clone, Copy, PartialEq, Eq, Structural)]
pub struct QuadCorners {
    pub positions: CornerPoints,
    pub points: CornerPoints,
}

/// A clip rectangle held against a transformed quad.
#[derive(Debug, Clone, Copy, PartialEq, Eq, Structural)]
pub struct ClipTest {
    /// The clip rectangle.
    pub clip: RectBits,
    /// Vertical part of the transform's x axis; zero without rotation or shear.
    pub shear: u32,
    /// Bounding box of the transformed corners.
    pub bounds: RectBits,
    /// How far the clip pushes opposite corners towards each other, per axis.
    pub overlap: Point,
    /// Size of the transformed quad, per axis.
    pub extent: Point,
    /// The corners after the clip has pushed them inwards.
    pub displaced: QuadCorners,
}

/// Whether a box lies outside the clip rectangle or only touches it.
pub open spec fn outside(bounds: RectBits, clip: RectBits) -> bool {
    ||| float_bits::at_most(bounds.max.x, clip.min.x)
    ||| float_bits::at_most(clip.max.x, bounds.min.x)
    ||| float_bits::at_most(bounds.max.y, clip.min.y)
    ||| float_bits::at_most(clip.max.y, bounds.min.y)
}

/// Whether a clip pushes the corners of an unrotated quad past each other.
pub open spec fn collapses(overlap: Point, extent: Point) -> bool {
    float_bits::at_most(extent.x, overlap.x) || float_bits::at_most(extent.y, overlap.y)
}

/// The corners to draw, if anything is left of the quad.
pub open spec fn clipped_corners(corners: QuadCorners, test: Option<ClipTest>) -> Option<QuadCorners> {
    match test {
        None => Some(corners),
        Some(test) => if !float_bits::equal(test.shear, 0) {
            if outside(test.bounds, test.clip) {
                None
            } else {
                Some(corners)
            }
        } else if collapses(test.overlap, test.extent) {
            None
        } else {
            Some(test.displaced)
        },
    }
}

/// Clips a quad.
///
/// Without a clip rectangle the corners stay. A rotated quad keeps its corners
/// too and is dropped only if its bounding box misses the rectangle. An
/// unrotated quad has its corners pushed inwards and is dropped if nothing is
/// left between them.
pub fn corners_and_clip(corners: QuadCorners, test: Option<ClipTest>) -> (drawn: Option<QuadCorners>)
    ensures
        drawn == clipped_corners(corners, test),
{
    let test: ClipTest = match test {
        None => return Some(corners),
        Some(test) => test,
    };
    if !float_bits::is_equal(test.shear, 0) {
        let clip: RectBits = test.clip;
        let bounds: RectBits = test.bounds;
        if float_bits::is_at_most(bounds.max.x, clip.min.x) || float_bits::is_at_most(
            clip.max.x,
            bounds.min.x,
        ) || float_bits::is_at_most(bounds.max.y, clip.min.y) || float_bits::is_at_most(
            clip.max.y,
            bounds.min.y,
        ) {
            return None;
        }
        return Some(corners);
    }
    if float_bits::is_at_most(test.extent.x, test.overlap.x) || float_bits::is_at_most(
        test.extent.y,
        test.overlap.y,
    ) {
        return None;
    }
    Some(test.displaced)
}

// ---------------------------------------------------------------------------
// Recipes

/// A flat-color, bordered, outlined, or tinted quad.
#[derive(Debug, Clone, Copy, PartialEq, Eq, Structural)]
pub struct QuadRecipe {
    /// What clipping has left of the quad.
    pub corners: Option<QuadCorners>,
    pub size: Point,
    pub color: Quadruple,
    pub radius: Quadruple,
    pub border: Quadruple,
    pub flags: u32,
    pub tex_slot: u32,
    pub uv: CornerPoints,
}

/// Gradient geometry split into adjacent stop-pair segments.
pub struct GradientRecipe {
    pub corners: Option<QuadCorners>,
    pub size: Point,
    pub radius: Quadruple,
    pub border: Quadruple,
    /// Flags that every segment has besides its gradient flags.
    pub base_flags: u32,
    pub segments: GradientSegments,
}

/// Material quad geometry and packed shader parameters.
#[derive(Debug, Clone, Copy, PartialEq, Eq, Structural)]
pub struct MaterialRecipe {
    pub corners: Option<QuadCorners>,
    pub size: Point,
    pub radius: Quadruple,
    pub mode: u32,
    pub color2: Quadruple,
}

/// Resolved shadow geometry with blur padding.
#[derive(Debug, Clone, Copy, PartialEq, Eq, Structural)]
pub struct ShadowRecipe {
    /// What clipping has left of the padded quad.
    pub corners: Option<QuadCorners>,
    pub uv: CornerPoints,
    pub bounds: Point,
    pub size: Point,
    pub color: Quadruple,
    pub radius: Quadruple,
    pub blur: u32,
}

/// A range of glyph instances and what they are batched by.
#[derive(Debug, Clone, Copy, PartialEq, Eq, Structural)]
pub struct TextRunRecipe {
    pub start: usize,
    pub end: usize,
    pub clip: Option<RectBits>,
    pub blob_id: u64,
    pub font_index: u32,
    pub font_px_per_em: u32,
}

/// What a paint item draws.
pub enum PaintPayload {
    Quad(QuadRecipe),
    Gradient(GradientRecipe),
    TextRun(TextRunRecipe),
    Material(MaterialRecipe),
    Shadow(ShadowRecipe),
}

/// A sortable paint primitive.
pub struct PaintItem {
    /// Depth in units of 2^-30.
    pub z_order: i64,
    pub payload: PaintPayload,
}

/// Model of a gradient recipe.
pub struct GradientModel {
    pub corners: Option<QuadCorners>,
    pub size: Point,
    pub radius: Quadruple,
    pub border: Quadruple,
    pub base_flags: u32,
    pub segments: Seq<GradientSegment>,
}

/// Model of a payload.
pub enum PayloadModel {
    Quad(QuadRecipe),
    Gradient(GradientModel),
    TextRun(TextRunRecipe),
    Material(MaterialRecipe),
    Shadow(ShadowRecipe),
}

/// Model of a paint item.
pub struct ItemModel {
    pub z_order: i64,
    pub payload: PayloadModel,
}

impl View for GradientRecipe {
    type V = GradientModel;

    open spec fn view(&self) -> GradientModel {
        GradientModel {
            corners: self.corners,
            size: self.size,
            radius: self.radius,
            border: self.border,
            base_flags: self.base_flags,
            segments: self.segments@,
        }
    }
}

impl View for PaintPayload {
    type V = PayloadModel;

    open spec fn view(&self) -> PayloadModel {
        match *self {
            PaintPayload::Quad(recipe) => PayloadModel::Quad(recipe),
            PaintPayload::Gradient(recipe) => PayloadModel::Gradient(recipe@),
            PaintPayload::TextRun(recipe) => PayloadModel::TextRun(recipe),
            PaintPayload::Material(recipe) => PayloadModel::Material(recipe),
            PaintPayload::Shadow(recipe) => PayloadModel::Shadow(recipe),
        }
    }
}

impl View for PaintItem {
    type V = ItemModel;

    open spec fn view(&self) -> ItemModel {
        ItemModel { z_order: self.z_order, payload: self.payload@ }
    }
}

/// The models of a list of items.
pub open spec fn item_models(items: Seq<PaintItem>) -> Seq<ItemModel> {
    items.map_values(|item: PaintItem| item@)
}

/// The depths of a list of items.
pub open spec fn item_depths(items: Seq<ItemModel>) -> Seq<i64> {
    items.map_values(|item: ItemModel| item.z_order)
}

// ---------------------------------------------------------------------------
// Vertices

/// Full-image coordinates at the corners; the second one points down.
pub open spec fn full_uv() -> CornerPoints {
    CornerPoints {
        top_left: Point { x: 0, y: 0 },
        top_right: Point { x: ONE, y: 0 },
        bottom_right: Point { x: ONE, y: ONE },
        bottom_left: Point { x: 0, y: ONE },
    }
}

/// The origin at every corner.
pub open spec fn no_uv() -> CornerPoints {
    CornerPoints {
        top_left: Point { x: 0, y: 0 },
        top_right: Point { x: 0, y: 0 },
        bottom_right: Point { x: 0, y: 0 },
        bottom_left: Point { x: 0, y: 0 },
    }
}

/// Full-image coordinates.
pub fn quad_vertex_uvs() -> (uv: CornerPoints)
    ensures
        uv == full_uv(),
{
    CornerPoints {
        top_left: Point { x: 0, y: 0 },
        top_right: Point { x: ONE, y: 0 },
        bottom_right: Point { x: ONE, y: ONE },
        bottom_left: Point { x: 0, y: ONE },
    }
}

/// Coordinates of a quad that samples nothing.
pub fn zero_uvs() -> (uv: CornerPoints)
    ensures
        uv == no_uv(),
{
    CornerPoints {
        top_left: Point { x: 0, y: 0 },
        top_right: Point { x: 0, y: 0 },
        bottom_right: Point { x: 0, y: 0 },
        bottom_left: Point { x: 0, y: 0 },
    }
}

/// One vertex of a flat quad.
pub open spec fn quad_vertex(recipe: QuadRecipe, pos: Point, point: Point, uv: Point) -> UiVertex {
    UiVertex {
        pos,
        uv,
        color: recipe.color,
        color2: Quadruple::zeros(),
        radius: recipe.radius,
        border: recipe.border,
        size: recipe.size,
        point,
        flags: recipe.flags,
        tex_slot: recipe.tex_slot,
    }
}

/// The vertices of a flat quad: four, or none where clipping leaves nothing.
pub open spec fn quad_vertices(recipe: QuadRecipe) -> Seq<UiVertex> {
    match recipe.corners {
        None => Seq::empty(),
        Some(c) => seq![
            quad_vertex(recipe, c.positions.top_left, c.points.top_left, recipe.uv.top_left),
            quad_vertex(recipe, c.positions.top_right, c.points.top_right, recipe.uv.top_right),
            quad_vertex(recipe, c.positions.bottom_right, c.points.bottom_right, recipe.uv.bottom_right),
            quad_vertex(recipe, c.positions.bottom_left, c.points.bottom_left, recipe.uv.bottom_left),
        ],
    }
}

fn push_quad_vertex(
    vertices: &mut Vec<UiVertex>,
    recipe: &QuadRecipe,
    pos: Point,
    point: Point,
    uv: Point,
)
    ensures
        final(vertices)@ == old(vertices)@.push(quad_vertex(*recipe, pos, point, uv)),
{
    vertices.push(
        UiVertex {
            pos,
            uv,
            color: recipe.color,
            color2: Quadruple::zeros(),
            radius: recipe.radius,
            border: recipe.border,
            size: recipe.size,
            point,
            flags: recipe.flags,
            tex_slot: recipe.tex_slot,
        },
    );
}

/// Appends the vertices of a flat quad.
pub fn emit_quad(vertices: &mut Vec<UiVertex>, recipe: &QuadRecipe)
    ensures
        final(vertices)@ == old(vertices)@ + quad_vertices(*recipe),
{
    let c: QuadCorners = match recipe.corners {
        None => {
            assert(vertices@ + Seq::<UiVertex>::empty() =~= vertices@);
            return ;
        },
        Some(c) => c,
    };
    push_quad_vertex(vertices, recipe, c.positions.top_left, c.points.top_left, recipe.uv.top_left);
    push_quad_vertex(vertices, recipe, c.positions.top_right, c.points.top_right, recipe.uv.top_right);
    push_quad_vertex(vertices, recipe, c.positions.bottom_right, c.points.bottom_right, recipe.uv.bottom_right);
    push_quad_vertex(vertices, recipe, c.positions.bottom_left, c.points.bottom_left, recipe.uv.bottom_left);
    assert(vertices@ =~= old(vertices)@ + quad_vertices(*recipe));
}

/// Flags of segment `index` of `count`.
///
/// The first segment also fills what lies before it, unless it starts at the
/// beginning of the gradient line, and the last one what lies behind it.
pub open spec fn segment_flags(base: u32, segment: GradientSegment, index: int, count: int) -> u32 {
    let gradient = base | UI_FLAG_GRADIENT;
    let space = if segment.hsla {
        gradient | UI_FLAG_GRADIENT_SPACE_HSLA
    } else {
        gradient
    };
    let start = if index == 0 && float_bits::less(0, segment.start_len) {
        space | UI_FLAG_FILL_START
    } else {
        space
    };
    if index == count - 1 {
        start | UI_FLAG_FILL_END
    } else {
        start
    }
}

/// One vertex of a gradient segment.
pub open spec fn segment_vertex(
    recipe: GradientModel,
    segment: GradientSegment,
    flags: u32,
    pos: Point,
    point: Point,
    t: u32,
) -> UiVertex {
    UiVertex {
        pos,
        uv: Point { x: t, y: 0 },
        color: segment.start_color,
        color2: segment.end_color,
        radius: recipe.radius,
        border: recipe.border,
        size: recipe.size,
        point,
        flags,
        tex_slot: 0,
    }
}

/// The four vertices of a gradient segment.
pub open spec fn segment_vertices(recipe: GradientModel, c: QuadCorners, index: int) -> Seq<UiVertex> {
    let segment = recipe.segments[index];
    let flags = segment_flags(recipe.base_flags, segment, index, recipe.segments.len() as int);
    seq![
        segment_vertex(recipe, segment, flags, c.positions.top_left, c.points.top_left, segment.t.top_left),
        segment_vertex(recipe, segment, flags, c.positions.top_right, c.points.top_right, segment.t.top_right),
        segment_vertex(recipe, segment, flags, c.positions.bottom_right, c.points.bottom_right, segment.t.bottom_right),
        segment_vertex(recipe, segment, flags, c.positions.bottom_left, c.points.bottom_left, segment.t.bottom_left),
    ]
}

/// The vertices of the first `n` segments of a gradient.
pub open spec fn segments_vertices(recipe: GradientModel, c: QuadCorners, n: nat) -> Seq<UiVertex>
    decreases n,
{
    if n == 0 {
        Seq::empty()
    } else {
        segments_vertices(recipe, c, (n - 1) as nat) + segment_vertices(recipe, c, n - 1)
    }
}

/// The vertices of a gradient: one quad per segment, or none where clipping leaves nothing.
pub open spec fn gradient_vertices(recipe: GradientModel) -> Seq<UiVertex> {
    match recipe.corners {
        None => Seq::empty(),
        Some(c) => segments_vertices(recipe, c, recipe.segments.len()),
    }
}

fn push_segment_vertex(
    vertices: &mut Vec<UiVertex>,
    recipe: &GradientRecipe,
    segment: &GradientSegment,
    flags: u32,
    pos: Point,
    point: Point,
    t: u32,
)
    ensures
        final(vertices)@ == old(vertices)@.push(
            segment_vertex(recipe@, *segment, flags, pos, point, t),
        ),
{
    vertices.push(
        UiVertex {
            pos,
            uv: Point { x: t, y: 0 },
            color: segment.start_color,
            color2: segment.end_color,
            radius: recipe.radius,
            border: recipe.border,
            size: recipe.size,
            point,
            flags,
            tex_slot: 0,
        },
    );
}

/// Appends one quad per gradient segment.
pub fn emit_gradient(vertices: &mut Vec<UiVertex>, recipe: &GradientRecipe)
    ensures
        final(vertices)@ == old(vertices)@ + gradient_vertices(recipe@),
{
    let c: QuadCorners = match recipe.corners {
        None => {
            assert(vertices@ + Seq::<UiVertex>::empty() =~= vertices@);
            return ;
        },
        Some(c) => c,
    };
    let n: usize = recipe.segments.len();
    let mut index: usize = 0;
    assert(vertices@ + Seq::<UiVertex>::empty() =~= vertices@);
    while index < n
        invariant
            index <= n,
            n == recipe.segments@.len(),
            vertices@ == old(vertices)@ + segments_vertices(recipe@, c, index as nat),
        decreases n - index,
    {
        let ghost before = vertices@;
        let segment: GradientSegment = recipe.segments.at(index);
        let mut flags: u32 = recipe.base_flags | UI_FLAG_GRADIENT;
        if segment.hsla {
            flags = flags | UI_FLAG_GRADIENT_SPACE_HSLA;
        }
        if index == 0 && float_bits::is_less(0, segment.start_len) {
            flags = flags | UI_FLAG_FILL_START;
        }
        if index == n - 1 {
            flags = flags | UI_FLAG_FILL_END;
        }
        push_segment_vertex(vertices, recipe, &segment, flags, c.positions.top_left, c.points.top_left, segment.t.top_left);
        push_segment_vertex(vertices, recipe, &segment, flags, c.positions.top_right, c.points.top_right, segment.t.top_right);
        push_segment_vertex(vertices, recipe, &segment, flags, c.positions.bottom_right, c.points.bottom_right, segment.t.bottom_right);
        push_segment_vertex(vertices, recipe, &segment, flags, c.positions.bottom_left, c.points.bottom_left, segment.t.bottom_left);
        proof {
            let own = segment_vertices(recipe@, c, index as int);
            assert(vertices@ =~= before + own);
            assert(before + own =~= old(vertices)@ + (segments_vertices(recipe@, c, index as nat) + own));
        }
        index = index + 1;
    }
}

/// One vertex of a material quad.
pub open spec fn material_vertex(recipe: MaterialRecipe, pos: Point, point: Point, uv: Point) -> UiVertex {
    UiVertex {
        pos,
        uv,
        color: Quadruple::zeros(),
        color2: recipe.color2,
        radius: recipe.radius,
        border: Quadruple::zeros(),
        size: recipe.size,
        point,
        flags: recipe.mode << UI_MODE_SHIFT,
        tex_slot: 0,
    }
}

/// The vertices of a material quad: four, or none where clipping leaves nothing.
pub open spec fn material_vertices(recipe: MaterialRecipe) -> Seq<UiVertex> {
    match recipe.corners {
        None => Seq::empty(),
        Some(c) => seq![
            material_vertex(recipe, c.positions.top_left, c.points.top_left, full_uv().top_left),
            material_vertex(recipe, c.positions.top_right, c.points.top_right, full_uv().top_right),
            material_vertex(recipe, c.positions.bottom_right, c.points.bottom_right, full_uv().bottom_right),
            material_vertex(recipe, c.positions.bottom_left, c.points.bottom_left, full_uv().bottom_left),
        ],
    }
}

fn push_material_vertex(vertices: &mut Vec<UiVertex>, recipe: &MaterialRecipe, pos: Point, point: Point, uv: Point)
    ensures
        final(vertices)@ == old(vertices)@.push(material_vertex(*recipe, pos, point, uv)),
{
    vertices.push(
        UiVertex {
            pos,
            uv,
            color: Quadruple::zeros(),
            color2: recipe.color2,
            radius: recipe.radius,
            border: Quadruple::zeros(),
            size: recipe.size,
            point,
            flags: recipe.mode << UI_MODE_SHIFT,
            tex_slot: 0,
        },
    );
}

/// Appends the vertices of a material quad.
pub fn emit_material(vertices: &mut Vec<UiVertex>, recipe: &MaterialRecipe)
    ensures
        final(vertices)@ == old(vertices)@ + material_vertices(*recipe),
{
    let c: QuadCorners = match recipe.corners {
        None => {
            assert(vertices@ + Seq::<UiVertex>::empty() =~= vertices@);
            return ;
        },
        Some(c) => c,
    };
    let uv: CornerPoints = quad_vertex_uvs();
    push_material_vertex(vertices, recipe, c.positions.top_left, c.points.top_left, uv.top_left);
    push_material_vertex(vertices, recipe, c.positions.top_right, c.points.top_right, uv.top_right);
    push_material_vertex(vertices, recipe, c.positions.bottom_right, c.points.bottom_right, uv.bottom_right);
    push_material_vertex(vertices, recipe, c.positions.bottom_left, c.points.bottom_left, uv.bottom_left);
    assert(vertices@ =~= old(vertices)@ + material_vertices(*recipe));
}

/// One vertex of a shadow quad.
pub open spec fn shadow_vertex(recipe: ShadowRecipe, pos: Point, uv: Point) -> UiShadowVertex {
    UiShadowVertex {
        pos,
        uv,
        color: recipe.color,
        size: recipe.size,
        radius: recipe.radius,
        blur: recipe.blur,
        bounds: recipe.bounds,
    }
}

/// The vertices of a shadow quad: four, or none where clipping leaves nothing.
pub open spec fn shadow_quad_vertices(recipe: ShadowRecipe) -> Seq<UiShadowVertex> {
    match recipe.corners {
        None => Seq::empty(),
        Some(c) => seq![
            shadow_vertex(recipe, c.positions.top_left, recipe.uv.top_left),
            shadow_vertex(recipe, c.positions.top_right, recipe.uv.top_right),
            shadow_vertex(recipe, c.positions.bottom_right, recipe.uv.bottom_right),
            shadow_vertex(recipe, c.positions.bottom_left, recipe.uv.bottom_left),
        ],
    }
}

fn push_shadow_vertex(vertices: &mut Vec<UiShadowVertex>, recipe: &ShadowRecipe, pos: Point, uv: Point)
    ensures
        final(vertices)@ == old(vertices)@.push(shadow_vertex(*recipe, pos, uv)),
{
    vertices.push(
        UiShadowVertex {
            pos,
            uv,
            color: recipe.color,
            size: recipe.size,
            radius: recipe.radius,
            blur: recipe.blur,
            bounds: recipe.bounds,
        },
    );
}

/// Appends the vertices of a clipped, padded shadow quad.
pub fn emit_shadow(vertices: &mut Vec<UiShadowVertex>, recipe: &ShadowRecipe)
    ensures
        final(vertices)@ == old(vertices)@ + shadow_quad_vertices(*recipe),
{
    let c: QuadCorners = match recipe.corners {
        None => {
            assert(vertices@ + Seq::<UiShadowVertex>::empty() =~= vertices@);
            return ;
        },
        Some(c) => c,
    };
    push_shadow_vertex(vertices, recipe, c.positions.top_left, recipe.uv.top_left);
    push_shadow_vertex(vertices, recipe, c.positions.top_right, recipe.uv.top_right);
    push_shadow_vertex(vertices, recipe, c.positions.bottom_right, recipe.uv.bottom_right);
    push_shadow_vertex(vertices, recipe, c.positions.bottom_left, recipe.uv.bottom_left);
    assert(vertices@ =~= old(vertices)@ + shadow_quad_vertices(*recipe));
}

} // verus!
