//! What painting promises of single rows: which of them paint, in which color
//! and layer, and what their vertices and glyph instances hold.

use vstd::prelude::*;

use crate::abi::{Point, Quadruple, UiVertex};
use crate::float_bits;
use crate::gradient;
use crate::gradient::StopPosition;
use crate::material::{ColorPlaneAxes, UiMaterialData};
use crate::paint;
use crate::paint::{
    BackgroundRow, BorderColors, BorderRow, Decoration, EditableTextRow, GlyphRun, GradientLayer,
    GradientRow, GradientStop, ImageRow, MaterialRow, NodeShape, OutlineShape, RunGlyph, ShadowLayer,
    ShadowRow, StrokeShape, TextRow, UiFrame,
};
use crate::paint_batches;
use crate::paint_batches::StreamsModel;
use crate::paint_items;
use crate::paint_items::{
    ClipTest, GradientModel, ItemModel, MaterialRecipe, PayloadModel, QuadCorners, QuadRecipe,
    ShadowRecipe,
};
use crate::painter_order;
use crate::painter_order::PaintLayer;

verus! {

// ---------------------------------------------------------------------------
// Layers

/// The place of a layer, counted from the back of its node.
pub open spec fn place_of(layer: PaintLayer) -> int {
    match layer {
        PaintLayer::BoxShadow => 0,
        PaintLayer::Background => 1,
        PaintLayer::Border => 2,
        PaintLayer::Gradient => 3,
        PaintLayer::BorderGradient => 4,
        PaintLayer::Image => 5,
        PaintLayer::Material => 6,
        PaintLayer::TextSelection => 7,
        PaintLayer::Text => 8,
        PaintLayer::TextStrikethrough => 9,
        PaintLayer::TextCursor => 10,
    }
}

/// Within one node shadows lie at the back, then the background, the border,
/// gradients, the image, the material, the selection, the text, its strokes,
/// and the cursor in front; nodes are ordered by their stack index.
pub proof fn law_layers_lie_in_order(a: u32, la: PaintLayer, b: u32, lb: PaintLayer)
    requires
        a < 131072,
        b < 131072,
    ensures
        painter_order::depth(a, la) < painter_order::depth(b, lb) <==> a < b || (a == b && place_of(
            la,
        ) < place_of(lb)),
{
    painter_order::law_depth_is_lexicographic(a, la, b, lb);
}

// ---------------------------------------------------------------------------
// Boxes

/// Whether a node can paint a box: it is visible and has an area.
pub open spec fn is_box(node: NodeShape) -> bool {
    node.visible && !node.empty
}

/// Whether items are one item in a layer of a node.
pub open spec fn is_one_item(items: Seq<ItemModel>, node: NodeShape, layer: PaintLayer) -> bool {
    items.len() == 1 && items[0].z_order == painter_order::depth(node.stack_index, layer) as i64
}

/// Whether a quad has the box, the corners and the border widths of a node.
pub open spec fn fills_node(quad: QuadRecipe, node: NodeShape) -> bool {
    &&& quad.corners == node.corners
    &&& quad.size == node.size
    &&& quad.radius == node.radius
    &&& quad.border == node.border
}

/// A node paints its background just if it is visible, has an area, and its
/// color's alpha is above zero: one quad over the whole node in that color, at
/// the background's depth, without flags or texture.
pub proof fn law_backgrounds(row: BackgroundRow)
    requires
        !float_bits::is_nan(row.color.w),
    ensures
        ({
            let items = paint::background_items(row);
            let painted = is_box(row.node) && float_bits::less(0, row.color.w);
            &&& !painted ==> items.len() == 0
            &&& painted ==> is_one_item(items, row.node, PaintLayer::Background)
            &&& painted ==> (items[0].payload matches PayloadModel::Quad(quad) && fills_node(
                quad,
                row.node,
            ) && quad.color == row.color && quad.flags == 0 && quad.tex_slot == 0)
        }),
{
}

/// A shadow layer is painted just if it has a color and an area, with all that
/// it is made of, at the depth of shadows.
pub proof fn law_shadow_layers(stack_index: u32, layer: ShadowLayer)
    requires
        !float_bits::is_nan(layer.color.w),
        !float_bits::is_nan(layer.size.x),
        !float_bits::is_nan(layer.size.y),
    ensures
        ({
            let items = paint::shadow_layer_items(stack_index, layer);
            let painted = float_bits::less(0, layer.color.w) && float_bits::less(0, layer.size.x)
                && float_bits::less(0, layer.size.y);
            &&& !painted ==> items.len() == 0
            &&& painted ==> items.len() == 1 && items[0].z_order == painter_order::depth(
                stack_index,
                PaintLayer::BoxShadow,
            ) as i64
            &&& painted ==> (items[0].payload matches PayloadModel::Shadow(shadow) && {
                &&& shadow.corners == layer.corners
                &&& shadow.uv == layer.uv
                &&& shadow.bounds == layer.bounds
                &&& shadow.size == layer.size
                &&& shadow.color == layer.color
                &&& shadow.radius == layer.radius
                &&& shadow.blur == layer.blur
            })
        }),
{
}

/// Shadow layers are painted in their order: one more layer adds its own items
/// behind those of the layers before it, and a node that is no box adds none.
pub proof fn law_shadows_follow(row: ShadowRow, n: nat)
    ensures
        !is_box(row.node) ==> paint::shadow_items(row).len() == 0,
        is_box(row.node) ==> paint::shadow_items(row) == paint::shadow_layers_items(
            row.node.stack_index,
            row.layers@,
            row.layers@.len(),
        ),
        paint::shadow_layers_items(row.node.stack_index, row.layers@, 0).len() == 0,
        paint::shadow_layers_items(row.node.stack_index, row.layers@, n + 1)
            == paint::shadow_layers_items(row.node.stack_index, row.layers@, n)
            + paint::shadow_layer_items(row.node.stack_index, row.layers@[n as int]),
{
}

/// The edges of a border are left, top, right and bottom, and each has a flag of
/// its own.
pub proof fn law_border_edges(colors: BorderColors)
    ensures
        colors.edge(0) == colors.left,
        colors.edge(1) == colors.top,
        colors.edge(2) == colors.right,
        colors.edge(3) == colors.bottom,
        paint::edge_flag(0) == 2,
        paint::edge_flag(1) == 4,
        paint::edge_flag(2) == 8,
        paint::edge_flag(3) == 16,
{
}

/// A border of one color with any width is one quad over the node in that color
/// that draws all four edges.
pub proof fn law_borders_of_one_color(node: NodeShape, colors: BorderColors)
    requires
        !paint::borderless(node.border),
        !float_bits::is_nan(colors.left.x),
        !float_bits::is_nan(colors.left.y),
        !float_bits::is_nan(colors.left.z),
        float_bits::less(0, colors.left.w),
        colors.top == colors.left,
        colors.right == colors.left,
        colors.bottom == colors.left,
    ensures
        ({
            let items = paint::border_items(node, colors);
            &&& is_one_item(items, node, PaintLayer::Border)
            &&& items[0].payload matches PayloadModel::Quad(quad) && fills_node(quad, node)
                && quad.color == colors.left && quad.flags == 30 && quad.tex_slot == 0
        }),
{
    reveal_with_fuel(paint::border_groups, 5);
    reveal_with_fuel(paint::group_flags, 5);
    assert(paint::same_color(colors.edge(0), colors.edge(1)));
    assert(paint::same_color(colors.edge(0), colors.edge(2)));
    assert(paint::same_color(colors.edge(0), colors.edge(3)));
    assert(paint::starts_group(colors, 0));
    assert(!paint::starts_group(colors, 1));
    assert(!paint::starts_group(colors, 2));
    assert(!paint::starts_group(colors, 3));
    assert(0u32 | 2 | 4 | 8 | 16 == 30u32) by (bit_vector);
    assert(paint::group_flags(colors, 0, 4) == 30);
    assert(paint::border_items(node, colors).len() == 1);
}

/// Every quad of a border is painted over the whole node, at the depth of
/// borders, in the color of the first edge that it draws.
pub proof fn law_border_groups(node: NodeShape, colors: BorderColors, n: nat)
    ensures
        paint::starts_group(colors, n as int) ==> {
            let items = paint::border_groups(node, colors, n + 1);
            &&& items.len() == paint::border_groups(node, colors, n).len() + 1
            &&& items.last().z_order == painter_order::depth(
                node.stack_index,
                PaintLayer::Border,
            ) as i64
            &&& items.last().payload matches PayloadModel::Quad(quad) && fills_node(quad, node)
                && quad.color == colors.edge(n as int) && quad.tex_slot == 0 && quad.flags
                == paint::group_flags(colors, n as int, 4)
        },
        !paint::starts_group(colors, n as int) ==> paint::border_groups(node, colors, n + 1)
            == paint::border_groups(node, colors, n),
{
}

/// A border without any width is not painted.
pub proof fn law_borders_need_a_width(node: NodeShape, colors: BorderColors)
    ensures
        node.border == (Quadruple { x: 0, y: 0, z: 0, w: 0 }) ==> paint::border_items(
            node,
            colors,
        ).len() == 0,
        float_bits::less(0, node.border.x) || float_bits::less(0, node.border.y)
            || float_bits::less(0, node.border.z) || float_bits::less(0, node.border.w)
            ==> paint::border_items(node, colors) == paint::border_groups(node, colors, 4),
{
}

/// An outline is painted just if it has a width and a color: one ring that draws
/// all edges at the outline's own width, radius and box, at the border's depth.
pub proof fn law_outlines(node: NodeShape, outline: OutlineShape)
    requires
        !float_bits::is_nan(outline.width),
        !float_bits::is_nan(outline.color.w),
    ensures
        ({
            let items = paint::outline_items(node, outline);
            let painted = float_bits::less(0, outline.width) && float_bits::less(
                0,
                outline.color.w,
            );
            &&& !painted ==> items.len() == 0
            &&& painted ==> is_one_item(items, node, PaintLayer::Border)
            &&& painted ==> (items[0].payload matches PayloadModel::Quad(quad) && {
                &&& quad.corners == outline.corners
                &&& quad.size == outline.size
                &&& quad.radius == outline.radius
                &&& quad.color == outline.color
                &&& quad.border.x == outline.width
                &&& quad.border.y == outline.width
                &&& quad.border.z == outline.width
                &&& quad.border.w == outline.width
                &&& quad.flags == 30
                &&& quad.tex_slot == 0
            })
        }),
{
}

/// A visible node paints its border and then its outline, of those that it has.
pub proof fn law_edges_paint_border_first(row: BorderRow)
    ensures
        !row.node.visible ==> paint::edge_items(row).len() == 0,
        row.node.visible && row.border is Some && row.outline is Some ==> paint::edge_items(row)
            == paint::border_items(row.node, row.border->0) + paint::outline_items(
            row.node,
            row.outline->0,
        ),
        row.node.visible && row.border is Some && row.outline is None ==> paint::edge_items(row)
            == paint::border_items(row.node, row.border->0),
        row.node.visible && row.border is None && row.outline is Some ==> paint::edge_items(row)
            == paint::outline_items(row.node, row.outline->0),
        row.border is None && row.outline is None ==> paint::edge_items(row).len() == 0,
{
    if row.border is None && row.outline is Some {
        assert(Seq::<ItemModel>::empty() + paint::outline_items(row.node, row.outline->0)
            =~= paint::outline_items(row.node, row.outline->0));
    }
}

/// An image is painted where its node is visible and its tint has an alpha above
/// zero: with the texture of its slot where it is a registered icon, and as a
/// plain quad in its tint where it is not.
pub proof fn law_images(row: ImageRow, slots: Map<u128, u32>)
    requires
        !float_bits::is_nan(row.color.w),
    ensures
        ({
            let items = paint::image_items(row, slots);
            let painted = row.node.visible && float_bits::less(0, row.color.w);
            &&& !painted ==> items.len() == 0
            &&& painted ==> is_one_item(items, row.node, PaintLayer::Image)
            &&& painted ==> (items[0].payload matches PayloadModel::Quad(quad) && fills_node(
                quad,
                row.node,
            ) && quad.color == row.color && {
                if slots.contains_key(row.image) {
                    &&& quad.flags == 1
                    &&& quad.tex_slot == slots[row.image]
                    &&& quad.uv.top_left == (Point { x: 0, y: 0 })
                    &&& quad.uv.top_right == (Point { x: 0x3f80_0000, y: 0 })
                    &&& quad.uv.bottom_right == (Point { x: 0x3f80_0000, y: 0x3f80_0000 })
                    &&& quad.uv.bottom_left == (Point { x: 0, y: 0x3f80_0000 })
                } else {
                    quad.flags == 0 && quad.tex_slot == 0
                }
            })
        }),
{
}

/// A box with a material paints it, with the material's mode and parameters, at
/// the depth of materials.
pub proof fn law_materials(row: MaterialRow)
    ensures
        ({
            let items = paint::material_items(row);
            &&& !is_box(row.node) ==> items.len() == 0
            &&& is_box(row.node) ==> is_one_item(items, row.node, PaintLayer::Material)
            &&& is_box(row.node) ==> (items[0].payload matches PayloadModel::Material(quad) && {
                &&& quad.corners == row.node.corners
                &&& quad.size == row.node.size
                &&& quad.radius == row.node.radius
                &&& quad.mode == row.tag.mode
                &&& quad.color2 == row.tag.data.packed()
            })
        }),
{
}

/// A material's parameters hold its fixed channel as it is, and the numbers of
/// the planes from zero to four as numbers.
pub proof fn law_material_parameters(data: UiMaterialData)
    ensures
        data.packed().x == data.fixed_channel,
        data.packed().z == 0,
        data.packed().w == 0,
        ColorPlaneAxes::RedGreen.plane() == 0,
        ColorPlaneAxes::RedBlue.plane() == 1,
        ColorPlaneAxes::GreenBlue.plane() == 2,
        ColorPlaneAxes::HueSaturation.plane() == 3,
        ColorPlaneAxes::HueLightness.plane() == 4,
{
}

// ---------------------------------------------------------------------------
// Gradients

/// Between two neighbouring stops that lie apart there is a segment, from the
/// color and position of the one to those of the other; stops at one place have
/// none between them.
pub proof fn law_segments_join_neighbouring_stops(stops: Seq<GradientStop>, hsla: bool, n: nat)
    ensures
        ({
            let before = paint::stop_segments(stops, hsla, n);
            let after = paint::stop_segments(stops, hsla, n + 1);
            let apart = !float_bits::equal(
                stops[n as int].position,
                stops[n as int + 1].position,
            );
            &&& paint::stop_segments(stops, hsla, 0).len() == 0
            &&& !apart ==> after == before
            &&& apart ==> {
                &&& after.len() == before.len() + 1
                &&& after.take(before.len() as int) == before
                &&& after.last().start_color == stops[n as int].color
                &&& after.last().end_color == stops[n as int + 1].color
                &&& after.last().start_len == stops[n as int].position
                &&& after.last().end_len == stops[n as int + 1].position
                &&& after.last().t == stops[n as int].t
                &&& after.last().hsla == hsla
            }
        }),
{
    let before = paint::stop_segments(stops, hsla, n);
    let after = paint::stop_segments(stops, hsla, n + 1);
    if !float_bits::equal(stops[n as int].position, stops[n as int + 1].position) {
        assert(after.take(before.len() as int) =~= before);
    }
}

/// A gradient without stops is not painted, one with a single stop fills the
/// node with its linear color, and one with more is painted as its segments,
/// unless it has none.
pub proof fn law_linear_gradients(node: NodeShape, stops: Seq<GradientStop>, hsla: bool)
    ensures
        ({
            let items = paint::linear_gradient_items(node, stops, hsla);
            let segments = paint::stop_segments(stops, hsla, (stops.len() - 1) as nat);
            &&& stops.len() == 0 ==> items.len() == 0
            &&& stops.len() == 1 ==> is_one_item(items, node, PaintLayer::Gradient) && (
            items[0].payload matches PayloadModel::Quad(quad) && fills_node(quad, node)
                && quad.color == stops[0].linear && quad.flags == 0 && quad.tex_slot == 0)
            &&& stops.len() > 1 && segments.len() == 0 ==> items.len() == 0
            &&& stops.len() > 1 && segments.len() > 0 ==> is_one_item(
                items,
                node,
                PaintLayer::Gradient,
            ) && (items[0].payload matches PayloadModel::Gradient(quad) && {
                &&& quad.corners == node.corners
                &&& quad.size == node.size
                &&& quad.radius == node.radius
                &&& quad.border == node.border
                &&& quad.base_flags == 0
                &&& quad.segments == segments
            })
        }),
{
}

/// A visible node paints its linear gradients in their order and leaves the
/// others out.
pub proof fn law_gradients_follow(row: GradientRow, n: nat)
    ensures
        !row.node.visible ==> paint::gradient_items(row).len() == 0,
        row.node.visible ==> paint::gradient_items(row) == paint::gradient_layers_items(
            row.node,
            row.layers@,
            row.layers@.len(),
        ),
        paint::gradient_layers_items(row.node, row.layers@, 0).len() == 0,
        row.layers@[n as int] is Unsupported ==> paint::gradient_layers_items(
            row.node,
            row.layers@,
            n + 1,
        ) == paint::gradient_layers_items(row.node, row.layers@, n),
        row.layers@[n as int] matches GradientLayer::Linear { stops, hsla }
            ==> paint::gradient_layers_items(row.node, row.layers@, n + 1)
            == paint::gradient_layers_items(row.node, row.layers@, n)
            + paint::linear_gradient_items(row.node, stops@, hsla),
{
}

/// A stop with a position keeps it. The first stop without one lies at zero, or
/// at the first given position where that is before zero; the last one at the
/// end of the line, or at the last given position where that is beyond it.
pub proof fn law_ends_of_the_line(positions: Seq<u32>, length: u32, at: StopPosition, i: int)
    requires
        0 <= i < positions.len(),
        gradient::placed(positions, length, i, at),
    ensures
        !float_bits::is_nan(positions[i]) ==> at == StopPosition::Fixed(positions[i]),
        (forall|j: int| 0 <= j < positions.len() ==> float_bits::is_nan(#[trigger] positions[j]))
            && i == 0 ==> at == StopPosition::Fixed(0),
        (forall|j: int| 0 <= j < positions.len() ==> float_bits::is_nan(#[trigger] positions[j]))
            && i == positions.len() - 1 && i > 0 ==> at == StopPosition::Fixed(length),
{
    if forall|j: int| 0 <= j < positions.len() ==> float_bits::is_nan(#[trigger] positions[j]) {
        lemma_none_given(positions, 0);
        lemma_none_given_before(positions, positions.len() as int);
    }
}

/// The end of the line that a first or last stop without a position lies at
/// makes room for the nearest stop that has one.
pub proof fn law_line_reaches_the_given_stops(positions: Seq<u32>, length: u32, k: int)
    requires
        0 <= k < positions.len(),
        !float_bits::is_nan(positions[k]),
        !float_bits::is_nan(length),
    ensures
        (forall|j: int| 0 <= j < k ==> float_bits::is_nan(#[trigger] positions[j])) ==> {
            let start = gradient::line_start(positions);
            &&& float_bits::at_most(start, 0)
            &&& float_bits::at_most(start, positions[k])
            &&& start == 0 || start == positions[k]
        },
        (forall|j: int| k < j < positions.len() ==> float_bits::is_nan(#[trigger] positions[j]))
            ==> {
            let end = gradient::line_end(positions, length);
            &&& float_bits::at_most(length, end)
            &&& float_bits::at_most(positions[k], end)
            &&& end == length || end == positions[k]
        },
{
    if forall|j: int| 0 <= j < k ==> float_bits::is_nan(#[trigger] positions[j]) {
        lemma_first_given(positions, 0, k);
    }
    if forall|j: int| k < j < positions.len() ==> float_bits::is_nan(#[trigger] positions[j]) {
        lemma_last_given(positions, positions.len() as int, k);
    }
}

proof fn lemma_first_given(positions: Seq<u32>, i: int, k: int)
    requires
        0 <= i <= k < positions.len(),
        !float_bits::is_nan(positions[k]),
        forall|j: int| i <= j < k ==> float_bits::is_nan(#[trigger] positions[j]),
    ensures
        gradient::first_given(positions, i) == Some(positions[k]),
    decreases k - i,
{
    if i < k {
        assert(float_bits::is_nan(positions[i]));
        lemma_first_given(positions, i + 1, k);
    }
}

proof fn lemma_last_given(positions: Seq<u32>, i: int, k: int)
    requires
        0 <= k < i <= positions.len(),
        !float_bits::is_nan(positions[k]),
        forall|j: int| k < j < i ==> float_bits::is_nan(#[trigger] positions[j]),
    ensures
        gradient::last_given(positions, i) == Some(positions[k]),
    decreases i,
{
    if i - 1 > k {
        assert(float_bits::is_nan(positions[i - 1]));
        lemma_last_given(positions, i - 1, k);
    }
}

proof fn lemma_none_given(positions: Seq<u32>, i: int)
    requires
        0 <= i <= positions.len(),
        forall|j: int| 0 <= j < positions.len() ==> float_bits::is_nan(#[trigger] positions[j]),
    ensures
        gradient::first_given(positions, i) is None,
    decreases positions.len() - i,
{
    if i < positions.len() {
        assert(float_bits::is_nan(positions[i]));
        lemma_none_given(positions, i + 1);
    }
}

proof fn lemma_none_given_before(positions: Seq<u32>, i: int)
    requires
        0 <= i <= positions.len(),
        forall|j: int| 0 <= j < positions.len() ==> float_bits::is_nan(#[trigger] positions[j]),
    ensures
        gradient::last_given(positions, i) is None,
    decreases i,
{
    if i > 0 {
        assert(float_bits::is_nan(positions[i - 1]));
        lemma_none_given_before(positions, i - 1);
    }
}

/// Stops without a position are spread evenly: neighbouring ones between the
/// same two fixed stops are one step apart.
pub proof fn law_stops_are_spread_evenly(
    positions: Seq<u32>,
    length: u32,
    i: int,
    a: StopPosition,
    b: StopPosition,
)
    requires
        0 < i < positions.len() - 2,
        float_bits::is_nan(positions[i]),
        float_bits::is_nan(positions[i + 1]),
        gradient::placed(positions, length, i, a),
        gradient::placed(positions, length, i + 1, b),
    ensures
        a is Between,
        b is Between,
        a->start == b->start,
        a->end == b->end,
        a->whole == b->whole,
        b->part == a->part + 1,
        0 < a->part,
        b->part < b->whole,
        a->start < i,
        i + 1 < a->end,
        forall|j: int| a->start < j < a->end ==> float_bits::is_nan(#[trigger] positions[j]),
{
    assert(gradient::pinned(positions, a->start as int) && gradient::pinned(
        positions,
        b->start as int,
    ));
    assert(gradient::pinned(positions, a->end as int) && gradient::pinned(positions, b->end as int));
    assert(!gradient::pinned(positions, i));
    assert(!gradient::pinned(positions, i + 1));
    assert forall|j: int| a->start < j < a->end implies float_bits::is_nan(
        #[trigger] positions[j],
    ) by {
        assert(!gradient::pinned(positions, j));
    }
}

// ---------------------------------------------------------------------------
// Text

/// Whether a glyph has anything to draw.
pub open spec fn has_ink(glyph: RunGlyph) -> bool {
    glyph.record is Some && !glyph.record->0.empty
}

/// The instances of a run are its glyphs with ink, in their order, each at its
/// own pen, with its own shape, in the color of the run.
pub proof fn law_instances_are_the_glyphs_with_ink(run: GlyphRun, n: nat)
    requires
        n <= run.glyphs@.len(),
    ensures
        ({
            let inked = run.glyphs@.take(n as int).filter(|glyph: RunGlyph| has_ink(glyph));
            let instances = paint::run_instances(run, n);
            &&& instances.len() == inked.len()
            &&& forall|i: int|
                0 <= i < inked.len() ==> {
                    &&& (#[trigger] instances[i]).pen_doc == inked[i].pen
                    &&& instances[i].glyph_id == inked[i].record->0.descriptor_index
                    &&& instances[i].color == run.packed_color
                }
        }),
    decreases n,
{
    reveal(Seq::filter);
    let ink = |glyph: RunGlyph| has_ink(glyph);
    let glyphs = run.glyphs@.take(n as int);
    if n > 0 {
        law_instances_are_the_glyphs_with_ink(run, (n - 1) as nat);
        assert(glyphs.drop_last() =~= run.glyphs@.take(n - 1));
        assert(glyphs.last() == run.glyphs@[n - 1]);
        let before = run.glyphs@.take(n - 1).filter(ink);
        let after = glyphs.filter(ink);
        assert(after == if ink(glyphs.last()) {
            before.push(glyphs.last())
        } else {
            before
        });
    }
}

/// A glyph with ink has an instance at its own pen, with its own shape, behind
/// those of the glyphs before it.
pub proof fn law_each_glyph_stands_at_its_pen(run: GlyphRun, n: nat, i: int)
    requires
        0 <= i < n <= run.glyphs@.len(),
    ensures
        ({
            let before = paint::run_instances(run, i as nat).len() as int;
            let instances = paint::run_instances(run, n);
            &&& before <= i
            &&& has_ink(run.glyphs@[i]) ==> {
                &&& before < instances.len()
                &&& instances[before].pen_doc == run.glyphs@[i].pen
                &&& instances[before].glyph_id == run.glyphs@[i].record->0.descriptor_index
                &&& instances[before].color == run.packed_color
                &&& paint::run_instances(run, (i + 1) as nat).len() == before + 1
            }
            &&& !has_ink(run.glyphs@[i]) ==> paint::run_instances(run, (i + 1) as nat).len()
                == before
            &&& instances.len() >= before
        }),
    decreases n,
{
    lemma_instances_are_few(run, i as nat);
    if i < n - 1 {
        law_each_glyph_stands_at_its_pen(run, (n - 1) as nat, i);
    }
}

proof fn lemma_instances_are_few(run: GlyphRun, n: nat)
    ensures
        paint::run_instances(run, n).len() <= n,
    decreases n,
{
    if n > 0 {
        lemma_instances_are_few(run, (n - 1) as nat);
    }
}

/// In a run where every glyph has ink, instance `i` is glyph `i`.
pub proof fn law_inked_runs_keep_every_pen(run: GlyphRun, n: nat, i: int)
    requires
        0 <= i < n <= run.glyphs@.len(),
        forall|k: int| 0 <= k < n ==> has_ink(#[trigger] run.glyphs@[k]),
    ensures
        paint::run_instances(run, n).len() == n,
        paint::run_instances(run, n)[i].pen_doc == run.glyphs@[i].pen,
        paint::run_instances(run, n)[i].glyph_id == run.glyphs@[i].record->0.descriptor_index,
        paint::run_instances(run, n)[i].color == run.packed_color,
    decreases n,
{
    lemma_all_inked(run, n);
    lemma_all_inked(run, i as nat);
    law_each_glyph_stands_at_its_pen(run, n, i);
    assert(has_ink(run.glyphs@[i]));
}

proof fn lemma_all_inked(run: GlyphRun, n: nat)
    requires
        n <= run.glyphs@.len(),
        forall|k: int| 0 <= k < n ==> has_ink(#[trigger] run.glyphs@[k]),
    ensures
        paint::run_instances(run, n).len() == n,
    decreases n,
{
    if n > 0 {
        lemma_all_inked(run, (n - 1) as nat);
        assert(has_ink(run.glyphs@[n - 1]));
    }
}

/// A run with ink is one item over just its own instances, with its clip, font
/// and size, at the depth of text; a run without any is none.
pub proof fn law_runs_draw_their_instances(stack_index: u32, run: GlyphRun, first: nat)
    requires
        first + run.glyphs@.len() <= usize::MAX,
    ensures
        ({
            let items = paint::run_items(stack_index, run, first);
            let count = paint::run_instances(run, run.glyphs@.len()).len();
            &&& count == 0 ==> items.len() == 0
            &&& count > 0 ==> items.len() == 1 && items[0].z_order == painter_order::depth(
                stack_index,
                PaintLayer::Text,
            ) as i64
            &&& count > 0 ==> (items[0].payload matches PayloadModel::TextRun(text) && {
                &&& text.start == first
                &&& text.end == first + count
                &&& text.clip == run.clip
                &&& text.blob_id == run.blob_id
                &&& text.font_index == run.font_index
                &&& text.font_px_per_em == run.font_px_per_em
            })
        }),
{
    lemma_instances_are_few(run, run.glyphs@.len());
}

/// A packed color holds its bytes, red lowest and alpha highest.
pub proof fn law_packed_colors_hold_their_bytes(red: u8, green: u8, blue: u8, alpha: u8)
    ensures
        ({
            let packed = paint::packed_rgba(red, green, blue, alpha);
            &&& packed % 256 == red
            &&& packed / 256 % 256 == green
            &&& packed / 65536 % 256 == blue
            &&& packed / 16777216 == alpha
        }),
{
}

/// A decoration is one quad over its stroke, in its own color or, without one,
/// in that of the text.
pub proof fn law_decorations(stack_index: u32, decoration: Option<Decoration>, fallback: Quadruple)
    ensures
        ({
            let items = paint::decoration_items(stack_index, decoration, fallback);
            &&& decoration is None ==> items.len() == 0
            &&& decoration is Some ==> items.len() == 1 && items[0].z_order == painter_order::depth(
                stack_index,
                PaintLayer::TextStrikethrough,
            ) as i64
            &&& decoration is Some ==> (items[0].payload matches PayloadModel::Quad(quad) && {
                &&& is_stroke(quad, decoration->0.stroke)
                &&& decoration->0.color is Some ==> quad.color == decoration->0.color->0
                &&& decoration->0.color is None ==> quad.color == fallback
            })
        }),
{
}

/// Whether a quad is the plain rectangle of a stroke.
pub open spec fn is_stroke(quad: QuadRecipe, stroke: StrokeShape) -> bool {
    &&& quad.corners == stroke.corners
    &&& quad.size == stroke.size
    &&& quad.radius == (Quadruple { x: 0, y: 0, z: 0, w: 0 })
    &&& quad.border == (Quadruple { x: 0, y: 0, z: 0, w: 0 })
    &&& quad.flags == 0
    &&& quad.tex_slot == 0
}

/// The runs of a text follow each other: a further run appends its instances,
/// and behind its own item its strikethrough and its underline where the text
/// is decorated.
pub proof fn law_runs_follow(
    stack_index: u32,
    runs: Seq<GlyphRun>,
    decorated: bool,
    first: nat,
    n: nat,
)
    ensures
        ({
            let before = paint::runs_painted(stack_index, runs, decorated, first, n);
            let after = paint::runs_painted(stack_index, runs, decorated, first, n + 1);
            let run = runs[n as int];
            &&& paint::runs_painted(stack_index, runs, decorated, first, 0).0.len() == 0
            &&& paint::runs_painted(stack_index, runs, decorated, first, 0).1.len() == 0
            &&& after.0 == before.0 + paint::run_instances(run, run.glyphs@.len())
            &&& !decorated ==> after.1 == before.1 + paint::run_items(
                stack_index,
                run,
                first + before.0.len(),
            )
            &&& decorated ==> after.1 == before.1 + paint::run_items(
                stack_index,
                run,
                first + before.0.len(),
            ) + paint::decoration_items(stack_index, run.strikethrough, run.color)
                + paint::decoration_items(stack_index, run.underline, run.color)
        }),
{
}

/// A text that is a box paints all its runs, decorated; any other paints none.
pub proof fn law_texts(row: TextRow, first: nat)
    ensures
        !is_box(row.node) ==> paint::text_painted(row, first).0.len() == 0 && paint::text_painted(
            row,
            first,
        ).1.len() == 0,
        is_box(row.node) ==> paint::text_painted(row, first) == paint::runs_painted(
            row.node.stack_index,
            row.runs@,
            true,
            first,
            row.runs@.len(),
        ),
{
}

/// Each rectangle of a list is one quad in the given color and layer.
pub proof fn law_strokes(
    stack_index: u32,
    layer: PaintLayer,
    strokes: Seq<StrokeShape>,
    color: Quadruple,
    i: int,
)
    requires
        0 <= i < strokes.len(),
    ensures
        ({
            let items = paint::stroke_items(stack_index, layer, strokes, color);
            &&& items.len() == strokes.len()
            &&& items[i].z_order == painter_order::depth(stack_index, layer) as i64
            &&& items[i].payload matches PayloadModel::Quad(quad) && is_stroke(quad, strokes[i])
                && quad.color == color
        }),
{
}

/// An editable text that is a box paints its runs and then its selection, its
/// cursor and the underlines of what is being composed. The selection's color
/// depends on whether the text has the focus; the cursor shows while it is on.
pub proof fn law_editable_texts(row: EditableTextRow, focus: Option<u64>, first: nat)
    requires
        !float_bits::is_nan(row.cursor_color.w),
        !float_bits::is_nan(row.selection_color.w),
        !float_bits::is_nan(row.unfocused_selection_color.w),
    ensures
        !is_box(row.node) ==> paint::editable_painted(row, focus, first).0.len() == 0
            && paint::editable_painted(row, focus, first).1.len() == 0,
        is_box(row.node) ==> ({
            let runs = paint::runs_painted(
                row.node.stack_index,
                row.runs@,
                false,
                first,
                row.runs@.len(),
            );
            let painted = paint::editable_painted(row, focus, first);
            let focused = focus is Some && focus->0 == row.entity;
            let color = if focused {
                row.selection_color
            } else {
                row.unfocused_selection_color
            };
            let selected = if float_bits::less(0, color.w) {
                row.selection@.len()
            } else {
                0
            };
            let cursor = row.cursor is Some && row.cursor->0.shown && !row.cursor->0.empty
                && float_bits::less(0, row.cursor_color.w);
            let at = runs.1.len() + selected;
            let strokes = at + if cursor {
                1nat
            } else {
                0
            };
            &&& painted.0 == runs.0
            &&& painted.1.len() == strokes + row.preedit_underlines@.len()
            &&& forall|i: int| 0 <= i < runs.1.len() ==> #[trigger] painted.1[i] == runs.1[i]
            &&& forall|i: int|
                0 <= i < selected ==> {
                    &&& (#[trigger] painted.1[runs.1.len() + i]).z_order == painter_order::depth(
                        row.node.stack_index,
                        PaintLayer::TextSelection,
                    ) as i64
                    &&& painted.1[runs.1.len() + i].payload matches PayloadModel::Quad(quad)
                        && is_stroke(quad, row.selection@[i]) && quad.color == color
                }
            &&& cursor ==> painted.1[at as int].z_order == painter_order::depth(
                row.node.stack_index,
                PaintLayer::TextCursor,
            ) as i64
            &&& cursor ==> (painted.1[at as int].payload matches PayloadModel::Quad(quad)
                && is_stroke(quad, row.cursor->0.stroke) && quad.color == row.cursor_color)
            &&& forall|i: int|
                0 <= i < row.preedit_underlines@.len() ==> {
                    &&& (#[trigger] painted.1[strokes + i]).z_order == painter_order::depth(
                        row.node.stack_index,
                        PaintLayer::TextStrikethrough,
                    ) as i64
                    &&& painted.1[strokes + i].payload matches PayloadModel::Quad(quad)
                        && is_stroke(quad, row.preedit_underlines@[i]) && quad.color
                        == row.text_color
                }
        }),
{
}

// ---------------------------------------------------------------------------
// Frames

/// Rows are painted one after the other.
pub proof fn law_rows_follow<R>(rows: Seq<R>, added: spec_fn(R) -> Seq<ItemModel>, n: nat)
    ensures
        paint::rows_items(rows, added, 0).len() == 0,
        paint::rows_items(rows, added, n + 1) == paint::rows_items(rows, added, n) + added(
            rows[n as int],
        ),
{
}

/// Every row of a frame is painted: what a background, a shadow, an edge, a
/// gradient, an image or a material adds is found among the frame's items.
pub proof fn law_every_row_is_painted(frame: UiFrame, slots: Map<u128, u32>, i: int, item: ItemModel)
    ensures
        0 <= i < frame.backgrounds@.len() && paint::background_items(
            frame.backgrounds@[i],
        ).contains(item) ==> paint::frame_painted(frame, slots).1.contains(item),
        0 <= i < frame.shadows@.len() && paint::shadow_items(frame.shadows@[i]).contains(item)
            ==> paint::frame_painted(frame, slots).1.contains(item),
        0 <= i < frame.borders@.len() && paint::edge_items(frame.borders@[i]).contains(item)
            ==> paint::frame_painted(frame, slots).1.contains(item),
        0 <= i < frame.gradients@.len() && paint::gradient_items(frame.gradients@[i]).contains(
            item,
        ) ==> paint::frame_painted(frame, slots).1.contains(item),
        0 <= i < frame.images@.len() && paint::image_items(frame.images@[i], slots).contains(item)
            ==> paint::frame_painted(frame, slots).1.contains(item),
        0 <= i < frame.materials@.len() && paint::material_items(frame.materials@[i]).contains(item)
            ==> paint::frame_painted(frame, slots).1.contains(item),
{
    let a = paint::rows_items(
        frame.backgrounds@,
        |row: BackgroundRow| paint::background_items(row),
        frame.backgrounds@.len(),
    );
    let b = paint::rows_items(
        frame.shadows@,
        |row: ShadowRow| paint::shadow_items(row),
        frame.shadows@.len(),
    );
    let c = paint::rows_items(
        frame.borders@,
        |row: BorderRow| paint::edge_items(row),
        frame.borders@.len(),
    );
    let d = paint::rows_items(
        frame.gradients@,
        |row: GradientRow| paint::gradient_items(row),
        frame.gradients@.len(),
    );
    let e = paint::rows_items(
        frame.images@,
        |row: ImageRow| paint::image_items(row, slots),
        frame.images@.len(),
    );
    let f = paint::rows_items(
        frame.materials@,
        |row: MaterialRow| paint::material_items(row),
        frame.materials@.len(),
    );
    let texts = paint::texts_painted(frame.texts@, frame.texts@.len());
    let editables = paint::editables_painted(
        frame.editable_texts@,
        frame.focus,
        texts.0.len(),
        frame.editable_texts@.len(),
    );
    let all = paint::frame_painted(frame, slots).1;
    assert(all == a + b + c + d + e + f + texts.1 + editables.1);
    if a.contains(item) || b.contains(item) || c.contains(item) || d.contains(item) || e.contains(
        item,
    ) || f.contains(item) {
        lemma_joined(a, b, item);
        lemma_joined(a + b, c, item);
        lemma_joined(a + b + c, d, item);
        lemma_joined(a + b + c + d, e, item);
        lemma_joined(a + b + c + d + e, f, item);
        lemma_joined(a + b + c + d + e + f, texts.1, item);
        lemma_joined(a + b + c + d + e + f + texts.1, editables.1, item);
    }
    if 0 <= i < frame.backgrounds@.len() {
        lemma_row_is_painted(
            frame.backgrounds@,
            |row: BackgroundRow| paint::background_items(row),
            frame.backgrounds@.len(),
            i,
            item,
        );
    }
    if 0 <= i < frame.shadows@.len() {
        lemma_row_is_painted(
            frame.shadows@,
            |row: ShadowRow| paint::shadow_items(row),
            frame.shadows@.len(),
            i,
            item,
        );
    }
    if 0 <= i < frame.borders@.len() {
        lemma_row_is_painted(
            frame.borders@,
            |row: BorderRow| paint::edge_items(row),
            frame.borders@.len(),
            i,
            item,
        );
    }
    if 0 <= i < frame.gradients@.len() {
        lemma_row_is_painted(
            frame.gradients@,
            |row: GradientRow| paint::gradient_items(row),
            frame.gradients@.len(),
            i,
            item,
        );
    }
    if 0 <= i < frame.images@.len() {
        lemma_row_is_painted(
            frame.images@,
            |row: ImageRow| paint::image_items(row, slots),
            frame.images@.len(),
            i,
            item,
        );
    }
    if 0 <= i < frame.materials@.len() {
        lemma_row_is_painted(
            frame.materials@,
            |row: MaterialRow| paint::material_items(row),
            frame.materials@.len(),
            i,
            item,
        );
    }
}

proof fn lemma_joined(a: Seq<ItemModel>, b: Seq<ItemModel>, item: ItemModel)
    ensures
        (a + b).contains(item) == (a.contains(item) || b.contains(item)),
{
    if a.contains(item) {
        let k = choose|k: int| 0 <= k < a.len() && a[k] == item;
        assert((a + b)[k] == item);
    }
    if b.contains(item) {
        let k = choose|k: int| 0 <= k < b.len() && b[k] == item;
        assert((a + b)[a.len() + k] == item);
    }
    if (a + b).contains(item) {
        let k = choose|k: int| 0 <= k < (a + b).len() && (a + b)[k] == item;
        if k < a.len() {
            assert(a[k] == item);
        } else {
            assert(b[k - a.len()] == item);
        }
    }
}

proof fn lemma_row_is_painted<R>(
    rows: Seq<R>,
    added: spec_fn(R) -> Seq<ItemModel>,
    n: nat,
    i: int,
    item: ItemModel,
)
    requires
        0 <= i < n <= rows.len(),
    ensures
        added(rows[i]).contains(item) ==> paint::rows_items(rows, added, n).contains(item),
    decreases n,
{
    if i < n - 1 {
        lemma_row_is_painted(rows, added, (n - 1) as nat, i, item);
    }
    lemma_joined(
        paint::rows_items(rows, added, (n - 1) as nat),
        added(rows[n - 1]),
        item,
    );
}

/// The instances of a frame are those of its texts and then those of its
/// editable texts, row after row.
pub proof fn law_texts_follow(frame: UiFrame, slots: Map<u128, u32>, n: nat)
    ensures
        paint::texts_painted(frame.texts@, 0).0.len() == 0,
        paint::texts_painted(frame.texts@, n + 1).0 == paint::texts_painted(frame.texts@, n).0
            + paint::text_painted(
            frame.texts@[n as int],
            paint::texts_painted(frame.texts@, n).0.len(),
        ).0,
        paint::texts_painted(frame.texts@, n + 1).1 == paint::texts_painted(frame.texts@, n).1
            + paint::text_painted(
            frame.texts@[n as int],
            paint::texts_painted(frame.texts@, n).0.len(),
        ).1,
        ({
            let texts = paint::texts_painted(frame.texts@, frame.texts@.len()).0;
            let editables = paint::editables_painted(
                frame.editable_texts@,
                frame.focus,
                texts.len(),
                frame.editable_texts@.len(),
            ).0;
            paint::frame_painted(frame, slots).0 == texts + editables
        }),
{
}

/// Editable texts follow each other behind the instances before them.
pub proof fn law_editable_texts_follow(
    rows: Seq<EditableTextRow>,
    focus: Option<u64>,
    first: nat,
    n: nat,
)
    ensures
        ({
            let before = paint::editables_painted(rows, focus, first, n);
            let after = paint::editables_painted(rows, focus, first, n + 1);
            let own = paint::editable_painted(rows[n as int], focus, first + before.0.len());
            &&& paint::editables_painted(rows, focus, first, 0).0.len() == 0
            &&& after.0 == before.0 + own.0
            &&& after.1 == before.1 + own.1
        }),
{
}

// ---------------------------------------------------------------------------
// Clipping

/// Without a clip rectangle a quad keeps its corners.
pub proof fn law_no_clip_changes_nothing(corners: QuadCorners)
    ensures
        paint_items::clipped_corners(corners, None) == Some(corners),
{
}

/// A rotated quad keeps its corners where its box overlaps the clip rectangle,
/// and is dropped where it does not.
pub proof fn law_rotated_quads_are_kept_or_dropped(corners: QuadCorners, test: ClipTest)
    requires
        float_bits::less(0, test.shear) || float_bits::less(test.shear, 0),
        !float_bits::is_nan(test.bounds.min.x),
        !float_bits::is_nan(test.bounds.min.y),
        !float_bits::is_nan(test.bounds.max.x),
        !float_bits::is_nan(test.bounds.max.y),
        !float_bits::is_nan(test.clip.min.x),
        !float_bits::is_nan(test.clip.min.y),
        !float_bits::is_nan(test.clip.max.x),
        !float_bits::is_nan(test.clip.max.y),
    ensures
        paint_items::clipped_corners(corners, Some(test)) == if float_bits::less(
            test.clip.min.x,
            test.bounds.max.x,
        ) && float_bits::less(test.bounds.min.x, test.clip.max.x) && float_bits::less(
            test.clip.min.y,
            test.bounds.max.y,
        ) && float_bits::less(test.bounds.min.y, test.clip.max.y) {
            Some(corners)
        } else {
            None
        },
{
}

/// An upright quad is pushed inwards, and dropped where it is pushed as far as it
/// is large in either direction.
pub proof fn law_upright_quads_are_pushed_inwards(corners: QuadCorners, test: ClipTest)
    requires
        test.shear == 0,
        !float_bits::is_nan(test.overlap.x),
        !float_bits::is_nan(test.overlap.y),
        !float_bits::is_nan(test.extent.x),
        !float_bits::is_nan(test.extent.y),
    ensures
        paint_items::clipped_corners(corners, Some(test)) == if float_bits::less(
            test.overlap.x,
            test.extent.x,
        ) && float_bits::less(test.overlap.y, test.extent.y) {
            Some(test.displaced)
        } else {
            None
        },
{
}

// ---------------------------------------------------------------------------
// Vertices

/// Whether four vertices stand at the four corners of a quad, from the top left
/// round to the bottom left, on the target and in the node.
pub open spec fn stand_at_corners(vertices: Seq<UiVertex>, c: QuadCorners) -> bool {
    &&& vertices.len() == 4
    &&& vertices[0].pos == c.positions.top_left
    &&& vertices[1].pos == c.positions.top_right
    &&& vertices[2].pos == c.positions.bottom_right
    &&& vertices[3].pos == c.positions.bottom_left
    &&& vertices[0].point == c.points.top_left
    &&& vertices[1].point == c.points.top_right
    &&& vertices[2].point == c.points.bottom_right
    &&& vertices[3].point == c.points.bottom_left
}

/// A quad has a vertex at each corner that clipping has left, with all that the
/// quad is made of; a quad of which nothing is left has none.
pub proof fn law_quads_stand_at_their_corners(quad: QuadRecipe)
    ensures
        ({
            let vertices = paint_items::quad_vertices(quad);
            &&& quad.corners is None ==> vertices.len() == 0
            &&& quad.corners matches Some(c) ==> stand_at_corners(vertices, c)
            &&& quad.corners is Some ==> {
                &&& vertices[0].uv == quad.uv.top_left
                &&& vertices[1].uv == quad.uv.top_right
                &&& vertices[2].uv == quad.uv.bottom_right
                &&& vertices[3].uv == quad.uv.bottom_left
            }
            &&& forall|i: int|
                0 <= i < vertices.len() ==> {
                    &&& (#[trigger] vertices[i]).color == quad.color
                    &&& vertices[i].color2 == (Quadruple { x: 0, y: 0, z: 0, w: 0 })
                    &&& vertices[i].radius == quad.radius
                    &&& vertices[i].border == quad.border
                    &&& vertices[i].size == quad.size
                    &&& vertices[i].flags == quad.flags
                    &&& vertices[i].tex_slot == quad.tex_slot
                }
        }),
{
}

/// A material's quad has a vertex at each corner, with the material's mode above
/// all flags and its parameters as the second color.
pub proof fn law_materials_stand_at_their_corners(quad: MaterialRecipe)
    ensures
        ({
            let vertices = paint_items::material_vertices(quad);
            &&& quad.corners is None ==> vertices.len() == 0
            &&& quad.corners matches Some(c) ==> stand_at_corners(vertices, c)
            &&& quad.corners is Some ==> {
                &&& vertices[0].uv == (Point { x: 0, y: 0 })
                &&& vertices[1].uv == (Point { x: 0x3f80_0000, y: 0 })
                &&& vertices[2].uv == (Point { x: 0x3f80_0000, y: 0x3f80_0000 })
                &&& vertices[3].uv == (Point { x: 0, y: 0x3f80_0000 })
            }
            &&& forall|i: int|
                0 <= i < vertices.len() ==> {
                    &&& (#[trigger] vertices[i]).color2 == quad.color2
                    &&& vertices[i].color == (Quadruple { x: 0, y: 0, z: 0, w: 0 })
                    &&& vertices[i].border == (Quadruple { x: 0, y: 0, z: 0, w: 0 })
                    &&& vertices[i].radius == quad.radius
                    &&& vertices[i].size == quad.size
                    &&& vertices[i].flags == quad.mode << 16
                    &&& vertices[i].tex_slot == 0
                }
        }),
{
}

/// A shadow's quad has a vertex at each corner, with all that the shadow is made
/// of.
pub proof fn law_shadows_stand_at_their_corners(shadow: ShadowRecipe)
    ensures
        ({
            let vertices = paint_items::shadow_quad_vertices(shadow);
            &&& shadow.corners is None ==> vertices.len() == 0
            &&& shadow.corners matches Some(c) ==> {
                &&& vertices.len() == 4
                &&& vertices[0].pos == c.positions.top_left
                &&& vertices[1].pos == c.positions.top_right
                &&& vertices[2].pos == c.positions.bottom_right
                &&& vertices[3].pos == c.positions.bottom_left
                &&& vertices[0].uv == shadow.uv.top_left
                &&& vertices[1].uv == shadow.uv.top_right
                &&& vertices[2].uv == shadow.uv.bottom_right
                &&& vertices[3].uv == shadow.uv.bottom_left
            }
            &&& forall|i: int|
                0 <= i < vertices.len() ==> {
                    &&& (#[trigger] vertices[i]).color == shadow.color
                    &&& vertices[i].size == shadow.size
                    &&& vertices[i].radius == shadow.radius
                    &&& vertices[i].blur == shadow.blur
                    &&& vertices[i].bounds == shadow.bounds
                }
        }),
{
}

/// Segment `i` of a gradient is drawn by vertices `4 * i` to `4 * i + 3`: at the
/// corners of the quad, between the colors of the segment, at the places along
/// it that the corners have.
pub proof fn law_segments_stand_at_the_corners(gradient: GradientModel, c: QuadCorners, n: nat, i: int)
    requires
        0 <= i < n <= gradient.segments.len(),
    ensures
        ({
            let all = paint_items::segments_vertices(gradient, c, n);
            let vertices = all.subrange(4 * i, 4 * i + 4);
            let segment = gradient.segments[i];
            &&& all.len() == 4 * n
            &&& stand_at_corners(vertices, c)
            &&& vertices[0].uv == (Point { x: segment.t.top_left, y: 0 })
            &&& vertices[1].uv == (Point { x: segment.t.top_right, y: 0 })
            &&& vertices[2].uv == (Point { x: segment.t.bottom_right, y: 0 })
            &&& vertices[3].uv == (Point { x: segment.t.bottom_left, y: 0 })
            &&& forall|k: int|
                0 <= k < 4 ==> {
                    &&& (#[trigger] vertices[k]).color == segment.start_color
                    &&& vertices[k].color2 == segment.end_color
                    &&& vertices[k].radius == gradient.radius
                    &&& vertices[k].border == gradient.border
                    &&& vertices[k].size == gradient.size
                    &&& vertices[k].tex_slot == 0
                    &&& vertices[k].flags == paint_items::segment_flags(
                        gradient.base_flags,
                        segment,
                        i,
                        gradient.segments.len() as int,
                    )
                }
        }),
    decreases n,
{
    lemma_segments_length(gradient, c, n);
    lemma_segments_length(gradient, c, (n - 1) as nat);
    let all = paint_items::segments_vertices(gradient, c, n);
    let before = paint_items::segments_vertices(gradient, c, (n - 1) as nat);
    if i < n - 1 {
        law_segments_stand_at_the_corners(gradient, c, (n - 1) as nat, i);
        assert(all.subrange(4 * i, 4 * i + 4) =~= before.subrange(4 * i, 4 * i + 4));
    } else {
        assert(all.subrange(4 * i, 4 * i + 4) =~= paint_items::segment_vertices(gradient, c, i));
    }
}

proof fn lemma_segments_length(gradient: GradientModel, c: QuadCorners, n: nat)
    ensures
        paint_items::segments_vertices(gradient, c, n).len() == 4 * n,
    decreases n,
{
    if n > 0 {
        lemma_segments_length(gradient, c, (n - 1) as nat);
    }
}

/// A segment's flags say that it is one, in which space it is interpolated, that
/// the first one also fills what lies before it where it starts behind zero, and
/// that the last one also fills what lies behind it.
pub proof fn law_segment_flags(segment: crate::segments::GradientSegment, index: int, count: int)
    ensures
        ({
            let flags = paint_items::segment_flags(0, segment, index, count);
            &&& flags & 32 != 0
            &&& (flags & 64 != 0) == segment.hsla
            &&& (flags & 128 != 0) == (index == 0 && float_bits::less(0, segment.start_len))
            &&& (flags & 256 != 0) == (index == count - 1)
            &&& flags & 31 == 0
        }),
{
    let a: u32 = 0u32 | 32;
    let b: u32 = if segment.hsla {
        a | 64
    } else {
        a
    };
    let first = index == 0 && float_bits::less(0, segment.start_len);
    let last = index == count - 1;
    let c: u32 = if first {
        b | 128
    } else {
        b
    };
    let d: u32 = if last {
        c | 256
    } else {
        c
    };
    let hsla = segment.hsla;
    assert(d & 32 != 0 && (d & 64 != 0) == hsla && (d & 128 != 0) == first && (d & 256 != 0) == last
        && d & 31 == 0) by (bit_vector)
        requires
            a == 0u32 | 32,
            b == (if hsla { a | 64 } else { a }),
            c == (if first { b | 128 } else { b }),
            d == (if last { c | 256 } else { c }),
    ;
}

/// Adding an item appends its vertices to its own stream and leaves the other
/// stream alone; text adds no vertices.
pub proof fn law_items_append_their_vertices(streams: StreamsModel, item: ItemModel)
    ensures
        ({
            let after = streams.add(item);
            &&& item.payload matches PayloadModel::Quad(quad) ==> after.vertices == streams.vertices
                + paint_items::quad_vertices(quad) && after.shadow_vertices
                == streams.shadow_vertices
            &&& item.payload matches PayloadModel::Gradient(quad) ==> after.vertices
                == streams.vertices + paint_items::gradient_vertices(quad)
                && after.shadow_vertices == streams.shadow_vertices
            &&& item.payload matches PayloadModel::Material(quad) ==> after.vertices
                == streams.vertices + paint_items::material_vertices(quad)
                && after.shadow_vertices == streams.shadow_vertices
            &&& item.payload matches PayloadModel::Shadow(shadow) ==> after.shadow_vertices
                == streams.shadow_vertices + paint_items::shadow_quad_vertices(shadow)
                && after.vertices == streams.vertices
            &&& item.payload is TextRun ==> after.vertices == streams.vertices
                && after.shadow_vertices == streams.shadow_vertices
        }),
{
}

/// A text batch draws just the instances, and has just the clip, font and size,
/// of its runs.
pub proof fn law_text_batches_keep_their_runs(
    streams: StreamsModel,
    run: paint_items::TextRunRecipe,
)
    requires
        streams.next_order < u32::MAX - 1,
    ensures
        ({
            let after = streams.add_text(run);
            let last = after.text_batches.last();
            &&& after.text_batches.len() > 0
            &&& last.instance_range.end == run.end
            &&& last.blob_id == run.blob_id
            &&& last.font_index == run.font_index
            &&& after.text_batches.len() == streams.text_batches.len() + 1 ==> {
                &&& last.instance_range.start == run.start
                &&& last.clip == run.clip
                &&& last.font_px_per_em == run.font_px_per_em
            }
            &&& after.text_batches.len() == streams.text_batches.len() ==> {
                &&& streams.text_batches.last().instance_range.end == run.start
                &&& last.instance_range.start == streams.text_batches.last().instance_range.start
                &&& paint_batches::same_clip(last.clip, run.clip)
                &&& float_bits::equal(last.font_px_per_em, run.font_px_per_em)
            }
            &&& after.text_batches.len() == streams.text_batches.len()
                || after.text_batches.len() == streams.text_batches.len() + 1
        }),
{
}

/// Two colours are the same just if they agree in every channel as numbers; one
/// with a channel that is no number is not even the same as itself.
pub proof fn law_same_colors(a: Quadruple, b: Quadruple)
    ensures
        paint::same_color(a, b) ==> float_bits::rank(a.x) == float_bits::rank(b.x)
            && float_bits::rank(a.y) == float_bits::rank(b.y) && float_bits::rank(a.z)
            == float_bits::rank(b.z) && float_bits::rank(a.w) == float_bits::rank(b.w),
        float_bits::is_nan(a.x) || float_bits::is_nan(a.y) || float_bits::is_nan(a.z)
            || float_bits::is_nan(a.w) ==> !paint::same_color(a, b) && !paint::same_color(b, a),
        !float_bits::is_nan(a.x) && !float_bits::is_nan(a.y) && !float_bits::is_nan(a.z)
            && !float_bits::is_nan(a.w) ==> paint::same_color(a, a),
{
}

/// A first given stop that does not lie before zero leaves the line's start at
/// zero itself, without a sign.
pub proof fn law_lines_start_at_zero(positions: Seq<u32>, k: int)
    requires
        0 <= k < positions.len(),
        !float_bits::is_nan(positions[k]),
        forall|j: int| 0 <= j < k ==> float_bits::is_nan(#[trigger] positions[j]),
    ensures
        !float_bits::less(positions[k], 0) ==> gradient::line_start(positions) == 0,
        float_bits::less(positions[k], 0) ==> gradient::line_start(positions) == positions[k],
{
    lemma_first_given(positions, 0, k);
}

} // verus!
