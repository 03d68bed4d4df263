//! The paint walker: which laid-out nodes are painted, as what, and in which order.
//!
//! A frame lists what the layout holds, row by row: geometry that has been
//! transformed and clipped, colors, glyph runs. The walker decides which rows
//! become paint items, sorts them, and batches them.

use vstd::prelude::*;

use crate::abi::{
    CornerPoints, CornerValues, Point, Quadruple, RectBits, TextGlyphInstance, UiShadowVertex,
    UiVertex, UI_FLAG_BORDER_ANY, UI_FLAG_BORDER_BOTTOM, UI_FLAG_BORDER_LEFT, UI_FLAG_BORDER_RIGHT,
    UI_FLAG_BORDER_TOP, UI_FLAG_TEXTURED,
};
use crate::float_bits;
use crate::glyphs::CachedGlyph;
use crate::icons::IconRegistry;
use crate::material::UiMaterialTag;
use crate::paint_batches;
use crate::paint_batches::{build_streams, PaintStreams, TextRunBatch, UiBatch, UiShadowBatch};
use crate::paint_items;
use crate::paint_items::{
    quad_vertex_uvs, zero_uvs, GradientModel, GradientRecipe, ItemModel, MaterialRecipe, PaintItem,
    PaintPayload, PayloadModel, QuadCorners, QuadRecipe, ShadowRecipe, TextRunRecipe,
};
use crate::painter_order;
use crate::painter_order::{z_order, PaintLayer};
use crate::segments::{GradientSegment, GradientSegments};

verus! {

// ---------------------------------------------------------------------------
// What a frame holds

/// A laid-out node.
#[derive(Debug, Clone, Copy, PartialEq, Eq, Structural)]
pub struct NodeShape {
    pub stack_index: u32,
    pub visible: bool,
    /// Whether the node has no area.
    pub empty: bool,
    pub size: Point,
    pub radius: Quadruple,
    pub border: Quadruple,
    /// What clipping has left of the node's box.
    pub corners: Option<QuadCorners>,
}

/// A node with a background color.
pub struct BackgroundRow {
    pub node: NodeShape,
    pub color: Quadruple,
}

/// One resolved box-shadow layer.
#[derive(Debug, Clone, Copy, PartialEq, Eq, Structural)]
pub struct ShadowLayer {
    pub color: Quadruple,
    /// Node size with the spread added.
    pub size: Point,
    /// `size` with padding for the blur.
    pub bounds: Point,
    pub radius: Quadruple,
    pub blur: u32,
    pub uv: CornerPoints,
    pub corners: Option<QuadCorners>,
}

/// A node with box shadows, from back to front.
pub struct ShadowRow {
    pub node: NodeShape,
    pub layers: Vec<ShadowLayer>,
}

/// Linear colors of the four border edges.
#[derive(Debug, Clone, Copy, PartialEq, Eq, Structural)]
pub struct BorderColors {
    pub left: Quadruple,
    pub top: Quadruple,
    pub right: Quadruple,
    pub bottom: Quadruple,
}

/// A ring around a node.
#[derive(Debug, Clone, Copy, PartialEq, Eq, Structural)]
pub struct OutlineShape {
    pub width: u32,
    pub color: Quadruple,
    /// Size of the node with its outline.
    pub size: Point,
    pub radius: Quadruple,
    pub corners: Option<QuadCorners>,
}

/// A node with a border, an outline, or both.
pub struct BorderRow {
    pub node: NodeShape,
    pub border: Option<BorderColors>,
    pub outline: Option<OutlineShape>,
}

/// A placed gradient stop.
#[derive(Debug, Clone, Copy, PartialEq, Eq, Structural)]
pub struct GradientStop {
    /// The color in the space that the gradient interpolates in.
    pub color: Quadruple,
    /// The color in linear space.
    pub linear: Quadruple,
    /// Distance from the start of the gradient line.
    pub position: u32,
    /// Gradient parameter at each corner between this stop and the next.
    pub t: CornerValues,
}

/// One gradient layer.
pub enum GradientLayer {
    /// A linear gradient.
    Linear { stops: Vec<GradientStop>, hsla: bool },
    /// A radial or conic gradient, neither of which can be drawn.
    Unsupported,
}

/// A node with background gradients, from back to front.
pub struct GradientRow {
    pub node: NodeShape,
    pub layers: Vec<GradientLayer>,
}

/// A node that shows an image.
pub struct ImageRow {
    pub node: NodeShape,
    pub color: Quadruple,
    /// Identity of the image asset.
    pub image: u128,
}

/// A node with a material.
pub struct MaterialRow {
    pub node: NodeShape,
    pub tag: UiMaterialTag,
}

/// A positioned glyph and what the glyph cache says of it.
#[derive(Debug, Clone, Copy, PartialEq, Eq, Structural)]
pub struct RunGlyph {
    pub record: Option<CachedGlyph>,
    pub pen: Point,
}

/// A decoration stroke, cursor, or selection rectangle.
#[derive(Debug, Clone, Copy, PartialEq, Eq, Structural)]
pub struct StrokeShape {
    pub size: Point,
    pub corners: Option<QuadCorners>,
}

/// A stroke through or under a run of text.
#[derive(Debug, Clone, Copy, PartialEq, Eq, Structural)]
pub struct Decoration {
    pub stroke: StrokeShape,
    /// The stroke's own color; without one it has the text's.
    pub color: Option<Quadruple>,
}

/// A run of glyphs of one font, size and color.
pub struct GlyphRun {
    pub blob_id: u64,
    pub font_index: u32,
    pub font_px_per_em: u32,
    pub clip: Option<RectBits>,
    /// Linear text color.
    pub color: Quadruple,
    /// Text color as sRGB bytes.
    pub packed_color: u32,
    pub glyphs: Vec<RunGlyph>,
    pub strikethrough: Option<Decoration>,
    pub underline: Option<Decoration>,
}

/// A node with text.
pub struct TextRow {
    pub node: NodeShape,
    pub runs: Vec<GlyphRun>,
}

/// The text cursor.
#[derive(Debug, Clone, Copy, PartialEq, Eq, Structural)]
pub struct TextCursor {
    /// Whether the cursor is in the visible phase of its blinking.
    pub shown: bool,
    /// Whether its rectangle has no area.
    pub empty: bool,
    pub stroke: StrokeShape,
}

/// A node with editable text.
pub struct EditableTextRow {
    /// Identity of the node, by which it has the input focus.
    pub entity: u64,
    pub node: NodeShape,
    pub runs: Vec<GlyphRun>,
    pub text_color: Quadruple,
    pub cursor_color: Quadruple,
    pub selection_color: Quadruple,
    pub unfocused_selection_color: Quadruple,
    pub selection: Vec<StrokeShape>,
    pub cursor: Option<TextCursor>,
    pub preedit_underlines: Vec<StrokeShape>,
}

/// Everything that is laid out.
pub struct UiFrame {
    pub backgrounds: Vec<BackgroundRow>,
    pub shadows: Vec<ShadowRow>,
    pub borders: Vec<BorderRow>,
    pub gradients: Vec<GradientRow>,
    pub images: Vec<ImageRow>,
    pub materials: Vec<MaterialRow>,
    pub texts: Vec<TextRow>,
    pub editable_texts: Vec<EditableTextRow>,
    /// The node that has the input focus.
    pub focus: Option<u64>,
}

// ---------------------------------------------------------------------------
// Single items

/// Whether a color's alpha is zero or less.
pub open spec fn transparent(color: Quadruple) -> bool {
    float_bits::at_most(color.w, 0)
}

/// Whether two colors are equal, compared as numbers.
pub open spec fn same_color(a: Quadruple, b: Quadruple) -> bool {
    float_bits::equal(a.x, b.x) && float_bits::equal(a.y, b.y) && float_bits::equal(a.z, b.z)
        && float_bits::equal(a.w, b.w)
}

fn is_transparent(color: Quadruple) -> (yes: bool)
    ensures
        yes == transparent(color),
{
    float_bits::is_at_most(color.w, 0)
}

fn is_same_color(a: Quadruple, b: Quadruple) -> (same: bool)
    ensures
        same == same_color(a, b),
{
    float_bits::is_equal(a.x, b.x) && float_bits::is_equal(a.y, b.y) && float_bits::is_equal(
        a.z,
        b.z,
    ) && float_bits::is_equal(a.w, b.w)
}

/// A quad of a node at a layer's depth.
pub open spec fn quad_item(stack_index: u32, layer: PaintLayer, recipe: QuadRecipe) -> ItemModel {
    ItemModel {
        z_order: painter_order::depth(stack_index, layer) as i64,
        payload: PayloadModel::Quad(recipe),
    }
}

/// A quad over the whole node.
pub open spec fn node_quad(node: NodeShape, color: Quadruple, flags: u32, tex_slot: u32, uv: CornerPoints) -> QuadRecipe {
    QuadRecipe {
        corners: node.corners,
        size: node.size,
        color,
        radius: node.radius,
        border: node.border,
        flags,
        tex_slot,
        uv,
    }
}

/// A plain rectangle in one color.
pub open spec fn stroke_quad(stroke: StrokeShape, color: Quadruple) -> QuadRecipe {
    QuadRecipe {
        corners: stroke.corners,
        size: stroke.size,
        color,
        radius: Quadruple::zeros(),
        border: Quadruple::zeros(),
        flags: 0,
        tex_slot: 0,
        uv: paint_items::no_uv(),
    }
}

fn push_quad(items: &mut Vec<PaintItem>, stack_index: u32, layer: PaintLayer, recipe: QuadRecipe)
    ensures
        paint_items::item_models(final(items)@) == paint_items::item_models(old(items)@).push(
            quad_item(stack_index, layer, recipe),
        ),
{
    items.push(
        PaintItem { z_order: z_order(stack_index, layer), payload: PaintPayload::Quad(recipe) },
    );
    proof {
        lemma_models_push(old(items)@, items@.last());
    }
}

proof fn lemma_models_push(items: Seq<PaintItem>, item: PaintItem)
    ensures
        paint_items::item_models(items.push(item)) == paint_items::item_models(items).push(item@),
{
    assert(paint_items::item_models(items.push(item)) =~= paint_items::item_models(items).push(
        item@,
    ));
}

fn push_stroke(items: &mut Vec<PaintItem>, stack_index: u32, layer: PaintLayer, stroke: &StrokeShape, color: Quadruple)
    ensures
        paint_items::item_models(final(items)@) == paint_items::item_models(old(items)@).push(
            quad_item(stack_index, layer, stroke_quad(*stroke, color)),
        ),
{
    push_quad(
        items,
        stack_index,
        layer,
        QuadRecipe {
            corners: stroke.corners,
            size: stroke.size,
            color,
            radius: Quadruple::zeros(),
            border: Quadruple::zeros(),
            flags: 0,
            tex_slot: 0,
            uv: zero_uvs(),
        },
    );
}

fn push_node_quad(
    items: &mut Vec<PaintItem>,
    layer: PaintLayer,
    node: &NodeShape,
    color: Quadruple,
    flags: u32,
    tex_slot: u32,
    uv: CornerPoints,
)
    ensures
        paint_items::item_models(final(items)@) == paint_items::item_models(old(items)@).push(
            quad_item(node.stack_index, layer, node_quad(*node, color, flags, tex_slot, uv)),
        ),
{
    push_quad(
        items,
        node.stack_index,
        layer,
        QuadRecipe {
            corners: node.corners,
            size: node.size,
            color,
            radius: node.radius,
            border: node.border,
            flags,
            tex_slot,
            uv,
        },
    );
}

// ---------------------------------------------------------------------------
// Backgrounds

/// A visible node with area and a color that is not transparent paints its background.
pub open spec fn background_items(row: BackgroundRow) -> Seq<ItemModel> {
    if !row.node.visible || row.node.empty || transparent(row.color) {
        Seq::empty()
    } else {
        seq![
            quad_item(
                row.node.stack_index,
                PaintLayer::Background,
                node_quad(row.node, row.color, 0, 0, paint_items::no_uv()),
            ),
        ]
    }
}

/// Adds a node's background.
pub fn push_background_item(items: &mut Vec<PaintItem>, row: &BackgroundRow)
    ensures
        paint_items::item_models(final(items)@) == paint_items::item_models(old(items)@)
            + background_items(*row),
{
    if !row.node.visible || row.node.empty || is_transparent(row.color) {
        assert(paint_items::item_models(items@) + Seq::<ItemModel>::empty()
            =~= paint_items::item_models(items@));
        return ;
    }
    push_node_quad(items, PaintLayer::Background, &row.node, row.color, 0, 0, zero_uvs());
    assert(paint_items::item_models(items@) =~= paint_items::item_models(old(items)@)
        + background_items(*row));
}

// ---------------------------------------------------------------------------
// Shadows

/// A shadow layer is painted if it has a color and an area.
pub open spec fn shadow_layer_items(stack_index: u32, layer: ShadowLayer) -> Seq<ItemModel> {
    if transparent(layer.color) || float_bits::at_most(layer.size.x, 0) || float_bits::at_most(
        layer.size.y,
        0,
    ) {
        Seq::empty()
    } else {
        seq![
            ItemModel {
                z_order: painter_order::depth(stack_index, PaintLayer::BoxShadow) as i64,
                payload: PayloadModel::Shadow(
                    ShadowRecipe {
                        corners: layer.corners,
                        uv: layer.uv,
                        bounds: layer.bounds,
                        size: layer.size,
                        color: layer.color,
                        radius: layer.radius,
                        blur: layer.blur,
                    },
                ),
            },
        ]
    }
}

/// The first `n` shadow layers, in their declared order.
pub open spec fn shadow_layers_items(stack_index: u32, layers: Seq<ShadowLayer>, n: nat) -> Seq<ItemModel>
    decreases n,
{
    if n == 0 {
        Seq::empty()
    } else {
        shadow_layers_items(stack_index, layers, (n - 1) as nat) + shadow_layer_items(
            stack_index,
            layers[n - 1],
        )
    }
}

/// A visible node with area paints its shadows.
pub open spec fn shadow_items(row: ShadowRow) -> Seq<ItemModel> {
    if !row.node.visible || row.node.empty {
        Seq::empty()
    } else {
        shadow_layers_items(row.node.stack_index, row.layers@, row.layers@.len())
    }
}

/// Adds a node's shadows.
pub fn push_shadow_items(items: &mut Vec<PaintItem>, row: &ShadowRow)
    ensures
        paint_items::item_models(final(items)@) == paint_items::item_models(old(items)@)
            + shadow_items(*row),
{
    let ghost start = paint_items::item_models(items@);
    assert(start + Seq::<ItemModel>::empty() =~= start);
    if !row.node.visible || row.node.empty {
        return ;
    }
    let stack_index: u32 = row.node.stack_index;
    let mut i: usize = 0;
    while i < row.layers.len()
        invariant
            i <= row.layers@.len(),
            stack_index == row.node.stack_index,
            paint_items::item_models(items@) == start + shadow_layers_items(
                stack_index,
                row.layers@,
                i as nat,
            ),
        decreases row.layers@.len() - i,
    {
        let layer: ShadowLayer = row.layers[i];
        let ghost before = items@;
        let skipped: bool = is_transparent(layer.color) || float_bits::is_at_most(layer.size.x, 0)
            || float_bits::is_at_most(layer.size.y, 0);
        if !skipped {
            items.push(
                PaintItem {
                    z_order: z_order(stack_index, PaintLayer::BoxShadow),
                    payload: PaintPayload::Shadow(
                        ShadowRecipe {
                            corners: layer.corners,
                            uv: layer.uv,
                            bounds: layer.bounds,
                            size: layer.size,
                            color: layer.color,
                            radius: layer.radius,
                            blur: layer.blur,
                        },
                    ),
                },
            );
            proof {
                lemma_models_push(before, items@.last());
            }
        }
        proof {
            assert(paint_items::item_models(items@) =~= start + (shadow_layers_items(
                stack_index,
                row.layers@,
                i as nat,
            ) + shadow_layer_items(stack_index, layer)));
        }
        i = i + 1;
    }
}

// ---------------------------------------------------------------------------
// Borders and outlines

impl BorderColors {
    /// Color of edge 0 to 3: left, top, right, bottom.
    pub open spec fn edge(self, i: int) -> Quadruple {
        if i == 0 {
            self.left
        } else if i == 1 {
            self.top
        } else if i == 2 {
            self.right
        } else {
            self.bottom
        }
    }

    fn edge_color(&self, i: usize) -> (color: Quadruple)
        ensures
            color == self.edge(i as int),
    {
        if i == 0 {
            self.left
        } else if i == 1 {
            self.top
        } else if i == 2 {
            self.right
        } else {
            self.bottom
        }
    }
}

/// Flag of edge 0 to 3: left, top, right, bottom.
pub open spec fn edge_flag(i: int) -> u32 {
    if i == 0 {
        UI_FLAG_BORDER_LEFT
    } else if i == 1 {
        UI_FLAG_BORDER_TOP
    } else if i == 2 {
        UI_FLAG_BORDER_RIGHT
    } else {
        UI_FLAG_BORDER_BOTTOM
    }
}

fn border_edge_flag(i: usize) -> (flag: u32)
    ensures
        flag == edge_flag(i as int),
{
    if i == 0 {
        UI_FLAG_BORDER_LEFT
    } else if i == 1 {
        UI_FLAG_BORDER_TOP
    } else if i == 2 {
        UI_FLAG_BORDER_RIGHT
    } else {
        UI_FLAG_BORDER_BOTTOM
    }
}

/// Whether edge `i` starts a group: it is not transparent, and no edge before it has its color.
pub open spec fn starts_group(colors: BorderColors, i: int) -> bool {
    &&& !transparent(colors.edge(i))
    &&& forall|j: int| 0 <= j < i ==> !same_color(#[trigger] colors.edge(j), colors.edge(i))
}

/// Whether the group that starts at edge `i` covers edge `k`.
pub open spec fn group_covers(colors: BorderColors, i: int, k: int) -> bool {
    k == i || (k > i && same_color(colors.edge(i), colors.edge(k)))
}

/// Flags of the edges below `n` that the group that starts at edge `i` covers.
pub open spec fn group_flags(colors: BorderColors, i: int, n: int) -> u32
    decreases n,
{
    if n <= 0 {
        0
    } else if group_covers(colors, i, n - 1) {
        group_flags(colors, i, n - 1) | edge_flag(n - 1)
    } else {
        group_flags(colors, i, n - 1)
    }
}

/// The border items of the groups that start below edge `n`.
pub open spec fn border_groups(node: NodeShape, colors: BorderColors, n: nat) -> Seq<ItemModel>
    decreases n,
{
    if n == 0 {
        Seq::empty()
    } else {
        let before = border_groups(node, colors, (n - 1) as nat);
        if starts_group(colors, n - 1) {
            before.push(
                quad_item(
                    node.stack_index,
                    PaintLayer::Border,
                    node_quad(
                        node,
                        colors.edge(n - 1),
                        group_flags(colors, n - 1, 4),
                        0,
                        paint_items::no_uv(),
                    ),
                ),
            )
        } else {
            before
        }
    }
}

/// Whether all edges have zero width.
pub open spec fn borderless(border: Quadruple) -> bool {
    float_bits::zero(border.x) && float_bits::zero(border.y) && float_bits::zero(border.z)
        && float_bits::zero(border.w)
}

/// One item per group of equally colored edges of a border that has any width.
pub open spec fn border_items(node: NodeShape, colors: BorderColors) -> Seq<ItemModel> {
    if borderless(node.border) {
        Seq::empty()
    } else {
        border_groups(node, colors, 4)
    }
}

/// Adds a node's border, equally colored edges together.
pub fn push_border_items(items: &mut Vec<PaintItem>, node: &NodeShape, colors: &BorderColors)
    ensures
        paint_items::item_models(final(items)@) == paint_items::item_models(old(items)@)
            + border_items(*node, *colors),
{
    let ghost start = paint_items::item_models(items@);
    assert(start + Seq::<ItemModel>::empty() =~= start);
    if float_bits::is_zero(node.border.x) && float_bits::is_zero(node.border.y)
        && float_bits::is_zero(node.border.z) && float_bits::is_zero(node.border.w) {
        return ;
    }
    let mut i: usize = 0;
    while i < 4
        invariant
            i <= 4,
            paint_items::item_models(items@) == start + border_groups(*node, *colors, i as nat),
        decreases 4 - i,
    {
        let color: Quadruple = colors.edge_color(i);
        let mut fresh: bool = !is_transparent(color);
        let mut j: usize = 0;
        while j < i && fresh
            invariant
                j <= i < 4,
                color == colors.edge(i as int),
                fresh ==> !transparent(color),
                fresh ==> forall|x: int|
                    0 <= x < j ==> !same_color(#[trigger] colors.edge(x), color),
                !fresh ==> !starts_group(*colors, i as int),
            decreases i - j,
        {
            if is_same_color(colors.edge_color(j), color) {
                assert(same_color(colors.edge(j as int), colors.edge(i as int)));
                fresh = false;
            }
            j = j + 1;
        }
        assert(fresh == starts_group(*colors, i as int));
        if fresh {
            let mut flags: u32 = 0;
            let mut k: usize = 0;
            while k < 4
                invariant
                    k <= 4,
                    i < 4,
                    color == colors.edge(i as int),
                    flags == group_flags(*colors, i as int, k as int),
                decreases 4 - k,
            {
                if k == i || (k > i && is_same_color(color, colors.edge_color(k))) {
                    flags = flags | border_edge_flag(k);
                }
                k = k + 1;
            }
            push_node_quad(items, PaintLayer::Border, node, color, flags, 0, zero_uvs());
        }
        assert(paint_items::item_models(items@) =~= start + border_groups(
            *node,
            *colors,
            (i + 1) as nat,
        ));
        i = i + 1;
    }
}

/// Whether all numbers of a color are numbers.
pub open spec fn is_color(color: Quadruple) -> bool {
    !float_bits::is_nan(color.x) && !float_bits::is_nan(color.y) && !float_bits::is_nan(color.z)
        && !float_bits::is_nan(color.w)
}

/// Every border edge that is not transparent is covered by one group and by no
/// other, and that group has its color.
pub proof fn law_each_border_edge_is_painted_once(colors: BorderColors, k: int)
    requires
        0 <= k < 4,
        !transparent(colors.edge(k)),
        is_color(colors.left),
        is_color(colors.top),
        is_color(colors.right),
        is_color(colors.bottom),
    ensures
        exists|i: int|
            0 <= i <= k && #[trigger] starts_group(colors, i) && group_covers(colors, i, k)
                && same_color(colors.edge(i), colors.edge(k)),
        forall|i: int, j: int|
            #![trigger starts_group(colors, i), starts_group(colors, j)]
            0 <= i < 4 && 0 <= j < 4 && starts_group(colors, i) && group_covers(colors, i, k)
                && starts_group(colors, j) && group_covers(colors, j, k) ==> i == j,
    decreases k,
{
    if starts_group(colors, k) {
        assert(group_covers(colors, k, k));
    } else {
        let j = choose|j: int|
            0 <= j < k && same_color(#[trigger] colors.edge(j), colors.edge(k));
        law_each_border_edge_is_painted_once(colors, j);
        let i = choose|i: int|
            0 <= i <= j && #[trigger] starts_group(colors, i) && group_covers(colors, i, j)
                && same_color(colors.edge(i), colors.edge(j));
        assert(same_color(colors.edge(i), colors.edge(k)));
        assert(starts_group(colors, i) && group_covers(colors, i, k));
    }
    assert forall|i: int, j: int|
        #![trigger starts_group(colors, i), starts_group(colors, j)]
        0 <= i < 4 && 0 <= j < 4 && starts_group(colors, i) && group_covers(colors, i, k)
            && starts_group(colors, j) && group_covers(colors, j, k) implies i == j by {
        if i < j {
            assert(same_color(colors.edge(i), colors.edge(j)));
        } else if j < i {
            assert(same_color(colors.edge(j), colors.edge(i)));
        }
    }
}

/// A group's flags hold an edge's flag just if the group covers the edge.
pub proof fn law_group_flags_name_its_edges(colors: BorderColors, i: int, k: int)
    requires
        0 <= i < 4,
        0 <= k < 4,
    ensures
        (group_flags(colors, i, 4) & edge_flag(k) != 0) == group_covers(colors, i, k),
{
    let a = group_covers(colors, i, 0);
    let b = group_covers(colors, i, 1);
    let c = group_covers(colors, i, 2);
    let d = group_covers(colors, i, 3);
    reveal_with_fuel(group_flags, 5);
    let fa: u32 = if a { 0u32 | 2 } else { 0 };
    let fb: u32 = if b { fa | 4 } else { fa };
    let fc: u32 = if c { fb | 8 } else { fb };
    let fd: u32 = if d { fc | 16 } else { fc };
    assert(group_flags(colors, i, 4) == fd);
    assert((fd & 2 != 0) == a && (fd & 4 != 0) == b && (fd & 8 != 0) == c && (fd & 16 != 0) == d)
        by (bit_vector)
        requires
            fa == (if a { 0u32 | 2 } else { 0u32 }),
            fb == (if b { fa | 4 } else { fa }),
            fc == (if c { fb | 8 } else { fb }),
            fd == (if d { fc | 16 } else { fc }),
    ;
}

/// An outline with a positive width and a color is painted as a ring.
pub open spec fn outline_items(node: NodeShape, outline: OutlineShape) -> Seq<ItemModel> {
    if float_bits::at_most(outline.width, 0) || transparent(outline.color) {
        Seq::empty()
    } else {
        seq![
            quad_item(
                node.stack_index,
                PaintLayer::Border,
                QuadRecipe {
                    corners: outline.corners,
                    size: outline.size,
                    color: outline.color,
                    radius: outline.radius,
                    border: Quadruple {
                        x: outline.width,
                        y: outline.width,
                        z: outline.width,
                        w: outline.width,
                    },
                    flags: UI_FLAG_BORDER_ANY,
                    tex_slot: 0,
                    uv: paint_items::no_uv(),
                },
            ),
        ]
    }
}

/// Adds a node's outline.
pub fn push_outline_item(items: &mut Vec<PaintItem>, node: &NodeShape, outline: &OutlineShape)
    ensures
        paint_items::item_models(final(items)@) == paint_items::item_models(old(items)@)
            + outline_items(*node, *outline),
{
    if float_bits::is_at_most(outline.width, 0) || is_transparent(outline.color) {
        assert(paint_items::item_models(items@) + Seq::<ItemModel>::empty()
            =~= paint_items::item_models(items@));
        return ;
    }
    push_quad(
        items,
        node.stack_index,
        PaintLayer::Border,
        QuadRecipe {
            corners: outline.corners,
            size: outline.size,
            color: outline.color,
            radius: outline.radius,
            border: Quadruple {
                x: outline.width,
                y: outline.width,
                z: outline.width,
                w: outline.width,
            },
            flags: UI_FLAG_BORDER_ANY,
            tex_slot: 0,
            uv: zero_uvs(),
        },
    );
    assert(paint_items::item_models(items@) =~= paint_items::item_models(old(items)@)
        + outline_items(*node, *outline));
}

/// A visible node paints its border, then its outline.
pub open spec fn edge_items(row: BorderRow) -> Seq<ItemModel> {
    if !row.node.visible {
        Seq::empty()
    } else {
        let border = match row.border {
            Some(colors) => border_items(row.node, colors),
            None => Seq::empty(),
        };
        match row.outline {
            Some(outline) => border + outline_items(row.node, outline),
            None => border,
        }
    }
}

/// Adds a node's border and outline.
pub fn push_edge_items(items: &mut Vec<PaintItem>, row: &BorderRow)
    ensures
        paint_items::item_models(final(items)@) == paint_items::item_models(old(items)@)
            + edge_items(*row),
{
    let ghost start = paint_items::item_models(items@);
    assert(start + Seq::<ItemModel>::empty() =~= start);
    if !row.node.visible {
        return ;
    }
    if let Some(colors) = &row.border {
        push_border_items(items, &row.node, colors);
    }
    if let Some(outline) = &row.outline {
        push_outline_item(items, &row.node, outline);
    }
    assert(paint_items::item_models(items@) =~= start + edge_items(*row));
}

// ---------------------------------------------------------------------------
// Gradients

/// The segment from a stop to the next one.
pub open spec fn stop_segment(stops: Seq<GradientStop>, hsla: bool, i: int) -> GradientSegment {
    GradientSegment {
        start_color: stops[i].color,
        end_color: stops[i + 1].color,
        start_len: stops[i].position,
        end_len: stops[i + 1].position,
        hsla,
        t: stops[i].t,
    }
}

/// The segments between the first `n + 1` stops, without those of zero length.
pub open spec fn stop_segments(stops: Seq<GradientStop>, hsla: bool, n: nat) -> Seq<GradientSegment>
    decreases n,
{
    if n == 0 {
        Seq::empty()
    } else {
        let before = stop_segments(stops, hsla, (n - 1) as nat);
        if float_bits::equal(stops[n - 1].position, stops[n as int].position) {
            before
        } else {
            before.push(stop_segment(stops, hsla, n - 1))
        }
    }
}

/// A linear gradient: nothing without stops, a plain quad with one, else a
/// segmented quad, unless all segments have zero length.
pub open spec fn linear_gradient_items(node: NodeShape, stops: Seq<GradientStop>, hsla: bool) -> Seq<ItemModel> {
    if stops.len() == 0 {
        Seq::empty()
    } else if stops.len() == 1 {
        seq![
            quad_item(
                node.stack_index,
                PaintLayer::Gradient,
                node_quad(node, stops[0].linear, 0, 0, paint_items::no_uv()),
            ),
        ]
    } else {
        let segments = stop_segments(stops, hsla, (stops.len() - 1) as nat);
        if segments.len() == 0 {
            Seq::empty()
        } else {
            seq![
                ItemModel {
                    z_order: painter_order::depth(node.stack_index, PaintLayer::Gradient) as i64,
                    payload: PayloadModel::Gradient(
                        GradientModel {
                            corners: node.corners,
                            size: node.size,
                            radius: node.radius,
                            border: node.border,
                            base_flags: 0,
                            segments,
                        },
                    ),
                },
            ]
        }
    }
}

/// Adds a linear gradient.
pub fn push_linear_gradient(items: &mut Vec<PaintItem>, node: &NodeShape, stops: &Vec<GradientStop>, hsla: bool)
    ensures
        paint_items::item_models(final(items)@) == paint_items::item_models(old(items)@)
            + linear_gradient_items(*node, stops@, hsla),
{
    let ghost start = paint_items::item_models(items@);
    assert(start + Seq::<ItemModel>::empty() =~= start);
    if stops.len() == 0 {
        return ;
    }
    if stops.len() == 1 {
        push_node_quad(items, PaintLayer::Gradient, node, stops[0].linear, 0, 0, zero_uvs());
        assert(paint_items::item_models(items@) =~= start + linear_gradient_items(*node, stops@, hsla));
        return ;
    }
    let mut segments: GradientSegments = GradientSegments::new();
    let mut i: usize = 0;
    while i < stops.len() - 1
        invariant
            stops@.len() >= 2,
            i <= stops@.len() - 1,
            segments@ == stop_segments(stops@, hsla, i as nat),
        decreases stops@.len() - i,
    {
        let a: GradientStop = stops[i];
        let b: GradientStop = stops[i + 1];
        if !float_bits::is_equal(a.position, b.position) {
            segments.push(
                GradientSegment {
                    start_color: a.color,
                    end_color: b.color,
                    start_len: a.position,
                    end_len: b.position,
                    hsla,
                    t: a.t,
                },
            );
        }
        i = i + 1;
    }
    if segments.len() == 0 {
        return ;
    }
    items.push(
        PaintItem {
            z_order: z_order(node.stack_index, PaintLayer::Gradient),
            payload: PaintPayload::Gradient(
                GradientRecipe {
                    corners: node.corners,
                    size: node.size,
                    radius: node.radius,
                    border: node.border,
                    base_flags: 0,
                    segments,
                },
            ),
        },
    );
    proof {
        lemma_models_push(old(items)@, items@.last());
        assert(paint_items::item_models(items@) =~= start + linear_gradient_items(*node, stops@, hsla));
    }
}

/// The first `n` gradient layers; those that are not linear are left out.
pub open spec fn gradient_layers_items(node: NodeShape, layers: Seq<GradientLayer>, n: nat) -> Seq<ItemModel>
    decreases n,
{
    if n == 0 {
        Seq::empty()
    } else {
        let before = gradient_layers_items(node, layers, (n - 1) as nat);
        match layers[n - 1] {
            GradientLayer::Linear { stops, hsla } => before + linear_gradient_items(
                node,
                stops@,
                hsla,
            ),
            GradientLayer::Unsupported => before,
        }
    }
}

/// A visible node paints its gradients.
pub open spec fn gradient_items(row: GradientRow) -> Seq<ItemModel> {
    if !row.node.visible {
        Seq::empty()
    } else {
        gradient_layers_items(row.node, row.layers@, row.layers@.len())
    }
}

/// Adds a node's gradients.
pub fn push_gradient_items(items: &mut Vec<PaintItem>, row: &GradientRow)
    ensures
        paint_items::item_models(final(items)@) == paint_items::item_models(old(items)@)
            + gradient_items(*row),
{
    let ghost start = paint_items::item_models(items@);
    assert(start + Seq::<ItemModel>::empty() =~= start);
    if !row.node.visible {
        return ;
    }
    let mut i: usize = 0;
    while i < row.layers.len()
        invariant
            i <= row.layers@.len(),
            paint_items::item_models(items@) == start + gradient_layers_items(
                row.node,
                row.layers@,
                i as nat,
            ),
        decreases row.layers@.len() - i,
    {
        match &row.layers[i] {
            GradientLayer::Linear { stops, hsla } => {
                push_linear_gradient(items, &row.node, stops, *hsla);
            },
            GradientLayer::Unsupported => {},
        }
        assert(paint_items::item_models(items@) =~= start + gradient_layers_items(
            row.node,
            row.layers@,
            (i + 1) as nat,
        ));
        i = i + 1;
    }
}

// ---------------------------------------------------------------------------
// Images and materials

/// A visible image with a tint is painted, textured if it is a registered icon.
pub open spec fn image_items(row: ImageRow, slots: Map<u128, u32>) -> Seq<ItemModel> {
    if !row.node.visible || transparent(row.color) {
        Seq::empty()
    } else {
        let quad = if slots.contains_key(row.image) {
            node_quad(row.node, row.color, UI_FLAG_TEXTURED, slots[row.image], paint_items::full_uv())
        } else {
            node_quad(row.node, row.color, 0, 0, paint_items::no_uv())
        };
        seq![quad_item(row.node.stack_index, PaintLayer::Image, quad)]
    }
}

/// Adds a node's image.
pub fn push_image_item(items: &mut Vec<PaintItem>, row: &ImageRow, icons: &IconRegistry)
    ensures
        paint_items::item_models(final(items)@) == paint_items::item_models(old(items)@)
            + image_items(*row, icons.slot_map()),
{
    if !row.node.visible || is_transparent(row.color) {
        assert(paint_items::item_models(items@) + Seq::<ItemModel>::empty()
            =~= paint_items::item_models(items@));
        return ;
    }
    match icons.logical_slot(row.image) {
        Some(slot) => {
            push_node_quad(
                items,
                PaintLayer::Image,
                &row.node,
                row.color,
                UI_FLAG_TEXTURED,
                slot,
                quad_vertex_uvs(),
            );
        },
        None => {
            push_node_quad(items, PaintLayer::Image, &row.node, row.color, 0, 0, zero_uvs());
        },
    }
    assert(paint_items::item_models(items@) =~= paint_items::item_models(old(items)@)
        + image_items(*row, icons.slot_map()));
}

/// A visible node with area paints its material.
pub open spec fn material_items(row: MaterialRow) -> Seq<ItemModel> {
    if !row.node.visible || row.node.empty {
        Seq::empty()
    } else {
        seq![
            ItemModel {
                z_order: painter_order::depth(row.node.stack_index, PaintLayer::Material) as i64,
                payload: PayloadModel::Material(
                    MaterialRecipe {
                        corners: row.node.corners,
                        size: row.node.size,
                        radius: row.node.radius,
                        mode: row.tag.mode,
                        color2: row.tag.data.packed(),
                    },
                ),
            },
        ]
    }
}

/// Adds a node's material.
pub fn push_material_item(items: &mut Vec<PaintItem>, row: &MaterialRow)
    ensures
        paint_items::item_models(final(items)@) == paint_items::item_models(old(items)@)
            + material_items(*row),
{
    if !row.node.visible || row.node.empty {
        assert(paint_items::item_models(items@) + Seq::<ItemModel>::empty()
            =~= paint_items::item_models(items@));
        return ;
    }
    items.push(
        PaintItem {
            z_order: z_order(row.node.stack_index, PaintLayer::Material),
            payload: PaintPayload::Material(
                MaterialRecipe {
                    corners: row.node.corners,
                    size: row.node.size,
                    radius: row.node.radius,
                    mode: row.tag.mode,
                    color2: row.tag.data.to_color2(),
                },
            ),
        },
    );
    proof {
        lemma_models_push(old(items)@, items@.last());
        assert(paint_items::item_models(items@) =~= paint_items::item_models(old(items)@)
            + material_items(*row));
    }
}

// ---------------------------------------------------------------------------
// Text

/// Packs sRGB bytes as the text shader reads them: red lowest, alpha highest.
pub open spec fn packed_rgba(red: u8, green: u8, blue: u8, alpha: u8) -> u32 {
    (red + 256 * green + 65536 * blue + 16777216 * alpha) as u32
}

/// Packs sRGB bytes as the text shader reads them: red lowest, alpha highest.
pub fn pack_text_color(red: u8, green: u8, blue: u8, alpha: u8) -> (packed: u32)
    ensures
        packed == packed_rgba(red, green, blue, alpha),
{
    red as u32 + 256 * (green as u32) + 65536 * (blue as u32) + 16777216 * (alpha as u32)
}

/// The instances of the first `n` glyphs; glyphs without a record or without
/// anything to draw have none.
pub open spec fn run_instances(run: GlyphRun, n: nat) -> Seq<TextGlyphInstance>
    decreases n,
{
    if n == 0 {
        Seq::empty()
    } else {
        let before = run_instances(run, (n - 1) as nat);
        match run.glyphs@[n - 1].record {
            Some(record) => if record.empty {
                before
            } else {
                before.push(
                    TextGlyphInstance {
                        pen_doc: run.glyphs@[n - 1].pen,
                        glyph_id: record.descriptor_index,
                        color: run.packed_color,
                    },
                )
            },
            None => before,
        }
    }
}

/// A run that has instances becomes one item over their range.
pub open spec fn run_items(stack_index: u32, run: GlyphRun, first: nat) -> Seq<ItemModel> {
    let count = run_instances(run, run.glyphs@.len()).len();
    if count == 0 {
        Seq::empty()
    } else {
        seq![
            ItemModel {
                z_order: painter_order::depth(stack_index, PaintLayer::Text) as i64,
                payload: PayloadModel::TextRun(
                    TextRunRecipe {
                        start: first as usize,
                        end: (first + count) as usize,
                        clip: run.clip,
                        blob_id: run.blob_id,
                        font_index: run.font_index,
                        font_px_per_em: run.font_px_per_em,
                    },
                ),
            },
        ]
    }
}

/// Appends a run's glyph instances and the item that draws them.
pub fn push_glyph_run(
    items: &mut Vec<PaintItem>,
    instances: &mut Vec<TextGlyphInstance>,
    stack_index: u32,
    run: &GlyphRun,
)
    ensures
        final(instances)@ == old(instances)@ + run_instances(*run, run.glyphs@.len()),
        paint_items::item_models(final(items)@) == paint_items::item_models(old(items)@)
            + run_items(stack_index, *run, old(instances)@.len()),
{
    let ghost start_items = paint_items::item_models(items@);
    let ghost start_instances = instances@;
    assert(start_items + Seq::<ItemModel>::empty() =~= start_items);
    assert(start_instances + Seq::<TextGlyphInstance>::empty() =~= start_instances);
    let first: usize = instances.len();
    let mut i: usize = 0;
    while i < run.glyphs.len()
        invariant
            i <= run.glyphs@.len(),
            instances@ == start_instances + run_instances(*run, i as nat),
        decreases run.glyphs@.len() - i,
    {
        let glyph: RunGlyph = run.glyphs[i];
        if let Some(record) = glyph.record {
            if !record.empty {
                instances.push(
                    TextGlyphInstance {
                        pen_doc: glyph.pen,
                        glyph_id: record.descriptor_index,
                        color: run.packed_color,
                    },
                );
            }
        }
        assert(instances@ =~= start_instances + run_instances(*run, (i + 1) as nat));
        i = i + 1;
    }
    let end: usize = instances.len();
    if end > first {
        items.push(
            PaintItem {
                z_order: z_order(stack_index, PaintLayer::Text),
                payload: PaintPayload::TextRun(
                    TextRunRecipe {
                        start: first,
                        end,
                        clip: run.clip,
                        blob_id: run.blob_id,
                        font_index: run.font_index,
                        font_px_per_em: run.font_px_per_em,
                    },
                ),
            },
        );
        proof {
            lemma_models_push(old(items)@, items@.last());
            assert(paint_items::item_models(items@) =~= start_items + run_items(
                stack_index,
                *run,
                first as nat,
            ));
        }
    }
}

/// A decoration's quad, in its own color or the text's.
pub open spec fn decoration_items(stack_index: u32, decoration: Option<Decoration>, fallback: Quadruple) -> Seq<ItemModel> {
    match decoration {
        None => Seq::empty(),
        Some(decoration) => seq![
            quad_item(
                stack_index,
                PaintLayer::TextStrikethrough,
                stroke_quad(
                    decoration.stroke,
                    match decoration.color {
                        Some(color) => color,
                        None => fallback,
                    },
                ),
            ),
        ],
    }
}

/// Adds the strikethrough and the underline of a run, in this order.
pub fn push_decoration_items(items: &mut Vec<PaintItem>, stack_index: u32, run: &GlyphRun)
    ensures
        paint_items::item_models(final(items)@) == paint_items::item_models(old(items)@)
            + decoration_items(stack_index, run.strikethrough, run.color) + decoration_items(
            stack_index,
            run.underline,
            run.color,
        ),
{
    let ghost start = paint_items::item_models(items@);
    if let Some(decoration) = &run.strikethrough {
        let color: Quadruple = match decoration.color {
            Some(color) => color,
            None => run.color,
        };
        push_stroke(items, stack_index, PaintLayer::TextStrikethrough, &decoration.stroke, color);
    }
    assert(paint_items::item_models(items@) =~= start + decoration_items(
        stack_index,
        run.strikethrough,
        run.color,
    ));
    let ghost middle = paint_items::item_models(items@);
    if let Some(decoration) = &run.underline {
        let color: Quadruple = match decoration.color {
            Some(color) => color,
            None => run.color,
        };
        push_stroke(items, stack_index, PaintLayer::TextStrikethrough, &decoration.stroke, color);
    }
    assert(paint_items::item_models(items@) =~= middle + decoration_items(
        stack_index,
        run.underline,
        run.color,
    ));
}

/// What the first `n` runs of a text add: their instances and their items.
pub open spec fn runs_painted(stack_index: u32, runs: Seq<GlyphRun>, decorated: bool, first: nat, n: nat) -> (
    Seq<TextGlyphInstance>,
    Seq<ItemModel>,
)
    decreases n,
{
    if n == 0 {
        (Seq::empty(), Seq::empty())
    } else {
        let before = runs_painted(stack_index, runs, decorated, first, (n - 1) as nat);
        let run = runs[n - 1];
        let items = before.1 + run_items(stack_index, run, first + before.0.len());
        (
            before.0 + run_instances(run, run.glyphs@.len()),
            if decorated {
                items + decoration_items(stack_index, run.strikethrough, run.color)
                    + decoration_items(stack_index, run.underline, run.color)
            } else {
                items
            },
        )
    }
}

/// Adds runs of glyphs, each followed by its decorations if the text has any.
fn push_runs(
    items: &mut Vec<PaintItem>,
    instances: &mut Vec<TextGlyphInstance>,
    stack_index: u32,
    runs: &Vec<GlyphRun>,
    decorated: bool,
)
    ensures
        ({
            let added = runs_painted(
                stack_index,
                runs@,
                decorated,
                old(instances)@.len(),
                runs@.len(),
            );
            &&& final(instances)@ == old(instances)@ + added.0
            &&& paint_items::item_models(final(items)@) == paint_items::item_models(old(items)@)
                + added.1
        }),
{
    let ghost start_items = paint_items::item_models(items@);
    let ghost start_instances = instances@;
    assert(start_items + Seq::<ItemModel>::empty() =~= start_items);
    assert(start_instances + Seq::<TextGlyphInstance>::empty() =~= start_instances);
    let mut i: usize = 0;
    while i < runs.len()
        invariant
            i <= runs@.len(),
            ({
                let added = runs_painted(
                    stack_index,
                    runs@,
                    decorated,
                    start_instances.len(),
                    i as nat,
                );
                &&& instances@ == start_instances + added.0
                &&& paint_items::item_models(items@) == start_items + added.1
            }),
        decreases runs@.len() - i,
    {
        let ghost added = runs_painted(stack_index, runs@, decorated, start_instances.len(), i as nat);
        push_glyph_run(items, instances, stack_index, &runs[i]);
        if decorated {
            push_decoration_items(items, stack_index, &runs[i]);
        }
        proof {
            let now = runs_painted(
                stack_index,
                runs@,
                decorated,
                start_instances.len(),
                (i + 1) as nat,
            );
            assert(instances@ =~= start_instances + now.0);
            assert(paint_items::item_models(items@) =~= start_items + now.1);
        }
        i = i + 1;
    }
}

/// What a text adds: instances and items. Nothing if its node is invisible or has no area.
pub open spec fn text_painted(row: TextRow, first: nat) -> (Seq<TextGlyphInstance>, Seq<ItemModel>) {
    if !row.node.visible || row.node.empty {
        (Seq::empty(), Seq::empty())
    } else {
        runs_painted(row.node.stack_index, row.runs@, true, first, row.runs@.len())
    }
}

/// Adds a node's text.
pub fn push_text_items(items: &mut Vec<PaintItem>, instances: &mut Vec<TextGlyphInstance>, row: &TextRow)
    ensures
        final(instances)@ == old(instances)@ + text_painted(*row, old(instances)@.len()).0,
        paint_items::item_models(final(items)@) == paint_items::item_models(old(items)@)
            + text_painted(*row, old(instances)@.len()).1,
{
    if !row.node.visible || row.node.empty {
        assert(paint_items::item_models(items@) + Seq::<ItemModel>::empty()
            =~= paint_items::item_models(items@));
        assert(instances@ + Seq::<TextGlyphInstance>::empty() =~= instances@);
        return ;
    }
    push_runs(items, instances, row.node.stack_index, &row.runs, true);
}

/// One quad per rectangle.
pub open spec fn stroke_items(
    stack_index: u32,
    layer: PaintLayer,
    strokes: Seq<StrokeShape>,
    color: Quadruple,
) -> Seq<ItemModel> {
    strokes.map_values(
        |stroke: StrokeShape| quad_item(stack_index, layer, stroke_quad(stroke, color)),
    )
}

fn push_strokes(items: &mut Vec<PaintItem>, stack_index: u32, layer: PaintLayer, strokes: &Vec<StrokeShape>, color: Quadruple)
    ensures
        paint_items::item_models(final(items)@) == paint_items::item_models(old(items)@)
            + stroke_items(stack_index, layer, strokes@, color),
{
    let ghost start = paint_items::item_models(items@);
    let mut i: usize = 0;
    while i < strokes.len()
        invariant
            i <= strokes@.len(),
            paint_items::item_models(items@) =~= start + stroke_items(
                stack_index,
                layer,
                strokes@,
                color,
            ).take(i as int),
        decreases strokes@.len() - i,
    {
        push_stroke(items, stack_index, layer, &strokes[i], color);
        i = i + 1;
    }
}

/// The color of the selection, by whether the text has the focus.
pub open spec fn selection_color(row: EditableTextRow, focused: bool) -> Quadruple {
    if focused {
        row.selection_color
    } else {
        row.unfocused_selection_color
    }
}

/// The selection, then the cursor, then the underlines of text being composed.
pub open spec fn editable_decorations(row: EditableTextRow, focused: bool) -> Seq<ItemModel> {
    let stack_index = row.node.stack_index;
    let selection = if transparent(selection_color(row, focused)) {
        Seq::empty()
    } else {
        stroke_items(
            stack_index,
            PaintLayer::TextSelection,
            row.selection@,
            selection_color(row, focused),
        )
    };
    let cursor = match row.cursor {
        Some(cursor) => if cursor.shown && !cursor.empty && !transparent(row.cursor_color) {
            seq![
                quad_item(
                    stack_index,
                    PaintLayer::TextCursor,
                    stroke_quad(cursor.stroke, row.cursor_color),
                ),
            ]
        } else {
            Seq::empty()
        },
        None => Seq::empty(),
    };
    selection + cursor + stroke_items(
        stack_index,
        PaintLayer::TextStrikethrough,
        row.preedit_underlines@,
        row.text_color,
    )
}

/// Adds the selection, cursor and composition underlines of an editable text.
pub fn push_editable_text_decoration_items(items: &mut Vec<PaintItem>, row: &EditableTextRow, focused: bool)
    ensures
        paint_items::item_models(final(items)@) == paint_items::item_models(old(items)@)
            + editable_decorations(*row, focused),
{
    let ghost start = paint_items::item_models(items@);
    let stack_index: u32 = row.node.stack_index;
    let color: Quadruple = if focused {
        row.selection_color
    } else {
        row.unfocused_selection_color
    };
    if !is_transparent(color) {
        push_strokes(items, stack_index, PaintLayer::TextSelection, &row.selection, color);
    }
    if let Some(cursor) = &row.cursor {
        if cursor.shown && !cursor.empty && !is_transparent(row.cursor_color) {
            push_stroke(items, stack_index, PaintLayer::TextCursor, &cursor.stroke, row.cursor_color);
        }
    }
    push_strokes(
        items,
        stack_index,
        PaintLayer::TextStrikethrough,
        &row.preedit_underlines,
        row.text_color,
    );
    assert(paint_items::item_models(items@) =~= start + editable_decorations(*row, focused));
}

/// What an editable text adds: instances and items. Nothing if its node is
/// invisible or has no area.
pub open spec fn editable_painted(row: EditableTextRow, focus: Option<u64>, first: nat) -> (
    Seq<TextGlyphInstance>,
    Seq<ItemModel>,
) {
    if !row.node.visible || row.node.empty {
        (Seq::empty(), Seq::empty())
    } else {
        let runs = runs_painted(row.node.stack_index, row.runs@, false, first, row.runs@.len());
        (runs.0, runs.1 + editable_decorations(row, focus == Some(row.entity)))
    }
}

/// Adds a node's editable text.
pub fn push_editable_text_items(
    items: &mut Vec<PaintItem>,
    instances: &mut Vec<TextGlyphInstance>,
    row: &EditableTextRow,
    focus: Option<u64>,
)
    ensures
        final(instances)@ == old(instances)@ + editable_painted(
            *row,
            focus,
            old(instances)@.len(),
        ).0,
        paint_items::item_models(final(items)@) == paint_items::item_models(old(items)@)
            + editable_painted(*row, focus, old(instances)@.len()).1,
{
    if !row.node.visible || row.node.empty {
        assert(paint_items::item_models(items@) + Seq::<ItemModel>::empty()
            =~= paint_items::item_models(items@));
        assert(instances@ + Seq::<TextGlyphInstance>::empty() =~= instances@);
        return ;
    }
    let focused: bool = match focus {
        Some(entity) => entity == row.entity,
        None => false,
    };
    push_runs(items, instances, row.node.stack_index, &row.runs, false);
    push_editable_text_decoration_items(items, row, focused);
    assert(paint_items::item_models(items@) =~= paint_items::item_models(old(items)@)
        + editable_painted(*row, focus, old(instances)@.len()).1);
}

// ---------------------------------------------------------------------------
// The walker

/// Per-frame UI vertices and painter-order batches.
pub struct UiPaintList {
    /// Four vertices per quad, in painter's order.
    pub vertices: Vec<UiVertex>,
    /// Quad ranges split around interleaved text and shadows.
    pub batches: Vec<UiBatch>,
    /// Number of quads in `vertices`.
    pub quad_count: usize,
    /// Box-shadow vertices in painter's order.
    pub shadow_vertices: Vec<UiShadowVertex>,
    /// Shadow quad ranges.
    pub shadow_batches: Vec<UiShadowBatch>,
    /// Number of quads in `shadow_vertices`.
    pub shadow_quad_count: usize,
}

impl Default for UiPaintList {
    fn default() -> (list: UiPaintList)
        ensures
            list.vertices@ == Seq::<UiVertex>::empty(),
            list.batches@ == Seq::<UiBatch>::empty(),
            list.quad_count == 0,
            list.shadow_vertices@ == Seq::<UiShadowVertex>::empty(),
            list.shadow_batches@ == Seq::<UiShadowBatch>::empty(),
            list.shadow_quad_count == 0,
    {
        UiPaintList {
            vertices: Vec::new(),
            batches: Vec::new(),
            quad_count: 0,
            shadow_vertices: Vec::new(),
            shadow_batches: Vec::new(),
            shadow_quad_count: 0,
        }
    }
}

/// Per-frame text instances and painter-order batches.
pub struct TextPaintList {
    pub instances: Vec<TextGlyphInstance>,
    pub batches: Vec<TextRunBatch>,
}

impl Default for TextPaintList {
    fn default() -> (list: TextPaintList)
        ensures
            list.instances@ == Seq::<TextGlyphInstance>::empty(),
            list.batches@ == Seq::<TextRunBatch>::empty(),
    {
        TextPaintList { instances: Vec::new(), batches: Vec::new() }
    }
}

/// The items of the first `n` rows, given what each row adds.
pub open spec fn rows_items<R>(rows: Seq<R>, added: spec_fn(R) -> Seq<ItemModel>, n: nat) -> Seq<ItemModel>
    decreases n,
{
    if n == 0 {
        Seq::empty()
    } else {
        rows_items(rows, added, (n - 1) as nat) + added(rows[n - 1])
    }
}

/// What the first `n` texts add.
pub open spec fn texts_painted(rows: Seq<TextRow>, n: nat) -> (Seq<TextGlyphInstance>, Seq<ItemModel>)
    decreases n,
{
    if n == 0 {
        (Seq::empty(), Seq::empty())
    } else {
        let before = texts_painted(rows, (n - 1) as nat);
        let own = text_painted(rows[n - 1], before.0.len());
        (before.0 + own.0, before.1 + own.1)
    }
}

/// What the first `n` editable texts add behind `first` instances.
pub open spec fn editables_painted(rows: Seq<EditableTextRow>, focus: Option<u64>, first: nat, n: nat) -> (
    Seq<TextGlyphInstance>,
    Seq<ItemModel>,
)
    decreases n,
{
    if n == 0 {
        (Seq::empty(), Seq::empty())
    } else {
        let before = editables_painted(rows, focus, first, (n - 1) as nat);
        let own = editable_painted(rows[n - 1], focus, first + before.0.len());
        (before.0 + own.0, before.1 + own.1)
    }
}

/// The glyph instances and the paint items of a frame, before sorting:
/// backgrounds, shadows, borders and outlines, gradients, images, materials,
/// texts, editable texts.
pub open spec fn frame_painted(frame: UiFrame, slots: Map<u128, u32>) -> (
    Seq<TextGlyphInstance>,
    Seq<ItemModel>,
) {
    let texts = texts_painted(frame.texts@, frame.texts@.len());
    let editables = editables_painted(
        frame.editable_texts@,
        frame.focus,
        texts.0.len(),
        frame.editable_texts@.len(),
    );
    (
        texts.0 + editables.0,
        rows_items(
            frame.backgrounds@,
            |row: BackgroundRow| background_items(row),
            frame.backgrounds@.len(),
        ) + rows_items(
            frame.shadows@,
            |row: ShadowRow| shadow_items(row),
            frame.shadows@.len(),
        ) + rows_items(frame.borders@, |row: BorderRow| edge_items(row), frame.borders@.len())
            + rows_items(
            frame.gradients@,
            |row: GradientRow| gradient_items(row),
            frame.gradients@.len(),
        ) + rows_items(
            frame.images@,
            |row: ImageRow| image_items(row, slots),
            frame.images@.len(),
        ) + rows_items(
            frame.materials@,
            |row: MaterialRow| material_items(row),
            frame.materials@.len(),
        ) + texts.1 + editables.1,
    )
}

/// Whether the lists hold finished streams.
pub open spec fn lists_hold(
    list: UiPaintList,
    text: TextPaintList,
    streams: paint_batches::StreamsModel,
) -> bool {
    &&& list.vertices@ == streams.vertices
    &&& list.batches@ == streams.batches
    &&& list.quad_count == streams.vertices.len() / 4
    &&& list.shadow_vertices@ == streams.shadow_vertices
    &&& list.shadow_batches@ == streams.shadow_batches
    &&& list.shadow_quad_count == streams.shadow_vertices.len() / 4
    &&& text.batches@ == streams.text_batches
}

/// Whether the lists hold these items, painted in painter's order.
pub open spec fn lists_hold_items(list: UiPaintList, text: TextPaintList, items: Seq<ItemModel>) -> bool {
    exists|order: Seq<usize>|
        #[trigger] painter_order::is_painter_order(
            paint_items::item_depths(items),
            0,
            items.len() as int,
            order,
        ) && lists_hold(
            list,
            text,
            paint_batches::streams_after(items, order, items.len()).finish(),
        )
}

/// Whether the order values of a frame's batches can be told apart.
pub open spec fn frame_fits(frame: UiFrame, slots: Map<u128, u32>) -> bool {
    let items = frame_painted(frame, slots).1;
    forall|order: Seq<usize>| #[trigger]
        painter_order::is_painter_order(
            paint_items::item_depths(items),
            0,
            items.len() as int,
            order,
        ) ==> paint_batches::orders_fit(items, order)
}

/// A frame of no more items than there are order values fits, whatever it shows.
pub proof fn law_frames_of_few_items_fit(frame: UiFrame, slots: Map<u128, u32>)
    requires
        frame_painted(frame, slots).1.len() <= u32::MAX,
    ensures
        frame_fits(frame, slots),
{
    let items = frame_painted(frame, slots).1;
    assert forall|order: Seq<usize>| #[trigger]
        painter_order::is_painter_order(
            paint_items::item_depths(items),
            0,
            items.len() as int,
            order,
        ) implies paint_batches::orders_fit(items, order) by {
        paint_batches::law_orders_of_few_items_fit(items, order);
    }
}

/// Collects the boxes of a frame: everything but its text.
fn collect_boxes(frame: &UiFrame, icons: &IconRegistry) -> (items: Vec<PaintItem>)
    ensures
        paint_items::item_models(items@) == rows_items(
            frame.backgrounds@,
            |row: BackgroundRow| background_items(row),
            frame.backgrounds@.len(),
        ) + rows_items(
            frame.shadows@,
            |row: ShadowRow| shadow_items(row),
            frame.shadows@.len(),
        ) + rows_items(frame.borders@, |row: BorderRow| edge_items(row), frame.borders@.len())
            + rows_items(
            frame.gradients@,
            |row: GradientRow| gradient_items(row),
            frame.gradients@.len(),
        ) + rows_items(
            frame.images@,
            |row: ImageRow| image_items(row, icons.slot_map()),
            frame.images@.len(),
        ) + rows_items(
            frame.materials@,
            |row: MaterialRow| material_items(row),
            frame.materials@.len(),
        ),
{
    let mut items: Vec<PaintItem> = Vec::new();
    let mut i: usize = 0;
    let ghost added = |row: BackgroundRow| background_items(row);
    assert(paint_items::item_models(items@) =~= Seq::<ItemModel>::empty());
    while i < frame.backgrounds.len()
        invariant
            i <= frame.backgrounds@.len(),
            added == (|row: BackgroundRow| background_items(row)),
            paint_items::item_models(items@) == rows_items(frame.backgrounds@, added, i as nat),
        decreases frame.backgrounds@.len() - i,
    {
        push_background_item(&mut items, &frame.backgrounds[i]);
        i = i + 1;
    }
    let ghost start = paint_items::item_models(items@);
    let ghost added = |row: ShadowRow| shadow_items(row);
    let mut i: usize = 0;
    assert(start + Seq::<ItemModel>::empty() =~= start);
    while i < frame.shadows.len()
        invariant
            i <= frame.shadows@.len(),
            added == (|row: ShadowRow| shadow_items(row)),
            paint_items::item_models(items@) == start + rows_items(frame.shadows@, added, i as nat),
        decreases frame.shadows@.len() - i,
    {
        push_shadow_items(&mut items, &frame.shadows[i]);
        assert(paint_items::item_models(items@) =~= start + rows_items(
            frame.shadows@,
            added,
            (i + 1) as nat,
        ));
        i = i + 1;
    }
    let ghost start = paint_items::item_models(items@);
    let ghost added = |row: BorderRow| edge_items(row);
    let mut i: usize = 0;
    assert(start + Seq::<ItemModel>::empty() =~= start);
    while i < frame.borders.len()
        invariant
            i <= frame.borders@.len(),
            added == (|row: BorderRow| edge_items(row)),
            paint_items::item_models(items@) == start + rows_items(frame.borders@, added, i as nat),
        decreases frame.borders@.len() - i,
    {
        push_edge_items(&mut items, &frame.borders[i]);
        assert(paint_items::item_models(items@) =~= start + rows_items(
            frame.borders@,
            added,
            (i + 1) as nat,
        ));
        i = i + 1;
    }
    let ghost start = paint_items::item_models(items@);
    let ghost added = |row: GradientRow| gradient_items(row);
    let mut i: usize = 0;
    assert(start + Seq::<ItemModel>::empty() =~= start);
    while i < frame.gradients.len()
        invariant
            i <= frame.gradients@.len(),
            added == (|row: GradientRow| gradient_items(row)),
            paint_items::item_models(items@) == start + rows_items(
                frame.gradients@,
                added,
                i as nat,
            ),
        decreases frame.gradients@.len() - i,
    {
        push_gradient_items(&mut items, &frame.gradients[i]);
        assert(paint_items::item_models(items@) =~= start + rows_items(
            frame.gradients@,
            added,
            (i + 1) as nat,
        ));
        i = i + 1;
    }
    let ghost start = paint_items::item_models(items@);
    let ghost slots = icons.slot_map();
    let ghost added = |row: ImageRow| image_items(row, slots);
    let mut i: usize = 0;
    assert(start + Seq::<ItemModel>::empty() =~= start);
    while i < frame.images.len()
        invariant
            i <= frame.images@.len(),
            slots == icons.slot_map(),
            added == (|row: ImageRow| image_items(row, slots)),
            paint_items::item_models(items@) == start + rows_items(frame.images@, added, i as nat),
        decreases frame.images@.len() - i,
    {
        push_image_item(&mut items, &frame.images[i], icons);
        assert(paint_items::item_models(items@) =~= start + rows_items(
            frame.images@,
            added,
            (i + 1) as nat,
        ));
        i = i + 1;
    }
    let ghost start = paint_items::item_models(items@);
    let ghost added = |row: MaterialRow| material_items(row);
    let mut i: usize = 0;
    assert(start + Seq::<ItemModel>::empty() =~= start);
    while i < frame.materials.len()
        invariant
            i <= frame.materials@.len(),
            added == (|row: MaterialRow| material_items(row)),
            paint_items::item_models(items@) == start + rows_items(
                frame.materials@,
                added,
                i as nat,
            ),
        decreases frame.materials@.len() - i,
    {
        push_material_item(&mut items, &frame.materials[i]);
        assert(paint_items::item_models(items@) =~= start + rows_items(
            frame.materials@,
            added,
            (i + 1) as nat,
        ));
        i = i + 1;
    }
    items
}

/// Collects the texts of a frame behind its boxes.
fn collect_texts(frame: &UiFrame, items: &mut Vec<PaintItem>) -> (instances: Vec<TextGlyphInstance>)
    ensures
        ({
            let texts = texts_painted(frame.texts@, frame.texts@.len());
            let editables = editables_painted(
                frame.editable_texts@,
                frame.focus,
                texts.0.len(),
                frame.editable_texts@.len(),
            );
            &&& instances@ == texts.0 + editables.0
            &&& paint_items::item_models(final(items)@) == paint_items::item_models(old(items)@)
                + texts.1 + editables.1
        }),
{
    let ghost start = paint_items::item_models(items@);
    let mut instances: Vec<TextGlyphInstance> = Vec::new();
    let mut i: usize = 0;
    assert(start + Seq::<ItemModel>::empty() =~= start);
    while i < frame.texts.len()
        invariant
            i <= frame.texts@.len(),
            instances@ == texts_painted(frame.texts@, i as nat).0,
            paint_items::item_models(items@) == start + texts_painted(frame.texts@, i as nat).1,
        decreases frame.texts@.len() - i,
    {
        push_text_items(items, &mut instances, &frame.texts[i]);
        assert(paint_items::item_models(items@) =~= start + texts_painted(
            frame.texts@,
            (i + 1) as nat,
        ).1);
        i = i + 1;
    }
    let ghost texts = texts_painted(frame.texts@, frame.texts@.len());
    let ghost first = texts.0.len();
    let ghost middle = paint_items::item_models(items@);
    let mut i: usize = 0;
    assert(middle + Seq::<ItemModel>::empty() =~= middle);
    assert(texts.0 + Seq::<TextGlyphInstance>::empty() =~= texts.0);
    while i < frame.editable_texts.len()
        invariant
            i <= frame.editable_texts@.len(),
            first == texts.0.len(),
            instances@ == texts.0 + editables_painted(
                frame.editable_texts@,
                frame.focus,
                first,
                i as nat,
            ).0,
            paint_items::item_models(items@) == middle + editables_painted(
                frame.editable_texts@,
                frame.focus,
                first,
                i as nat,
            ).1,
        decreases frame.editable_texts@.len() - i,
    {
        push_editable_text_items(items, &mut instances, &frame.editable_texts[i], frame.focus);
        proof {
            let now = editables_painted(
                frame.editable_texts@,
                frame.focus,
                first,
                (i + 1) as nat,
            );
            assert(instances@ =~= texts.0 + now.0);
            assert(paint_items::item_models(items@) =~= middle + now.1);
        }
        i = i + 1;
    }
    instances
}

/// Paints a frame: collects its items, sorts them into painter's order, and
/// batches them. The lists' earlier contents are replaced.
pub fn paint_ui_system(list: &mut UiPaintList, text_list: &mut TextPaintList, frame: &UiFrame, icons: &IconRegistry)
    requires
        frame_fits(*frame, icons.slot_map()),
    ensures
        final(text_list).instances@ == frame_painted(*frame, icons.slot_map()).0,
        lists_hold_items(
            *final(list),
            *final(text_list),
            frame_painted(*frame, icons.slot_map()).1,
        ),
{
    let mut items: Vec<PaintItem> = collect_boxes(frame, icons);
    let instances: Vec<TextGlyphInstance> = collect_texts(frame, &mut items);
    let ghost models = paint_items::item_models(items@);
    assert(models =~= frame_painted(*frame, icons.slot_map()).1);

    let mut depths: Vec<i64> = Vec::new();
    let mut i: usize = 0;
    while i < items.len()
        invariant
            i <= items@.len(),
            models == paint_items::item_models(items@),
            depths@ =~= paint_items::item_depths(models).take(i as int),
        decreases items@.len() - i,
    {
        depths.push(items[i].z_order);
        i = i + 1;
    }
    assert(depths@ =~= paint_items::item_depths(models));
    let order: Vec<usize> = painter_order::painter_order(&depths);
    let streams: PaintStreams = build_streams(&items, &order);
    list.quad_count = streams.vertices.len() / 4;
    list.shadow_quad_count = streams.shadow_vertices.len() / 4;
    list.vertices = streams.vertices;
    list.batches = streams.batches;
    list.shadow_vertices = streams.shadow_vertices;
    list.shadow_batches = streams.shadow_batches;
    text_list.instances = instances;
    text_list.batches = streams.text_batches;
    assert(lists_hold(
        *list,
        *text_list,
        paint_batches::streams_after(models, order@, models.len()).finish(),
    ));
    assert(painter_order::is_painter_order(
        paint_items::item_depths(models),
        0,
        models.len() as int,
        order@,
    ));
}

} // verus!
