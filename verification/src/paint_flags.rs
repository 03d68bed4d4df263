//! What the flags of painted vertices can say.
//!
//! The shaders read a quad as textured or as a gradient, never as both, and a
//! shading mode stands alone. Here that is shown of everything that is painted.

use vstd::prelude::*;

use crate::abi::{
    UiVertex, UI_FLAG_BORDER_ANY, UI_FLAG_FILL_END, UI_FLAG_FILL_START, UI_FLAG_GRADIENT,
    UI_FLAG_GRADIENT_SPACE_HSLA, UI_FLAG_TEXTURED, UI_MODE_MASK, UI_MODE_SHIFT,
};
use crate::paint;
use crate::paint_batches;
use crate::paint_items;
use crate::paint_items::{GradientModel, ItemModel, PayloadModel, QuadCorners};
use crate::painter_order;

verus! {

/// The flags below the shading mode.
pub const STANDARD_FLAGS: u32 = 0xffff;

/// Whether the shaders can tell what flags ask for: not for an icon and a
/// gradient at once, and for a shading mode only without any of the others.
pub open spec fn is_sound(flags: u32) -> bool {
    &&& flags & UI_FLAG_TEXTURED == 0 || flags & UI_FLAG_GRADIENT == 0
    &&& flags & UI_MODE_MASK == 0 || flags & STANDARD_FLAGS == 0
}

/// The shading mode that flags ask for; zero is that of plain quads.
pub open spec fn mode_of(flags: u32) -> u32 {
    (flags & UI_MODE_MASK) >> UI_MODE_SHIFT
}

/// Whether an item's flags are within what its kind can ask for.
pub open spec fn item_is_sound(item: ItemModel) -> bool {
    match item.payload {
        PayloadModel::Quad(recipe) => recipe.flags & !(UI_FLAG_TEXTURED | UI_FLAG_BORDER_ANY) == 0,
        PayloadModel::Gradient(recipe) => recipe.base_flags == 0,
        _ => true,
    }
}

/// Whether the flags of all items are.
pub open spec fn items_are_sound(items: Seq<ItemModel>) -> bool {
    forall|i: int| 0 <= i < items.len() ==> item_is_sound(#[trigger] items[i])
}

/// Whether the flags of all vertices are sound.
pub open spec fn vertices_are_sound(vertices: Seq<UiVertex>) -> bool {
    forall|i: int| 0 <= i < vertices.len() ==> is_sound((#[trigger] vertices[i]).flags)
}

// ---------------------------------------------------------------------------
// Vertices of one item

proof fn lemma_quad_flags(flags: u32)
    requires
        flags & !(UI_FLAG_TEXTURED | UI_FLAG_BORDER_ANY) == 0,
    ensures
        is_sound(flags),
        mode_of(flags) == 0,
{
    assert(flags & 0x20 == 0 && flags & 0xf_0000 == 0 && (flags & 0xf_0000) >> 16 == 0)
        by (bit_vector)
        requires
            flags & !(0x1u32 | 0x1eu32) == 0,
    ;
}

proof fn lemma_gradient_flags(flags: u32)
    requires
        flags & !(UI_FLAG_GRADIENT | UI_FLAG_GRADIENT_SPACE_HSLA | UI_FLAG_FILL_START
            | UI_FLAG_FILL_END) == 0,
    ensures
        is_sound(flags),
        mode_of(flags) == 0,
{
    assert(flags & 0x1 == 0 && flags & 0xf_0000 == 0 && (flags & 0xf_0000) >> 16 == 0)
        by (bit_vector)
        requires
            flags & !(0x20u32 | 0x40u32 | 0x80u32 | 0x100u32) == 0,
    ;
}

/// Flags that are put together stay within what both are within.
proof fn lemma_joined_flags(a: u32, b: u32, outside: u32)
    by (bit_vector)
    requires
        a & outside == 0,
        b & outside == 0,
    ensures
        (a | b) & outside == 0,
{
}

proof fn lemma_segment_flags(segment: crate::segments::GradientSegment, index: int, count: int)
    ensures
        is_sound(paint_items::segment_flags(0, segment, index, count)),
        mode_of(paint_items::segment_flags(0, segment, index, count)) == 0,
{
    let outside = !(UI_FLAG_GRADIENT | UI_FLAG_GRADIENT_SPACE_HSLA | UI_FLAG_FILL_START
        | UI_FLAG_FILL_END);
    assert(0u32 & !(0x20u32 | 0x40 | 0x80 | 0x100) == 0 && 0x20u32 & !(0x20u32 | 0x40 | 0x80
        | 0x100) == 0 && 0x40u32 & !(0x20u32 | 0x40 | 0x80 | 0x100) == 0 && 0x80u32 & !(0x20u32
        | 0x40 | 0x80 | 0x100) == 0 && 0x100u32 & !(0x20u32 | 0x40 | 0x80 | 0x100) == 0)
        by (bit_vector);
    let gradient = 0u32 | UI_FLAG_GRADIENT;
    lemma_joined_flags(0, UI_FLAG_GRADIENT, outside);
    lemma_joined_flags(gradient, UI_FLAG_GRADIENT_SPACE_HSLA, outside);
    let space = if segment.hsla {
        gradient | UI_FLAG_GRADIENT_SPACE_HSLA
    } else {
        gradient
    };
    lemma_joined_flags(space, UI_FLAG_FILL_START, outside);
    lemma_joined_flags(space, UI_FLAG_FILL_END, outside);
    lemma_joined_flags(space | UI_FLAG_FILL_START, UI_FLAG_FILL_END, outside);
    lemma_gradient_flags(paint_items::segment_flags(0, segment, index, count));
}

/// The flags of a material ask for its mode and nothing else.
pub proof fn law_materials_ask_for_their_mode(mode: u32)
    requires
        mode < 16,
    ensures
        is_sound(mode << UI_MODE_SHIFT),
        mode_of(mode << UI_MODE_SHIFT) == mode,
{
    assert((mode << 16u32) & 0xffff == 0 && ((mode << 16u32) & 0xf_0000) >> 16u32 == mode && (mode
        << 16u32) & 0x20 == 0) by (bit_vector)
        requires
            mode < 16,
    ;
}

proof fn lemma_material_flags(mode: u32)
    ensures
        is_sound(mode << UI_MODE_SHIFT),
{
    assert((mode << 16u32) & 0xffff == 0 && (mode << 16u32) & 0x20 == 0) by (bit_vector);
}

proof fn lemma_segments_sound(recipe: GradientModel, c: QuadCorners, n: nat)
    requires
        recipe.base_flags == 0,
        n <= recipe.segments.len(),
    ensures
        vertices_are_sound(paint_items::segments_vertices(recipe, c, n)),
    decreases n,
{
    if n > 0 {
        lemma_segments_sound(recipe, c, (n - 1) as nat);
        lemma_segment_flags(recipe.segments[n - 1], n - 1, recipe.segments.len() as int);
        let before = paint_items::segments_vertices(recipe, c, (n - 1) as nat);
        let own = paint_items::segment_vertices(recipe, c, n - 1);
        assert(vertices_are_sound(own));
        lemma_vertices_join(before, own);
    }
}

proof fn lemma_vertices_join(a: Seq<UiVertex>, b: Seq<UiVertex>)
    requires
        vertices_are_sound(a),
        vertices_are_sound(b),
    ensures
        vertices_are_sound(a + b),
{
    assert forall|i: int| 0 <= i < (a + b).len() implies is_sound((#[trigger] (a + b)[i]).flags) by {
        if i < a.len() {
            assert((a + b)[i] == a[i]);
        } else {
            assert((a + b)[i] == b[i - a.len()]);
        }
    }
}

/// Sound items leave sound vertices.
proof fn lemma_streams_sound(items: Seq<ItemModel>, order: Seq<usize>, n: nat)
    requires
        items_are_sound(items),
        n <= order.len(),
        forall|i: int| 0 <= i < order.len() ==> #[trigger] order[i] < items.len(),
    ensures
        vertices_are_sound(paint_batches::streams_after(items, order, n).vertices),
    decreases n,
{
    if n > 0 {
        lemma_streams_sound(items, order, (n - 1) as nat);
        let before = paint_batches::streams_after(items, order, (n - 1) as nat);
        let item = items[order[n - 1] as int];
        assert(item_is_sound(item));
        match item.payload {
            PayloadModel::Quad(recipe) => {
                lemma_quad_flags(recipe.flags);
                lemma_vertices_join(before.vertices, paint_items::quad_vertices(recipe));
            },
            PayloadModel::Gradient(recipe) => {
                if let Some(c) = recipe.corners {
                    lemma_segments_sound(recipe, c, recipe.segments.len());
                }
                lemma_vertices_join(before.vertices, paint_items::gradient_vertices(recipe));
            },
            PayloadModel::Material(recipe) => {
                lemma_material_flags(recipe.mode);
                lemma_vertices_join(before.vertices, paint_items::material_vertices(recipe));
            },
            _ => {},
        }
    }
}

// ---------------------------------------------------------------------------
// Items of a frame

proof fn lemma_items_join(a: Seq<ItemModel>, b: Seq<ItemModel>)
    requires
        items_are_sound(a),
        items_are_sound(b),
    ensures
        items_are_sound(a + b),
{
    assert forall|i: int| 0 <= i < (a + b).len() implies item_is_sound(#[trigger] (a + b)[i]) by {
        if i < a.len() {
            assert((a + b)[i] == a[i]);
        } else {
            assert((a + b)[i] == b[i - a.len()]);
        }
    }
}

proof fn lemma_rows_sound<R>(rows: Seq<R>, added: spec_fn(R) -> Seq<ItemModel>, n: nat)
    requires
        n <= rows.len(),
        forall|row: R| items_are_sound(#[trigger] added(row)),
    ensures
        items_are_sound(paint::rows_items(rows, added, n)),
    decreases n,
{
    if n > 0 {
        lemma_rows_sound(rows, added, (n - 1) as nat);
        lemma_items_join(paint::rows_items(rows, added, (n - 1) as nat), added(rows[n - 1]));
    }
}

proof fn lemma_plain_flags()
    ensures
        0u32 & !(UI_FLAG_TEXTURED | UI_FLAG_BORDER_ANY) == 0,
        UI_FLAG_TEXTURED & !(UI_FLAG_TEXTURED | UI_FLAG_BORDER_ANY) == 0,
        UI_FLAG_BORDER_ANY & !(UI_FLAG_TEXTURED | UI_FLAG_BORDER_ANY) == 0,
        forall|i: int| paint::edge_flag(i) & !(UI_FLAG_TEXTURED | UI_FLAG_BORDER_ANY) == 0,
{
    assert(0u32 & !(0x1u32 | 0x1e) == 0 && 0x1u32 & !(0x1u32 | 0x1e) == 0 && 0x1eu32 & !(0x1u32
        | 0x1e) == 0 && 0x2u32 & !(0x1u32 | 0x1e) == 0 && 0x4u32 & !(0x1u32 | 0x1e) == 0 && 0x8u32
        & !(0x1u32 | 0x1e) == 0 && 0x10u32 & !(0x1u32 | 0x1e) == 0) by (bit_vector);
}

proof fn lemma_group_flags(colors: paint::BorderColors, i: int, n: int)
    ensures
        paint::group_flags(colors, i, n) & !(UI_FLAG_TEXTURED | UI_FLAG_BORDER_ANY) == 0,
    decreases n,
{
    lemma_plain_flags();
    if n > 0 {
        lemma_group_flags(colors, i, n - 1);
        lemma_joined_flags(
            paint::group_flags(colors, i, n - 1),
            paint::edge_flag(n - 1),
            !(UI_FLAG_TEXTURED | UI_FLAG_BORDER_ANY),
        );
    }
}

proof fn lemma_border_sound(node: paint::NodeShape, colors: paint::BorderColors, n: nat)
    ensures
        items_are_sound(paint::border_groups(node, colors, n)),
    decreases n,
{
    if n > 0 {
        lemma_border_sound(node, colors, (n - 1) as nat);
        lemma_group_flags(colors, n - 1, 4);
    }
}

proof fn lemma_shadows_sound(stack_index: u32, layers: Seq<paint::ShadowLayer>, n: nat)
    ensures
        items_are_sound(paint::shadow_layers_items(stack_index, layers, n)),
    decreases n,
{
    if n > 0 {
        lemma_shadows_sound(stack_index, layers, (n - 1) as nat);
        lemma_items_join(
            paint::shadow_layers_items(stack_index, layers, (n - 1) as nat),
            paint::shadow_layer_items(stack_index, layers[n - 1]),
        );
    }
}

proof fn lemma_gradients_sound(node: paint::NodeShape, layers: Seq<paint::GradientLayer>, n: nat)
    ensures
        items_are_sound(paint::gradient_layers_items(node, layers, n)),
    decreases n,
{
    lemma_plain_flags();
    if n > 0 {
        lemma_gradients_sound(node, layers, (n - 1) as nat);
        if let paint::GradientLayer::Linear { stops, hsla } = layers[n - 1] {
            lemma_items_join(
                paint::gradient_layers_items(node, layers, (n - 1) as nat),
                paint::linear_gradient_items(node, stops@, hsla),
            );
        }
    }
}

proof fn lemma_runs_sound(stack_index: u32, runs: Seq<paint::GlyphRun>, decorated: bool, first: nat, n: nat)
    ensures
        items_are_sound(paint::runs_painted(stack_index, runs, decorated, first, n).1),
    decreases n,
{
    lemma_plain_flags();
    if n > 0 {
        let before = paint::runs_painted(stack_index, runs, decorated, first, (n - 1) as nat);
        let run = runs[n - 1];
        lemma_runs_sound(stack_index, runs, decorated, first, (n - 1) as nat);
        let own = paint::run_items(stack_index, run, first + before.0.len());
        lemma_items_join(before.1, own);
        if decorated {
            let strike = paint::decoration_items(stack_index, run.strikethrough, run.color);
            let under = paint::decoration_items(stack_index, run.underline, run.color);
            lemma_items_join(before.1 + own, strike);
            lemma_items_join(before.1 + own + strike, under);
        }
    }
}

proof fn lemma_texts_sound(rows: Seq<paint::TextRow>, n: nat)
    ensures
        items_are_sound(paint::texts_painted(rows, n).1),
    decreases n,
{
    if n > 0 {
        let before = paint::texts_painted(rows, (n - 1) as nat);
        let row = rows[n - 1];
        lemma_texts_sound(rows, (n - 1) as nat);
        lemma_runs_sound(row.node.stack_index, row.runs@, true, before.0.len(), row.runs@.len());
        lemma_items_join(before.1, paint::text_painted(row, before.0.len()).1);
    }
}

proof fn lemma_decorations_sound(row: paint::EditableTextRow, focused: bool)
    ensures
        items_are_sound(paint::editable_decorations(row, focused)),
{
    lemma_plain_flags();
    let items = paint::editable_decorations(row, focused);
    assert forall|i: int| 0 <= i < items.len() implies item_is_sound(#[trigger] items[i]) by {}
}

proof fn lemma_editables_sound(rows: Seq<paint::EditableTextRow>, focus: Option<u64>, first: nat, n: nat)
    ensures
        items_are_sound(paint::editables_painted(rows, focus, first, n).1),
    decreases n,
{
    if n > 0 {
        let before = paint::editables_painted(rows, focus, first, (n - 1) as nat);
        let row = rows[n - 1];
        let at = first + before.0.len();
        lemma_editables_sound(rows, focus, first, (n - 1) as nat);
        lemma_runs_sound(row.node.stack_index, row.runs@, false, at, row.runs@.len());
        lemma_decorations_sound(row, focus == Some(row.entity));
        lemma_items_join(
            paint::runs_painted(row.node.stack_index, row.runs@, false, at, row.runs@.len()).1,
            paint::editable_decorations(row, focus == Some(row.entity)),
        );
        lemma_items_join(before.1, paint::editable_painted(row, focus, at).1);
    }
}

proof fn lemma_frame_sound(frame: paint::UiFrame, slots: Map<u128, u32>)
    ensures
        items_are_sound(paint::frame_painted(frame, slots).1),
{
    lemma_plain_flags();
    let backgrounds = |row: paint::BackgroundRow| paint::background_items(row);
    let shadow_rows = |row: paint::ShadowRow| paint::shadow_items(row);
    let borders = |row: paint::BorderRow| paint::edge_items(row);
    let gradients = |row: paint::GradientRow| paint::gradient_items(row);
    let images = |row: paint::ImageRow| paint::image_items(row, slots);
    let materials = |row: paint::MaterialRow| paint::material_items(row);
    assert forall|row: paint::BackgroundRow| items_are_sound(#[trigger] backgrounds(row)) by {}
    assert forall|row: paint::ShadowRow| items_are_sound(#[trigger] shadow_rows(row)) by {
        lemma_shadows_sound(row.node.stack_index, row.layers@, row.layers@.len());
    }
    assert forall|row: paint::BorderRow| items_are_sound(#[trigger] borders(row)) by {
        let border = match row.border {
            Some(colors) => paint::border_items(row.node, colors),
            None => Seq::empty(),
        };
        if let Some(colors) = row.border {
            lemma_border_sound(row.node, colors, 4);
        }
        if let Some(outline) = row.outline {
            lemma_items_join(border, paint::outline_items(row.node, outline));
        }
    }
    assert forall|row: paint::GradientRow| items_are_sound(#[trigger] gradients(row)) by {
        lemma_gradients_sound(row.node, row.layers@, row.layers@.len());
    }
    assert forall|row: paint::ImageRow| items_are_sound(#[trigger] images(row)) by {}
    assert forall|row: paint::MaterialRow| items_are_sound(#[trigger] materials(row)) by {}
    lemma_rows_sound(frame.backgrounds@, backgrounds, frame.backgrounds@.len());
    lemma_rows_sound(frame.shadows@, shadow_rows, frame.shadows@.len());
    lemma_rows_sound(frame.borders@, borders, frame.borders@.len());
    lemma_rows_sound(frame.gradients@, gradients, frame.gradients@.len());
    lemma_rows_sound(frame.images@, images, frame.images@.len());
    lemma_rows_sound(frame.materials@, materials, frame.materials@.len());
    let a = paint::rows_items(frame.backgrounds@, backgrounds, frame.backgrounds@.len());
    let b = paint::rows_items(frame.shadows@, shadow_rows, frame.shadows@.len());
    let c = paint::rows_items(frame.borders@, borders, frame.borders@.len());
    let d = paint::rows_items(frame.gradients@, gradients, frame.gradients@.len());
    let e = paint::rows_items(frame.images@, images, frame.images@.len());
    let f = paint::rows_items(frame.materials@, materials, frame.materials@.len());
    let texts = paint::texts_painted(frame.texts@, frame.texts@.len());
    let editables = paint::editables_painted(
        frame.editable_texts@,
        frame.focus,
        texts.0.len(),
        frame.editable_texts@.len(),
    );
    lemma_texts_sound(frame.texts@, frame.texts@.len());
    lemma_editables_sound(
        frame.editable_texts@,
        frame.focus,
        texts.0.len(),
        frame.editable_texts@.len(),
    );
    lemma_items_join(a, b);
    lemma_items_join(a + b, c);
    lemma_items_join(a + b + c, d);
    lemma_items_join(a + b + c + d, e);
    lemma_items_join(a + b + c + d + e, f);
    lemma_items_join(a + b + c + d + e + f, texts.1);
    lemma_items_join(a + b + c + d + e + f + texts.1, editables.1);
}

/// No vertex that is painted for a frame is textured and a gradient at once, and
/// one with a shading mode has no other flags.
pub proof fn law_painted_flags_are_sound(
    frame: paint::UiFrame,
    slots: Map<u128, u32>,
    list: paint::UiPaintList,
    text: paint::TextPaintList,
)
    requires
        paint::lists_hold_items(list, text, paint::frame_painted(frame, slots).1),
    ensures
        vertices_are_sound(list.vertices@),
{
    let items = paint::frame_painted(frame, slots).1;
    let depths = paint_items::item_depths(items);
    lemma_frame_sound(frame, slots);
    let order = choose|order: Seq<usize>|
        #[trigger] painter_order::is_painter_order(depths, 0, items.len() as int, order)
            && paint::lists_hold(
            list,
            text,
            paint_batches::streams_after(items, order, items.len()).finish(),
        );
    assert forall|i: int| 0 <= i < order.len() implies #[trigger] order[i] < items.len() by {}
    lemma_streams_sound(items, order, items.len());
}

} // verus!
