//! What holds of the lists that painting fills.

use vstd::prelude::*;

use crate::paint;
use crate::paint::{TextPaintList, UiFrame, UiPaintList};
use crate::paint_batches;
use crate::paint_batches::{StreamsModel, TextRunBatch, UiBatch, UiShadowBatch};
use crate::paint_items;
use crate::paint_items::{ItemModel, PayloadModel};
use crate::paint_laws;
use crate::paint_laws::Draw;
use crate::paint_text_laws;
use crate::painter_order;

verus! {

/// Whether quad batches are nonempty and cover the quads back to back.
pub open spec fn quads_tiled(batches: Seq<UiBatch>, count: int) -> bool {
    &&& forall|i: int|
        0 <= i < batches.len() ==> (#[trigger] batches[i]).quad_range.start
            < batches[i].quad_range.end
    &&& forall|i: int|
        0 < i < batches.len() ==> (#[trigger] batches[i]).quad_range.start == batches[i
            - 1].quad_range.end
    &&& batches.len() == 0 ==> count == 0
    &&& batches.len() > 0 ==> batches[0].quad_range.start == 0 && batches.last().quad_range.end
        == count
}

/// Whether shadow batches are nonempty and cover the shadows back to back.
pub open spec fn shadows_tiled(batches: Seq<UiShadowBatch>, count: int) -> bool {
    &&& forall|i: int|
        0 <= i < batches.len() ==> (#[trigger] batches[i]).quad_range.start
            < batches[i].quad_range.end
    &&& forall|i: int|
        0 < i < batches.len() ==> (#[trigger] batches[i]).quad_range.start == batches[i
            - 1].quad_range.end
    &&& batches.len() == 0 ==> count == 0
    &&& batches.len() > 0 ==> batches[0].quad_range.start == 0 && batches.last().quad_range.end
        == count
}

/// Whether one of the batches has an order value.
pub open spec fn is_used(
    batches: Seq<UiBatch>,
    shadow_batches: Seq<UiShadowBatch>,
    text_batches: Seq<TextRunBatch>,
    value: int,
) -> bool {
    ||| exists|i: int| 0 <= i < batches.len() && (#[trigger] batches[i]).order == value
    ||| exists|i: int|
        0 <= i < shadow_batches.len() && (#[trigger] shadow_batches[i]).order == value
    ||| exists|i: int| 0 <= i < text_batches.len() && (#[trigger] text_batches[i]).order == value
}

/// Whether the batches share the order values from zero on without a gap, each
/// batch with a value of its own, ascending within each list.
pub open spec fn orders_shared(
    batches: Seq<UiBatch>,
    shadow_batches: Seq<UiShadowBatch>,
    text_batches: Seq<TextRunBatch>,
) -> bool {
    let total = batches.len() + shadow_batches.len() + text_batches.len();
    &&& forall|value: int|
        0 <= value < total ==> #[trigger] is_used(batches, shadow_batches, text_batches, value)
    &&& forall|i: int| 0 <= i < batches.len() ==> (#[trigger] batches[i]).order < total
    &&& forall|i: int|
        0 <= i < shadow_batches.len() ==> (#[trigger] shadow_batches[i]).order < total
    &&& forall|i: int| 0 <= i < text_batches.len() ==> (#[trigger] text_batches[i]).order < total
    &&& forall|i: int, j: int|
        0 <= i < j < batches.len() ==> #[trigger] batches[i].order < #[trigger] batches[j].order
    &&& forall|i: int, j: int|
        0 <= i < j < shadow_batches.len() ==> #[trigger] shadow_batches[i].order
            < #[trigger] shadow_batches[j].order
    &&& forall|i: int, j: int|
        0 <= i < j < text_batches.len() ==> #[trigger] text_batches[i].order
            < #[trigger] text_batches[j].order
    &&& forall|i: int, j: int|
        0 <= i < batches.len() && 0 <= j < shadow_batches.len() ==> #[trigger] batches[i].order
            != #[trigger] shadow_batches[j].order
    &&& forall|i: int, j: int|
        0 <= i < batches.len() && 0 <= j < text_batches.len() ==> #[trigger] batches[i].order
            != #[trigger] text_batches[j].order
    &&& forall|i: int, j: int|
        0 <= i < shadow_batches.len() && 0 <= j < text_batches.len()
            ==> #[trigger] shadow_batches[i].order != #[trigger] text_batches[j].order
}

/// Whether all values below `n` are in use.
spec fn used_below(streams: StreamsModel, n: int) -> bool {
    forall|value: int|
        0 <= value < n ==> #[trigger] is_used(
            streams.batches,
            streams.shadow_batches,
            streams.text_batches,
            value,
        )
}

proof fn lemma_still_used(before: StreamsModel, after: StreamsModel, value: int)
    requires
        is_used(before.batches, before.shadow_batches, before.text_batches, value),
        before.batches.len() <= after.batches.len(),
        before.shadow_batches.len() <= after.shadow_batches.len(),
        before.text_batches.len() <= after.text_batches.len(),
        forall|i: int|
            0 <= i < before.batches.len() ==> (#[trigger] after.batches[i]).order
                == before.batches[i].order,
        forall|i: int|
            0 <= i < before.shadow_batches.len() ==> (#[trigger] after.shadow_batches[i]).order
                == before.shadow_batches[i].order,
        forall|i: int|
            0 <= i < before.text_batches.len() ==> (#[trigger] after.text_batches[i]).order
                == before.text_batches[i].order,
    ensures
        is_used(after.batches, after.shadow_batches, after.text_batches, value),
{
    if exists|i: int| 0 <= i < before.batches.len() && (#[trigger] before.batches[i]).order == value {
        let i = choose|i: int|
            0 <= i < before.batches.len() && (#[trigger] before.batches[i]).order == value;
        assert(after.batches[i].order == value);
    } else if exists|i: int|
        0 <= i < before.shadow_batches.len() && (#[trigger] before.shadow_batches[i]).order == value {
        let i = choose|i: int|
            0 <= i < before.shadow_batches.len() && (#[trigger] before.shadow_batches[i]).order
                == value;
        assert(after.shadow_batches[i].order == value);
    } else {
        let i = choose|i: int|
            0 <= i < before.text_batches.len() && (#[trigger] before.text_batches[i]).order
                == value;
        assert(after.text_batches[i].order == value);
    }
}

proof fn lemma_close_uses(streams: StreamsModel)
    requires
        used_below(streams, streams.next_order as int),
        streams.next_order <= u32::MAX,
    ensures
        used_below(streams.close(), streams.close().next_order as int),
{
    let closed = streams.close();
    assert forall|value: int| 0 <= value < closed.next_order implies #[trigger] is_used(
        closed.batches,
        closed.shadow_batches,
        closed.text_batches,
        value,
    ) by {
        if value < streams.next_order {
            lemma_still_used(streams, closed, value);
        } else if streams.open is Quads {
            assert(closed.batches[closed.batches.len() - 1].order == value);
        } else {
            assert(closed.shadow_batches[closed.shadow_batches.len() - 1].order == value);
        }
    }
}

proof fn lemma_text_uses(streams: StreamsModel, run: paint_items::TextRunRecipe)
    requires
        used_below(streams, streams.next_order as int),
        streams.next_order <= u32::MAX,
        streams.close().next_order <= u32::MAX,
    ensures
        used_below(streams.add_text(run), streams.add_text(run).next_order as int),
{
    let closed = streams.close();
    let after = streams.add_text(run);
    lemma_close_uses(streams);
    assert forall|value: int| 0 <= value < after.next_order implies #[trigger] is_used(
        after.batches,
        after.shadow_batches,
        after.text_batches,
        value,
    ) by {
        if value < closed.next_order {
            lemma_still_used(closed, after, value);
        } else {
            assert(after.text_batches[after.text_batches.len() - 1].order == value);
        }
    }
}

proof fn lemma_orders_used(items: Seq<ItemModel>, order: Seq<usize>, n: nat)
    requires
        paint_batches::streams_after(items, order, n).next_order <= u32::MAX,
    ensures
        ({
            let streams = paint_batches::streams_after(items, order, n);
            used_below(streams, streams.next_order as int)
        }),
    decreases n,
{
    if n > 0 {
        let before = paint_batches::streams_after(items, order, (n - 1) as nat);
        paint_batches::lemma_orders_grow(items, order, (n - 1) as nat, n);
        lemma_orders_used(items, order, (n - 1) as nat);
        let after = paint_batches::streams_after(items, order, n);
        match items[order[n - 1] as int].payload {
            PayloadModel::TextRun(run) => {
                lemma_text_uses(before, run);
            },
            PayloadModel::Shadow(_) => {
                lemma_close_uses(before);
                if !(before.open is Shadows) {
                    assert(used_below(before.close(), after.next_order as int));
                }
            },
            _ => {
                lemma_close_uses(before);
                if !(before.open is Quads) {
                    assert(used_below(before.close(), after.next_order as int));
                }
            },
        }
    }
}

proof fn lemma_tiled(streams: StreamsModel, log: Seq<Seq<Draw>>, quads: int, shadows: int)
    requires
        paint_laws::is_replay(
            streams.batches,
            streams.shadow_batches,
            streams.text_batches,
            log,
        ),
        paint_laws::quad_batches_tile(streams.batches, quads),
        paint_laws::shadow_batches_tile(streams.shadow_batches, shadows),
    ensures
        quads_tiled(streams.batches, quads),
        shadows_tiled(streams.shadow_batches, shadows),
{
    reveal(paint_laws::is_replay);
    reveal(paint_laws::quad_batches_tile);
    reveal(paint_laws::shadow_batches_tile);
}

proof fn lemma_shared(streams: StreamsModel, log: Seq<Seq<Draw>>)
    requires
        paint_laws::is_replay(
            streams.batches,
            streams.shadow_batches,
            streams.text_batches,
            log,
        ),
        used_below(
            streams,
            (streams.batches.len() + streams.shadow_batches.len()
                + streams.text_batches.len()) as int,
        ),
    ensures
        orders_shared(streams.batches, streams.shadow_batches, streams.text_batches),
{
    reveal(paint_laws::is_replay);
}

/// What painted streams hold, read by the painter's order that they were built
/// in.
proof fn lemma_painted_streams(items: Seq<ItemModel>, order: Seq<usize>) -> (log: Seq<Seq<Draw>>)
    requires
        paint_batches::orders_fit(items, order),
        order.len() == items.len(),
        forall|i: int| 0 <= i < order.len() ==> #[trigger] order[i] < items.len(),
        paint_laws::runs_nonempty(items),
        paint_batches::streams_after(items, order, items.len()).vertices.len() <= usize::MAX,
        paint_batches::streams_after(items, order, items.len()).shadow_vertices.len()
            <= usize::MAX,
    ensures
        ({
            let streams = paint_batches::streams_after(items, order, items.len()).finish();
            let quads = streams.vertices.len() as int / 4;
            let shadows = streams.shadow_vertices.len() as int / 4;
            &&& streams.vertices.len() == 4 * quads
            &&& streams.shadow_vertices.len() == 4 * shadows
            &&& quads_tiled(streams.batches, quads)
            &&& shadows_tiled(streams.shadow_batches, shadows)
            &&& orders_shared(streams.batches, streams.shadow_batches, streams.text_batches)
            &&& paint_text_laws::unscissored(streams)
            &&& paint_laws::is_replay(
                streams.batches,
                streams.shadow_batches,
                streams.text_batches,
                log,
            )
            &&& paint_laws::joined(log) == paint_laws::painted(items, order, items.len())
        }),
{
    let n = items.len();
    let open = paint_batches::streams_after(items, order, n);
    let streams = open.finish();
    paint_laws::lemma_stream_lengths(items, order, n);
    paint_laws::law_batches_keep_painter_order(items, order);
    paint_text_laws::law_batches_have_no_scissor(items, order, n);
    paint_laws::lemma_orders_counted(items, order);
    let log = choose|log: Seq<Seq<Draw>>|
        #[trigger] paint_laws::is_replay(
            streams.batches,
            streams.shadow_batches,
            streams.text_batches,
            log,
        ) && paint_laws::joined(log) == paint_laws::painted(items, order, n);
    lemma_orders_used(items, order, n);
    lemma_close_uses(open);
    lemma_tiled(
        streams,
        log,
        paint_laws::quad_total(items, order, n) as int,
        paint_laws::shadow_total(items, order, n) as int,
    );
    assert(used_below(streams, open.close().next_order as int)) by {
        assert(used_below(open.close(), open.close().next_order as int));
    }
    lemma_shared(streams, log);
    log
}

/// Whether the batches of the lists, taken by ascending order value, draw what
/// the items draw one after the other, in painter's order.
pub open spec fn drawn_in_painter_order(list: UiPaintList, text: TextPaintList, items: Seq<ItemModel>) -> bool {
    exists|order: Seq<usize>, log: Seq<Seq<Draw>>|
        {
            &&& #[trigger] painter_order::is_painter_order(
                paint_items::item_depths(items),
                0,
                items.len() as int,
                order,
            )
            &&& #[trigger] paint_laws::is_replay(
                list.batches@,
                list.shadow_batches@,
                text.batches@,
                log,
            )
            &&& paint_laws::joined(log) == paint_laws::painted(items, order, items.len())
        }
}

/// Whether no text batch could be one with the text batch that is next in
/// painter's order.
pub open spec fn text_merged(batches: Seq<TextRunBatch>) -> bool {
    forall|i: int, j: int|
        0 <= i < batches.len() && 0 <= j < batches.len() && #[trigger] batches[j].order
            == #[trigger] batches[i].order + 1 ==> !paint_text_laws::mergeable(
            batches[i],
            batches[j],
        )
}

/// A node that is not visible adds nothing to a frame, whatever it has.
pub proof fn law_invisible_nodes_add_nothing(
    background: paint::BackgroundRow,
    shadow: paint::ShadowRow,
    border: paint::BorderRow,
    gradient: paint::GradientRow,
    image: paint::ImageRow,
    material: paint::MaterialRow,
    text: paint::TextRow,
    editable: paint::EditableTextRow,
    slots: Map<u128, u32>,
    focus: Option<u64>,
    first: nat,
)
    ensures
        !background.node.visible ==> paint::background_items(background).len() == 0,
        !shadow.node.visible ==> paint::shadow_items(shadow).len() == 0,
        !border.node.visible ==> paint::edge_items(border).len() == 0,
        !gradient.node.visible ==> paint::gradient_items(gradient).len() == 0,
        !image.node.visible ==> paint::image_items(image, slots).len() == 0,
        !material.node.visible ==> paint::material_items(material).len() == 0,
        !text.node.visible ==> paint::text_painted(text, first).0.len() == 0
            && paint::text_painted(text, first).1.len() == 0,
        !editable.node.visible ==> paint::editable_painted(editable, focus, first).0.len() == 0
            && paint::editable_painted(editable, focus, first).1.len() == 0,
{
}

/// What holds of the lists after a frame has been painted into them.
///
/// Every quad has four vertices; the quad batches and the shadow batches are
/// nonempty and cover their streams back to back; each glyph instance is drawn
/// by just one text batch; all batches share one sequence of order values
/// without a gap; no batch has a scissor; the batches draw the items in
/// painter's order; and compatible text runs that follow one another there share
/// a batch.
pub proof fn law_painted_lists(list: UiPaintList, text: TextPaintList, frame: UiFrame, slots: Map<u128, u32>)
    requires
        paint::frame_fits(frame, slots),
        text.instances@ == paint::frame_painted(frame, slots).0,
        paint::lists_hold_items(list, text, paint::frame_painted(frame, slots).1),
    ensures
        list.vertices@.len() == 4 * list.quad_count,
        list.shadow_vertices@.len() == 4 * list.shadow_quad_count,
        quads_tiled(list.batches@, list.quad_count as int),
        shadows_tiled(list.shadow_batches@, list.shadow_quad_count as int),
        paint_text_laws::batches_nonempty(text.batches@),
        forall|glyph: int| #[trigger]
            paint_text_laws::batches_with(text.batches@, glyph) == if 0 <= glyph
                < text.instances@.len() {
                1nat
            } else {
                0
            },
        orders_shared(list.batches@, list.shadow_batches@, text.batches@),
        forall|i: int| 0 <= i < list.batches@.len() ==> (#[trigger] list.batches@[i]).scissor is None,
        forall|i: int|
            0 <= i < list.shadow_batches@.len() ==> (
            #[trigger] list.shadow_batches@[i]).scissor is None,
        drawn_in_painter_order(list, text, paint::frame_painted(frame, slots).1),
        text_merged(text.batches@),
{
    let items = paint::frame_painted(frame, slots).1;
    let n = items.len();
    let order = choose|order: Seq<usize>|
        #[trigger] painter_order::is_painter_order(
            paint_items::item_depths(items),
            0,
            n as int,
            order,
        ) && paint::lists_hold(
            list,
            text,
            paint_batches::streams_after(items, order, n).finish(),
        );
    assert(paint_batches::orders_fit(items, order));
    assert(text.instances@.len() == text.instances.len());
    assert(list.vertices@.len() == list.vertices.len());
    assert(list.shadow_vertices@.len() == list.shadow_vertices.len());
    paint_laws::law_frame_runs_are_nonempty(frame, slots);
    paint_laws::lemma_stream_lengths(items, order, n);
    let log = lemma_painted_streams(items, order);
    assert(drawn_in_painter_order(list, text, items)) by {
        assert(paint_laws::is_replay(list.batches@, list.shadow_batches@, text.batches@, log));
    }
    assert forall|glyph: int| #[trigger]
        paint_text_laws::batches_with(text.batches@, glyph) == (if 0 <= glyph
            < text.instances@.len() {
            1nat
        } else {
            0
        }) by {
        paint_text_laws::law_text_batches_cover_their_glyphs(frame, slots, order, glyph);
    }
    paint_text_laws::law_text_batches_cover_their_glyphs(frame, slots, order, 0);
    assert forall|i: int, j: int|
        0 <= i < text.batches@.len() && 0 <= j < text.batches@.len()
            && #[trigger] text.batches@[j].order == #[trigger] text.batches@[i].order
            + 1 implies !paint_text_laws::mergeable(text.batches@[i], text.batches@[j]) by {
        paint_text_laws::law_neighbouring_text_batches_differ(items, order, i, j);
    }
}

} // verus!
