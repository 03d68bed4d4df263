//! What holds of the text batches that painting makes, and of the scissors of
//! all batches.

use vstd::prelude::*;

use crate::paint;
use crate::paint_batches;
use crate::paint_batches::{StreamsModel, TextRunBatch};
use crate::paint_items;
use crate::paint_items::{ItemModel, PayloadModel, TextRunRecipe};
use crate::paint_laws;
use crate::painter_order;

verus! {

// ---------------------------------------------------------------------------
// Scissors

/// Whether no batch of quads or shadows has a scissor.
pub open spec fn unscissored(streams: StreamsModel) -> bool {
    &&& forall|i: int| 0 <= i < streams.batches.len() ==> (#[trigger] streams.batches[i]).scissor is None
    &&& forall|i: int|
        0 <= i < streams.shadow_batches.len() ==> (#[trigger] streams.shadow_batches[i]).scissor is None
}

/// No batch has a scissor: quads are clipped where they are made.
pub proof fn law_batches_have_no_scissor(items: Seq<ItemModel>, order: Seq<usize>, n: nat)
    ensures
        unscissored(paint_batches::streams_after(items, order, n)),
        unscissored(paint_batches::streams_after(items, order, n).finish()),
    decreases n,
{
    if n > 0 {
        law_batches_have_no_scissor(items, order, (n - 1) as nat);
    }
}

// ---------------------------------------------------------------------------
// Merging

/// Whether two batches could be one: they have the same font, size and clip, and
/// the second begins where the first ends.
pub open spec fn mergeable(a: TextRunBatch, b: TextRunBatch) -> bool {
    &&& a.blob_id == b.blob_id
    &&& a.font_index == b.font_index
    &&& crate::float_bits::equal(a.font_px_per_em, b.font_px_per_em)
    &&& paint_batches::same_clip(a.clip, b.clip)
    &&& a.instance_range.end == b.instance_range.start
}

/// Whether no batch could be one with the batch before it in the list and in
/// painter's order.
pub open spec fn merged(batches: Seq<TextRunBatch>) -> bool {
    forall|i: int|
        0 < i < batches.len() && batches[i - 1].order + 1 == batches[i].order ==> !mergeable(
            batches[i - 1],
            #[trigger] batches[i],
        )
}

proof fn lemma_merged_text(streams: StreamsModel, run: TextRunRecipe)
    requires
        merged(streams.text_batches),
        streams.close().next_order <= u32::MAX,
    ensures
        merged(streams.add_text(run).text_batches),
{
    let closed = streams.close();
    let before = closed.text_batches;
    let after = streams.add_text(run).text_batches;
    assert forall|i: int| 0 < i < after.len() && after[i - 1].order + 1 == after[i].order implies !mergeable(
        after[i - 1],
        #[trigger] after[i],
    ) by {
        assert(after[i - 1] == before[i - 1]);
        if i < before.len() {
            assert(!(before[i - 1].order + 1 == before[i].order && mergeable(
                before[i - 1],
                before[i],
            )));
        }
    }
}

proof fn lemma_merged(items: Seq<ItemModel>, order: Seq<usize>, n: nat)
    requires
        paint_batches::streams_after(items, order, n).next_order <= u32::MAX,
    ensures
        merged(paint_batches::streams_after(items, order, n).text_batches),
    decreases n,
{
    if n > 0 {
        paint_batches::lemma_orders_grow(items, order, (n - 1) as nat, n);
        lemma_merged(items, order, (n - 1) as nat);
        if let PayloadModel::TextRun(run) = items[order[n - 1] as int].payload {
            lemma_merged_text(paint_batches::streams_after(items, order, (n - 1) as nat), run);
        }
    }
}

/// Compatible runs that are painted one after the other always share a batch:
/// two text batches with nothing between them in painter's order differ in font,
/// size or clip, or the second does not begin where the first ends.
pub proof fn law_neighbouring_text_batches_differ(items: Seq<ItemModel>, order: Seq<usize>, i: int, j: int)
    requires
        paint_batches::orders_fit(items, order),
        forall|k: int| 0 <= k < order.len() ==> #[trigger] order[k] < items.len(),
        paint_laws::runs_nonempty(items),
        4 * paint_laws::quad_total(items, order, order.len()) <= usize::MAX,
        4 * paint_laws::shadow_total(items, order, order.len()) <= usize::MAX,
        ({
            let batches = paint_batches::streams_after(
                items,
                order,
                order.len(),
            ).finish().text_batches;
            &&& 0 <= i < batches.len()
            &&& 0 <= j < batches.len()
            &&& batches[j].order == batches[i].order + 1
        }),
    ensures
        ({
            let batches = paint_batches::streams_after(
                items,
                order,
                order.len(),
            ).finish().text_batches;
            !mergeable(batches[i], batches[j])
        }),
{
    let streams = paint_batches::streams_after(items, order, order.len()).finish();
    let batches = streams.text_batches;
    lemma_merged(items, order, order.len());
    paint_laws::law_batches_keep_painter_order(items, order);
    reveal(paint_laws::is_replay);
    if j <= i {
        assert(j == i || batches[j].order < batches[i].order);
    } else if j > i + 1 {
        assert(batches[i].order < batches[i + 1].order);
        assert(batches[i + 1].order < batches[j].order);
    } else {
        assert(batches[j - 1] == batches[i]);
    }
}

// ---------------------------------------------------------------------------
// Coverage

/// How many batches draw a glyph.
pub open spec fn batches_with(batches: Seq<TextRunBatch>, glyph: int) -> nat
    decreases batches.len(),
{
    if batches.len() == 0 {
        0
    } else {
        let last = batches.last().instance_range;
        batches_with(batches.drop_last(), glyph) + (if last.start <= glyph < last.end {
            1nat
        } else {
            0
        })
    }
}

/// Whether an item draws a glyph.
pub open spec fn draws_glyph(item: ItemModel, glyph: int) -> bool {
    item.payload matches PayloadModel::TextRun(run) && run.start <= glyph < run.end
}

/// How many of the first `n` items in painter's order draw a glyph.
pub open spec fn items_with(items: Seq<ItemModel>, order: Seq<usize>, n: nat, glyph: int) -> nat
    decreases n,
{
    if n == 0 {
        0
    } else {
        items_with(items, order, (n - 1) as nat, glyph) + (if draws_glyph(
            items[order[n - 1] as int],
            glyph,
        ) {
            1nat
        } else {
            0
        })
    }
}

/// Whether every text batch draws something.
pub open spec fn batches_nonempty(batches: Seq<TextRunBatch>) -> bool {
    forall|i: int|
        0 <= i < batches.len() ==> (#[trigger] batches[i]).instance_range.start
            < batches[i].instance_range.end
}

proof fn lemma_batches_with_push(batches: Seq<TextRunBatch>, last: TextRunBatch, glyph: int)
    ensures
        batches_with(batches.push(last), glyph) == batches_with(batches, glyph) + (if
        last.instance_range.start <= glyph < last.instance_range.end {
            1nat
        } else {
            0
        }),
{
    assert(batches.push(last).drop_last() =~= batches);
}

/// Batching a run draws its glyphs once more and no other.
proof fn lemma_text_counted(streams: StreamsModel, run: TextRunRecipe, glyph: int)
    requires
        batches_nonempty(streams.text_batches),
        run.start < run.end,
    ensures
        batches_nonempty(streams.add_text(run).text_batches),
        batches_with(streams.add_text(run).text_batches, glyph) == batches_with(
            streams.text_batches,
            glyph,
        ) + (if run.start <= glyph < run.end {
            1nat
        } else {
            0
        }),
{
    let closed = streams.close();
    let before = closed.text_batches;
    if before.len() > 0 && paint_batches::continues(before.last(), run, closed.next_order) {
        let longer = paint_batches::extended(before.last(), run.end);
        assert(before.last() == before[before.len() - 1]);
        lemma_batches_with_push(before.drop_last(), longer, glyph);
        assert forall|i: int| 0 <= i < before.len() implies (#[trigger] before.drop_last().push(
            longer,
        )[i]).instance_range.start < before.drop_last().push(longer)[i].instance_range.end by {
            assert(before[i].instance_range.start < before[i].instance_range.end);
        }
    } else {
        lemma_batches_with_push(before, paint_batches::text_batch(run, closed.next_order as u32), glyph);
    }
}

/// The batches draw each glyph as often as the items do.
proof fn lemma_counted(items: Seq<ItemModel>, order: Seq<usize>, n: nat, glyph: int)
    requires
        n <= order.len(),
        forall|i: int| 0 <= i < order.len() ==> #[trigger] order[i] < items.len(),
        paint_laws::runs_nonempty(items),
    ensures
        batches_nonempty(paint_batches::streams_after(items, order, n).text_batches),
        batches_with(paint_batches::streams_after(items, order, n).text_batches, glyph)
            == items_with(items, order, n, glyph),
    decreases n,
{
    if n > 0 {
        lemma_counted(items, order, (n - 1) as nat, glyph);
        let item = items[order[n - 1] as int];
        if let PayloadModel::TextRun(run) = item.payload {
            lemma_text_counted(
                paint_batches::streams_after(items, order, (n - 1) as nat),
                run,
                glyph,
            );
        }
    }
}

/// Whether an item that draws a glyph stands at one place only.
proof fn lemma_drawn_once(items: Seq<ItemModel>, order: Seq<usize>, n: nat, at: int, glyph: int)
    requires
        0 <= at < order.len(),
        n <= order.len(),
        draws_glyph(items[order[at] as int], glyph),
        forall|i: int|
            0 <= i < order.len() && i != at ==> !draws_glyph(
                items[#[trigger] order[i] as int],
                glyph,
            ),
    ensures
        items_with(items, order, n, glyph) == if at < n {
            1nat
        } else {
            0
        },
    decreases n,
{
    if n > 0 {
        lemma_drawn_once(items, order, (n - 1) as nat, at, glyph);
        assert(n - 1 == at || !draws_glyph(items[order[n - 1] as int], glyph));
    }
}

proof fn lemma_never_drawn(items: Seq<ItemModel>, order: Seq<usize>, n: nat, glyph: int)
    requires
        n <= order.len(),
        forall|i: int|
            0 <= i < order.len() ==> !draws_glyph(items[#[trigger] order[i] as int], glyph),
    ensures
        items_with(items, order, n, glyph) == 0,
    decreases n,
{
    if n > 0 {
        lemma_never_drawn(items, order, (n - 1) as nat, glyph);
        assert(!draws_glyph(items[order[n - 1] as int], glyph));
    }
}

proof fn lemma_run_within(items: Seq<ItemModel>, first: int, end: int, n: nat, k: int, glyph: int)
    requires
        n <= items.len(),
        0 <= k < n,
        paint_laws::runs_follow(items, first, end, n),
        draws_glyph(items[k], glyph),
    ensures
        first <= glyph < end,
    decreases n,
{
    paint_laws::lemma_runs_ascend(items, first, end, n);
    if k < n - 1 {
        match items[n - 1].payload {
            PayloadModel::TextRun(run) => {
                lemma_run_within(items, first, run.start as int, (n - 1) as nat, k, glyph);
            },
            _ => {
                lemma_run_within(items, first, end, (n - 1) as nat, k, glyph);
            },
        }
    } else if let PayloadModel::TextRun(run) = items[n - 1].payload {
        paint_laws::lemma_runs_ascend(items, first, run.start as int, (n - 1) as nat);
    }
}

proof fn lemma_run_found(items: Seq<ItemModel>, first: int, end: int, n: nat, glyph: int) -> (k: int)
    requires
        n <= items.len(),
        paint_laws::runs_follow(items, first, end, n),
        first <= glyph < end,
    ensures
        0 <= k < n,
        draws_glyph(items[k], glyph),
        forall|i: int| 0 <= i < n && i != k ==> !draws_glyph(#[trigger] items[i], glyph),
    decreases n,
{
    match items[n - 1].payload {
        PayloadModel::TextRun(run) => {
            if run.start <= glyph {
                assert forall|i: int| 0 <= i < n && i != n - 1 implies !draws_glyph(
                    #[trigger] items[i],
                    glyph,
                ) by {
                    if draws_glyph(items[i], glyph) {
                        lemma_run_within(
                            items,
                            first,
                            run.start as int,
                            (n - 1) as nat,
                            i,
                            glyph,
                        );
                    }
                }
                n - 1
            } else {
                lemma_run_found(items, first, run.start as int, (n - 1) as nat, glyph)
            }
        },
        _ => lemma_run_found(items, first, end, (n - 1) as nat, glyph),
    }
}

/// The text batches of a frame are nonempty ranges that lie apart and cover all
/// glyph instances: each instance is drawn by just one of them, and nothing
/// beyond the instances is drawn.
pub proof fn law_text_batches_cover_their_glyphs(
    frame: paint::UiFrame,
    slots: Map<u128, u32>,
    order: Seq<usize>,
    glyph: int,
)
    requires
        paint::frame_painted(frame, slots).0.len() <= usize::MAX,
        painter_order::is_painter_order(
            paint_items::item_depths(paint::frame_painted(frame, slots).1),
            0,
            paint::frame_painted(frame, slots).1.len() as int,
            order,
        ),
    ensures
        ({
            let painted = paint::frame_painted(frame, slots);
            let batches = paint_batches::streams_after(
                painted.1,
                order,
                painted.1.len(),
            ).finish().text_batches;
            &&& batches_nonempty(batches)
            &&& batches_with(batches, glyph) == if 0 <= glyph < painted.0.len() {
                1nat
            } else {
                0
            }
        }),
{
    let instances = paint::frame_painted(frame, slots).0;
    let items = paint::frame_painted(frame, slots).1;
    let n = items.len();
    paint_laws::law_frame_runs_follow(frame, slots);
    paint_laws::law_frame_runs_are_nonempty(frame, slots);
    painter_order::lemma_order_is_short(paint_items::item_depths(items), 0, n as int, order);
    lemma_counted(items, order, n, glyph);
    if 0 <= glyph < instances.len() {
        let k = lemma_run_found(items, 0, instances.len() as int, n, glyph);
        assert(order.contains(k as usize));
        let at = choose|at: int| 0 <= at < order.len() && order[at] == k as usize;
        assert forall|i: int| 0 <= i < order.len() && i != at implies !draws_glyph(
            items[#[trigger] order[i] as int],
            glyph,
        ) by {
            if i < at {
                assert(order[i] != order[at]);
            } else {
                assert(order[at] != order[i]);
            }
        }
        lemma_drawn_once(items, order, n, at, glyph);
    } else {
        assert forall|i: int| 0 <= i < order.len() implies !draws_glyph(
            items[#[trigger] order[i] as int],
            glyph,
        ) by {
            if draws_glyph(items[order[i] as int], glyph) {
                lemma_run_within(
                    items,
                    0,
                    instances.len() as int,
                    n,
                    order[i] as int,
                    glyph,
                );
            }
        }
        lemma_never_drawn(items, order, n, glyph);
    }
}

} // verus!
