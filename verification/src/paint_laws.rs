//! What holds of the batches that painting makes, taken together.

use vstd::prelude::*;

use crate::paint;
use crate::paint_batches;
use crate::paint_batches::{OpenBatch, StreamsModel, TextRunBatch, UiBatch, UiShadowBatch};
use crate::paint_items;
use crate::paint_items::{GradientModel, ItemModel, PayloadModel, QuadCorners};

verus! {

/// One primitive that a renderer draws: a quad, shadow or glyph by its index
/// in its stream.
pub enum Draw {
    Quad(int),
    Shadow(int),
    Glyph(int),
}

/// Quads `from..to`.
pub open spec fn quads(from: int, to: int) -> Seq<Draw> {
    Seq::new((to - from) as nat, |i: int| Draw::Quad(from + i))
}

/// Shadows `from..to`.
pub open spec fn shadows(from: int, to: int) -> Seq<Draw> {
    Seq::new((to - from) as nat, |i: int| Draw::Shadow(from + i))
}

/// Glyphs `from..to`.
pub open spec fn glyphs(from: int, to: int) -> Seq<Draw> {
    Seq::new((to - from) as nat, |i: int| Draw::Glyph(from + i))
}

/// How many quads an item puts into the quad stream.
pub open spec fn item_quads(item: ItemModel) -> nat {
    match item.payload {
        PayloadModel::Quad(recipe) => if recipe.corners is Some { 1 } else { 0 },
        PayloadModel::Gradient(recipe) => if recipe.corners is Some {
            recipe.segments.len()
        } else {
            0
        },
        PayloadModel::Material(recipe) => if recipe.corners is Some { 1 } else { 0 },
        _ => 0,
    }
}

/// How many quads an item puts into the shadow stream.
pub open spec fn item_shadows(item: ItemModel) -> nat {
    match item.payload {
        PayloadModel::Shadow(recipe) => if recipe.corners is Some { 1 } else { 0 },
        _ => 0,
    }
}

/// Quads that the first `n` items put into the quad stream.
pub open spec fn quad_total(items: Seq<ItemModel>, order: Seq<usize>, n: nat) -> nat
    decreases n,
{
    if n == 0 {
        0
    } else {
        quad_total(items, order, (n - 1) as nat) + item_quads(items[order[n - 1] as int])
    }
}

/// Quads that the first `n` items put into the shadow stream.
pub open spec fn shadow_total(items: Seq<ItemModel>, order: Seq<usize>, n: nat) -> nat
    decreases n,
{
    if n == 0 {
        0
    } else {
        shadow_total(items, order, (n - 1) as nat) + item_shadows(items[order[n - 1] as int])
    }
}

/// What an item draws, given how much the streams hold already.
pub open spec fn item_draws(item: ItemModel, quads_before: int, shadows_before: int) -> Seq<Draw> {
    match item.payload {
        PayloadModel::TextRun(run) => glyphs(run.start as int, run.end as int),
        PayloadModel::Shadow(_) => shadows(shadows_before, shadows_before + item_shadows(item)),
        _ => quads(quads_before, quads_before + item_quads(item)),
    }
}

/// Everything that the first `n` items draw, one item after the other.
pub open spec fn painted(items: Seq<ItemModel>, order: Seq<usize>, n: nat) -> Seq<Draw>
    decreases n,
{
    if n == 0 {
        Seq::empty()
    } else {
        let before = (n - 1) as nat;
        painted(items, order, before) + item_draws(
            items[order[n - 1] as int],
            quad_total(items, order, before) as int,
            shadow_total(items, order, before) as int,
        )
    }
}

/// A list of draw lists, joined.
pub open spec fn joined(log: Seq<Seq<Draw>>) -> Seq<Draw>
    decreases log.len(),
{
    if log.len() == 0 {
        Seq::empty()
    } else {
        joined(log.drop_last()) + log.last()
    }
}

/// Whether `log` is what the batches draw, listed by ascending order value:
/// every batch has an order value of its own, the values leave no gap, and
/// entry `o` is what the batch with value `o` draws.
#[verifier::opaque]
pub open spec fn is_replay(
    batches: Seq<UiBatch>,
    shadow_batches: Seq<UiShadowBatch>,
    text_batches: Seq<TextRunBatch>,
    log: Seq<Seq<Draw>>,
) -> bool {
    &&& log.len() == batches.len() + shadow_batches.len() + text_batches.len()
    &&& forall|i: int|
        0 <= i < batches.len() ==> {
            let batch = #[trigger] batches[i];
            &&& batch.order < log.len()
            &&& batch.quad_range.start < batch.quad_range.end
            &&& log[batch.order as int] == quads(
                batch.quad_range.start as int,
                batch.quad_range.end as int,
            )
        }
    &&& forall|i: int|
        0 <= i < shadow_batches.len() ==> {
            let batch = #[trigger] shadow_batches[i];
            &&& batch.order < log.len()
            &&& batch.quad_range.start < batch.quad_range.end
            &&& log[batch.order as int] == shadows(
                batch.quad_range.start as int,
                batch.quad_range.end as int,
            )
        }
    &&& forall|i: int|
        0 <= i < text_batches.len() ==> {
            let batch = #[trigger] text_batches[i];
            &&& batch.order < log.len()
            &&& batch.instance_range.start < batch.instance_range.end
            &&& log[batch.order as int] == glyphs(
                batch.instance_range.start as int,
                batch.instance_range.end as int,
            )
        }
    &&& forall|i: int, j: int|
        0 <= i < j < batches.len() ==> #[trigger] batches[i].order < #[trigger] batches[j].order
    &&& forall|i: int, j: int|
        0 <= i < j < shadow_batches.len() ==> #[trigger] shadow_batches[i].order
            < #[trigger] shadow_batches[j].order
    &&& forall|i: int, j: int|
        0 <= i < j < text_batches.len() ==> #[trigger] text_batches[i].order
            < #[trigger] text_batches[j].order
    &&& forall|i: int, j: int|
        0 <= i < batches.len() && 0 <= j < shadow_batches.len() ==> #[trigger] batches[i].order
            != #[trigger] shadow_batches[j].order
    &&& forall|i: int, j: int|
        0 <= i < batches.len() && 0 <= j < text_batches.len() ==> #[trigger] batches[i].order
            != #[trigger] text_batches[j].order
    &&& forall|i: int, j: int|
        0 <= i < shadow_batches.len() && 0 <= j < text_batches.len()
            ==> #[trigger] shadow_batches[i].order != #[trigger] text_batches[j].order
}

/// Whether quad batches cover the first `end` quads, back to back.
#[verifier::opaque]
pub open spec fn quad_batches_tile(batches: Seq<UiBatch>, end: int) -> bool {
    &&& forall|i: int|
        0 < i < batches.len() ==> (#[trigger] batches[i]).quad_range.start == batches[i
            - 1].quad_range.end
    &&& if batches.len() == 0 {
        end == 0
    } else {
        batches[0].quad_range.start == 0 && batches.last().quad_range.end == end
    }
}

/// Whether shadow batches cover the first `end` shadows, back to back.
#[verifier::opaque]
pub open spec fn shadow_batches_tile(batches: Seq<UiShadowBatch>, end: int) -> bool {
    &&& forall|i: int|
        0 < i < batches.len() ==> (#[trigger] batches[i]).quad_range.start == batches[i
            - 1].quad_range.end
    &&& if batches.len() == 0 {
        end == 0
    } else {
        batches[0].quad_range.start == 0 && batches.last().quad_range.end == end
    }
}

proof fn lemma_replay_quads(
    batches: Seq<UiBatch>,
    shadow_batches: Seq<UiShadowBatch>,
    text_batches: Seq<TextRunBatch>,
    log: Seq<Seq<Draw>>,
    batch: UiBatch,
)
    requires
        is_replay(batches, shadow_batches, text_batches, log),
        quad_batches_tile(batches, batch.quad_range.start as int),
        batch.quad_range.start < batch.quad_range.end,
        batch.order == log.len(),
    ensures
        is_replay(
            batches.push(batch),
            shadow_batches,
            text_batches,
            log.push(quads(batch.quad_range.start as int, batch.quad_range.end as int)),
        ),
        quad_batches_tile(batches.push(batch), batch.quad_range.end as int),
{
    reveal(is_replay);
    reveal(quad_batches_tile);
}

proof fn lemma_replay_shadows(
    batches: Seq<UiBatch>,
    shadow_batches: Seq<UiShadowBatch>,
    text_batches: Seq<TextRunBatch>,
    log: Seq<Seq<Draw>>,
    batch: UiShadowBatch,
)
    requires
        is_replay(batches, shadow_batches, text_batches, log),
        shadow_batches_tile(shadow_batches, batch.quad_range.start as int),
        batch.quad_range.start < batch.quad_range.end,
        batch.order == log.len(),
    ensures
        is_replay(
            batches,
            shadow_batches.push(batch),
            text_batches,
            log.push(shadows(batch.quad_range.start as int, batch.quad_range.end as int)),
        ),
        shadow_batches_tile(shadow_batches.push(batch), batch.quad_range.end as int),
{
    reveal(is_replay);
    reveal(shadow_batches_tile);
}

proof fn lemma_replay_text(
    batches: Seq<UiBatch>,
    shadow_batches: Seq<UiShadowBatch>,
    text_batches: Seq<TextRunBatch>,
    log: Seq<Seq<Draw>>,
    batch: TextRunBatch,
)
    requires
        is_replay(batches, shadow_batches, text_batches, log),
        batch.instance_range.start < batch.instance_range.end,
        batch.order == log.len(),
    ensures
        is_replay(
            batches,
            shadow_batches,
            text_batches.push(batch),
            log.push(glyphs(batch.instance_range.start as int, batch.instance_range.end as int)),
        ),
{
    reveal(is_replay);
}

proof fn lemma_replay_longer_text(
    batches: Seq<UiBatch>,
    shadow_batches: Seq<UiShadowBatch>,
    text_batches: Seq<TextRunBatch>,
    log: Seq<Seq<Draw>>,
    end: usize,
)
    requires
        is_replay(batches, shadow_batches, text_batches, log),
        text_batches.len() > 0,
        text_batches.last().order + 1 == log.len(),
        text_batches.last().instance_range.end < end,
    ensures
        is_replay(
            batches,
            shadow_batches,
            text_batches.drop_last().push(paint_batches::extended(text_batches.last(), end)),
            log.drop_last().push(
                log.last() + glyphs(text_batches.last().instance_range.end as int, end as int),
            ),
        ),
{
    reveal(is_replay);
    let last = text_batches.last();
    assert(last == text_batches[text_batches.len() - 1]);
    lemma_quads_join(
        last.instance_range.start as int,
        last.instance_range.end as int,
        end as int,
    );
    let new = text_batches.drop_last().push(paint_batches::extended(last, end));
    assert forall|i: int| 0 <= i < new.len() - 1 implies #[trigger] new[i] == text_batches[i] by {}
}

/// What the open batch draws.
pub open spec fn open_draws(streams: StreamsModel) -> Seq<Draw> {
    match streams.open {
        OpenBatch::Nothing => Seq::empty(),
        OpenBatch::Quads(start) => quads(start as int, streams.vertices.len() as int / 4),
        OpenBatch::Shadows(start) => shadows(start as int, streams.shadow_vertices.len() as int / 4),
    }
}

/// What painting keeps true.
pub open spec fn consistent(streams: StreamsModel, log: Seq<Seq<Draw>>, draws: Seq<Draw>) -> bool {
    let quad_end = streams.vertices.len() as int / 4;
    let shadow_end = streams.shadow_vertices.len() as int / 4;
    &&& streams.vertices.len() % 4 == 0
    &&& streams.shadow_vertices.len() % 4 == 0
    &&& log.len() == streams.next_order
    &&& is_replay(streams.batches, streams.shadow_batches, streams.text_batches, log)
    &&& joined(log) + open_draws(streams) == draws
    &&& match streams.open {
        OpenBatch::Nothing => quad_batches_tile(streams.batches, quad_end) && shadow_batches_tile(streams.shadow_batches,
            shadow_end,
        ),
        OpenBatch::Quads(start) => start <= quad_end && quad_batches_tile(streams.batches, start as int)
            && shadow_batches_tile(streams.shadow_batches, shadow_end),
        OpenBatch::Shadows(start) => start <= shadow_end && quad_batches_tile(streams.batches, quad_end)
            && shadow_batches_tile(streams.shadow_batches, start as int),
    }
}

proof fn lemma_joined_push(log: Seq<Seq<Draw>>, last: Seq<Draw>)
    ensures
        joined(log.push(last)) == joined(log) + last,
{
    assert(log.push(last).drop_last() =~= log);
}

/// Closing a batch moves what it draws from the open part to the log.
proof fn lemma_close(streams: StreamsModel, log: Seq<Seq<Draw>>, draws: Seq<Draw>) -> (closed_log: Seq<
    Seq<Draw>,
>)
    requires
        consistent(streams, log, draws),
        streams.next_order <= u32::MAX,
        streams.vertices.len() <= usize::MAX,
        streams.shadow_vertices.len() <= usize::MAX,
    ensures
        consistent(streams.close(), closed_log, draws),
        streams.close().open is Nothing,
        streams.close().vertices == streams.vertices,
        streams.close().shadow_vertices == streams.shadow_vertices,
{
    let closed = streams.close();
    match streams.open {
        OpenBatch::Nothing => log,
        OpenBatch::Quads(start) => {
            if streams.vertices.len() / 4 > start {
                let out = log.push(open_draws(streams));
                lemma_joined_push(log, open_draws(streams));
                assert(joined(out) + Seq::<Draw>::empty() =~= draws);
                lemma_replay_quads(
                    streams.batches,
                    streams.shadow_batches,
                    streams.text_batches,
                    log,
                    closed.batches.last(),
                );
                out
            } else {
                assert(joined(log) + Seq::<Draw>::empty() =~= draws);
                log
            }
        },
        OpenBatch::Shadows(start) => {
            if streams.shadow_vertices.len() / 4 > start {
                let out = log.push(open_draws(streams));
                lemma_joined_push(log, open_draws(streams));
                assert(joined(out) + Seq::<Draw>::empty() =~= draws);
                lemma_replay_shadows(
                    streams.batches,
                    streams.shadow_batches,
                    streams.text_batches,
                    log,
                    closed.shadow_batches.last(),
                );
                out
            } else {
                assert(joined(log) + Seq::<Draw>::empty() =~= draws);
                log
            }
        },
    }
}

proof fn lemma_segments_len(recipe: GradientModel, c: QuadCorners, n: nat)
    ensures
        paint_items::segments_vertices(recipe, c, n).len() == 4 * n,
    decreases n,
{
    if n > 0 {
        lemma_segments_len(recipe, c, (n - 1) as nat);
    }
}

proof fn lemma_quads_join(a: int, b: int, c: int)
    requires
        a <= b <= c,
    ensures
        quads(a, b) + quads(b, c) == quads(a, c),
        shadows(a, b) + shadows(b, c) == shadows(a, c),
        glyphs(a, b) + glyphs(b, c) == glyphs(a, c),
{
    assert(quads(a, b) + quads(b, c) =~= quads(a, c));
    assert(shadows(a, b) + shadows(b, c) =~= shadows(a, c));
    assert(glyphs(a, b) + glyphs(b, c) =~= glyphs(a, c));
}

/// Adding quads draws them next.
proof fn lemma_add_quads(
    streams: StreamsModel,
    log: Seq<Seq<Draw>>,
    draws: Seq<Draw>,
    vertices: Seq<crate::abi::UiVertex>,
) -> (new_log: Seq<Seq<Draw>>)
    requires
        consistent(streams, log, draws),
        streams.next_order <= u32::MAX,
        streams.vertices.len() <= usize::MAX,
        streams.shadow_vertices.len() <= usize::MAX,
        vertices.len() % 4 == 0,
    ensures
        ({
            let at = streams.vertices.len() as int / 4;
            consistent(
                streams.add_quads(vertices),
                new_log,
                draws + quads(at, at + vertices.len() as int / 4),
            )
        }),
{
    let at = streams.vertices.len() as int / 4;
    let opened = streams.with_quads_open();
    let out = match streams.open {
        OpenBatch::Quads(start) => log,
        _ => lemma_close(streams, log, draws),
    };
    if !(streams.open is Quads) {
        assert(open_draws(opened) =~= Seq::<Draw>::empty());
        assert(joined(out) + Seq::<Draw>::empty() =~= draws);
    }
    assert(consistent(opened, out, draws));
    let start = opened.open->Quads_0 as int;
    let after = streams.add_quads(vertices);
    let end = at + vertices.len() as int / 4;
    assert(after.vertices.len() as int / 4 == end);
    lemma_quads_join(start, at, end);
    assert(joined(out) + quads(start, end) =~= joined(out) + quads(start, at) + quads(at, end));
    out
}

/// Adding shadows draws them next.
proof fn lemma_add_shadows(
    streams: StreamsModel,
    log: Seq<Seq<Draw>>,
    draws: Seq<Draw>,
    vertices: Seq<crate::abi::UiShadowVertex>,
) -> (new_log: Seq<Seq<Draw>>)
    requires
        consistent(streams, log, draws),
        streams.next_order <= u32::MAX,
        streams.vertices.len() <= usize::MAX,
        streams.shadow_vertices.len() <= usize::MAX,
        vertices.len() % 4 == 0,
    ensures
        ({
            let at = streams.shadow_vertices.len() as int / 4;
            consistent(
                streams.add_shadows(vertices),
                new_log,
                draws + shadows(at, at + vertices.len() as int / 4),
            )
        }),
{
    let at = streams.shadow_vertices.len() as int / 4;
    let opened = streams.with_shadows_open();
    let out = match streams.open {
        OpenBatch::Shadows(start) => log,
        _ => lemma_close(streams, log, draws),
    };
    if !(streams.open is Shadows) {
        assert(open_draws(opened) =~= Seq::<Draw>::empty());
        assert(joined(out) + Seq::<Draw>::empty() =~= draws);
    }
    assert(consistent(opened, out, draws));
    let start = opened.open->Shadows_0 as int;
    let after = streams.add_shadows(vertices);
    let end = at + vertices.len() as int / 4;
    assert(after.shadow_vertices.len() as int / 4 == end);
    lemma_quads_join(start, at, end);
    assert(joined(out) + shadows(start, end) =~= joined(out) + shadows(start, at) + shadows(at, end));
    out
}

/// Adding a text run draws its glyphs next.
proof fn lemma_add_text(
    streams: StreamsModel,
    log: Seq<Seq<Draw>>,
    draws: Seq<Draw>,
    run: crate::paint_items::TextRunRecipe,
) -> (new_log: Seq<Seq<Draw>>)
    requires
        consistent(streams, log, draws),
        streams.next_order <= u32::MAX,
        streams.close().next_order <= u32::MAX,
        streams.vertices.len() <= usize::MAX,
        streams.shadow_vertices.len() <= usize::MAX,
        run.start < run.end,
    ensures
        consistent(
            streams.add_text(run),
            new_log,
            draws + glyphs(run.start as int, run.end as int),
        ),
{
    let closed = streams.close();
    let closed_log = lemma_close(streams, log, draws);
    let after = streams.add_text(run);
    let own = glyphs(run.start as int, run.end as int);
    assert(joined(closed_log) == draws) by {
        assert(joined(closed_log) + Seq::<Draw>::empty() =~= joined(closed_log));
    }
    if closed.text_batches.len() > 0 && paint_batches::continues(
        closed.text_batches.last(),
        run,
        closed.next_order,
    ) {
        let old_last = closed_log.last();
        let out = closed_log.drop_last().push(old_last + own);
        lemma_joined_push(closed_log.drop_last(), old_last + own);
        assert(joined(closed_log) == joined(closed_log.drop_last()) + old_last);
        assert(joined(out) + Seq::<Draw>::empty() =~= draws + own);
        lemma_replay_longer_text(
            closed.batches,
            closed.shadow_batches,
            closed.text_batches,
            closed_log,
            run.end,
        );
        out
    } else {
        let out = closed_log.push(own);
        lemma_joined_push(closed_log, own);
        assert(joined(out) + Seq::<Draw>::empty() =~= draws + own);
        lemma_replay_text(
            closed.batches,
            closed.shadow_batches,
            closed.text_batches,
            closed_log,
            paint_batches::text_batch(run, closed.next_order as u32),
        );
        out
    }
}

/// The streams hold four vertices for each quad and each shadow.
pub(crate) proof fn lemma_stream_lengths(items: Seq<ItemModel>, order: Seq<usize>, n: nat)
    ensures
        ({
            let streams = paint_batches::streams_after(items, order, n);
            &&& streams.vertices.len() == 4 * quad_total(items, order, n)
            &&& streams.shadow_vertices.len() == 4 * shadow_total(items, order, n)
        }),
    decreases n,
{
    if n > 0 {
        lemma_stream_lengths(items, order, (n - 1) as nat);
        if let PayloadModel::Gradient(recipe) = items[order[n - 1] as int].payload {
            if let Some(c) = recipe.corners {
                lemma_segments_len(recipe, c, recipe.segments.len());
            }
        }
    }
}

/// Whether every text run in a list of items is a nonempty range.
pub open spec fn runs_nonempty(items: Seq<ItemModel>) -> bool {
    forall|i: int|
        0 <= i < items.len() ==> ((#[trigger] items[i]).payload matches PayloadModel::TextRun(run)
            ==> run.start < run.end)
}

/// Painting the first `n` items leaves consistent streams, as long as indices fit.
proof fn lemma_painted(items: Seq<ItemModel>, order: Seq<usize>, n: nat) -> (log: Seq<Seq<Draw>>)
    requires
        n <= order.len(),
        paint_batches::streams_after(items, order, n).next_order <= u32::MAX,
        forall|i: int| 0 <= i < order.len() ==> #[trigger] order[i] < items.len(),
        runs_nonempty(items),
        4 * quad_total(items, order, n) <= usize::MAX,
        4 * shadow_total(items, order, n) <= usize::MAX,
    ensures
        ({
            let streams = paint_batches::streams_after(items, order, n);
            &&& consistent(streams, log, painted(items, order, n))
            &&& streams.vertices.len() == 4 * quad_total(items, order, n)
            &&& streams.shadow_vertices.len() == 4 * shadow_total(items, order, n)
        }),
    decreases n,
{
    if n == 0 {
        reveal(is_replay);
        reveal(quad_batches_tile);
        reveal(shadow_batches_tile);
        assert(joined(Seq::empty()) + Seq::<Draw>::empty() =~= Seq::<Draw>::empty());
        Seq::empty()
    } else {
        let before = (n - 1) as nat;
        let item = items[order[n - 1] as int];
        paint_batches::lemma_orders_grow(items, order, before, n);
        let log = lemma_painted(items, order, before);
        let streams = paint_batches::streams_after(items, order, before);
        let draws = painted(items, order, before);
        match item.payload {
            PayloadModel::Quad(recipe) => lemma_add_quads(
                streams,
                log,
                draws,
                paint_items::quad_vertices(recipe),
            ),
            PayloadModel::Gradient(recipe) => {
                if let Some(c) = recipe.corners {
                    lemma_segments_len(recipe, c, recipe.segments.len());
                }
                lemma_add_quads(streams, log, draws, paint_items::gradient_vertices(recipe))
            },
            PayloadModel::Material(recipe) => lemma_add_quads(
                streams,
                log,
                draws,
                paint_items::material_vertices(recipe),
            ),
            PayloadModel::Shadow(recipe) => lemma_add_shadows(
                streams,
                log,
                draws,
                paint_items::shadow_quad_vertices(recipe),
            ),
            PayloadModel::TextRun(run) => lemma_add_text(streams, log, draws, run),
        }
    }
}

/// Drawing the batches by ascending order value draws every primitive in
/// painter's order, each once.
///
/// Each batch has an order value of its own and the values have no gaps; the
/// quad and shadow batches cover their streams back to back; and what the
/// batches draw, taken by ascending order value, is what the items draw one
/// after the other.
pub proof fn law_batches_keep_painter_order(items: Seq<ItemModel>, order: Seq<usize>)
    requires
        paint_batches::orders_fit(items, order),
        forall|i: int| 0 <= i < order.len() ==> #[trigger] order[i] < items.len(),
        runs_nonempty(items),
        4 * quad_total(items, order, order.len()) <= usize::MAX,
        4 * shadow_total(items, order, order.len()) <= usize::MAX,
    ensures
        ({
            let streams = paint_batches::streams_after(items, order, order.len()).finish();
            &&& exists|log: Seq<Seq<Draw>>|
                #[trigger] is_replay(
                    streams.batches,
                    streams.shadow_batches,
                    streams.text_batches,
                    log,
                ) && joined(log) == painted(
                    items,
                    order,
                    order.len(),
                )
            &&& quad_batches_tile(streams.batches, quad_total(items, order, order.len()) as int)
            &&& shadow_batches_tile(streams.shadow_batches, shadow_total(items, order, order.len()) as int)
            &&& streams.vertices.len() == 4 * quad_total(items, order, order.len())
            &&& streams.shadow_vertices.len() == 4 * shadow_total(items, order, order.len())
        }),
{
    let n = order.len();
    let log = lemma_painted(items, order, n);
    let open = paint_batches::streams_after(items, order, n);
    let closed_log = lemma_close(open, log, painted(items, order, n));
    assert(joined(closed_log) + Seq::<Draw>::empty() =~= joined(closed_log));
    let streams = open.finish();
    assert(is_replay(
        streams.batches,
        streams.shadow_batches,
        streams.text_batches,
        closed_log,
    ));
}

/// As many order values are given out as there are batches.
pub(crate) proof fn lemma_orders_counted(items: Seq<ItemModel>, order: Seq<usize>)
    requires
        paint_batches::orders_fit(items, order),
        forall|i: int| 0 <= i < order.len() ==> #[trigger] order[i] < items.len(),
        runs_nonempty(items),
        4 * quad_total(items, order, order.len()) <= usize::MAX,
        4 * shadow_total(items, order, order.len()) <= usize::MAX,
    ensures
        ({
            let streams = paint_batches::streams_after(items, order, order.len()).close();
            streams.next_order == streams.batches.len() + streams.shadow_batches.len()
                + streams.text_batches.len()
        }),
{
    reveal(is_replay);
    let n = order.len();
    let log = lemma_painted(items, order, n);
    let open = paint_batches::streams_after(items, order, n);
    let closed_log = lemma_close(open, log, painted(items, order, n));
    assert(closed_log.len() == open.close().next_order);
}

/// Whether no item of a list draws text.
pub open spec fn no_runs(items: Seq<ItemModel>) -> bool {
    forall|i: int| 0 <= i < items.len() ==> !((#[trigger] items[i]).payload is TextRun)
}

/// Whether the text runs among the first `n` items are nonempty and follow one
/// another from `first` to `end`.
pub open spec fn runs_follow(items: Seq<ItemModel>, first: int, end: int, n: nat) -> bool
    decreases n,
{
    if n == 0 {
        first == end
    } else {
        match items[n - 1].payload {
            PayloadModel::TextRun(run) => run.start < run.end && run.end == end && runs_follow(
                items,
                first,
                run.start as int,
                (n - 1) as nat,
            ),
            _ => runs_follow(items, first, end, (n - 1) as nat),
        }
    }
}

pub(crate) proof fn lemma_runs_ascend(items: Seq<ItemModel>, first: int, end: int, n: nat)
    requires
        runs_follow(items, first, end, n),
    ensures
        first <= end,
    decreases n,
{
    if n > 0 {
        match items[n - 1].payload {
            PayloadModel::TextRun(run) => {
                lemma_runs_ascend(items, first, run.start as int, (n - 1) as nat);
            },
            _ => {
                lemma_runs_ascend(items, first, end, (n - 1) as nat);
            },
        }
    }
}

proof fn lemma_runs_nonempty(items: Seq<ItemModel>, first: int, end: int, n: nat, k: int)
    requires
        0 <= k < n <= items.len(),
        runs_follow(items, first, end, n),
    ensures
        items[k].payload matches PayloadModel::TextRun(run) ==> run.start < run.end,
    decreases n,
{
    if k < n - 1 {
        match items[n - 1].payload {
            PayloadModel::TextRun(run) => {
                lemma_runs_nonempty(items, first, run.start as int, (n - 1) as nat, k);
            },
            _ => {
                lemma_runs_nonempty(items, first, end, (n - 1) as nat, k);
            },
        }
    }
}

proof fn lemma_follow_prefix(a: Seq<ItemModel>, b: Seq<ItemModel>, first: int, end: int, n: nat)
    requires
        n <= a.len(),
        runs_follow(a, first, end, n),
    ensures
        runs_follow(a + b, first, end, n),
    decreases n,
{
    if n > 0 {
        assert((a + b)[n - 1] == a[n - 1]);
        match a[n - 1].payload {
            PayloadModel::TextRun(run) => {
                lemma_follow_prefix(a, b, first, run.start as int, (n - 1) as nat);
            },
            _ => {
                lemma_follow_prefix(a, b, first, end, (n - 1) as nat);
            },
        }
    }
}

proof fn lemma_follow_onto(
    a: Seq<ItemModel>,
    b: Seq<ItemModel>,
    first: int,
    middle: int,
    end: int,
    n: nat,
)
    requires
        n <= b.len(),
        runs_follow(a, first, middle, a.len()),
        runs_follow(b, middle, end, n),
    ensures
        runs_follow(a + b, first, end, a.len() + n),
    decreases n,
{
    if n == 0 {
        lemma_follow_prefix(a, b, first, middle, a.len());
    } else {
        assert((a + b)[a.len() + n - 1] == b[n - 1]);
        match b[n - 1].payload {
            PayloadModel::TextRun(run) => {
                lemma_follow_onto(a, b, first, middle, run.start as int, (n - 1) as nat);
            },
            _ => {
                lemma_follow_onto(a, b, first, middle, end, (n - 1) as nat);
            },
        }
    }
}

/// Lists whose runs follow one another can be joined.
proof fn lemma_follow_join(
    a: Seq<ItemModel>,
    b: Seq<ItemModel>,
    first: int,
    middle: int,
    end: int,
)
    requires
        runs_follow(a, first, middle, a.len()),
        runs_follow(b, middle, end, b.len()),
    ensures
        runs_follow(a + b, first, end, (a + b).len()),
{
    lemma_follow_onto(a, b, first, middle, end, b.len());
}

proof fn lemma_no_runs_follow(items: Seq<ItemModel>, first: int, n: nat)
    requires
        n <= items.len(),
        no_runs(items),
    ensures
        runs_follow(items, first, first, n),
    decreases n,
{
    if n > 0 {
        lemma_no_runs_follow(items, first, (n - 1) as nat);
        assert(!(items[n - 1].payload is TextRun));
    }
}

proof fn lemma_no_runs_join(a: Seq<ItemModel>, b: Seq<ItemModel>)
    requires
        no_runs(a),
        no_runs(b),
    ensures
        no_runs(a + b),
{
    assert forall|i: int| 0 <= i < (a + b).len() implies !((#[trigger] (a + b)[i]).payload is TextRun) by {
        if i < a.len() {
            assert((a + b)[i] == a[i]);
        } else {
            assert((a + b)[i] == b[i - a.len()]);
        }
    }
}

proof fn lemma_rows_runs<R>(rows: Seq<R>, added: spec_fn(R) -> Seq<ItemModel>, n: nat)
    requires
        n <= rows.len(),
        forall|row: R| no_runs(#[trigger] added(row)),
    ensures
        no_runs(paint::rows_items(rows, added, n)),
    decreases n,
{
    if n > 0 {
        lemma_rows_runs(rows, added, (n - 1) as nat);
        lemma_no_runs_join(paint::rows_items(rows, added, (n - 1) as nat), added(rows[n - 1]));
    }
}

proof fn lemma_shadow_runs(stack_index: u32, layers: Seq<paint::ShadowLayer>, n: nat)
    ensures
        no_runs(paint::shadow_layers_items(stack_index, layers, n)),
    decreases n,
{
    if n > 0 {
        lemma_shadow_runs(stack_index, layers, (n - 1) as nat);
        lemma_no_runs_join(
            paint::shadow_layers_items(stack_index, layers, (n - 1) as nat),
            paint::shadow_layer_items(stack_index, layers[n - 1]),
        );
    }
}

proof fn lemma_border_runs(node: paint::NodeShape, colors: paint::BorderColors, n: nat)
    ensures
        no_runs(paint::border_groups(node, colors, n)),
    decreases n,
{
    if n > 0 {
        lemma_border_runs(node, colors, (n - 1) as nat);
    }
}

proof fn lemma_gradient_runs(node: paint::NodeShape, layers: Seq<paint::GradientLayer>, n: nat)
    ensures
        no_runs(paint::gradient_layers_items(node, layers, n)),
    decreases n,
{
    if n > 0 {
        lemma_gradient_runs(node, layers, (n - 1) as nat);
        if let paint::GradientLayer::Linear { stops, hsla } = layers[n - 1] {
            lemma_no_runs_join(
                paint::gradient_layers_items(node, layers, (n - 1) as nat),
                paint::linear_gradient_items(node, stops@, hsla),
            );
        }
    }
}

/// The runs of a text follow the instances before it, over its own.
proof fn lemma_glyph_runs(stack_index: u32, runs: Seq<paint::GlyphRun>, decorated: bool, first: nat, n: nat)
    requires
        first + paint::runs_painted(stack_index, runs, decorated, first, n).0.len() <= usize::MAX,
    ensures
        ({
            let painted = paint::runs_painted(stack_index, runs, decorated, first, n);
            runs_follow(
                painted.1,
                first as int,
                (first + painted.0.len()) as int,
                painted.1.len(),
            )
        }),
    decreases n,
{
    if n > 0 {
        let before = paint::runs_painted(stack_index, runs, decorated, first, (n - 1) as nat);
        let run = runs[n - 1];
        lemma_glyph_runs(stack_index, runs, decorated, first, (n - 1) as nat);
        let start = (first + before.0.len()) as int;
        let count = paint::run_instances(run, run.glyphs@.len()).len();
        let end = start + count;
        let own = paint::run_items(stack_index, run, first + before.0.len());
        assert(runs_follow(own, start, end, own.len())) by {
            reveal_with_fuel(runs_follow, 2);
        }
        lemma_follow_join(before.1, own, first as int, start, end);
        if decorated {
            let strike = paint::decoration_items(stack_index, run.strikethrough, run.color);
            let under = paint::decoration_items(stack_index, run.underline, run.color);
            lemma_no_runs_follow(strike, end, strike.len());
            lemma_no_runs_follow(under, end, under.len());
            lemma_follow_join(before.1 + own, strike, first as int, end, end);
            lemma_follow_join(before.1 + own + strike, under, first as int, end, end);
        }
    }
}

proof fn lemma_editable_runs(row: paint::EditableTextRow, focused: bool)
    ensures
        no_runs(paint::editable_decorations(row, focused)),
{
    let items = paint::editable_decorations(row, focused);
    assert forall|i: int| 0 <= i < items.len() implies (#[trigger] items[i]).payload is Quad by {}
}

proof fn lemma_text_rows_runs(rows: Seq<paint::TextRow>, n: nat)
    requires
        paint::texts_painted(rows, n).0.len() <= usize::MAX,
    ensures
        ({
            let painted = paint::texts_painted(rows, n);
            runs_follow(painted.1, 0, painted.0.len() as int, painted.1.len())
        }),
    decreases n,
{
    if n > 0 {
        let before = paint::texts_painted(rows, (n - 1) as nat);
        let row = rows[n - 1];
        let own = paint::text_painted(row, before.0.len());
        lemma_text_rows_runs(rows, (n - 1) as nat);
        if row.node.visible && !row.node.empty {
            lemma_glyph_runs(row.node.stack_index, row.runs@, true, before.0.len(), row.runs@.len());
        } else {
            lemma_no_runs_follow(own.1, before.0.len() as int, own.1.len());
        }
        lemma_follow_join(
            before.1,
            own.1,
            0,
            before.0.len() as int,
            (before.0.len() + own.0.len()) as int,
        );
    }
}

proof fn lemma_editable_rows_runs(rows: Seq<paint::EditableTextRow>, focus: Option<u64>, first: nat, n: nat)
    requires
        first + paint::editables_painted(rows, focus, first, n).0.len() <= usize::MAX,
    ensures
        ({
            let painted = paint::editables_painted(rows, focus, first, n);
            runs_follow(
                painted.1,
                first as int,
                (first + painted.0.len()) as int,
                painted.1.len(),
            )
        }),
    decreases n,
{
    if n > 0 {
        let before = paint::editables_painted(rows, focus, first, (n - 1) as nat);
        let row = rows[n - 1];
        let at = first + before.0.len();
        let own = paint::editable_painted(row, focus, at);
        let end = (at + own.0.len()) as int;
        lemma_editable_rows_runs(rows, focus, first, (n - 1) as nat);
        if row.node.visible && !row.node.empty {
            let runs = paint::runs_painted(
                row.node.stack_index,
                row.runs@,
                false,
                at,
                row.runs@.len(),
            ).1;
            let decorations = paint::editable_decorations(row, focus == Some(row.entity));
            lemma_glyph_runs(row.node.stack_index, row.runs@, false, at, row.runs@.len());
            lemma_editable_runs(row, focus == Some(row.entity));
            lemma_no_runs_follow(decorations, end, decorations.len());
            lemma_follow_join(runs, decorations, at as int, end, end);
        } else {
            lemma_no_runs_follow(own.1, at as int, own.1.len());
        }
        lemma_follow_join(before.1, own.1, first as int, at as int, end);
    }
}

/// The text items of a frame draw nonempty ranges of its glyph instances that
/// follow one another from the first instance to the last.
pub proof fn law_frame_runs_follow(frame: paint::UiFrame, slots: Map<u128, u32>)
    requires
        paint::frame_painted(frame, slots).0.len() <= usize::MAX,
    ensures
        ({
            let painted = paint::frame_painted(frame, slots);
            runs_follow(painted.1, 0, painted.0.len() as int, painted.1.len())
        }),
{
    let backgrounds = |row: paint::BackgroundRow| paint::background_items(row);
    let shadow_rows = |row: paint::ShadowRow| paint::shadow_items(row);
    let borders = |row: paint::BorderRow| paint::edge_items(row);
    let gradients = |row: paint::GradientRow| paint::gradient_items(row);
    let images = |row: paint::ImageRow| paint::image_items(row, slots);
    let materials = |row: paint::MaterialRow| paint::material_items(row);
    assert forall|row: paint::BackgroundRow| no_runs(#[trigger] backgrounds(row)) by {}
    assert forall|row: paint::ShadowRow| no_runs(#[trigger] shadow_rows(row)) by {
        lemma_shadow_runs(row.node.stack_index, row.layers@, row.layers@.len());
    }
    assert forall|row: paint::BorderRow| no_runs(#[trigger] borders(row)) by {
        if row.node.visible {
            if let Some(colors) = row.border {
                lemma_border_runs(row.node, colors, 4);
            }
            if let Some(outline) = row.outline {
                let border = match row.border {
                    Some(colors) => paint::border_items(row.node, colors),
                    None => Seq::empty(),
                };
                lemma_no_runs_join(border, paint::outline_items(row.node, outline));
            }
        }
    }
    assert forall|row: paint::GradientRow| no_runs(#[trigger] gradients(row)) by {
        lemma_gradient_runs(row.node, row.layers@, row.layers@.len());
    }
    assert forall|row: paint::ImageRow| no_runs(#[trigger] images(row)) by {}
    assert forall|row: paint::MaterialRow| no_runs(#[trigger] materials(row)) by {}
    lemma_rows_runs(frame.backgrounds@, backgrounds, frame.backgrounds@.len());
    lemma_rows_runs(frame.shadows@, shadow_rows, frame.shadows@.len());
    lemma_rows_runs(frame.borders@, borders, frame.borders@.len());
    lemma_rows_runs(frame.gradients@, gradients, frame.gradients@.len());
    lemma_rows_runs(frame.images@, images, frame.images@.len());
    lemma_rows_runs(frame.materials@, materials, frame.materials@.len());
    let a = paint::rows_items(frame.backgrounds@, backgrounds, frame.backgrounds@.len());
    let b = paint::rows_items(frame.shadows@, shadow_rows, frame.shadows@.len());
    let c = paint::rows_items(frame.borders@, borders, frame.borders@.len());
    let d = paint::rows_items(frame.gradients@, gradients, frame.gradients@.len());
    let e = paint::rows_items(frame.images@, images, frame.images@.len());
    let f = paint::rows_items(frame.materials@, materials, frame.materials@.len());
    let texts = paint::texts_painted(frame.texts@, frame.texts@.len());
    let editables = paint::editables_painted(
        frame.editable_texts@,
        frame.focus,
        texts.0.len(),
        frame.editable_texts@.len(),
    );
    lemma_text_rows_runs(frame.texts@, frame.texts@.len());
    lemma_editable_rows_runs(
        frame.editable_texts@,
        frame.focus,
        texts.0.len(),
        frame.editable_texts@.len(),
    );
    lemma_no_runs_join(a, b);
    lemma_no_runs_join(a + b, c);
    lemma_no_runs_join(a + b + c, d);
    lemma_no_runs_join(a + b + c + d, e);
    lemma_no_runs_join(a + b + c + d + e, f);
    let boxes = a + b + c + d + e + f;
    let middle = texts.0.len() as int;
    let end = middle + editables.0.len();
    lemma_no_runs_follow(boxes, 0, boxes.len());
    lemma_follow_join(boxes, texts.1, 0, 0, middle);
    lemma_follow_join(boxes + texts.1, editables.1, 0, middle, end);
}

/// Every text item of a frame draws a nonempty range of the frame's glyph instances.
pub proof fn law_frame_runs_are_nonempty(frame: paint::UiFrame, slots: Map<u128, u32>)
    requires
        paint::frame_painted(frame, slots).0.len() <= usize::MAX,
    ensures
        runs_nonempty(paint::frame_painted(frame, slots).1),
{
    let painted = paint::frame_painted(frame, slots);
    law_frame_runs_follow(frame, slots);
    assert forall|i: int| 0 <= i < painted.1.len() implies ((#[trigger] painted.1[i]).payload matches PayloadModel::TextRun(
        run,
    ) ==> run.start < run.end) by {
        lemma_runs_nonempty(painted.1, 0, painted.0.len() as int, painted.1.len(), i);
    }
}

} // verus!
