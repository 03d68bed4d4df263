//! Turns sorted paint items into vertex streams and draw batches.
//!
//! Quads, shadows and glyphs go into streams of their own. Each batch covers a
//! range of one stream, and all batches share one sequence of order values by
//! which a renderer interleaves them.

use core::ops::Range;

use vstd::prelude::*;

use crate::abi::{PixelRect, RectBits, UiShadowVertex, UiVertex};
use crate::float_bits;
use crate::paint_items;
use crate::paint_items::{
    emit_gradient, emit_material, emit_quad, emit_shadow, ItemModel, PaintItem, PaintPayload,
    PayloadModel, TextRunRecipe,
};

verus! {

/// A UI quad range and optional scissor rectangle.
#[derive(Debug, PartialEq, Eq)]
pub struct UiBatch {
    pub quad_range: Range<usize>,
    pub scissor: Option<PixelRect>,
    /// Shared order for interleaving UI, shadow, and text batches.
    pub order: u32,
}

/// A shadow quad range and optional scissor rectangle.
#[derive(Debug, PartialEq, Eq)]
pub struct UiShadowBatch {
    pub quad_range: Range<usize>,
    pub scissor: Option<PixelRect>,
    /// Shared order for interleaving UI, shadow, and text batches.
    pub order: u32,
}

/// Text instances grouped by font, size, and clip.
#[derive(Debug, PartialEq, Eq)]
pub struct TextRunBatch {
    pub instance_range: Range<usize>,
    pub clip: Option<RectBits>,
    pub blob_id: u64,
    pub font_index: u32,
    pub font_px_per_em: u32,
    /// Shared order for interleaving UI, shadow, and text batches.
    pub order: u32,
}

impl Clone for UiBatch {
    fn clone(&self) -> (batch: UiBatch)
        ensures
            batch == *self,
    {
        UiBatch {
            quad_range: Range { start: self.quad_range.start, end: self.quad_range.end },
            scissor: self.scissor,
            order: self.order,
        }
    }
}

impl Clone for UiShadowBatch {
    fn clone(&self) -> (batch: UiShadowBatch)
        ensures
            batch == *self,
    {
        UiShadowBatch {
            quad_range: Range { start: self.quad_range.start, end: self.quad_range.end },
            scissor: self.scissor,
            order: self.order,
        }
    }
}

impl Clone for TextRunBatch {
    fn clone(&self) -> (batch: TextRunBatch)
        ensures
            batch == *self,
    {
        TextRunBatch {
            instance_range: Range { start: self.instance_range.start, end: self.instance_range.end },
            clip: self.clip,
            blob_id: self.blob_id,
            font_index: self.font_index,
            font_px_per_em: self.font_px_per_em,
            order: self.order,
        }
    }
}

/// The batch that is still being filled, by the quad it started at.
pub enum OpenBatch {
    Nothing,
    Quads(usize),
    Shadows(usize),
}

/// Streams and batches under construction.
pub struct PaintStreams {
    pub vertices: Vec<UiVertex>,
    pub batches: Vec<UiBatch>,
    pub shadow_vertices: Vec<UiShadowVertex>,
    pub shadow_batches: Vec<UiShadowBatch>,
    pub text_batches: Vec<TextRunBatch>,
    pub next_order: u32,
    pub open: OpenBatch,
}

/// Model of streams and batches under construction.
pub struct StreamsModel {
    pub vertices: Seq<UiVertex>,
    pub batches: Seq<UiBatch>,
    pub shadow_vertices: Seq<UiShadowVertex>,
    pub shadow_batches: Seq<UiShadowBatch>,
    pub text_batches: Seq<TextRunBatch>,
    pub next_order: nat,
    pub open: OpenBatch,
}

impl View for PaintStreams {
    type V = StreamsModel;

    open spec fn view(&self) -> StreamsModel {
        StreamsModel {
            vertices: self.vertices@,
            batches: self.batches@,
            shadow_vertices: self.shadow_vertices@,
            shadow_batches: self.shadow_batches@,
            text_batches: self.text_batches@,
            next_order: self.next_order as nat,
            open: self.open,
        }
    }
}

impl StreamsModel {
    /// Nothing painted yet.
    pub open spec fn empty() -> StreamsModel {
        StreamsModel {
            vertices: Seq::empty(),
            batches: Seq::empty(),
            shadow_vertices: Seq::empty(),
            shadow_batches: Seq::empty(),
            text_batches: Seq::empty(),
            next_order: 0,
            open: OpenBatch::Nothing,
        }
    }

    /// Closes the open batch; one that holds nothing leaves no trace.
    pub open spec fn close(self) -> StreamsModel {
        match self.open {
            OpenBatch::Nothing => self,
            OpenBatch::Quads(start) => if self.vertices.len() / 4 > start {
                StreamsModel {
                    batches: self.batches.push(
                        UiBatch {
                            quad_range: Range {
                                start,
                                end: (self.vertices.len() / 4) as usize,
                            },
                            scissor: None,
                            order: self.next_order as u32,
                        },
                    ),
                    next_order: self.next_order + 1,
                    open: OpenBatch::Nothing,
                    ..self
                }
            } else {
                StreamsModel { open: OpenBatch::Nothing, ..self }
            },
            OpenBatch::Shadows(start) => if self.shadow_vertices.len() / 4 > start {
                StreamsModel {
                    shadow_batches: self.shadow_batches.push(
                        UiShadowBatch {
                            quad_range: Range {
                                start,
                                end: (self.shadow_vertices.len() / 4) as usize,
                            },
                            scissor: None,
                            order: self.next_order as u32,
                        },
                    ),
                    next_order: self.next_order + 1,
                    open: OpenBatch::Nothing,
                    ..self
                }
            } else {
                StreamsModel { open: OpenBatch::Nothing, ..self }
            },
        }
    }

    /// Makes sure that a quad batch is open.
    pub open spec fn with_quads_open(self) -> StreamsModel {
        match self.open {
            OpenBatch::Quads(start) => self,
            _ => StreamsModel {
                open: OpenBatch::Quads((self.vertices.len() / 4) as usize),
                ..self.close()
            },
        }
    }

    /// Makes sure that a shadow batch is open.
    pub open spec fn with_shadows_open(self) -> StreamsModel {
        match self.open {
            OpenBatch::Shadows(start) => self,
            _ => StreamsModel {
                open: OpenBatch::Shadows((self.shadow_vertices.len() / 4) as usize),
                ..self.close()
            },
        }
    }

    /// Adds quad vertices.
    pub open spec fn add_quads(self, vertices: Seq<UiVertex>) -> StreamsModel {
        let opened = self.with_quads_open();
        StreamsModel { vertices: opened.vertices + vertices, ..opened }
    }

    /// Adds shadow vertices.
    pub open spec fn add_shadows(self, vertices: Seq<UiShadowVertex>) -> StreamsModel {
        let opened = self.with_shadows_open();
        StreamsModel { shadow_vertices: opened.shadow_vertices + vertices, ..opened }
    }

    /// Adds a text run: to the last text batch if the run continues it and
    /// nothing was batched in between, else as a batch of its own.
    pub open spec fn add_text(self, run: TextRunRecipe) -> StreamsModel {
        let closed = self.close();
        if closed.text_batches.len() > 0 && continues(
            closed.text_batches.last(),
            run,
            closed.next_order,
        ) {
            StreamsModel {
                text_batches: closed.text_batches.drop_last().push(
                    extended(closed.text_batches.last(), run.end),
                ),
                ..closed
            }
        } else {
            StreamsModel {
                text_batches: closed.text_batches.push(text_batch(run, closed.next_order as u32)),
                next_order: closed.next_order + 1,
                ..closed
            }
        }
    }

    /// Closes the last batch; no order value is set aside after it.
    pub open spec fn finish(self) -> StreamsModel {
        StreamsModel { next_order: self.next_order, ..self.close() }
    }

    /// Whether every text batch has an order value that was given out.
    pub open spec fn text_ordered(self) -> bool {
        forall|i: int|
            0 <= i < self.text_batches.len() ==> #[trigger] self.text_batches[i].order
                < self.next_order
    }

    /// Adds a paint item.
    pub open spec fn add(self, item: ItemModel) -> StreamsModel {
        match item.payload {
            PayloadModel::Quad(recipe) => self.add_quads(paint_items::quad_vertices(recipe)),
            PayloadModel::Gradient(recipe) => self.add_quads(
                paint_items::gradient_vertices(recipe),
            ),
            PayloadModel::Material(recipe) => self.add_quads(
                paint_items::material_vertices(recipe),
            ),
            PayloadModel::Shadow(recipe) => self.add_shadows(
                paint_items::shadow_quad_vertices(recipe),
            ),
            PayloadModel::TextRun(run) => self.add_text(run),
        }
    }
}

/// Streams after the first `n` items in painter's order.
pub open spec fn streams_after(items: Seq<ItemModel>, order: Seq<usize>, n: nat) -> StreamsModel
    decreases n,
{
    if n == 0 {
        StreamsModel::empty()
    } else {
        streams_after(items, order, (n - 1) as nat).add(items[order[n - 1] as int])
    }
}

/// Equal clips, compared as numbers.
pub open spec fn same_clip(a: Option<RectBits>, b: Option<RectBits>) -> bool {
    match (a, b) {
        (None, None) => true,
        (Some(a), Some(b)) => float_bits::equal(a.min.x, b.min.x) && float_bits::equal(
            a.min.y,
            b.min.y,
        ) && float_bits::equal(a.max.x, b.max.x) && float_bits::equal(a.max.y, b.max.y),
        _ => false,
    }
}

/// Whether a run has the batch's font, size and clip, starts where the batch
/// ends, and the batch is the latest one made.
pub open spec fn continues(last: TextRunBatch, run: TextRunRecipe, next_order: nat) -> bool {
    &&& last.blob_id == run.blob_id
    &&& last.font_index == run.font_index
    &&& float_bits::equal(last.font_px_per_em, run.font_px_per_em)
    &&& same_clip(last.clip, run.clip)
    &&& last.instance_range.end == run.start
    &&& last.order + 1 == next_order
}

/// A text batch that now ends at `end`.
pub open spec fn extended(batch: TextRunBatch, end: usize) -> TextRunBatch {
    TextRunBatch { instance_range: Range { start: batch.instance_range.start, end }, ..batch }
}

/// A text batch of one run.
pub open spec fn text_batch(run: TextRunRecipe, order: u32) -> TextRunBatch {
    TextRunBatch {
        instance_range: Range { start: run.start, end: run.end },
        clip: run.clip,
        blob_id: run.blob_id,
        font_index: run.font_index,
        font_px_per_em: run.font_px_per_em,
        order,
    }
}

fn is_same_clip(a: &Option<RectBits>, b: &Option<RectBits>) -> (same: bool)
    ensures
        same == same_clip(*a, *b),
{
    match (a, b) {
        (None, None) => true,
        (Some(a), Some(b)) => float_bits::is_equal(a.min.x, b.min.x) && float_bits::is_equal(
            a.min.y,
            b.min.y,
        ) && float_bits::is_equal(a.max.x, b.max.x) && float_bits::is_equal(a.max.y, b.max.y),
        _ => false,
    }
}

impl PaintStreams {
    /// Empty streams.
    pub fn new() -> (streams: PaintStreams)
        ensures
            streams@ == StreamsModel::empty(),
    {
        PaintStreams {
            vertices: Vec::new(),
            batches: Vec::new(),
            shadow_vertices: Vec::new(),
            shadow_batches: Vec::new(),
            text_batches: Vec::new(),
            next_order: 0,
            open: OpenBatch::Nothing,
        }
    }

    /// Closes the open batch; one that holds nothing leaves no trace.
    pub fn close(&mut self)
        requires
            old(self)@.close().next_order <= u32::MAX,
        ensures
            final(self)@ == old(self)@.close(),
    {
        match self.open {
            OpenBatch::Nothing => {},
            OpenBatch::Quads(start) => {
                let end: usize = self.vertices.len() / 4;
                if end > start {
                    self.batches.push(
                        UiBatch {
                            quad_range: Range { start, end },
                            scissor: None,
                            order: self.next_order,
                        },
                    );
                    self.next_order = self.next_order + 1;
                }
                self.open = OpenBatch::Nothing;
            },
            OpenBatch::Shadows(start) => {
                let end: usize = self.shadow_vertices.len() / 4;
                if end > start {
                    self.shadow_batches.push(
                        UiShadowBatch {
                            quad_range: Range { start, end },
                            scissor: None,
                            order: self.next_order,
                        },
                    );
                    self.next_order = self.next_order + 1;
                }
                self.open = OpenBatch::Nothing;
            },
        }
    }

    /// Closes the last batch; no order value is set aside after it.
    pub fn finish(&mut self)
        ensures
            final(self)@ == old(self)@.finish(),
    {
        match self.open {
            OpenBatch::Nothing => {},
            OpenBatch::Quads(start) => {
                let end: usize = self.vertices.len() / 4;
                if end > start {
                    self.batches.push(
                        UiBatch {
                            quad_range: Range { start, end },
                            scissor: None,
                            order: self.next_order,
                        },
                    );
                }
                self.open = OpenBatch::Nothing;
            },
            OpenBatch::Shadows(start) => {
                let end: usize = self.shadow_vertices.len() / 4;
                if end > start {
                    self.shadow_batches.push(
                        UiShadowBatch {
                            quad_range: Range { start, end },
                            scissor: None,
                            order: self.next_order,
                        },
                    );
                }
                self.open = OpenBatch::Nothing;
            },
        }
    }

    fn open_quads(&mut self)
        requires
            old(self)@.with_quads_open().next_order <= u32::MAX,
        ensures
            final(self)@ == old(self)@.with_quads_open(),
    {
        match self.open {
            OpenBatch::Quads(_) => {},
            _ => {
                self.close();
                self.open = OpenBatch::Quads(self.vertices.len() / 4);
            },
        }
    }

    fn open_shadows(&mut self)
        requires
            old(self)@.with_shadows_open().next_order <= u32::MAX,
        ensures
            final(self)@ == old(self)@.with_shadows_open(),
    {
        match self.open {
            OpenBatch::Shadows(_) => {},
            _ => {
                self.close();
                self.open = OpenBatch::Shadows(self.shadow_vertices.len() / 4);
            },
        }
    }

    fn add_text(&mut self, run: &TextRunRecipe)
        requires
            old(self)@.text_ordered(),
            old(self)@.add_text(*run).next_order <= u32::MAX,
        ensures
            final(self)@ == old(self)@.add_text(*run),
    {
        self.close();
        let count: usize = self.text_batches.len();
        if count > 0 {
            let last: &TextRunBatch = &self.text_batches[count - 1];
            let merged: bool = last.blob_id == run.blob_id && last.font_index == run.font_index
                && float_bits::is_equal(last.font_px_per_em, run.font_px_per_em) && is_same_clip(
                &last.clip,
                &run.clip,
            ) && last.instance_range.end == run.start && last.order + 1 == self.next_order;
            if merged {
                let ghost before = self.text_batches@;
                let mut last: TextRunBatch = match self.text_batches.pop() {
                    Some(batch) => batch,
                    None => return ,
                };
                last.instance_range.end = run.end;
                self.text_batches.push(last);
                assert(self.text_batches@ =~= before.drop_last().push(
                    extended(before.last(), run.end),
                ));
                return ;
            }
        }
        self.text_batches.push(
            TextRunBatch {
                instance_range: Range { start: run.start, end: run.end },
                clip: run.clip,
                blob_id: run.blob_id,
                font_index: run.font_index,
                font_px_per_em: run.font_px_per_em,
                order: self.next_order,
            },
        );
        self.next_order = self.next_order + 1;
    }

    /// Adds a paint item.
    pub fn add(&mut self, item: &PaintItem)
        requires
            old(self)@.text_ordered(),
            old(self)@.add(item@).next_order <= u32::MAX,
        ensures
            final(self)@ == old(self)@.add(item@),
    {
        match &item.payload {
            PaintPayload::Quad(recipe) => {
                self.open_quads();
                emit_quad(&mut self.vertices, recipe);
            },
            PaintPayload::Gradient(recipe) => {
                self.open_quads();
                emit_gradient(&mut self.vertices, recipe);
            },
            PaintPayload::Material(recipe) => {
                self.open_quads();
                emit_material(&mut self.vertices, recipe);
            },
            PaintPayload::Shadow(recipe) => {
                self.open_shadows();
                emit_shadow(&mut self.shadow_vertices, recipe);
            },
            PaintPayload::TextRun(recipe) => {
                self.add_text(recipe);
            },
        }
    }
}

/// Order values are given out one by one, and a text batch has one of them.
pub(crate) proof fn lemma_add_ordered(streams: StreamsModel, item: ItemModel)
    requires
        streams.text_ordered(),
        streams.add(item).next_order <= u32::MAX,
    ensures
        streams.next_order <= streams.add(item).next_order,
        streams.add(item).text_ordered(),
{
    let after = streams.add(item);
    assert forall|i: int| 0 <= i < after.text_batches.len() implies #[trigger] after.text_batches[i].order
        < after.next_order by {
        if i < streams.text_batches.len() - 1 {
            assert(after.text_batches[i] == streams.text_batches[i]);
        } else if i < streams.text_batches.len() {
            assert(streams.text_batches[i].order < streams.next_order);
        }
    }
}

/// The fewer items are painted, the fewer order values are given out.
pub(crate) proof fn lemma_orders_grow(items: Seq<ItemModel>, order: Seq<usize>, m: nat, n: nat)
    requires
        m <= n,
    ensures
        streams_after(items, order, m).next_order <= streams_after(items, order, n).next_order,
    decreases n,
{
    if m < n {
        lemma_orders_grow(items, order, m, (n - 1) as nat);
    }
}

/// Whether the order values of all batches can be told apart: the values that
/// are given out before the last batch fit into 32 bits.
pub open spec fn orders_fit(items: Seq<ItemModel>, order: Seq<usize>) -> bool {
    streams_after(items, order, order.len()).next_order <= u32::MAX
}

proof fn lemma_orders_of_items(items: Seq<ItemModel>, order: Seq<usize>, n: nat)
    ensures
        ({
            let streams = streams_after(items, order, n);
            streams.next_order + (if streams.open is Nothing { 0int } else { 1 }) <= n
        }),
    decreases n,
{
    if n > 0 {
        lemma_orders_of_items(items, order, (n - 1) as nat);
    }
}

/// An item gives out at most one order value, so those of as many items as there
/// are values always fit.
pub proof fn law_orders_of_few_items_fit(items: Seq<ItemModel>, order: Seq<usize>)
    requires
        order.len() <= u32::MAX,
    ensures
        orders_fit(items, order),
{
    lemma_orders_of_items(items, order, order.len());
}

/// Paints items in the given order and closes the last batch.
pub fn build_streams(items: &Vec<PaintItem>, order: &Vec<usize>) -> (streams: PaintStreams)
    requires
        orders_fit(paint_items::item_models(items@), order@),
        forall|i: int| 0 <= i < order@.len() ==> #[trigger] order@[i] < items@.len(),
    ensures
        streams@ == streams_after(paint_items::item_models(items@), order@, order@.len()).finish(),
{
    let mut streams: PaintStreams = PaintStreams::new();
    let mut i: usize = 0;
    while i < order.len()
        invariant
            orders_fit(paint_items::item_models(items@), order@),
            forall|i: int| 0 <= i < order@.len() ==> #[trigger] order@[i] < items@.len(),
            i <= order@.len(),
            streams@ == streams_after(paint_items::item_models(items@), order@, i as nat),
            streams@.text_ordered(),
        decreases order@.len() - i,
    {
        proof {
            lemma_orders_grow(
                paint_items::item_models(items@),
                order@,
                (i + 1) as nat,
                order@.len(),
            );
            lemma_add_ordered(streams@, items@[order@[i as int] as int]@);
        }
        streams.add(&items[order[i]]);
        i = i + 1;
    }
    streams.finish();
    streams
}

} // verus!
