//! From paint streams to draw records.
//!
//! The bridge resolves logical icon slots, turns batches into ranges of the
//! uploaded streams, and decides which icons still have to be uploaded. GPU
//! work itself is the caller's.

use std::collections::HashMap;

use vstd::prelude::*;

use crate::abi::{PixelRect, RectBits, UiVertex, UI_FLAG_TEXTURED};
use crate::icons::IconUploadPayload;
use crate::paint_batches::{TextRunBatch, UiBatch, UiShadowBatch};
use crate::pass::UiScissor;

verus! {

broadcast use vstd::std_specs::hash::group_hash_axioms;

/// The pixels of a paint rectangle; one whose corners are swapped is empty.
pub open spec fn scissor_matches(scissor: UiScissor, rect: PixelRect) -> bool {
    &&& scissor.offset@ == seq![rect.min_x, rect.min_y]
    &&& scissor.extent@.len() == 2
    &&& scissor.extent@[0] == (if rect.max_x > rect.min_x { rect.max_x - rect.min_x } else { 0 })
    &&& scissor.extent@[1] == (if rect.max_y > rect.min_y { rect.max_y - rect.min_y } else { 0 })
}

/// Whether the sides of a rectangle are representable.
pub open spec fn measurable(rect: PixelRect) -> bool {
    &&& i32::MIN <= rect.max_x - rect.min_x <= i32::MAX
    &&& i32::MIN <= rect.max_y - rect.min_y <= i32::MAX
}

/// Whether optional scissors belong to each other.
pub open spec fn scissors_match(scissor: Option<UiScissor>, rect: Option<PixelRect>) -> bool {
    match (scissor, rect) {
        (None, None) => true,
        (Some(scissor), Some(rect)) => scissor_matches(scissor, rect),
        _ => false,
    }
}

fn scissor_of(rect: Option<PixelRect>) -> (scissor: Option<UiScissor>)
    requires
        rect matches Some(rect) ==> measurable(rect),
    ensures
        scissors_match(scissor, rect),
{
    match rect {
        None => None,
        Some(rect) => {
            let width: i32 = rect.max_x - rect.min_x;
            let height: i32 = rect.max_y - rect.min_y;
            let offset: [i32; 2] = [rect.min_x, rect.min_y];
            let extent: [u32; 2] = [
                if width > 0 { width as u32 } else { 0 },
                if height > 0 { height as u32 } else { 0 },
            ];
            assert(offset@ =~= seq![rect.min_x, rect.min_y]);
            Some(UiScissor { offset, extent })
        },
    }
}

/// One draw of a range of an uploaded vertex stream.
pub struct QuadDraw {
    /// Vertices of the stream that come before the range.
    pub first_vertex: usize,
    pub quad_count: u32,
    pub scissor: Option<UiScissor>,
}

/// One draw of a range of uploaded glyph instances.
pub struct TextDraw {
    /// Instances of the stream that come before the range.
    pub first_instance: usize,
    pub glyph_count: u32,
    pub font_px_per_em: u32,
    pub clip: Option<RectBits>,
}

/// Whether a quad range is empty or fits its stream and a draw.
pub open spec fn range_drawable(start: int, end: int, vertex_count: int) -> bool {
    start >= end || (end * 4 <= vertex_count && end - start <= u32::MAX)
}

/// Whether `draw` draws the quad range.
pub open spec fn draws_quads(draw: QuadDraw, start: int, end: int, scissor: Option<PixelRect>) -> bool {
    &&& draw.first_vertex == 4 * start
    &&& draw.quad_count == end - start
    &&& scissors_match(draw.scissor, scissor)
}

/// Whether `draws` draw the first `n` batches in order, without the empty ones.
pub open spec fn draws_batches(draws: Seq<QuadDraw>, batches: Seq<UiBatch>, n: nat) -> bool
    decreases n,
{
    if n == 0 {
        draws.len() == 0
    } else {
        let batch = batches[n - 1];
        if batch.quad_range.start >= batch.quad_range.end {
            draws_batches(draws, batches, (n - 1) as nat)
        } else {
            &&& draws.len() >= 1
            &&& draws_batches(draws.drop_last(), batches, (n - 1) as nat)
            &&& draws_quads(
                draws.last(),
                batch.quad_range.start as int,
                batch.quad_range.end as int,
                batch.scissor,
            )
        }
    }
}

/// Whether `draw` stands for a shadow batch: it draws the batch's quads, or
/// nothing where the batch is empty.
pub open spec fn draws_shadow(draw: QuadDraw, batch: UiShadowBatch) -> bool {
    if batch.quad_range.start >= batch.quad_range.end {
        draw.first_vertex == 0 && draw.quad_count == 0 && draw.scissor is None
    } else {
        draws_quads(
            draw,
            batch.quad_range.start as int,
            batch.quad_range.end as int,
            batch.scissor,
        )
    }
}

/// Whether each of the first `n` shadow batches has its draw at its own index.
pub open spec fn draws_shadow_batches(draws: Seq<QuadDraw>, batches: Seq<UiShadowBatch>, n: nat) -> bool {
    &&& draws.len() == n
    &&& forall|i: int| 0 <= i < n ==> draws_shadow(#[trigger] draws[i], batches[i])
}

/// Whether `draws` draw the first `n` text batches in order, without the empty ones.
pub open spec fn draws_text_batches(draws: Seq<TextDraw>, batches: Seq<TextRunBatch>, n: nat) -> bool
    decreases n,
{
    if n == 0 {
        draws.len() == 0
    } else {
        let batch = batches[n - 1];
        if batch.instance_range.start >= batch.instance_range.end {
            draws_text_batches(draws, batches, (n - 1) as nat)
        } else {
            &&& draws.len() >= 1
            &&& draws_text_batches(draws.drop_last(), batches, (n - 1) as nat)
            &&& draws.last().first_instance == batch.instance_range.start
            &&& draws.last().glyph_count == batch.instance_range.end - batch.instance_range.start
            &&& draws.last().font_px_per_em == batch.font_px_per_em
            &&& draws.last().clip == batch.clip
        }
    }
}

/// A vertex whose texture slot has been resolved: the bindless slot of its
/// icon, or no texture where the icon is not uploaded.
pub open spec fn resolved_vertex(vertex: UiVertex, slots: Map<u32, u32>) -> UiVertex {
    if vertex.flags & UI_FLAG_TEXTURED == 0 {
        vertex
    } else if slots.contains_key(vertex.tex_slot) {
        UiVertex { tex_slot: slots[vertex.tex_slot], ..vertex }
    } else {
        UiVertex { flags: vertex.flags & !UI_FLAG_TEXTURED, tex_slot: 0, ..vertex }
    }
}

/// A resolved vertex is textured just if it was and its icon is uploaded; its
/// other flags and everything else but the slot stay.
pub proof fn law_resolution_keeps_the_rest(vertex: UiVertex, slots: Map<u32, u32>)
    ensures
        ({
            let resolved = resolved_vertex(vertex, slots);
            &&& (resolved.flags & UI_FLAG_TEXTURED != 0) == (vertex.flags & UI_FLAG_TEXTURED != 0
                && slots.contains_key(vertex.tex_slot))
            &&& resolved.flags | UI_FLAG_TEXTURED == vertex.flags | UI_FLAG_TEXTURED
            &&& (UiVertex { flags: vertex.flags, tex_slot: vertex.tex_slot, ..resolved }) == vertex
        }),
{
    let flags = vertex.flags;
    assert((flags & !1u32) & 1 == 0 && (flags & !1u32) | 1 == flags | 1) by (bit_vector);
}

/// State of the bridge.
pub struct UiBridge {
    batches: Vec<QuadDraw>,
    shadow_batches: Vec<QuadDraw>,
    text_batches: Vec<TextDraw>,
    /// Bindless slot of each uploaded icon, by its logical slot.
    icon_slots: HashMap<u32, u32>,
    /// The textures of the uploaded icons.
    icon_textures: Vec<u64>,
    /// The sampler that all textured draws share.
    icon_sampler: Option<u32>,
}

impl Default for UiBridge {
    fn default() -> (bridge: UiBridge)
        ensures
            bridge.quad_draws() == Seq::<QuadDraw>::empty(),
            bridge.shadow_draws() == Seq::<QuadDraw>::empty(),
            bridge.text_draws() == Seq::<TextDraw>::empty(),
            bridge.uploaded() == Map::<u32, u32>::empty(),
            bridge.textures() == Seq::<u64>::empty(),
            bridge.sampler() is None,
    {
        UiBridge::new()
    }
}

impl UiBridge {
    /// The draws of the last ingested quads.
    pub closed spec fn quad_draws(self) -> Seq<QuadDraw> {
        self.batches@
    }

    /// The draws of the last ingested shadows.
    pub closed spec fn shadow_draws(self) -> Seq<QuadDraw> {
        self.shadow_batches@
    }

    /// The draws of the last ingested text.
    pub closed spec fn text_draws(self) -> Seq<TextDraw> {
        self.text_batches@
    }

    /// Bindless slot of each uploaded icon, by its logical slot.
    pub closed spec fn uploaded(self) -> Map<u32, u32> {
        self.icon_slots@
    }

    /// The textures that the bridge owns, in the order of their upload.
    pub closed spec fn textures(self) -> Seq<u64> {
        self.icon_textures@
    }

    /// The sampler that all textured draws share.
    pub closed spec fn sampler(self) -> Option<u32> {
        self.icon_sampler
    }

    /// A bridge that has ingested nothing.
    pub fn new() -> (bridge: UiBridge)
        ensures
            bridge.quad_draws() == Seq::<QuadDraw>::empty(),
            bridge.shadow_draws() == Seq::<QuadDraw>::empty(),
            bridge.text_draws() == Seq::<TextDraw>::empty(),
            bridge.uploaded() == Map::<u32, u32>::empty(),
            bridge.textures() == Seq::<u64>::empty(),
            bridge.sampler() is None,
    {
        UiBridge {
            batches: Vec::new(),
            shadow_batches: Vec::new(),
            text_batches: Vec::new(),
            icon_slots: HashMap::new(),
            icon_textures: Vec::new(),
            icon_sampler: None,
        }
    }

    /// Resolves the texture slots of a vertex stream in place.
    fn resolve_vertices(&self, vertices: &mut Vec<UiVertex>)
        ensures
            final(vertices)@ == old(vertices)@.map_values(
                |vertex: UiVertex| resolved_vertex(vertex, self.uploaded()),
            ),
    {
        let ghost start = vertices@;
        let mut i: usize = 0;
        while i < vertices.len()
            invariant
                i <= vertices@.len(),
                vertices@.len() == start.len(),
                forall|k: int|
                    0 <= k < i ==> #[trigger] vertices@[k] == resolved_vertex(
                        start[k],
                        self.uploaded(),
                    ),
                forall|k: int| i <= k < start.len() ==> #[trigger] vertices@[k] == start[k],
            decreases vertices@.len() - i,
        {
            let mut vertex: UiVertex = vertices[i];
            if vertex.flags & UI_FLAG_TEXTURED != 0 {
                match self.icon_slots.get(&vertex.tex_slot) {
                    Some(slot) => {
                        vertex.tex_slot = *slot;
                    },
                    None => {
                        vertex.flags = vertex.flags & !UI_FLAG_TEXTURED;
                        vertex.tex_slot = 0;
                    },
                }
                vertices.set(i, vertex);
            }
            i = i + 1;
        }
        assert(vertices@ =~= start.map_values(
            |vertex: UiVertex| resolved_vertex(vertex, self.uploaded()),
        ));
    }

    /// Turns a frame's quads and shadows into draws.
    ///
    /// Texture slots of the vertices are resolved in place. The target must
    /// have an area, and every range that is not empty must lie within its stream.
    pub fn ingest(
        &mut self,
        vertices: &mut Vec<UiVertex>,
        batches: &Vec<UiBatch>,
        shadow_vertex_count: usize,
        shadow_batches: &Vec<UiShadowBatch>,
        target_size: [u32; 2],
    )
        requires
            target_size@[0] > 0,
            target_size@[1] > 0,
            forall|i: int|
                0 <= i < batches@.len() ==> {
                    let batch = #[trigger] batches@[i];
                    &&& range_drawable(
                        batch.quad_range.start as int,
                        batch.quad_range.end as int,
                        old(vertices)@.len() as int,
                    )
                    &&& batch.quad_range.start < batch.quad_range.end ==> (batch.scissor matches Some(
                        rect,
                    ) ==> measurable(rect))
                },
            forall|i: int|
                0 <= i < shadow_batches@.len() ==> {
                    let batch = #[trigger] shadow_batches@[i];
                    &&& range_drawable(
                        batch.quad_range.start as int,
                        batch.quad_range.end as int,
                        shadow_vertex_count as int,
                    )
                    &&& batch.quad_range.start < batch.quad_range.end ==> (batch.scissor matches Some(
                        rect,
                    ) ==> measurable(rect))
                },
        ensures
            final(vertices)@ == old(vertices)@.map_values(
                |vertex: UiVertex| resolved_vertex(vertex, old(self).uploaded()),
            ),
            draws_batches(final(self).quad_draws(), batches@, batches@.len()),
            draws_shadow_batches(
                final(self).shadow_draws(),
                shadow_batches@,
                shadow_batches@.len(),
            ),
            final(self).text_draws() == old(self).text_draws(),
            final(self).uploaded() == old(self).uploaded(),
            final(self).textures() == old(self).textures(),
            final(self).sampler() == old(self).sampler(),
    {
        let ghost vertex_count = vertices@.len() as int;
        self.resolve_vertices(vertices);
        let mut draws: Vec<QuadDraw> = Vec::new();
        let mut i: usize = 0;
        while i < batches.len()
            invariant
                i <= batches@.len(),
                vertex_count == vertices@.len(),
                forall|i: int|
                    0 <= i < batches@.len() ==> {
                        let batch = #[trigger] batches@[i];
                        &&& range_drawable(
                            batch.quad_range.start as int,
                            batch.quad_range.end as int,
                            vertex_count,
                        )
                        &&& batch.quad_range.start < batch.quad_range.end ==> (batch.scissor matches Some(
                        rect,
                    ) ==> measurable(rect))
                    },
                draws_batches(draws@, batches@, i as nat),
            decreases batches@.len() - i,
        {
            let batch: &UiBatch = &batches[i];
            let total: usize = vertices.len();
            if batch.quad_range.start < batch.quad_range.end {
                let ghost before = draws@;
                assert(batch.quad_range.end * 4 <= total);
                draws.push(
                    QuadDraw {
                        first_vertex: batch.quad_range.start * 4,
                        quad_count: (batch.quad_range.end - batch.quad_range.start) as u32,
                        scissor: scissor_of(batch.scissor),
                    },
                );
                assert(draws@.drop_last() =~= before);
            }
            i = i + 1;
        }
        self.batches = draws;

        let mut draws: Vec<QuadDraw> = Vec::new();
        let mut i: usize = 0;
        while i < shadow_batches.len()
            invariant
                i <= shadow_batches@.len(),
                forall|i: int|
                    0 <= i < shadow_batches@.len() ==> {
                        let batch = #[trigger] shadow_batches@[i];
                        &&& range_drawable(
                            batch.quad_range.start as int,
                            batch.quad_range.end as int,
                            shadow_vertex_count as int,
                        )
                        &&& batch.quad_range.start < batch.quad_range.end ==> (batch.scissor matches Some(
                        rect,
                    ) ==> measurable(rect))
                    },
                draws_shadow_batches(draws@, shadow_batches@, i as nat),
            decreases shadow_batches@.len() - i,
        {
            let batch: &UiShadowBatch = &shadow_batches[i];
            if batch.quad_range.start < batch.quad_range.end {
                assert(batch.quad_range.end * 4 <= shadow_vertex_count);
                draws.push(
                    QuadDraw {
                        first_vertex: batch.quad_range.start * 4,
                        quad_count: (batch.quad_range.end - batch.quad_range.start) as u32,
                        scissor: scissor_of(batch.scissor),
                    },
                );
            } else {
                draws.push(QuadDraw { first_vertex: 0, quad_count: 0, scissor: None });
            }
            i = i + 1;
        }
        self.shadow_batches = draws;
    }

    /// Turns a frame's text runs into draws.
    ///
    /// The target must have an area, and every range that is not empty must lie
    /// within the instances.
    pub fn ingest_text(&mut self, batches: &Vec<TextRunBatch>, instance_count: usize, target_size: [u32; 2])
        requires
            target_size@[0] > 0,
            target_size@[1] > 0,
            forall|i: int|
                0 <= i < batches@.len() ==> {
                    let range = (#[trigger] batches@[i]).instance_range;
                    range.start >= range.end || (range.end <= instance_count && range.end
                        - range.start <= u32::MAX)
                },
        ensures
            draws_text_batches(final(self).text_draws(), batches@, batches@.len()),
            final(self).quad_draws() == old(self).quad_draws(),
            final(self).shadow_draws() == old(self).shadow_draws(),
            final(self).uploaded() == old(self).uploaded(),
            final(self).textures() == old(self).textures(),
            final(self).sampler() == old(self).sampler(),
    {
        let mut draws: Vec<TextDraw> = Vec::new();
        let mut i: usize = 0;
        while i < batches.len()
            invariant
                i <= batches@.len(),
                forall|i: int|
                    0 <= i < batches@.len() ==> {
                        let range = (#[trigger] batches@[i]).instance_range;
                        range.start >= range.end || (range.end <= instance_count && range.end
                            - range.start <= u32::MAX)
                    },
                draws_text_batches(draws@, batches@, i as nat),
            decreases batches@.len() - i,
        {
            let run: &TextRunBatch = &batches[i];
            if run.instance_range.start < run.instance_range.end {
                let ghost before = draws@;
                draws.push(
                    TextDraw {
                        first_instance: run.instance_range.start,
                        glyph_count: (run.instance_range.end - run.instance_range.start) as u32,
                        font_px_per_em: run.font_px_per_em,
                        clip: run.clip,
                    },
                );
                assert(draws@.drop_last() =~= before);
            }
            i = i + 1;
        }
        self.text_batches = draws;
    }

    /// The draws of the last ingested quads.
    pub fn batches(&self) -> (draws: &Vec<QuadDraw>)
        ensures
            draws@ == self.quad_draws(),
    {
        &self.batches
    }

    /// The draws of the last ingested shadows, one for each shadow batch, at its
    /// index.
    pub fn shadow_batches(&self) -> (draws: &Vec<QuadDraw>)
        ensures
            draws@ == self.shadow_draws(),
    {
        &self.shadow_batches
    }

    /// The draws of the last ingested text.
    pub fn text_batches(&self) -> (draws: &Vec<TextDraw>)
        ensures
            draws@ == self.text_draws(),
    {
        &self.text_batches
    }

    /// Whether an icon has been uploaded.
    pub fn icon_ready(&self, logical_slot: u32) -> (ready: bool)
        ensures
            ready == self.uploaded().contains_key(logical_slot),
    {
        self.icon_slots.contains_key(&logical_slot)
    }

    /// The slot of the shared sampler; zero before there is one.
    pub fn sampler_slot(&self) -> (slot: u32)
        ensures
            slot == (match self.sampler() {
                Some(slot) => slot,
                None => 0,
            }),
    {
        match self.icon_sampler {
            Some(slot) => slot,
            None => 0,
        }
    }

    /// Whether uploading these payloads takes a sampler that does not exist yet.
    pub fn needs_sampler(&self, payloads: &Vec<IconUploadPayload>) -> (needed: bool)
        ensures
            needed == (payloads@.len() > 0 && self.sampler() is None),
    {
        payloads.len() > 0 && self.icon_sampler.is_none()
    }

    /// Notes the sampler that textured draws share.
    pub fn set_sampler(&mut self, slot: u32)
        ensures
            final(self).sampler() == Some(slot),
            final(self).uploaded() == old(self).uploaded(),
            final(self).textures() == old(self).textures(),
            final(self).quad_draws() == old(self).quad_draws(),
            final(self).shadow_draws() == old(self).shadow_draws(),
            final(self).text_draws() == old(self).text_draws(),
    {
        self.icon_sampler = Some(slot);
    }

    /// Picks the payloads to upload: those of slots that are not uploaded yet,
    /// and of several for one slot the first.
    pub fn ingest_icons(&self, payloads: &Vec<IconUploadPayload>) -> (chosen: Vec<usize>)
        ensures
            chosen@ == new_icons(self.uploaded(), payloads@, payloads@.len()),
    {
        let mut chosen: Vec<usize> = Vec::new();
        let mut i: usize = 0;
        while i < payloads.len()
            invariant
                i <= payloads@.len(),
                chosen@ == new_icons(self.uploaded(), payloads@, i as nat),
            decreases payloads@.len() - i,
        {
            let slot: u32 = payloads[i].logical_slot;
            let mut fresh: bool = !self.icon_slots.contains_key(&slot);
            let mut j: usize = 0;
            while j < i && fresh
                invariant
                    j <= i < payloads@.len(),
                    slot == payloads@[i as int].logical_slot,
                    fresh ==> !self.uploaded().contains_key(slot),
                    fresh ==> forall|k: int|
                        0 <= k < j ==> (#[trigger] payloads@[k]).logical_slot != slot,
                    !fresh ==> !is_new_icon(self.uploaded(), payloads@, i as int),
                decreases i - j,
            {
                if payloads[j].logical_slot == slot {
                    assert(payloads@[j as int].logical_slot == slot);
                    fresh = false;
                }
                j = j + 1;
            }
            if fresh {
                chosen.push(i);
            }
            i = i + 1;
        }
        chosen
    }

    /// Notes where an uploaded icon can be sampled, and the texture that holds it.
    pub fn icon_uploaded(&mut self, logical_slot: u32, slot: u32, texture: u64)
        ensures
            final(self).uploaded() == old(self).uploaded().insert(logical_slot, slot),
            final(self).textures() == old(self).textures().push(texture),
            final(self).sampler() == old(self).sampler(),
            final(self).quad_draws() == old(self).quad_draws(),
            final(self).shadow_draws() == old(self).shadow_draws(),
            final(self).text_draws() == old(self).text_draws(),
    {
        self.icon_slots.insert(logical_slot, slot);
        self.icon_textures.push(texture);
    }

    /// Hands over the textures that have to be freed.
    pub fn free(self) -> (textures: Vec<u64>)
        ensures
            textures@ == self.textures(),
    {
        self.icon_textures
    }
}

/// Whether payload `i` is the first for a slot that is not uploaded.
pub open spec fn is_new_icon(uploaded: Map<u32, u32>, payloads: Seq<IconUploadPayload>, i: int) -> bool {
    &&& !uploaded.contains_key(payloads[i].logical_slot)
    &&& forall|k: int|
        0 <= k < i ==> (#[trigger] payloads[k]).logical_slot != payloads[i].logical_slot
}

/// The payloads among the first `n` that are to be uploaded.
pub open spec fn new_icons(uploaded: Map<u32, u32>, payloads: Seq<IconUploadPayload>, n: nat) -> Seq<usize>
    decreases n,
{
    if n == 0 {
        Seq::empty()
    } else if is_new_icon(uploaded, payloads, n - 1) {
        new_icons(uploaded, payloads, (n - 1) as nat).push((n - 1) as usize)
    } else {
        new_icons(uploaded, payloads, (n - 1) as nat)
    }
}

/// A frame's own batches can always be ingested with the frame's own streams:
/// batches that tile their streams lie within them.
pub proof fn law_tiling_batches_lie_within(batches: Seq<UiBatch>, quad_count: nat, i: int)
    requires
        crate::paint_laws::quad_batches_tile(batches, quad_count as int),
        forall|k: int|
            0 <= k < batches.len() ==> (#[trigger] batches[k]).quad_range.start
                < batches[k].quad_range.end,
        0 <= i < batches.len(),
    ensures
        batches[i].quad_range.end * 4 <= quad_count * 4,
    decreases batches.len() - i,
{
    reveal(crate::paint_laws::quad_batches_tile);
    if i == batches.len() - 1 {
        assert(batches[i] == batches.last());
    } else {
        law_tiling_batches_lie_within(batches, quad_count, i + 1);
        assert(batches[i + 1].quad_range.start == batches[i].quad_range.end);
    }
}

// ---------------------------------------------------------------------------
// Extraction

/// A stream that is extracted each frame.
#[derive(Debug, Clone, Copy, PartialEq, Eq, Structural)]
pub enum ExtractLane {
    UiVertices,
    UiBatches,
    UiShadowVertices,
    UiShadowBatches,
    TextInstances,
    TextBatches,
    GlyphDescriptors,
    GlyphCurves,
    GlyphBands,
    GlyphBandCurveIndices,
    IconUploads,
}

/// The lanes of the UI: quads first, then shadows, each with its batches.
pub open spec fn ui_lanes() -> Seq<ExtractLane> {
    seq![
        ExtractLane::UiVertices,
        ExtractLane::UiBatches,
        ExtractLane::UiShadowVertices,
        ExtractLane::UiShadowBatches,
    ]
}

/// The lanes of text: instances and batches, then the glyph buffers.
pub open spec fn text_lanes() -> Seq<ExtractLane> {
    seq![
        ExtractLane::TextInstances,
        ExtractLane::TextBatches,
        ExtractLane::GlyphDescriptors,
        ExtractLane::GlyphCurves,
        ExtractLane::GlyphBands,
        ExtractLane::GlyphBandCurveIndices,
    ]
}

/// The lane of icons.
pub open spec fn icon_lanes() -> Seq<ExtractLane> {
    seq![ExtractLane::IconUploads]
}

/// Adds the lanes of the UI to a render plugin.
pub trait AshaRenderPluginExt: Sized {
    /// The lanes that are extracted, in order.
    spec fn lanes(&self) -> Seq<ExtractLane>;

    /// Extracts the quads and shadows of the UI each frame.
    fn extract_ui(self) -> (plugin: Self)
        ensures
            plugin.lanes() == self.lanes() + ui_lanes(),
    ;

    /// Extracts text and glyphs each frame.
    fn extract_text(self) -> (plugin: Self)
        ensures
            plugin.lanes() == self.lanes() + text_lanes(),
    ;

    /// Extracts pending icons each frame.
    fn extract_icons(self) -> (plugin: Self)
        ensures
            plugin.lanes() == self.lanes() + icon_lanes(),
    ;
}

/// The lanes of a render plugin.
pub struct AshaRenderPlugin {
    pub extracted: Vec<ExtractLane>,
}

impl AshaRenderPlugin {
    /// A plugin that extracts nothing yet.
    pub fn new() -> (plugin: AshaRenderPlugin)
        ensures
            plugin.extracted@ == Seq::<ExtractLane>::empty(),
    {
        AshaRenderPlugin { extracted: Vec::new() }
    }

    fn with(self, lane: ExtractLane) -> (plugin: AshaRenderPlugin)
        ensures
            plugin.extracted@ == self.extracted@.push(lane),
    {
        let mut extracted = self.extracted;
        extracted.push(lane);
        AshaRenderPlugin { extracted }
    }
}

impl AshaRenderPluginExt for AshaRenderPlugin {
    open spec fn lanes(&self) -> Seq<ExtractLane> {
        self.extracted@
    }

    fn extract_ui(self) -> (plugin: AshaRenderPlugin) {
        let plugin = self.with(ExtractLane::UiVertices).with(ExtractLane::UiBatches).with(
            ExtractLane::UiShadowVertices,
        ).with(ExtractLane::UiShadowBatches);
        assert(plugin.lanes() =~= self.lanes() + ui_lanes());
        plugin
    }

    fn extract_text(self) -> (plugin: AshaRenderPlugin) {
        let plugin = self.with(ExtractLane::TextInstances).with(ExtractLane::TextBatches).with(
            ExtractLane::GlyphDescriptors,
        ).with(ExtractLane::GlyphCurves).with(ExtractLane::GlyphBands).with(
            ExtractLane::GlyphBandCurveIndices,
        );
        assert(plugin.lanes() =~= self.lanes() + text_lanes());
        plugin
    }

    fn extract_icons(self) -> (plugin: AshaRenderPlugin) {
        let plugin = self.with(ExtractLane::IconUploads);
        assert(plugin.lanes() =~= self.lanes() + icon_lanes());
        plugin
    }
}

} // verus!
