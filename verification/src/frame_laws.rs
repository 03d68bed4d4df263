//! What holds of a frame on its way to the renderer: the draws of the bridge,
//! the commands of a pass, the icons that cross over and the cameras.

use vstd::prelude::*;

use crate::abi::{PixelRect, UiVertex};
use crate::bridge;
use crate::bridge::{ExtractLane, QuadDraw, TextDraw};
use crate::camera;
use crate::camera::{CameraInput, CameraState, PixelSize, ViewportRect, WindowChanges};
use crate::icons;
use crate::icons::{IconImage, IconUploadPayload};
use crate::paint_batches::{TextRunBatch, UiBatch, UiShadowBatch};
use crate::pass;
use crate::pass::{BlendFactor, BlendOp, PassCommand, UiPassTarget, UiPipeline, UiScissor};

verus! {

// ---------------------------------------------------------------------------
// Draws

/// A scissor covers just the pixels of its rectangle, and there is one just
/// where there is a rectangle.
pub proof fn law_scissors_cover_their_rectangle(
    scissor: Option<UiScissor>,
    rect: Option<PixelRect>,
    x: int,
    y: int,
)
    requires
        bridge::scissors_match(scissor, rect),
    ensures
        scissor is Some <==> rect is Some,
        (scissor matches Some(s) ==> rect matches Some(r) ==> {
            let covered = s.offset@[0] <= x < s.offset@[0] + s.extent@[0] && s.offset@[1] <= y
                < s.offset@[1] + s.extent@[1];
            covered <==> r.min_x <= x < r.max_x && r.min_y <= y < r.max_y
        }),
        (scissor matches Some(s) ==> rect matches Some(r) ==> s.offset@[0] == r.min_x
            && s.offset@[1] == r.min_y),
{
}

/// A rectangle can be measured just if neither of its sides leaves the signed
/// numbers of 32 bits, in either direction.
pub proof fn law_measurable_sides(rect: PixelRect)
    ensures
        bridge::measurable(rect) ==> -0x8000_0000 <= rect.max_x - rect.min_x < 0x8000_0000,
        bridge::measurable(rect) ==> -0x8000_0000 <= rect.max_y - rect.min_y < 0x8000_0000,
        -0x4000_0000 <= rect.min_x < 0x4000_0000 && -0x4000_0000 <= rect.max_x < 0x4000_0000
            && -0x4000_0000 <= rect.min_y < 0x4000_0000 && -0x4000_0000 <= rect.max_y
            < 0x4000_0000 ==> bridge::measurable(rect),
        rect.max_x - rect.min_x == 0x7fff_ffff && rect.max_y - rect.min_y == -0x8000_0000
            ==> bridge::measurable(rect),
{
}

/// A range of quads can be drawn just if it is empty, or if its four vertices
/// per quad are there and their quads can be counted.
pub proof fn law_drawable_ranges(start: int, end: int, vertex_count: int)
    ensures
        end <= start ==> bridge::range_drawable(start, end, vertex_count),
        start < end && bridge::range_drawable(start, end, vertex_count) ==> end + end + end + end
            <= vertex_count && end - start < 0x1_0000_0000,
        start < end && vertex_count >= end + end + end + end && end - start < 0x1_0000_0000
            ==> bridge::range_drawable(start, end, vertex_count),
{
}

/// Of batches that all have quads, each has its draw at its own index: it
/// begins at the batch's first vertex, counts the batch's quads and is cut to
/// the batch's rectangle.
pub proof fn law_full_batches_are_drawn_one_by_one(
    draws: Seq<QuadDraw>,
    batches: Seq<UiBatch>,
    n: nat,
    i: int,
)
    requires
        n <= batches.len(),
        bridge::draws_batches(draws, batches, n),
        forall|k: int|
            0 <= k < n ==> (#[trigger] batches[k]).quad_range.start < batches[k].quad_range.end,
        0 <= i < n,
    ensures
        draws.len() == n,
        draws[i].first_vertex == batches[i].quad_range.start * 4,
        draws[i].quad_count + batches[i].quad_range.start == batches[i].quad_range.end,
        draws[i].scissor is Some <==> batches[i].scissor is Some,
        bridge::scissors_match(draws[i].scissor, batches[i].scissor),
    decreases n,
{
    let before = (n - 1) as nat;
    assert(batches[n - 1].quad_range.start < batches[n - 1].quad_range.end);
    lemma_draws_counted(draws.drop_last(), batches, before);
    if i < n - 1 {
        law_full_batches_are_drawn_one_by_one(draws.drop_last(), batches, before, i);
        assert(draws.drop_last()[i] == draws[i]);
    }
}

proof fn lemma_draws_counted(draws: Seq<QuadDraw>, batches: Seq<UiBatch>, n: nat)
    requires
        n <= batches.len(),
        bridge::draws_batches(draws, batches, n),
        forall|k: int|
            0 <= k < n ==> (#[trigger] batches[k]).quad_range.start < batches[k].quad_range.end,
    ensures
        draws.len() == n,
    decreases n,
{
    if n > 0 {
        assert(batches[n - 1].quad_range.start < batches[n - 1].quad_range.end);
        lemma_draws_counted(draws.drop_last(), batches, (n - 1) as nat);
    }
}

/// Batches without quads are not drawn: the draws of batches that end with such
/// ones are those of the batches before them.
pub proof fn law_empty_batches_are_not_drawn(
    draws: Seq<QuadDraw>,
    batches: Seq<UiBatch>,
    n: nat,
    m: nat,
)
    requires
        m <= n <= batches.len(),
        bridge::draws_batches(draws, batches, n),
        forall|k: int|
            m <= k < n ==> (#[trigger] batches[k]).quad_range.start >= batches[k].quad_range.end,
    ensures
        bridge::draws_batches(draws, batches, m),
        m == 0 ==> draws.len() == 0,
    decreases n,
{
    if m < n {
        assert(batches[n - 1].quad_range.start >= batches[n - 1].quad_range.end);
        law_empty_batches_are_not_drawn(draws, batches, (n - 1) as nat, m);
    }
}

/// There is one draw for each batch with quads: whether a batch at the end is
/// empty decides whether the last draw belongs to it.
pub proof fn law_last_batch_has_the_last_draw(draws: Seq<QuadDraw>, batches: Seq<UiBatch>, n: nat)
    requires
        0 < n <= batches.len(),
        bridge::draws_batches(draws, batches, n),
        batches[n - 1].quad_range.start < batches[n - 1].quad_range.end,
    ensures
        draws.len() > 0,
        draws[draws.len() - 1].first_vertex == batches[n - 1].quad_range.start * 4,
        draws[draws.len() - 1].quad_count == batches[n - 1].quad_range.end - batches[n
            - 1].quad_range.start,
        bridge::draws_batches(draws.take(draws.len() - 1), batches, (n - 1) as nat),
{
    assert(draws.take(draws.len() - 1) == draws.drop_last());
}

/// A shadow batch without quads keeps its place with a draw of nothing; one
/// with quads is drawn like other quads, at its own index.
pub proof fn law_shadow_draws_keep_their_index(
    draws: Seq<QuadDraw>,
    batches: Seq<UiShadowBatch>,
    i: int,
)
    requires
        bridge::draws_shadow_batches(draws, batches, batches.len()),
        0 <= i < batches.len(),
    ensures
        draws.len() == batches.len(),
        batches[i].quad_range.start >= batches[i].quad_range.end ==> draws[i].quad_count == 0
            && draws[i].first_vertex == 0 && draws[i].scissor is None,
        batches[i].quad_range.start < batches[i].quad_range.end ==> draws[i].quad_count > 0
            && draws[i].first_vertex == batches[i].quad_range.start * 4 && draws[i].quad_count
            + batches[i].quad_range.start == batches[i].quad_range.end && bridge::scissors_match(
            draws[i].scissor,
            batches[i].scissor,
        ),
{
    assert(bridge::draws_shadow(draws[i], batches[i]));
}

/// Of runs that all have glyphs, each has its draw at its own index, with its
/// own glyphs, size and clipping.
pub proof fn law_full_runs_are_drawn_one_by_one(
    draws: Seq<TextDraw>,
    batches: Seq<TextRunBatch>,
    n: nat,
    i: int,
)
    requires
        n <= batches.len(),
        bridge::draws_text_batches(draws, batches, n),
        forall|k: int|
            0 <= k < n ==> (#[trigger] batches[k]).instance_range.start
                < batches[k].instance_range.end,
        0 <= i < n,
    ensures
        draws.len() == n,
        draws[i].first_instance == batches[i].instance_range.start,
        draws[i].glyph_count + batches[i].instance_range.start == batches[i].instance_range.end,
        draws[i].font_px_per_em == batches[i].font_px_per_em,
        draws[i].clip == batches[i].clip,
    decreases n,
{
    let before = (n - 1) as nat;
    assert(batches[n - 1].instance_range.start < batches[n - 1].instance_range.end);
    lemma_text_draws_counted(draws.drop_last(), batches, before);
    if i < n - 1 {
        law_full_runs_are_drawn_one_by_one(draws.drop_last(), batches, before, i);
        assert(draws.drop_last()[i] == draws[i]);
    }
}

proof fn lemma_text_draws_counted(draws: Seq<TextDraw>, batches: Seq<TextRunBatch>, n: nat)
    requires
        n <= batches.len(),
        bridge::draws_text_batches(draws, batches, n),
        forall|k: int|
            0 <= k < n ==> (#[trigger] batches[k]).instance_range.start
                < batches[k].instance_range.end,
    ensures
        draws.len() == n,
    decreases n,
{
    if n > 0 {
        assert(batches[n - 1].instance_range.start < batches[n - 1].instance_range.end);
        lemma_text_draws_counted(draws.drop_last(), batches, (n - 1) as nat);
    }
}

/// Runs without glyphs are not drawn.
pub proof fn law_empty_runs_are_not_drawn(
    draws: Seq<TextDraw>,
    batches: Seq<TextRunBatch>,
    n: nat,
    m: nat,
)
    requires
        m <= n <= batches.len(),
        bridge::draws_text_batches(draws, batches, n),
        forall|k: int|
            m <= k < n ==> (#[trigger] batches[k]).instance_range.start
                >= batches[k].instance_range.end,
    ensures
        bridge::draws_text_batches(draws, batches, m),
        m == 0 ==> draws.len() == 0,
    decreases n,
{
    if m < n {
        assert(batches[n - 1].instance_range.start >= batches[n - 1].instance_range.end);
        law_empty_runs_are_not_drawn(draws, batches, (n - 1) as nat, m);
    }
}

/// A textured vertex gets the slot that its icon was uploaded to, or slot zero;
/// one without a texture keeps its slot.
pub proof fn law_slots_are_looked_up(vertex: UiVertex, slots: Map<u32, u32>)
    ensures
        vertex.flags & 1u32 != 0 && slots.dom().contains(vertex.tex_slot)
            ==> bridge::resolved_vertex(vertex, slots).tex_slot == slots[vertex.tex_slot]
            && bridge::resolved_vertex(vertex, slots).flags == vertex.flags,
        vertex.flags & 1u32 != 0 && !slots.dom().contains(vertex.tex_slot)
            ==> bridge::resolved_vertex(vertex, slots).tex_slot == 0
            && bridge::resolved_vertex(vertex, slots).flags == vertex.flags & 0xffff_fffeu32,
        vertex.flags & 1u32 == 0 ==> bridge::resolved_vertex(vertex, slots) == vertex,
{
    assert(!1u32 == 0xffff_fffeu32) by (bit_vector);
}

/// The payloads that are uploaded are just those of a slot that has no upload
/// yet and no earlier payload, in their order.
pub proof fn law_icons_are_uploaded_once(
    uploaded: Map<u32, u32>,
    payloads: Seq<IconUploadPayload>,
    n: nat,
    i: usize,
)
    requires
        n <= payloads.len() <= usize::MAX,
    ensures
        bridge::new_icons(uploaded, payloads, n).contains(i) <==> i < n && !uploaded.dom().contains(
            payloads[i as int].logical_slot,
        ) && !(exists|k: int|
            0 <= k < i && (#[trigger] payloads[k]).logical_slot
                == payloads[i as int].logical_slot),
        forall|a: int, b: int|
            0 <= a < b < bridge::new_icons(uploaded, payloads, n).len() ==> (
            #[trigger] bridge::new_icons(uploaded, payloads, n)[a]) < (
            #[trigger] bridge::new_icons(uploaded, payloads, n)[b]),
        forall|a: int|
            0 <= a < bridge::new_icons(uploaded, payloads, n).len() ==> (
            #[trigger] bridge::new_icons(uploaded, payloads, n)[a]) < n,
    decreases n,
{
    if n > 0 {
        let before = bridge::new_icons(uploaded, payloads, (n - 1) as nat);
        law_icons_are_uploaded_once(uploaded, payloads, (n - 1) as nat, i);
        let now = bridge::new_icons(uploaded, payloads, n);
        if bridge::is_new_icon(uploaded, payloads, n - 1) {
            assert(now == before.push((n - 1) as usize));
            if before.contains(i) {
                let at = choose|at: int| 0 <= at < before.len() && before[at] == i;
                assert(now[at] == i);
            }
            if i == n - 1 {
                assert(now[before.len() as int] == i);
            }
            if now.contains(i) && i != n - 1 {
                let at = choose|at: int| 0 <= at < now.len() && now[at] == i;
                assert(before[at] == i);
            }
        }
    }
}

/// The lanes of a frame come in a fixed order: vertices before their batches,
/// quads before shadows, text before the buffers of its glyphs.
pub proof fn law_lanes_are_ordered()
    ensures
        bridge::ui_lanes().len() == 4,
        bridge::ui_lanes()[0] == ExtractLane::UiVertices,
        bridge::ui_lanes()[1] == ExtractLane::UiBatches,
        bridge::ui_lanes()[2] == ExtractLane::UiShadowVertices,
        bridge::ui_lanes()[3] == ExtractLane::UiShadowBatches,
        bridge::text_lanes().len() == 6,
        bridge::text_lanes()[0] == ExtractLane::TextInstances,
        bridge::text_lanes()[1] == ExtractLane::TextBatches,
        bridge::text_lanes()[2] == ExtractLane::GlyphDescriptors,
        bridge::text_lanes()[3] == ExtractLane::GlyphCurves,
        bridge::text_lanes()[4] == ExtractLane::GlyphBands,
        bridge::text_lanes()[5] == ExtractLane::GlyphBandCurveIndices,
        bridge::icon_lanes().len() == 1,
        bridge::icon_lanes()[0] == ExtractLane::IconUploads,
{
}

// ---------------------------------------------------------------------------
// Passes

/// What a command sets a scissor to: the batch's own, or the whole target from
/// its first pixel on.
pub proof fn law_draws_are_restricted(
    command: PassCommand,
    scissor: Option<UiScissor>,
    target: UiPassTarget,
)
    requires
        pass::restricts(command, scissor, target),
    ensures
        command matches PassCommand::SetScissor { offset, extent } && {
            &&& scissor matches Some(s) ==> offset == s.offset && extent == s.extent
            &&& scissor is None ==> offset@[0] == 0 && offset@[1] == 0 && extent == target.size
        },
{
}

/// Of batches that all have quads, each has two commands at its own place: its
/// scissor and a draw of its parameters with six indices per quad.
pub proof fn law_batches_are_drawn_in_pairs(
    commands: Seq<PassCommand>,
    batches: Seq<pass::UiBatch>,
    target: UiPassTarget,
    n: nat,
    i: int,
)
    requires
        n <= batches.len(),
        pass::draws_batches(commands, batches, target, n),
        forall|k: int| 0 <= k < n ==> 0 < (#[trigger] batches[k]).quad_count <= 65536,
        0 <= i < n,
    ensures
        commands.len() == 2 * n,
        commands[2 * i] is SetScissor,
        pass::restricts(commands[2 * i], batches[i].scissor, target),
        commands[2 * i + 1] matches PassCommand::DrawIndexed { draw, index_count } && draw
            == batches[i].draw && index_count == 6 * batches[i].quad_count,
    decreases n,
{
    assert(0 < batches[n - 1].quad_count <= 65536);
    let before = commands.take(commands.len() - 2);
    lemma_commands_counted(before, batches, target, (n - 1) as nat);
    if i < n - 1 {
        law_batches_are_drawn_in_pairs(before, batches, target, (n - 1) as nat, i);
        assert(before[2 * i] == commands[2 * i]);
        assert(before[2 * i + 1] == commands[2 * i + 1]);
    }
}

proof fn lemma_commands_counted(
    commands: Seq<PassCommand>,
    batches: Seq<pass::UiBatch>,
    target: UiPassTarget,
    n: nat,
)
    requires
        n <= batches.len(),
        pass::draws_batches(commands, batches, target, n),
        forall|k: int| 0 <= k < n ==> 0 < (#[trigger] batches[k]).quad_count <= 65536,
    ensures
        commands.len() == 2 * n,
    decreases n,
{
    if n > 0 {
        assert(0 < batches[n - 1].quad_count <= 65536);
        lemma_commands_counted(
            commands.take(commands.len() - 2),
            batches,
            target,
            (n - 1) as nat,
        );
    }
}

/// A batch without quads adds no command.
pub proof fn law_empty_batches_record_nothing(
    commands: Seq<PassCommand>,
    batches: Seq<pass::UiBatch>,
    target: UiPassTarget,
    n: nat,
    m: nat,
)
    requires
        m <= n <= batches.len(),
        pass::draws_batches(commands, batches, target, n),
        forall|k: int| m <= k < n ==> (#[trigger] batches[k]).quad_count == 0,
    ensures
        pass::draws_batches(commands, batches, target, m),
        m == 0 ==> commands.len() == 0,
    decreases n,
{
    if m < n {
        assert(batches[n - 1].quad_count == 0);
        law_empty_batches_record_nothing(commands, batches, target, (n - 1) as nat, m);
    }
}

/// A pass begins on its target, sets the state that its draws share before any
/// of them, and ends with a barrier behind it. It blends straight alpha, and
/// the alpha channel takes its source in full.
pub proof fn law_passes_set_their_state(
    commands: Seq<PassCommand>,
    target: UiPassTarget,
    pipeline: UiPipeline,
    batches: Seq<pass::UiBatch>,
)
    requires
        pass::is_pass(commands, target, pipeline, batches),
    ensures
        commands.len() >= 8,
        commands[0] == PassCommand::BeginRenderPass(target),
        commands[1] == PassCommand::DisableDepth,
        commands[2] == PassCommand::CullBackFaces,
        commands[3] == PassCommand::CounterClockwiseFront,
        commands[4] matches PassCommand::SetBlend(blend) && {
            &&& blend.enable
            &&& blend.color_op == BlendOp::Add
            &&& blend.src_color_factor == BlendFactor::SrcAlpha
            &&& blend.dst_color_factor == BlendFactor::OneMinusSrcAlpha
            &&& blend.alpha_op == BlendOp::Add
            &&& blend.src_alpha_factor == BlendFactor::One
            &&& blend.dst_alpha_factor == BlendFactor::OneMinusSrcAlpha
            &&& blend.color_write_mask == 15
        },
        commands[5] == PassCommand::SetShaders(pipeline),
        commands[commands.len() - 2] == PassCommand::EndRenderPass,
        commands[commands.len() - 1] == PassCommand::ColorBarrier,
        pass::draws_batches(
            commands.subrange(6, commands.len() - 2),
            batches,
            target,
            batches.len(),
        ),
{
    let middle = choose|middle: Seq<PassCommand>|
        #[trigger] pass::draws_batches(middle, batches, target, batches.len()) && commands
            == pass::pass_start(target, pipeline) + middle + pass::pass_end();
    assert(commands.subrange(6, commands.len() - 2) =~= middle);
}

/// A batch can be drawn just if it has no quads, or has parameters and no more
/// quads than there are indices for.
pub proof fn law_drawable_batches(draw: u64, quad_count: u32)
    ensures
        pass::drawable(draw, 0),
        quad_count > 0 ==> !pass::drawable(0, quad_count),
        quad_count > 65536 ==> !pass::drawable(draw, quad_count),
        draw != 0 && quad_count <= 65536 ==> pass::drawable(draw, quad_count),
{
}

/// Shadows are drawn as quads with the same parameters, number and scissor.
pub proof fn law_shadows_are_drawn_as_quads(batches: Seq<pass::UiShadowBatch>, i: int)
    requires
        0 <= i < batches.len(),
    ensures
        pass::as_quads(batches).len() == batches.len(),
        pass::as_quads(batches)[i].draw == batches[i].draw,
        pass::as_quads(batches)[i].quad_count == batches[i].quad_count,
        pass::as_quads(batches)[i].scissor == batches[i].scissor,
{
}

// ---------------------------------------------------------------------------
// Icons

/// An image is registered just if a pair names it, under the slot of the last
/// pair that does.
pub proof fn law_registered_slots(pairs: Seq<(u128, u32)>, n: nat, id: u128, i: int)
    requires
        n <= pairs.len(),
        0 <= i < n,
        pairs[i].0 == id,
        forall|k: int| i < k < n ==> (#[trigger] pairs[k]).0 != id,
    ensures
        icons::slots_of(pairs, n).dom().contains(id),
        icons::slots_of(pairs, n)[id] == pairs[i].1,
    decreases n,
{
    if i < n - 1 {
        assert(pairs[n - 1].0 != id);
        law_registered_slots(pairs, (n - 1) as nat, id, i);
    }
}

/// An image that no pair names has no slot.
pub proof fn law_unregistered_images_have_no_slot(pairs: Seq<(u128, u32)>, n: nat, id: u128)
    requires
        n <= pairs.len(),
        forall|k: int| 0 <= k < n ==> (#[trigger] pairs[k]).0 != id,
    ensures
        !icons::slots_of(pairs, n).dom().contains(id),
    decreases n,
{
    if n > 0 {
        assert(pairs[n - 1].0 != id);
        law_unregistered_images_have_no_slot(pairs, (n - 1) as nat, id);
    }
}

/// Images are numbered from one on.
pub proof fn law_slots_are_numbered_from_one(handles: Seq<u128>, i: int)
    requires
        handles.len() < u32::MAX,
        0 <= i < handles.len(),
    ensures
        icons::numbered(handles).len() == handles.len(),
        icons::numbered(handles)[i].0 == handles[i],
        icons::numbered(handles)[i].1 == i + 1,
{
}

/// An image is uploaded with its own size and pixels just if it has an area and
/// four bytes for each pixel.
pub proof fn law_usable_images_are_uploaded(logical_slot: u32, image: IconImage)
    ensures
        icons::payload_of(logical_slot, image) is Some ==> image.data is Some && image.width > 0
            && image.height > 0,
        (image.data matches Some(data) ==> image.width > 0 && image.height > 0 ==> (
        icons::payload_of(logical_slot, image) is Some <==> data@.len() == 4 * (image.width
            * image.height))),
        (icons::payload_of(logical_slot, image) matches Some(payload) ==> {
            &&& payload.logical_slot == logical_slot
            &&& payload.width == image.width
            &&& payload.height == image.height
            &&& image.data matches Some(data) && payload.pixels == data@
        }),
{
}

/// Every image that has become usable and was not queued before is uploaded
/// under its slot, with its pixels, and no other image is.
pub proof fn law_new_images_are_uploaded(
    queued: Seq<bool>,
    images: Seq<Option<IconImage>>,
    n: nat,
    i: int,
)
    requires
        n <= images.len() < u32::MAX,
        0 <= i < n,
    ensures
        (exists|k: int|
            0 <= k < icons::due_uploads(queued, images, n).len() && (#[trigger] icons::due_uploads(
                queued,
                images,
                n,
            )[k]).logical_slot == i + 1) <==> !queued[i] && (images[i] matches Some(image)
            && image.data matches Some(data) && image.width > 0 && image.height > 0 && data@.len()
            == image.width * image.height * 4),
        forall|k: int|
            0 <= k < icons::due_uploads(queued, images, n).len() && (#[trigger] icons::due_uploads(
                queued,
                images,
                n,
            )[k]).logical_slot == i + 1 ==> (images[i] matches Some(image)
                && image.data matches Some(data) && icons::due_uploads(queued, images, n)[k].pixels
                == data@ && icons::due_uploads(queued, images, n)[k].width == image.width
                && icons::due_uploads(queued, images, n)[k].height == image.height),
    decreases n,
{
    let before = icons::due_uploads(queued, images, (n - 1) as nat);
    let now = icons::due_uploads(queued, images, n);
    lemma_uploads_below(queued, images, (n - 1) as nat);
    if i < n - 1 {
        law_new_images_are_uploaded(queued, images, (n - 1) as nat, i);
        if exists|k: int| 0 <= k < before.len() && (#[trigger] before[k]).logical_slot == i + 1 {
            let k = choose|k: int|
                0 <= k < before.len() && (#[trigger] before[k]).logical_slot == i + 1;
            assert(now[k].logical_slot == i + 1);
        }
        assert forall|k: int|
            0 <= k < now.len() && (#[trigger] now[k]).logical_slot == i + 1 implies k < before.len()
            && before[k] == now[k] by {}
    } else {
        assert forall|k: int|
            0 <= k < now.len() && (#[trigger] now[k]).logical_slot == i + 1 implies k
            == before.len() by {
            if k < before.len() {
                assert(before[k] == now[k]);
            }
        }
        if icons::due_upload(queued, images, i) is Some {
            assert(now[before.len() as int].logical_slot == i + 1);
        }
    }
}

proof fn lemma_uploads_below(queued: Seq<bool>, images: Seq<Option<IconImage>>, n: nat)
    requires
        n <= images.len() < u32::MAX,
    ensures
        forall|k: int|
            0 <= k < icons::due_uploads(queued, images, n).len() ==> 1 <= (
            #[trigger] icons::due_uploads(queued, images, n)[k]).logical_slot <= n,
    decreases n,
{
    if n > 0 {
        let before = icons::due_uploads(queued, images, (n - 1) as nat);
        let now = icons::due_uploads(queued, images, n);
        lemma_uploads_below(queued, images, (n - 1) as nat);
        assert forall|k: int| 0 <= k < now.len() implies 1 <= (#[trigger] now[k]).logical_slot
            <= n by {
            if k < before.len() {
                assert(before[k] == now[k]);
            }
        }
    }
}

/// Uploads come in the order of their slots, at most one for each.
pub proof fn law_uploads_are_in_slot_order(
    queued: Seq<bool>,
    images: Seq<Option<IconImage>>,
    n: nat,
    a: int,
    b: int,
)
    requires
        n <= images.len() < u32::MAX,
        0 <= a < b < icons::due_uploads(queued, images, n).len(),
    ensures
        icons::due_uploads(queued, images, n)[a].logical_slot < icons::due_uploads(
            queued,
            images,
            n,
        )[b].logical_slot,
    decreases n,
{
    if n > 0 {
        let before = icons::due_uploads(queued, images, (n - 1) as nat);
        lemma_uploads_below(queued, images, (n - 1) as nat);
        if b < before.len() {
            law_uploads_are_in_slot_order(queued, images, (n - 1) as nat, a, b);
        } else {
            assert(before[a].logical_slot <= n - 1);
        }
    }
}

/// A slot is queued after a frame just if it was before or its image was
/// uploaded in the frame; a slot without an image stays as it is.
pub proof fn law_queued_slots(queued: Seq<bool>, images: Seq<Option<IconImage>>, n: nat, i: int)
    requires
        n <= images.len() < u32::MAX,
        0 <= i < queued.len(),
    ensures
        icons::queued_after(queued, images, n).len() == queued.len(),
        queued[i] ==> icons::queued_after(queued, images, n)[i],
        i >= n ==> icons::queued_after(queued, images, n)[i] == queued[i],
        i < n && images[i] is None ==> icons::queued_after(queued, images, n)[i] == queued[i],
        i < n && !queued[i] ==> (icons::queued_after(queued, images, n)[i] <==> exists|k: int|
            0 <= k < icons::due_uploads(queued, images, n).len() && (#[trigger] icons::due_uploads(
                queued,
                images,
                n,
            )[k]).logical_slot == i + 1),
{
    if i < n {
        law_new_images_are_uploaded(queued, images, n, i);
    }
}

// ---------------------------------------------------------------------------
// Cameras

/// A span that begins within the limit keeps its start and ends at the limit at
/// the latest.
pub proof fn law_held_spans_are_cut(start: u32, length: u32, limit: u32, at: int)
    requires
        start < limit,
    ensures
        camera::held_start(start, length, limit) == start,
        start <= at < start + camera::held_length(start, length, limit) <==> start <= at < start
            + length && at < limit,
{
}

/// A span that begins beyond the limit becomes the last pixel, and nothing where
/// there is none.
pub proof fn law_held_spans_are_moved(start: u32, length: u32, limit: u32)
    requires
        start + length > limit,
        start >= limit,
    ensures
        limit > 0 ==> camera::held_start(start, length, limit) + 1 == limit,
        limit > 0 ==> camera::held_length(start, length, limit) == 1,
        limit == 0 ==> camera::held_start(start, length, limit) == 0,
        limit == 0 ==> camera::held_length(start, length, limit) == 0,
{
}

/// A viewport is held in each direction by the size in that direction.
pub proof fn law_directions_are_held_apart(a: ViewportRect, b: ViewportRect, size: PixelSize, other: PixelSize)
    requires
        a.x == b.x,
        a.width == b.width,
        size.width == other.width,
    ensures
        camera::held(a, size).x == camera::held(b, other).x,
        camera::held(a, size).width == camera::held(b, other).width,
        camera::held(a, size).x == camera::held_start(a.x, a.width, size.width),
        camera::held(a, size).y == camera::held_start(a.y, a.height, size.height),
        camera::held(a, size).width == camera::held_length(a.x, a.width, size.width),
        camera::held(a, size).height == camera::held_length(a.y, a.height, size.height),
{
}

/// Each thing that a camera depends on refreshes it by itself, where its window
/// is there.
pub proof fn law_each_change_refreshes(
    camera: CameraState,
    input: CameraInput,
    changes: WindowChanges,
    window: u64,
    i: int,
)
    requires
        input.window == Some(window),
        input.window_info is Some,
    ensures
        0 <= i < changes.created@.len() && changes.created@[i] == window ==> camera::refreshes(
            camera,
            input,
            changes,
        ),
        0 <= i < changes.resized@.len() && changes.resized@[i] == window ==> camera::refreshes(
            camera,
            input,
            changes,
        ),
        0 <= i < changes.rescaled@.len() && changes.rescaled@[i] == window ==> camera::refreshes(
            camera,
            input,
            changes,
        ),
        input.is_added ==> camera::refreshes(camera, input, changes),
        input.projection_changed ==> camera::refreshes(camera, input, changes),
        input.sub_view_changed ==> camera::refreshes(camera, input, changes),
        (camera.viewport matches Some(rect) ==> camera.old_viewport_size is None
            ==> camera::refreshes(camera, input, changes)),
        (camera.viewport matches Some(rect) ==> camera.old_viewport_size matches Some(size)
            ==> size.width != rect.width || size.height != rect.height ==> camera::refreshes(
            camera,
            input,
            changes,
        )),
        camera.viewport is None && camera.old_viewport_size is Some ==> camera::refreshes(
            camera,
            input,
            changes,
        ),
{
    if 0 <= i < changes.created@.len() && changes.created@[i] == window {
        assert(changes.created@.contains(window));
    }
    if 0 <= i < changes.resized@.len() && changes.resized@[i] == window {
        assert(changes.resized@.contains(window));
    }
    if 0 <= i < changes.rescaled@.len() && changes.rescaled@[i] == window {
        assert(changes.rescaled@.contains(window));
    }
}

/// A camera for which nothing has changed is not refreshed: only what it
/// remembers of the viewport's size is brought up to date, which changes
/// nothing then.
pub proof fn law_unchanged_cameras_rest(
    camera: CameraState,
    input: CameraInput,
    changes: WindowChanges,
    window: u64,
)
    requires
        input.window == Some(window),
        forall|i: int| 0 <= i < changes.created@.len() ==> #[trigger] changes.created@[i] != window,
        forall|i: int| 0 <= i < changes.resized@.len() ==> #[trigger] changes.resized@[i] != window,
        forall|i: int|
            0 <= i < changes.rescaled@.len() ==> #[trigger] changes.rescaled@[i] != window,
        !input.is_added,
        !input.projection_changed,
        !input.sub_view_changed,
        match (camera.viewport, camera.old_viewport_size) {
            (Some(rect), Some(size)) => size.width == rect.width && size.height == rect.height,
            (None, None) => true,
            _ => false,
        },
    ensures
        !camera::refreshes(camera, input, changes),
        camera::updated(camera, input, changes) == camera,
{
}

/// A camera that draws elsewhere, or whose window is missing, is not refreshed.
pub proof fn law_cameras_without_a_window_rest(
    camera: CameraState,
    input: CameraInput,
    changes: WindowChanges,
)
    requires
        input.window is None || input.window_info is None,
    ensures
        !camera::refreshes(camera, input, changes),
        camera::updated(camera, input, changes).viewport == camera.viewport,
        camera::updated(camera, input, changes).target_info == camera.target_info,
        (camera.viewport matches Some(rect) ==> camera::updated(
            camera,
            input,
            changes,
        ).old_viewport_size matches Some(size) && size.width == rect.width && size.height
            == rect.height),
        camera.viewport is None ==> camera::updated(camera, input, changes).old_viewport_size
            is None,
{
}

/// A refreshed camera's viewport takes the proportions of the window's new scale
/// just if the scale changed from one that the camera knew; it is held within
/// the window then, and the camera remembers the size from before that.
pub proof fn law_refreshed_viewports(
    camera: CameraState,
    input: CameraInput,
    changes: WindowChanges,
    window: u64,
    rect: ViewportRect,
)
    requires
        input.window == Some(window),
        camera.viewport == Some(rect),
        camera::refreshes(camera, input, changes),
    ensures
        ({
            let keeps = camera.target_info is None || !changes.rescaled@.contains(window);
            let chosen = if keeps {
                rect
            } else {
                input.rescaled_viewport
            };
            let after = camera::updated(camera, input, changes);
            &&& camera::scaled(camera, input, changes) == Some(chosen)
            &&& input.window_info matches Some(info) && after.viewport == Some(
                camera::held(chosen, info.physical_size),
            ) && after.target_info == Some(info)
            &&& after.old_viewport_size matches Some(size) && size.width == chosen.width
                && size.height == chosen.height
        }),
{
}

/// A camera without a viewport of its own gets none by a refresh.
pub proof fn law_whole_windows_stay_whole(
    camera: CameraState,
    input: CameraInput,
    changes: WindowChanges,
)
    requires
        camera.viewport is None,
    ensures
        camera::updated(camera, input, changes).viewport is None,
        camera::updated(camera, input, changes).old_viewport_size is None,
        camera::scaled(camera, input, changes) is None,
{
}

} // verus!
