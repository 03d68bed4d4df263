//! What the passes over surfaces promise of single steps: culling, linework,
//! glyphs, outlines, gizmos and local lights.

use vstd::prelude::*;

use crate::float_bits;
use crate::shading::clusters;
use crate::shading::clusters::{Cluster, ClusterScene, MeshBatch, VisibleModel};
use crate::shading::gizmos;
use crate::shading::gizmos::{GizmoInstance, GizmoShape, GizmoVertex};
use crate::shading::glyph_coverage;
use crate::shading::glyph_coverage::{BandCurve, Crossing, TextBandHeader};
use crate::shading::linework;
use crate::shading::linework::{LineworkPixel, MeshFrame, Neighbour};
use crate::shading::local_light;
use crate::shading::local_light::{
    CornerAnswer, LightFrame, LightQuery, LightShare, LightSource, MarchEnd, MarchStep,
    OverlayColor, SlotAnswers, SurfacePixel, Visibility,
};
use crate::shading::local_shadow::{ShadowState, SlotState};
use crate::shading::outline;
use crate::shading::outline::{FloodPixel, OutlineField, OutlineRegion};
use crate::shading::quads;

verus! {

// ---------------------------------------------------------------------------
// Clusters

/// An instance's mesh is the mesh of its batch.
pub proof fn law_instances_have_the_mesh_of_their_batch(scene: ClusterScene, i: int)
    ensures
        scene.mesh_of(scene.instances@[i]) == scene.meshes@[scene.batches@[scene.instances@[i].batch_index as int].mesh_index as int],
{
}

/// A meshlet is tested just if its instance, its batch and the meshlet itself are
/// there and the instance has none of the flags that are left out.
pub proof fn law_candidates(scene: ClusterScene, instance_id: u32, local_meshlet: u32)
    ensures
        instance_id >= scene.instances@.len() ==> !scene.is_candidate(instance_id, local_meshlet),
        local_meshlet >= scene.max_meshlets_per_mesh ==> !scene.is_candidate(
            instance_id,
            local_meshlet,
        ),
        instance_id < scene.instances@.len() && local_meshlet < scene.max_meshlets_per_mesh ==> ({
            let instance = scene.instances@[instance_id as int];
            scene.is_candidate(instance_id, local_meshlet) == (instance.batch_index
                < scene.batches@.len() && instance.flags & scene.cull_mask == 0 && local_meshlet
                < scene.meshes@[scene.batches@[instance.batch_index as int].mesh_index as int].meshlet_count)
        }),
{
}

/// What is out of view never survives, and what faces away does not where that
/// is tested; all else does.
pub proof fn law_survival(test_cone: bool, faces_away: bool, in_view: bool)
    ensures
        !clusters::survives(test_cone, faces_away, false),
        !clusters::survives(true, true, in_view),
        clusters::survives(false, faces_away, true),
        clusters::survives(test_cone, false, true),
{
}

/// A survivor takes the next place in the range of its own batch and is counted
/// there; other batches and other places stay. A full range only counts it.
pub proof fn law_survivors_join_their_batch(
    visible: VisibleModel,
    batches: Seq<MeshBatch>,
    batch: int,
    cluster: Cluster,
    other: int,
)
    requires
        0 <= batch < batches.len(),
        visible.counts.len() == batches.len(),
        clusters::ranges_fit(batches, visible.clusters.len()),
        visible.counts[batch] < u32::MAX,
        0 <= other < batches.len(),
        other != batch,
    ensures
        ({
            let after = visible.with(batches, batch, cluster);
            let at = batches[batch].cluster_base + visible.counts[batch];
            &&& after.counts[batch] == visible.counts[batch] + 1
            &&& after.counts[other] == visible.counts[other]
            &&& after.clusters.len() == visible.clusters.len()
            &&& visible.counts[batch] < batches[batch].cluster_capacity ==> after.clusters[at]
                == cluster && forall|i: int|
                0 <= i < visible.clusters.len() && i != at ==> #[trigger] after.clusters[i]
                    == visible.clusters[i]
            &&& visible.counts[batch] >= batches[batch].cluster_capacity ==> after.clusters
                == visible.clusters
        }),
{
}

/// A map's own sampler comes before the frame's; without a map there is none.
pub proof fn law_samplers(map: u32, sampler: u32, default_sampler: u32)
    ensures
        clusters::chosen_sampler(0, sampler, default_sampler) is None,
        map != 0 && sampler != 0 ==> clusters::chosen_sampler(map, sampler, default_sampler)
            == Some(sampler),
        map != 0 ==> clusters::chosen_sampler(map, 0, default_sampler) == Some(default_sampler),
{
}

// ---------------------------------------------------------------------------
// Linework

/// A pixel lies on an edge just if it shows a mesh and one of its four
/// neighbours shows something else.
pub proof fn law_edges(center: u32, left: u32, right: u32, up: u32, down: u32)
    ensures
        linework::is_edge(center, seq![left, right, up, down]) == (center != 0 && (left != center
            || right != center || up != center || down != center)),
{
    let taps = seq![left, right, up, down];
    assert(taps[0] == left && taps[1] == right && taps[2] == up && taps[3] == down);
}

/// The corners of a token's triangle follow each other in the index data, three
/// for each primitive from the meshlet's first index on.
pub proof fn law_corners_follow(frame: MeshFrame, token: u32, corner: int)
    ensures
        frame.corner_at(token, corner + 1) == frame.corner_at(token, corner) + 1,
        frame.corner_at(token, 0) == frame.meshlet_of(token).first_index + 3 * (token >> 25),
        frame.meshlet_of(token) == frame.meshlets@[frame.cluster_of(token).meshlet_index as int],
        frame.instance_of(token) == frame.instances@[frame.cluster_of(token).instance_id as int],
{
}

/// Vertices of a cluster are taken from its meshlet's part of the index data in
/// order; those beyond its triangles only pad.
pub proof fn law_drawn_vertices(frame: MeshFrame, cluster_index: int, vertex: int)
    ensures
        ({
            let meshlet = frame.meshlets@[frame.clusters@[cluster_index].meshlet_index as int];
            &&& vertex < 3 * meshlet.tri_count ==> frame.drawn_vertex(cluster_index, vertex)
                == Some(frame.index_data@[meshlet.first_index + vertex])
            &&& vertex >= 3 * meshlet.tri_count ==> frame.drawn_vertex(cluster_index, vertex) is None
        }),
{
}

/// The prepass tags a vertex with its cluster, the silhouettes with the outline
/// group of its instance; padding has no tag.
pub proof fn law_passes_tag_their_vertices(frame: MeshFrame, cluster_index: u32, vertex: int)
    ensures
        ({
            let drawn = frame.drawn_vertex(cluster_index as int, vertex) is Some;
            let instance = frame.instances@[frame.clusters@[cluster_index as int].instance_id as int];
            &&& drawn ==> frame.prepass_vertex(cluster_index, vertex).tag == cluster_index
            &&& drawn ==> frame.silhouette_vertex(cluster_index, vertex).tag
                == instance.outline_group
            &&& !drawn ==> frame.prepass_vertex(cluster_index, vertex).tag == 0
            &&& !drawn ==> frame.silhouette_vertex(cluster_index, vertex).tag == 0
        }),
{
}

/// A pixel's triangle is trusted where its instance draws linework, it has an
/// area, and the pixel lies on its plane.
pub proof fn law_trusted_triangles(center: LineworkPixel, plane_epsilon: u32)
    requires
        !float_bits::is_nan(center.area_squared),
        !float_bits::is_nan(center.plane_distance),
        !float_bits::is_nan(plane_epsilon),
    ensures
        linework::is_trusted(center, plane_epsilon) == (center.flags & 1 == 0 && float_bits::less(
            0x2b8c_bccc,
            center.area_squared,
        ) && float_bits::at_most(center.plane_distance, plane_epsilon)),
{
}

/// Ink only grows from neighbour to neighbour.
pub proof fn law_ink_only_grows(edge: u32, center: u32, depth: u32, step_strength: u32, n: Neighbour)
    requires
        !float_bits::is_nan(edge),
        !float_bits::is_nan(step_strength),
        !float_bits::is_nan(n.crease),
        !float_bits::is_nan(n.step),
    ensures
        ({
            let after = linework::inked(edge, center, depth, step_strength, n);
            let mesh = n.token != center && n.token != 0 && n.flags & 1 == 0 && float_bits::less(
                0x2b8c_bccc,
                n.area_squared,
            );
            let behind = float_bits::less(n.depth, depth);
            &&& float_bits::at_most(edge, after)
            &&& n.token == center ==> after == edge
            &&& n.token != center && n.token == 0 ==> float_bits::at_most(step_strength, after) && (
            after == edge || after == step_strength)
            &&& mesh ==> float_bits::at_most(n.crease, after)
            &&& mesh && behind ==> float_bits::at_most(n.step, after)
            &&& mesh && !behind ==> after == edge || after == n.crease
            &&& mesh ==> after == edge || after == n.crease || after == n.step
            &&& n.token != center && n.token != 0 && !mesh ==> after == edge
        }),
{
}

/// The ink of a pixel is that of its neighbours in turn, from none on.
pub proof fn law_ink_adds_up(
    center: u32,
    depth: u32,
    step_strength: u32,
    neighbours: Seq<Neighbour>,
    n: int,
)
    requires
        0 <= n,
    ensures
        linework::ink(center, depth, step_strength, neighbours, 0) == 0,
        linework::ink(center, depth, step_strength, neighbours, n + 1) == linework::inked(
            linework::ink(center, depth, step_strength, neighbours, n),
            center,
            depth,
            step_strength,
            neighbours[n],
        ),
{
}

/// A trusted pixel on an edge to the void has at least a full step of ink.
pub proof fn law_silhouettes_have_ink(
    center: LineworkPixel,
    plane_epsilon: u32,
    step_strength: u32,
    neighbours: Seq<Neighbour>,
    k: int,
)
    requires
        0 <= k < neighbours.len(),
        center.token != 0,
        neighbours[k].token == 0,
        linework::is_trusted(center, plane_epsilon),
        !float_bits::is_nan(step_strength),
        forall|i: int|
            0 <= i < neighbours.len() ==> !float_bits::is_nan((#[trigger] neighbours[i]).crease)
                && !float_bits::is_nan(neighbours[i].step),
    ensures
        float_bits::at_most(
            step_strength,
            linework::pixel_ink(center, plane_epsilon, step_strength, neighbours),
        ),
{
    let tokens = linework::tokens(neighbours);
    assert(tokens[k] != center.token);
    lemma_ink_keeps_a_step(center.token, center.depth, step_strength, neighbours, neighbours.len() as int, k);
}

proof fn lemma_ink_keeps_a_step(
    center: u32,
    depth: u32,
    step_strength: u32,
    neighbours: Seq<Neighbour>,
    n: int,
    k: int,
)
    requires
        0 <= k,
        0 <= n <= neighbours.len(),
        center != 0,
        neighbours[k].token == 0,
        !float_bits::is_nan(step_strength),
        forall|i: int|
            0 <= i < neighbours.len() ==> !float_bits::is_nan((#[trigger] neighbours[i]).crease)
                && !float_bits::is_nan(neighbours[i].step),
    ensures
        !float_bits::is_nan(linework::ink(center, depth, step_strength, neighbours, n)),
        k < n ==> float_bits::at_most(
            step_strength,
            linework::ink(center, depth, step_strength, neighbours, n),
        ),
    decreases n,
{
    if n > 0 {
        lemma_ink_keeps_a_step(center, depth, step_strength, neighbours, n - 1, k);
        law_ink_only_grows(
            linework::ink(center, depth, step_strength, neighbours, n - 1),
            center,
            depth,
            step_strength,
            neighbours[n - 1],
        );
    }
}

// ---------------------------------------------------------------------------
// Glyphs

/// A curve that stays on one side of the ray crosses at neither root, one that
/// changes sides crosses at one, and one that comes back crosses at both or at
/// neither by where its middle lies.
pub proof fn law_roots_follow_the_signs(y1: u32, y2: u32, y3: u32)
    ensures
        ({
            let first = glyph_coverage::first_root_counts(y1, y2, y3);
            let second = glyph_coverage::second_root_counts(y1, y2, y3);
            let a = y1 >= 0x8000_0000;
            let b = y2 >= 0x8000_0000;
            let c = y3 >= 0x8000_0000;
            &&& a == b && b == c ==> !first && !second
            &&& !a && c ==> first && !second
            &&& a && !c ==> !first && second
            &&& a == c && a != b ==> first && second
        }),
{
}

/// Whether one of the first `n` curves of a band lies behind.
pub open spec fn ends_within(curves: Seq<BandCurve>, n: int) -> bool {
    exists|i: int| 0 <= i < n && (#[trigger] curves[i]).behind
}

/// A curve of a band in front of the first one that lies behind is solved just
/// if one of its roots counts, under its own number and for just those roots;
/// none is solved from there on.
pub proof fn law_bands_list_their_crossings(
    indices: Seq<u32>,
    band: TextBandHeader,
    curves: Seq<BandCurve>,
    n: int,
)
    requires
        0 <= n < curves.len(),
    ensures
        ({
            let before = glyph_coverage::band_crossings(indices, band, curves, n);
            let after = glyph_coverage::band_crossings(indices, band, curves, n + 1);
            let curve = curves[n];
            let first = glyph_coverage::first_root_counts(curve.y1, curve.y2, curve.y3);
            let second = glyph_coverage::second_root_counts(curve.y1, curve.y2, curve.y3);
            &&& glyph_coverage::band_crossings(indices, band, curves, 0).len() == 0
            &&& ends_within(curves, n + 1) || (!first && !second) ==> after == before
            &&& !ends_within(curves, n + 1) && (first || second) ==> after == before.push(
                Crossing { curve: indices[band.first + n], first, second },
            )
        }),
{
    assert(ends_within(curves, n + 1) == exists|i: int|
        0 <= i < n + 1 && (#[trigger] curves[i]).behind);
}

/// The vertices of a quad's triangles: top left, bottom left, bottom right, and
/// top left, bottom right, top right, with corners numbered from the top left
/// round to the bottom left.
pub proof fn law_quad_vertices()
    ensures
        quads::corner_of(0) == 0,
        quads::corner_of(1) == 3,
        quads::corner_of(2) == 2,
        quads::corner_of(3) == 0,
        quads::corner_of(4) == 2,
        quads::corner_of(5) == 1,
{
}

// ---------------------------------------------------------------------------
// Outlines

/// A step's samples lie a step away in each of the eight directions and at the
/// pixel itself, as far as that is in the image.
pub proof fn law_samples_lie_a_step_away(
    at: FloodPixel,
    step: u32,
    width: u32,
    height: u32,
    across: int,
    down: int,
)
    requires
        -1 <= across <= 1,
        -1 <= down <= 1,
    ensures
        ({
            let x = at.x + across * step;
            let y = at.y + down * step;
            outline::sample_place(at, step, width, height, (down + 1) * 3 + across + 1) == if 0 <= x
                && x < width && 0 <= y && y < height {
                Some(FloodPixel { x: x as u32, y: y as u32 })
            } else {
                None
            }
        }),
{
    let sample = (down + 1) * 3 + across + 1;
    assert(sample % 3 - 1 == across);
    assert(sample / 3 - 1 == down);
}

/// A pixel can show the outline of a group just where it lies in the region and
/// outside of silhouettes and has the seed of a group that there is and has
/// room.
pub proof fn law_outlined_pixels(
    region: OutlineRegion,
    x: u32,
    y: u32,
    field: OutlineField,
    group_count: u32,
    capacity: u32,
)
    requires
        !float_bits::is_nan(field.mask),
        !float_bits::is_nan(field.seed_x),
    ensures
        ({
            let group = outline::outline_group(region, x, y, field, group_count, capacity);
            let inside = region.min_x <= x && x < region.max_x && region.min_y <= y && y
                < region.max_y;
            &&& group is Some == (inside && float_bits::at_most(field.mask, 0)
                && float_bits::at_most(0, field.seed_x) && field.group_id >= 1 && field.group_id
                <= group_count && field.group_id <= capacity)
            &&& group matches Some(g) ==> g + 1 == field.group_id
        }),
{
}

// ---------------------------------------------------------------------------
// Gizmos

/// Boxes are drawn with all vertices of a cube, other shapes with the six of a
/// quad; the rest draw nothing.
pub proof fn law_gizmo_vertices(shape: GizmoShape, k: u32)
    ensures
        shape == GizmoShape::BoxEdges || shape == GizmoShape::LatticeCell ==> gizmos::vertex_of(
            shape,
            k,
        ) == GizmoVertex::Cube(k),
        shape != GizmoShape::BoxEdges && shape != GizmoShape::LatticeCell && k < 6
            ==> gizmos::vertex_of(shape, k) == GizmoVertex::Corner(k),
        shape != GizmoShape::BoxEdges && shape != GizmoShape::LatticeCell && k >= 6
            ==> gizmos::vertex_of(shape, k) == GizmoVertex::Collapsed,
{
}

/// What shows through is drawn in the pass for that, all else in the other.
pub proof fn law_gizmo_passes(instance: GizmoInstance)
    ensures
        instance.flags & 1 != 0 ==> gizmos::in_pass(instance, true) && !gizmos::in_pass(
            instance,
            false,
        ),
        instance.flags & 1 == 0 ==> gizmos::in_pass(instance, false) && !gizmos::in_pass(
            instance,
            true,
        ),
{
}

/// A size of its own counts where it is above zero.
pub proof fn law_own_sizes(size: u32, default: u32)
    ensures
        float_bits::less(0, size) ==> gizmos::own_or(size, default) == size,
        !float_bits::less(0, size) ==> gizmos::own_or(size, default) == default,
{
}

// ---------------------------------------------------------------------------
// Local lights

/// An exact query means all of the light where it is visible or not asked, none
/// of it where it is occluded, and a failure else.
pub proof fn law_exact_answers(fraction_one: u32)
    ensures
        local_light::exact_visibility(None, fraction_one) == (Visibility::Share {
            weighted: fraction_one,
            weight: 1,
        }),
        local_light::exact_visibility(Some(ShadowState::Visible), fraction_one) == (
        Visibility::Share { weighted: fraction_one, weight: 1 }),
        local_light::exact_visibility(Some(ShadowState::Occluded), fraction_one) == (
        Visibility::Share { weighted: 0, weight: 1 }),
        local_light::exact_visibility(Some(ShadowState::Failed), fraction_one)
            == Visibility::Failed,
        local_light::exact_visibility(Some(ShadowState::Inactive), fraction_one)
            == Visibility::Failed,
{
}

/// A texel lets through the fraction in the first slot that holds the light,
/// where that has an answer.
pub proof fn law_texels_share_their_slot(
    lights: Seq<Option<u32>>,
    states: Seq<SlotState>,
    fractions: Seq<u32>,
    light: u32,
    slot: int,
)
    requires
        0 <= slot < lights.len(),
        lights[slot] == Some(light),
        forall|s: int| 0 <= s < slot ==> #[trigger] lights[s] != Some(light),
    ensures
        local_light::texel_share(lights, states, fractions, light) == if states[slot].state
            == ShadowState::Visible || states[slot].state == ShadowState::Occluded {
            Some(fractions[slot])
        } else {
            None
        },
{
    crate::shading::local_shadow_laws::lemma_first_slot(lights, light, slot);
}

proof fn lemma_weight_product(across: int, down: int)
    requires
        across == 1 || across == 3,
        down == 1 || down == 3,
    ensures
        across == 1 ==> across * down == down,
        across == 3 ==> across * down == 3 * down,
{
}

/// The four texels around a pixel are the one it lies in and the nearest ones
/// beside it: to the left and above of even pixels, to the right and below of
/// odd ones.
pub proof fn law_corners_surround_the_pixel(x: u32, y: u32, width: u32, height: u32)
    requires
        2 <= x,
        2 <= y,
        x as int / 2 + 1 < width,
        y as int / 2 + 1 < height,
    ensures
        ({
            let left = if x % 2 == 0 {
                x as int / 2 - 1
            } else {
                x as int / 2
            };
            let top = if y % 2 == 0 {
                y as int / 2 - 1
            } else {
                y as int / 2
            };
            let a = local_light::corner_at(x, y, width, height, 0);
            let b = local_light::corner_at(x, y, width, height, 1);
            let c = local_light::corner_at(x, y, width, height, 2);
            let d = local_light::corner_at(x, y, width, height, 3);
            &&& a.x == left && a.y == top
            &&& b.x == left + 1 && b.y == top
            &&& c.x == left && c.y == top + 1
            &&& d.x == left + 1 && d.y == top + 1
            &&& x % 2 == 0 ==> b.weight == 3 * a.weight && d.weight == 3 * c.weight
            &&& x % 2 == 1 ==> a.weight == 3 * b.weight && c.weight == 3 * d.weight
            &&& y % 2 == 0 ==> c.weight == 3 * a.weight && d.weight == 3 * b.weight
            &&& y % 2 == 1 ==> a.weight == 3 * c.weight && b.weight == 3 * d.weight
        }),
{
    let a = local_light::corner_at(x, y, width, height, 0);
    let b = local_light::corner_at(x, y, width, height, 1);
    let c = local_light::corner_at(x, y, width, height, 2);
    let d = local_light::corner_at(x, y, width, height, 3);
    let across = (local_light::axis_weight(x as int, 0), local_light::axis_weight(x as int, 1));
    let down = (local_light::axis_weight(y as int, 0), local_light::axis_weight(y as int, 1));
    lemma_weight_product(across.0, down.0);
    lemma_weight_product(across.1, down.0);
    lemma_weight_product(across.0, down.1);
    lemma_weight_product(across.1, down.1);
    if x % 2 == 0 && y % 2 == 0 {
        assert(a.weight == 1 && b.weight == 3 && c.weight == 3 && d.weight == 9);
    } else if x % 2 == 0 {
        assert(a.weight == 3 && b.weight == 9 && c.weight == 1 && d.weight == 3);
    } else if y % 2 == 0 {
        assert(a.weight == 3 && b.weight == 1 && c.weight == 9 && d.weight == 3);
    } else {
        assert(a.weight == 9 && b.weight == 3 && c.weight == 3 && d.weight == 1);
    }
}

/// Texels beyond the grid are stood for by its outermost ones.
pub proof fn law_corners_stay_in_the_grid(x: u32, y: u32, width: u32, height: u32, corner: int)
    requires
        0 < width,
        0 < height,
        0 <= corner < 4,
    ensures
        local_light::corner_at(x, y, width, height, corner).x < width,
        local_light::corner_at(x, y, width, height, corner).y < height,
        x == 0 ==> local_light::corner_at(x, y, width, height, corner).x == 0,
        y == 0 ==> local_light::corner_at(x, y, width, height, corner).y == 0,
        x >= 2 * width ==> local_light::corner_at(x, y, width, height, corner).x == width - 1,
        y >= 2 * height ==> local_light::corner_at(x, y, width, height, corner).y == height - 1,
{
}

/// A pixel whose own texel has no answer fails. Otherwise it sees the mean of the
/// corners that have an answer and a close depth, or its own texel's answer
/// where there is none.
pub proof fn law_resolved_lights(own: Option<u32>, a: CornerAnswer, b: CornerAnswer, c: CornerAnswer, d: CornerAnswer)
    requires
        a.weight <= 9,
        b.weight <= 9,
        c.weight <= 9,
        d.weight <= 9,
        0 < a.weight,
        0 < b.weight,
        0 < c.weight,
        0 < d.weight,
        a.share matches Some(s) ==> s <= 0xffff,
        b.share matches Some(s) ==> s <= 0xffff,
        c.share matches Some(s) ==> s <= 0xffff,
        d.share matches Some(s) ==> s <= 0xffff,
    ensures
        ({
            let resolved = local_light::resolved(own, seq![a, b, c, d]);
            let weight = counted(a, a.weight as int) + counted(b, b.weight as int) + counted(
                c,
                c.weight as int,
            ) + counted(d, d.weight as int);
            let weighted = counted(a, a.weight * a.share->0) + counted(b, b.weight * b.share->0)
                + counted(c, c.weight * c.share->0) + counted(d, d.weight * d.share->0);
            &&& own is None ==> resolved is Failed
            &&& own is Some && weight > 0 ==> (resolved matches Visibility::Share {
                weighted: w,
                weight: v,
            } && w == weighted && v == weight)
            &&& own is Some && weight == 0 ==> resolved == (Visibility::Share {
                weighted: own->0,
                weight: 1,
            })
        }),
{
    let answers = seq![a, b, c, d];
    reveal_with_fuel(local_light::weight_of, 5);
    reveal_with_fuel(local_light::weighted_of, 5);
    lemma_bounded(a);
    lemma_bounded(b);
    lemma_bounded(c);
    lemma_bounded(d);
    assert(answers[0] == a && answers[1] == b && answers[2] == c && answers[3] == d);
}

/// What a corner that has an answer and a close depth adds.
pub open spec fn counted(answer: CornerAnswer, amount: int) -> int {
    if answer.share is Some && answer.depth_matches {
        amount
    } else {
        0
    }
}

proof fn lemma_bounded(answer: CornerAnswer)
    requires
        answer.weight <= 9,
        answer.share matches Some(s) ==> s <= 0xffff,
    ensures
        0 <= counted(answer, answer.weight * answer.share->0) <= 9 * 0xffff,
{
    if answer.share is Some {
        assert(0 <= answer.weight * answer.share->0 <= 9 * 0xffff) by (nonlinear_arith)
            requires
                0 <= answer.weight <= 9,
                0 <= answer.share->0 <= 0xffff,
        ;
    }
}

/// The lights that add to a pixel are those of its queries that name a light
/// that there is and did not fail, in order, each with its own share.
pub proof fn law_queries_add_their_light(queries: Seq<LightQuery>, light_count: u32, n: int)
    requires
        0 <= n,
    ensures
        ({
            let before = local_light::shares(queries, light_count, n);
            let after = local_light::shares(queries, light_count, n + 1);
            let query = queries[n];
            let named = query.light is Some && query.light->0 < light_count;
            &&& local_light::shares(queries, light_count, 0).len() == 0
            &&& !named || query.visibility is Failed ==> after == before
            &&& named ==> (query.visibility matches Visibility::Share { weighted, weight } ==> after
                == before.push(LightShare { light: query.light->0, weighted, weight }))
        }),
{
}

/// A pixel fails just if a query about a light that there is failed.
pub proof fn law_failures_show(queries: Seq<LightQuery>, light_count: u32, n: int, k: int)
    requires
        0 <= k < n <= queries.len(),
    ensures
        queries[k].visibility is Failed && queries[k].light is Some && queries[k].light->0
            < light_count ==> local_light::any_failed(queries, light_count, n),
        (forall|i: int|
            0 <= i < n ==> (#[trigger] queries[i]).visibility is Share || queries[i].light is None
                || queries[i].light->0 >= light_count) ==> !local_light::any_failed(
            queries,
            light_count,
            n,
        ),
{
    if queries[k].visibility is Failed && queries[k].light is Some && queries[k].light->0
        < light_count {
        assert(local_light::is_active(queries[k], light_count));
    }
}

/// The colors that show where an answer comes from.
pub proof fn law_overlay_colors(answer: SlotState, age_max: u32)
    ensures
        ({
            let color = local_light::overlay_of(answer, age_max);
            &&& color == OverlayColor::Red <==> answer.age == 0
            &&& color == OverlayColor::Cyan <==> answer.age > 0 && answer.state
                == ShadowState::Occluded && answer.blind
            &&& color == OverlayColor::Green <==> answer.age > 0 && answer.state
                == ShadowState::Occluded && !answer.blind
            &&& color == OverlayColor::Yellow <==> answer.age > 0 && answer.state
                != ShadowState::Occluded && answer.age >= age_max
            &&& color == OverlayColor::Blue <==> answer.age > 0 && answer.state
                != ShadowState::Occluded && answer.age < age_max
        }),
{
}

/// A pixel asks about the lights in the slots of the texel that it lies in, each
/// resolved from that texel and the four around the pixel.
pub proof fn law_pixels_ask_their_texel(
    answers: SlotAnswers,
    x: u32,
    y: u32,
    close: Seq<bool>,
    light_count: u32,
    fraction_one: u32,
    slot: int,
    column: int,
    row: int,
)
    requires
        2 * column <= x < 2 * column + 2,
        2 * row <= y < 2 * row + 2,
    ensures
        ({
            let t = row * answers.field.width + column;
            let light = answers.field.texels@[t].lights@[slot];
            let query = answers.query(x, y, close, light_count, fraction_one, slot);
            &&& query.light == light
            &&& light is Some && light->0 < light_count ==> query.visibility
                == local_light::resolved(
                local_light::texel_share(
                    answers.field.texels@[t].lights@,
                    answers.field.texels@[t].states@,
                    answers.fractions@[t]@,
                    light->0,
                ),
                answers.corner_answers(x, y, close, light->0),
            )
        }),
{
    assert(x as int / 2 == column);
    assert(y as int / 2 == row);
}

/// A corner's answer about a light is that of the texel which the corner is, with
/// the corner's weight and depth.
pub proof fn law_corner_answers(
    answers: SlotAnswers,
    x: u32,
    y: u32,
    close: Seq<bool>,
    light: u32,
    corner: int,
)
    requires
        0 <= corner < 4,
    ensures
        ({
            let at = local_light::corner_at(
                x,
                y,
                answers.field.width as u32,
                answers.field.height as u32,
                corner,
            );
            let t = at.y * answers.field.width + at.x;
            let answer = answers.corner_answers(x, y, close, light)[corner];
            &&& answers.corner_answers(x, y, close, light).len() == 4
            &&& answer.weight == at.weight
            &&& answer.depth_matches == close[corner]
            &&& answer.share == local_light::texel_share(
                answers.field.texels@[t].lights@,
                answers.field.texels@[t].states@,
                answers.fractions@[t]@,
                light,
            )
        }),
{
}

/// An exact answer is that of the very light at the very pixel.
pub proof fn law_exact_queries_ask_their_pixel(
    states: Seq<ShadowState>,
    pixel_count: u32,
    pixel: u32,
    fraction_one: u32,
    light: u32,
)
    ensures
        ({
            let query = local_light::exact_query(
                Some(states),
                pixel_count,
                pixel,
                fraction_one,
                light as int,
            );
            &&& query.light == Some(light)
            &&& query.visibility == local_light::exact_visibility(
                Some(states[light * pixel_count + pixel]),
                fraction_one,
            )
        }),
        local_light::exact_query(None, pixel_count, pixel, fraction_one, light as int).visibility
            == (Visibility::Share { weighted: fraction_one, weight: 1 }),
{
}

/// A pixel is lit just if it is on the screen and shows a surface with a depth.
pub proof fn law_lit_pixels(frame: LightFrame, pixel: SurfacePixel)
    requires
        !float_bits::is_nan(pixel.marker),
        !float_bits::is_nan(pixel.depth),
    ensures
        frame.is_lit(pixel) == (pixel.x < frame.width && pixel.y < frame.height
            && float_bits::less(0, pixel.marker) && float_bits::less(0, pixel.depth)),
{
}

/// The overlay is painted only where it is on and the answers come from slots:
/// by the first slot of the pixel's texel.
pub proof fn law_overlays(frame: LightFrame, pixel: SurfacePixel)
    ensures
        !frame.debug_overlay ==> frame.overlay(pixel) is None,
        frame.source is Exact ==> frame.overlay(pixel) is None,
        frame.debug_overlay ==> (frame.source matches LightSource::Slots(answers) ==> ({
            let t = (pixel.y as int / 2) * answers.field.width + pixel.x as int / 2;
            frame.overlay(pixel) == Some(
                local_light::overlay_of(answers.field.texels@[t].states@[0], 255),
            )
        })),
{
}

/// A march ends where the ray is behind the farther surface: as a hit where it
/// went in no deeper than the thickness, unresolved where it went deeper, unless
/// it is to go on there.
pub proof fn law_marches_end(step: MarchStep, thickness: u32, go_on_when_deep: bool)
    requires
        float_bits::less(0, thickness),
        !float_bits::is_nan(step.distance),
        !float_bits::is_nan(step.penetration),
    ensures
        ({
            let end = local_light::march_end(step, thickness, go_on_when_deep);
            let behind = float_bits::less(step.distance, 0);
            let shallow = float_bits::less(step.penetration, thickness);
            &&& !behind ==> end is None
            &&& behind && shallow ==> end == Some(MarchEnd::Hit)
            &&& behind && !shallow && go_on_when_deep ==> end is None
            &&& behind && !shallow && !go_on_when_deep ==> end == Some(MarchEnd::Unresolved)
        }),
{
}

/// A frame asks about every light, by the state that is held for the light and
/// the pixel, row by row; or about every slot of the pixel's own texel.
pub proof fn law_frames_ask_about_the_pixel(
    frame: LightFrame,
    pixel: SurfacePixel,
    close: Seq<bool>,
    i: int,
)
    requires
        pixel.y * frame.width + pixel.x <= u32::MAX,
        frame.width * frame.height <= u32::MAX,
    ensures
        (frame.source matches LightSource::Exact(Some(states)) ==> 0 <= i < frame.light_count ==> {
            let asked = frame.queries(pixel, close);
            &&& asked.len() == frame.light_count
            &&& asked[i].light == Some(i as u32)
            &&& asked[i].visibility == local_light::exact_visibility(
                Some(states@[i * (frame.width * frame.height) + (pixel.y * frame.width + pixel.x)]),
                frame.fraction_one,
            )
        }),
        (frame.source matches LightSource::Exact(None) ==> 0 <= i < frame.light_count ==> {
            let asked = frame.queries(pixel, close);
            &&& asked.len() == frame.light_count
            &&& asked[i].light == Some(i as u32)
            &&& asked[i].visibility == local_light::exact_visibility(None, frame.fraction_one)
        }),
        (frame.source matches LightSource::Slots(answers) ==> 0 <= i < answers.field.slots ==> {
            let asked = frame.queries(pixel, close);
            &&& asked.len() == answers.field.slots
            &&& asked[i] == answers.query(
                pixel.x,
                pixel.y,
                close,
                frame.light_count,
                frame.fraction_one,
                i,
            )
        }),
{
}

} // verus!
