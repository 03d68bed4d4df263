//! What traversals promise, step by step: which node or primitive comes next,
//! what an answer holds, and what is left of a segment.

use vstd::prelude::*;

use crate::bits;
use crate::float_bits;
use crate::shading::mesh_nodes;
use crate::shading::mesh_nodes::{Backwards, CwbvhNode};
use crate::shading::mesh_traversal;
use crate::shading::mesh_traversal::{
    Blas, BlasModel, BlasRequest, NodeGroup, QueryResult, QueryStatus,
};
use crate::shading::segment_clip;
use crate::shading::segment_clip::{PlaneCut, SegmentPart};
use crate::shading::world_traversal;
use crate::shading::world_traversal::{
    PairPlace, ShadowInstance, ShadowTlasNode, ShadowWorld, WorldModel, WorldRequest,
};
use crate::value_laws;

verus! {

// ---------------------------------------------------------------------------
// Nodes of a mesh

/// A direction is changed only where it is too near to zero, to the least one
/// with its sign.
pub proof fn law_only_small_directions_change(component: u32)
    ensures
        0x0da2_4260 <= component < 0x8000_0000 || component >= 0x8da2_4260
            ==> mesh_nodes::kept_from_zero(component) == component,
        component < 0x0da2_4260 ==> mesh_nodes::kept_from_zero(component) == 0x0da2_4260,
        0x8000_0000 <= component < 0x8da2_4260 ==> mesh_nodes::kept_from_zero(component)
            == 0x8da2_4260,
{
}

/// An octant has one bit for each component that does not point backwards: the
/// first component the highest.
pub proof fn law_octants_tell_directions(backwards: Backwards)
    ensures
        mesh_nodes::octant(backwards) < 8,
        mesh_nodes::octant(backwards) / 4 == (if backwards.x {
            0int
        } else {
            1
        }),
        mesh_nodes::octant(backwards) / 2 % 2 == (if backwards.y {
            0int
        } else {
            1
        }),
        mesh_nodes::octant(backwards) % 2 == (if backwards.z {
            0int
        } else {
            1
        }),
{
}

/// The fields of a node: its first child node and its first primitive, the mask
/// of its inner children in the top byte of the fourth word, and the meta bytes
/// of its children from the lowest on.
pub proof fn law_node_fields(node: CwbvhNode)
    ensures
        node.first_child() == node.words[4],
        node.first_primitive() == node.words[5],
        node.inner_slots() == node.words[3] / 16777216,
        node.words[6] == node.meta(0) + 256 * node.meta(1) + 65536 * node.meta(2) + 16777216
            * node.meta(3),
        node.words[7] == node.meta(4) + 256 * node.meta(5) + 65536 * node.meta(6) + 16777216
            * node.meta(7),
{
    value_laws::law_words_are_made_of_bytes(node.words[6]);
    value_laws::law_words_are_made_of_bytes(node.words[7]);
}

/// Something is left to visit just if a child whose box is crossed stands for
/// it.
pub proof fn law_crossed_children_are_visited(
    node: CwbvhNode,
    octant: u32,
    crossed: Seq<bool>,
    n: int,
    i: u32,
)
    requires
        0 <= n,
        i < 32,
    ensures
        bits::bit(mesh_nodes::hit_mask(node, octant, crossed, n), i) == exists|child: int|
            0 <= child < n && crossed[child] && #[trigger] bits::bit(
                mesh_nodes::child_mask(node.meta(child), octant),
                i,
            ),
    decreases n,
{
    if n == 0 {
        bits::law_zero_has_no_bits(0);
    } else {
        law_crossed_children_are_visited(node, octant, crossed, n - 1, i);
        value_laws::law_combined_words_have_the_bits_of_both(
            mesh_nodes::hit_mask(node, octant, crossed, n - 1),
            mesh_nodes::child_mask(node.meta(n - 1), octant),
            i,
        );
        if bits::bit(mesh_nodes::hit_mask(node, octant, crossed, n - 1), i) {
            let child = choose|child: int|
                0 <= child < n - 1 && crossed[child] && #[trigger] bits::bit(
                    mesh_nodes::child_mask(node.meta(child), octant),
                    i,
                );
            assert(bits::bit(mesh_nodes::child_mask(node.meta(child), octant), i));
        }
        if crossed[n - 1] && bits::bit(
            mesh_nodes::child_mask(node.meta(n - 1), octant),
            i,
        ) {
            assert(bits::bit(mesh_nodes::child_mask(node.meta(n - 1), octant), i));
        }
    }
}

/// A leaf stands for its primitives: those that its three highest bits name,
/// from the place that its lowest five bits are.
pub proof fn law_leaves_stand_for_primitives(primitives: u32, first: u32, octant: u32)
    requires
        primitives < 8,
        first < 24,
    ensures
        !mesh_nodes::is_inner((32 * primitives + first) as u32),
        mesh_nodes::child_mask((32 * primitives + first) as u32, octant) == primitives << first,
{
    assert({
        let meta = (32 * primitives + first) as u32;
        &&& meta & 0x18 != 0x18
        &&& (meta >> 5) & 7 == primitives
        &&& meta & 0x1f == first
    }) by (bit_vector)
        requires
            primitives < 8,
            first < 24,
    ;
}

// ---------------------------------------------------------------------------
// Traversal of a mesh

/// Taking one bit out of a group leaves its others and its first node.
pub proof fn law_taking_leaves_the_rest(group: NodeGroup, offset: u32, i: u32)
    requires
        offset < 32,
        i < 32,
    ensures
        mesh_traversal::without(group, offset).base == group.base,
        bits::bit(mesh_traversal::without(group, offset).mask, i) == (bits::bit(group.mask, i) && i
            != offset),
{
    bits::law_clearing_a_bit(group.mask, offset, i);
}

/// The inner child in a slot is as many nodes behind the first one as there are
/// inner children in the slots below.
pub proof fn law_children_lie_in_slot_order(group: NodeGroup, slot: u32, octant: u32)
    requires
        slot < 8,
        octant < 8,
        group.base + 8 <= u32::MAX,
    ensures
        mesh_traversal::child_index(
            group,
            mesh_nodes::first_bit((0x38 + slot) as u32, octant),
            octant,
        ) == group.base + bits::ones_below(group.mask, slot),
{
    mesh_nodes::law_inner_child_keeps_its_slot(slot, octant);
    value_laws::law_set_bits_are_counted(group.mask, slot);
}

/// What a node's boxes leave: its children among those that are crossed wait in
/// a group from its first child on, and its primitives from its first one on.
pub proof fn law_nodes_are_opened(model: BlasModel, node: CwbvhNode, crossed: Seq<bool>)
    ensures
        ({
            let opened = model.opened(node, crossed);
            let hits = mesh_nodes::hit_mask(node, model.octant, crossed, 8);
            &&& opened.current.base == node.words[4]
            &&& opened.primitives.base == node.words[5]
            &&& opened.current.mask == (hits & 0xff00_0000) | bits::byte_of(node.words[3], 3)
            &&& opened.primitives.mask == hits & 0x00ff_ffff
            &&& opened.stack == model.stack
            &&& opened.request == model.request
            &&& opened.node_tests == model.node_tests
            &&& opened.triangle_tests == model.triangle_tests
        }),
{
}

/// The node with the highest bit of the group is asked for next and counted; the
/// rest of the group waits behind what waits already.
pub proof fn law_next_node(model: BlasModel, node_count: nat)
    requires
        mesh_traversal::has_nodes(model.current),
        model.stack.len() < 32,
    ensures
        ({
            let after = model.pick_node(node_count);
            let high = bits::high_bit(model.current.mask);
            let index = mesh_traversal::child_index(model.current, high, model.octant);
            let rest = mesh_traversal::without(model.current, high);
            &&& index < node_count ==> {
                &&& after.request == BlasRequest::Node(index)
                &&& after.node_tests == model.node_tests.wrapping_add(1)
                &&& after.triangle_tests == model.triangle_tests
                &&& after.primitives == model.primitives
                &&& !mesh_traversal::has_nodes(after.current)
                &&& rest.mask >= 0x0100_0000 ==> after.stack == model.stack.push(rest)
                    && after.max_stack_depth >= after.stack.len() && after.max_stack_depth
                    >= model.max_stack_depth
                &&& rest.mask < 0x0100_0000 ==> after.stack == model.stack
                    && after.max_stack_depth == model.max_stack_depth
            }
            &&& index >= node_count ==> after.ended_otherwise()
                && after.request->Finished_0.status == QueryStatus::Failed
        }),
{
}

/// A group that no longer fits ends the query as failed.
pub proof fn law_full_stacks_fail(model: BlasModel, node_count: nat)
    requires
        mesh_traversal::has_nodes(
            mesh_traversal::without(model.current, bits::high_bit(model.current.mask)),
        ),
        model.stack.len() >= 32,
    ensures
        model.pick_node(node_count).request is Finished,
        model.pick_node(node_count).request->Finished_0.status == QueryStatus::Failed,
{
}

/// The primitive with the highest bit is asked for next and counted, under the
/// number that its slot holds; a slot or a number out of the mesh fails.
pub proof fn law_next_primitive(model: BlasModel, primitive_ids: Seq<u32>)
    requires
        model.primitives.mask != 0,
    ensures
        ({
            let after = model.pick_primitive(primitive_ids);
            let high = bits::high_bit(model.primitives.mask);
            let slot = model.primitives.base.wrapping_add(high);
            &&& slot < primitive_ids.len() && primitive_ids[slot as int] < primitive_ids.len() ==> {
                &&& after.request == BlasRequest::Triangle(primitive_ids[slot as int])
                &&& after.triangle_tests == model.triangle_tests.wrapping_add(1)
                &&& after.node_tests == model.node_tests
                &&& after.stack == model.stack
                &&& after.current == model.current
                &&& after.primitives == mesh_traversal::without(model.primitives, high)
            }
            &&& slot >= primitive_ids.len() || primitive_ids[slot as int] >= primitive_ids.len()
                ==> after.request is Finished && after.request->Finished_0.status
                == QueryStatus::Failed
        }),
{
}

/// Primitives come first, then the group at hand, then the group that waits
/// last; where nothing is left the segment is visible.
pub proof fn law_order_of_a_visit(model: BlasModel, node_count: nat, primitive_ids: Seq<u32>)
    ensures
        ({
            let after = model.next(node_count, primitive_ids);
            &&& model.primitives.mask != 0 ==> after == model.pick_primitive(primitive_ids)
            &&& model.primitives.mask == 0 && model.current.mask >= 0x0100_0000 ==> after
                == model.pick_node(node_count)
            &&& model.primitives.mask == 0 && model.current.mask < 0x0100_0000
                && model.stack.len() > 0 ==> after == (BlasModel {
                current: model.stack.last(),
                stack: model.stack.drop_last(),
                ..model
            }).pick_node(node_count)
            &&& model.primitives.mask == 0 && model.current.mask < 0x0100_0000
                && model.stack.len() == 0 ==> after.request is Finished
                && after.request->Finished_0.status == QueryStatus::Visible
                && after.request->Finished_0.primitive_id is None
        }),
{
}

/// A triangle that is hit at a finite place ends the query as occluded, with that
/// triangle, that place and the counts so far; any other place is no hit.
pub proof fn law_first_hit_ends_a_query(
    model: BlasModel,
    node_count: nat,
    primitive_ids: Seq<u32>,
    hit_t: u32,
)
    requires
        model.request is Triangle,
    ensures
        ({
            let after = model.tested(node_count, primitive_ids, hit_t);
            let finite = hit_t < 0x7f80_0000 || 0x8000_0000 <= hit_t < 0xff80_0000;
            &&& finite ==> after.request == BlasRequest::Finished(
                QueryResult {
                    status: QueryStatus::Occluded,
                    primitive_id: Some(model.request->Triangle_0),
                    hit_t,
                    node_tests: model.node_tests,
                    triangle_tests: model.triangle_tests,
                    max_stack_depth: model.max_stack_depth,
                },
            )
            &&& !finite ==> after == model.next(node_count, primitive_ids)
        }),
{
}

proof fn lemma_root_group_has_no_slots(n: u32)
    requires
        n <= 8,
    ensures
        bits::ones_below(0x8000_0000, n) == 0,
    decreases n,
{
    if n > 0 {
        let last = (n - 1) as u32;
        lemma_root_group_has_no_slots(last);
        assert((0x8000_0000u32 >> last) & 1 == 0) by (bit_vector)
            requires
                last < 8,
        ;
    }
}

/// A query of a segment that is not active is visible, one of a mesh without
/// nodes, primitives or triangles fails, and any other asks for the root.
pub proof fn law_queries_start_at_the_root(blas: Blas, active: bool, octant: u32)
    requires
        octant < 8,
    ensures
        ({
            let start = mesh_traversal::started(blas, active, octant);
            let there = blas.has_triangles && blas.nodes@.len() > 0 && blas.primitive_ids@.len()
                > 0;
            &&& start.octant == octant
            &&& start.triangle_tests == 0
            &&& start.stack.len() == 0
            &&& start.max_stack_depth == 0
            &&& !active ==> start.request is Finished && start.request->Finished_0.status
                == QueryStatus::Visible && start.node_tests == 0
            &&& active && !there ==> start.request is Finished && start.request->Finished_0.status
                == QueryStatus::Failed
            &&& active && there ==> start.request == BlasRequest::Node(0) && start.node_tests == 1
        }),
{
    let group = NodeGroup { base: 0, mask: 0x8000_0000 };
    bits::law_high_bit(0x8000_0000);
    assert(bits::high_bit(0x8000_0000) == 31) by {
        assert((0x8000_0000u32 >> 31u32) & 1 == 1) by (bit_vector);
        assert(bits::bit(0x8000_0000, 31));
    }
    let slot = 7u32 ^ octant;
    assert(7u32 ^ octant < 8 && (0x8000_0000u32 & !(1u32 << 31u32)) == 0) by (bit_vector)
        requires
            octant < 8,
    ;
    lemma_root_group_has_no_slots(slot);
    assert(mesh_traversal::child_index(group, 31, octant) == 0);
    assert(!mesh_traversal::has_nodes(mesh_traversal::without(group, 31)));
}

// ---------------------------------------------------------------------------
// Traversal of the world

/// A query of the world is visible where the segment is not active or there is
/// nothing, fails where the world is not in memory, and else asks for the root.
pub proof fn law_world_queries_start_at_the_root(world: ShadowWorld, active: bool)
    ensures
        ({
            let start = world_traversal::started(world, active);
            &&& start.blas_node_tests == 0
            &&& start.triangle_tests == 0
            &&& start.stack.len() == 0
            &&& !active || world.nodes@.len() == 0 ==> world_traversal::ended_visible(start)
            &&& active && world.nodes@.len() > 0 && !world.present ==> start.request is Finished
                && start.request->Finished_0.status == QueryStatus::Failed
            &&& active && world.nodes@.len() > 0 && world.present ==> start.request
                == WorldRequest::Node(0) && start.tlas_node_tests == 1 && start.max_stack_depth
                == 1
        }),
{
}

/// A box that is not crossed is left aside: the node that waits last comes next,
/// and where none waits the segment is visible.
pub proof fn law_missed_boxes_are_left_aside(
    world: ShadowWorld,
    model: WorldModel,
    node: ShadowTlasNode,
)
    ensures
        ({
            let after = model.box_tested(world, node, false);
            &&& model.stack.len() == 0 ==> world_traversal::ended_visible(after)
            &&& model.stack.len() > 0 && model.stack.last() < world.nodes@.len() ==> {
                &&& after.request == WorldRequest::Node(model.stack.last())
                &&& after.stack == model.stack.drop_last()
                &&& after.tlas_node_tests == model.tlas_node_tests.wrapping_add(1)
                &&& after.max_stack_depth == model.max_stack_depth
            }
            &&& model.stack.len() > 0 && model.stack.last() >= world.nodes@.len()
                ==> after.request is Finished && after.request->Finished_0.status
                == QueryStatus::Failed
            &&& after.blas_node_tests == model.blas_node_tests
            &&& after.triangle_tests == model.triangle_tests
        }),
{
}

/// A leaf whose box is crossed asks for its instance; a pair of children is
/// visited left first, with the right one waiting.
pub proof fn law_crossed_boxes_are_entered(
    world: ShadowWorld,
    model: WorldModel,
    node: ShadowTlasNode,
)
    ensures
        ({
            let after = model.box_tested(world, node, true);
            let left = node.child_or_instance;
            &&& node.leaf && left < world.instances@.len() ==> after.request
                == WorldRequest::Instance(left) && after.stack == model.stack
            &&& node.leaf && left >= world.instances@.len() ==> after.request is Finished
                && after.request->Finished_0.status == QueryStatus::Failed
            &&& !node.leaf && left + 1 < world.nodes@.len() && model.stack.len() + 2 <= 32 ==> {
                &&& after.request == WorldRequest::Node(left)
                &&& after.stack == model.stack.push((left + 1) as u32)
                &&& after.tlas_node_tests == model.tlas_node_tests.wrapping_add(1)
                &&& after.max_stack_depth >= model.stack.len() + 2
                &&& after.max_stack_depth >= model.max_stack_depth
            }
            &&& !node.leaf && (left + 1 >= world.nodes@.len() || model.stack.len() + 2 > 32)
                ==> after.request is Finished && after.request->Finished_0.status
                == QueryStatus::Failed
        }),
{
    if !node.leaf && node.child_or_instance + 1 < world.nodes@.len() && model.stack.len() + 2 <= 32 {
        let pushed = model.stack.push((node.child_or_instance + 1) as u32).push(
            node.child_or_instance,
        );
        assert(pushed.drop_last() =~= model.stack.push((node.child_or_instance + 1) as u32));
    }
}

/// An instance whose mesh is hit ends the query with that instance, its
/// primitive and the place; one that is not visible for another reason fails it;
/// a visible one leads on. The counts of the mesh's query are added.
pub proof fn law_instances_answer(
    world: ShadowWorld,
    model: WorldModel,
    instance: ShadowInstance,
    answer: Option<QueryResult>,
)
    requires
        answer matches Some(a) ==> model.blas_node_tests + a.node_tests <= u32::MAX
            && model.triangle_tests + a.triangle_tests <= u32::MAX,
    ensures
        ({
            let after = model.instance_tested(world, instance, answer);
            &&& answer is None ==> after.request is Finished && after.request->Finished_0.status
                == QueryStatus::Failed
            &&& answer matches Some(a) ==> {
                &&& after.blas_node_tests == model.blas_node_tests + a.node_tests
                &&& after.triangle_tests == model.triangle_tests + a.triangle_tests
                &&& after.max_stack_depth >= a.max_stack_depth
                &&& after.max_stack_depth >= model.max_stack_depth
                &&& a.status == QueryStatus::Failed ==> after.request is Finished
                    && after.request->Finished_0.status == QueryStatus::Failed
                &&& a.status == QueryStatus::Occluded ==> after.request is Finished && {
                    let result = after.request->Finished_0;
                    &&& result.status == QueryStatus::Occluded
                    &&& result.instance_id == Some(instance.instance_id)
                    &&& result.primitive_id == a.primitive_id
                    &&& result.hit_t == a.hit_t
                    &&& result.tlas_node_tests == model.tlas_node_tests
                    &&& result.blas_node_tests == after.blas_node_tests
                    &&& result.triangle_tests == after.triangle_tests
                }
                &&& a.status == QueryStatus::Visible && model.stack.len() == 0
                    ==> world_traversal::ended_visible(after)
                &&& a.status == QueryStatus::Visible && model.stack.len() > 0 && model.stack.last()
                    < world.nodes@.len() ==> after.request == WorldRequest::Node(model.stack.last())
                    && after.stack == model.stack.drop_last()
            }
        }),
{
}

/// Pairs are numbered from zero on: along a row, then row by row, then light by
/// light.
pub proof fn law_pairs_are_numbered_in_order(light: u32, x: u32, y: u32, width: u32, height: u32)
    requires
        light < u32::MAX,
        x < u32::MAX,
        y < u32::MAX,
    ensures
        world_traversal::pair_number(PairPlace { light: 0, x: 0, y: 0 }, width, height) == 0,
        world_traversal::pair_number(PairPlace { light, x: (x + 1) as u32, y }, width, height)
            == world_traversal::pair_number(PairPlace { light, x, y }, width, height) + 1,
        world_traversal::pair_number(PairPlace { light, x, y: (y + 1) as u32 }, width, height)
            == world_traversal::pair_number(PairPlace { light, x, y }, width, height) + width,
        world_traversal::pair_number(PairPlace { light: (light + 1) as u32, x, y }, width, height)
            == world_traversal::pair_number(PairPlace { light, x, y }, width, height) + width
            * height,
{
    assert((y + 1) * width == y * width + width) by (nonlinear_arith);
    assert((light + 1) * (width * height) == light * (width * height) + width * height)
        by (nonlinear_arith);
}

// ---------------------------------------------------------------------------
// Segments in the view

/// A segment that comes in through a plane starts no sooner than the crossing
/// and keeps its end; one that goes out ends no later and keeps its start; one
/// that stays on one side keeps both.
pub proof fn law_planes_cut_on_their_side(cut: PlaneCut, part: SegmentPart)
    requires
        !float_bits::is_nan(cut.crossing),
        !float_bits::is_nan(part.t0),
        !float_bits::is_nan(part.t1),
    ensures
        ({
            let left = cut.leaves(part);
            let start_out = float_bits::less(cut.start, 0);
            let end_out = float_bits::less(cut.end, 0);
            &&& start_out && !end_out ==> {
                &&& left.t1 == part.t1
                &&& left.t0 == part.t0 || left.t0 == cut.crossing
                &&& float_bits::at_most(part.t0, left.t0)
                &&& float_bits::at_most(cut.crossing, left.t0)
            }
            &&& !start_out && end_out ==> {
                &&& left.t0 == part.t0
                &&& left.t1 == part.t1 || left.t1 == cut.crossing
                &&& float_bits::at_most(left.t1, part.t1)
                &&& float_bits::at_most(left.t1, cut.crossing)
            }
            &&& start_out == end_out ==> left == part
            &&& cut.passes(part) == (!(start_out && end_out) && float_bits::at_most(
                left.t0,
                left.t1,
            ))
        }),
{
}

/// Clipping starts with the whole segment, and a further plane cuts what the
/// planes before it have left, if they have left anything.
pub proof fn law_planes_cut_in_turn(cuts: Seq<PlaneCut>, n: int)
    requires
        0 <= n,
    ensures
        segment_clip::part_after(cuts, 0) == (SegmentPart { t0: 0, t1: 0x3f80_0000 }),
        segment_clip::left_after(cuts, 0),
        segment_clip::left_after(cuts, n + 1) == (segment_clip::left_after(cuts, n)
            && cuts[n].passes(segment_clip::part_after(cuts, n))),
        segment_clip::left_after(cuts, n) ==> segment_clip::part_after(cuts, n + 1)
            == cuts[n].leaves(segment_clip::part_after(cuts, n)),
        !segment_clip::left_after(cuts, n) ==> segment_clip::part_after(cuts, n + 1)
            == segment_clip::part_after(cuts, n),
{
}

} // verus!
