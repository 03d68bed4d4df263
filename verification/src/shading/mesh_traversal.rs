//! Bounded any-hit traversal of one mesh.
//!
//! The traversal asks for one test at a time, of a node's boxes or of a
//! triangle, and is told the outcome. It keeps at most [`STACK_CAPACITY`] groups
//! of nodes for later and fails closed: whatever does not fit or points out of
//! the mesh ends the query as failed, never as visible.

use vstd::prelude::*;

use crate::bits;
use crate::float_bits;
use crate::shading::mesh_nodes;
use crate::shading::mesh_nodes::{Backwards, CwbvhNode};

verus! {

/// The groups that can wait.
pub const STACK_CAPACITY: usize = 32;

/// The bit pattern of infinity: the place of a hit that there is not.
pub const NO_HIT: u32 = 0x7f80_0000;

/// How a query ended.
#[derive(Debug, Clone, Copy, PartialEq, Eq, Structural)]
pub enum QueryStatus {
    Visible,
    Occluded,
    Failed,
}

/// The answer to a query.
#[derive(Debug, Clone, Copy, PartialEq, Eq, Structural)]
pub struct QueryResult {
    pub status: QueryStatus,
    /// The primitive that was hit.
    pub primitive_id: Option<u32>,
    /// Where the segment was hit.
    pub hit_t: u32,
    pub node_tests: u32,
    pub triangle_tests: u32,
    pub max_stack_depth: u32,
}

/// A mesh's hierarchy.
pub struct Blas {
    pub nodes: Vec<CwbvhNode>,
    pub primitive_ids: Vec<u32>,
    /// Positions and indices are in memory.
    pub has_triangles: bool,
}

/// Children of one node that wait for their visit: the high 8 bits of the mask
/// stand for them, the low 8 bits for all inner children of the node.
#[derive(Debug, Clone, Copy, PartialEq, Eq, Structural)]
pub struct NodeGroup {
    pub base: u32,
    pub mask: u32,
}

/// What the traversal asks for.
#[derive(Debug, Clone, Copy, PartialEq, Eq, Structural)]
pub enum BlasRequest {
    /// To test the boxes of a node's children.
    Node(u32),
    /// To test a triangle.
    Triangle(u32),
    /// Nothing more: the query is answered.
    Finished(QueryResult),
}

/// A traversal under way.
pub struct BlasTraversal {
    octants: u32,
    stack: Vec<NodeGroup>,
    current: NodeGroup,
    primitives: NodeGroup,
    node_tests: u32,
    triangle_tests: u32,
    max_stack_depth: u32,
    request: BlasRequest,
}

/// A traversal's state.
#[verifier::ext_equal]
pub struct BlasModel {
    pub octant: u32,
    pub stack: Seq<NodeGroup>,
    pub current: NodeGroup,
    pub primitives: NodeGroup,
    pub node_tests: u32,
    pub triangle_tests: u32,
    pub max_stack_depth: u32,
    pub request: BlasRequest,
}

/// No group.
#[verifier::allow_in_spec]
pub fn nothing() -> NodeGroup
    returns
        (NodeGroup { base: 0, mask: 0 }),
{
    NodeGroup { base: 0, mask: 0 }
}

/// Whether a group has nodes that wait.
pub open spec fn has_nodes(group: NodeGroup) -> bool {
    group.mask >= 0x0100_0000
}

/// The group without one of its bits.
pub open spec fn without(group: NodeGroup, offset: u32) -> NodeGroup {
    NodeGroup { base: group.base, mask: group.mask & !(1u32 << offset) }
}

/// The node that a bit of a group stands for: as many inner children lie before
/// it as its slot has set bits below it.
pub open spec fn child_index(group: NodeGroup, offset: u32, octant: u32) -> u32 {
    group.base.wrapping_add(bits::ones_below(group.mask, ((offset - 24) as u32) ^ octant))
}

impl BlasModel {
    /// The counts so far, with an outcome.
    pub open spec fn result(self, status: QueryStatus, primitive_id: Option<u32>, hit_t: u32) -> QueryResult {
        QueryResult {
            status,
            primitive_id,
            hit_t,
            node_tests: self.node_tests,
            triangle_tests: self.triangle_tests,
            max_stack_depth: self.max_stack_depth,
        }
    }

    pub open spec fn failed(self) -> BlasModel {
        BlasModel { request: BlasRequest::Finished(self.result(QueryStatus::Failed, None, NO_HIT)), ..self }
    }

    pub open spec fn visible(self) -> BlasModel {
        BlasModel { request: BlasRequest::Finished(self.result(QueryStatus::Visible, None, NO_HIT)), ..self }
    }

    /// The next node of the current group is asked for; the rest of the group
    /// waits.
    pub open spec fn pick_node(self, node_count: nat) -> BlasModel {
        let offset = bits::high_bit(self.current.mask);
        let rest = without(self.current, offset);
        let index = child_index(self.current, offset, self.octant);
        if has_nodes(rest) && self.stack.len() >= STACK_CAPACITY {
            self.failed()
        } else {
            let waiting = if has_nodes(rest) {
                BlasModel {
                    stack: self.stack.push(rest),
                    max_stack_depth: if self.max_stack_depth < self.stack.len() + 1 {
                        (self.stack.len() + 1) as u32
                    } else {
                        self.max_stack_depth
                    },
                    ..self
                }
            } else {
                self
            };
            if index >= node_count {
                waiting.failed()
            } else {
                BlasModel {
                    current: nothing(),
                    node_tests: self.node_tests.wrapping_add(1),
                    request: BlasRequest::Node(index),
                    ..waiting
                }
            }
        }
    }

    /// The next primitive is asked for.
    pub open spec fn pick_primitive(self, primitive_ids: Seq<u32>) -> BlasModel {
        let local = bits::high_bit(self.primitives.mask);
        let slot = self.primitives.base.wrapping_add(local);
        if slot >= primitive_ids.len() || primitive_ids[slot as int] >= primitive_ids.len() {
            self.failed()
        } else {
            BlasModel {
                primitives: without(self.primitives, local),
                triangle_tests: self.triangle_tests.wrapping_add(1),
                request: BlasRequest::Triangle(primitive_ids[slot as int]),
                ..self
            }
        }
    }

    /// Primitives come first, then the current group, then what waits.
    pub open spec fn next(self, node_count: nat, primitive_ids: Seq<u32>) -> BlasModel {
        if self.primitives.mask != 0 {
            self.pick_primitive(primitive_ids)
        } else if has_nodes(self.current) {
            self.pick_node(node_count)
        } else if self.stack.len() == 0 {
            self.visible()
        } else {
            (BlasModel {
                current: self.stack.last(),
                stack: self.stack.drop_last(),
                ..self
            }).pick_node(node_count)
        }
    }

    /// What a node's boxes leave to visit.
    pub open spec fn opened(self, node: CwbvhNode, crossed: Seq<bool>) -> BlasModel {
        let hits = mesh_nodes::hit_mask(node, self.octant, crossed, 8);
        BlasModel {
            current: NodeGroup {
                base: node.first_child(),
                mask: (hits & 0xff00_0000) | node.inner_slots(),
            },
            primitives: NodeGroup { base: node.first_primitive(), mask: hits & 0x00ff_ffff },
            ..self
        }
    }

    /// A triangle's test: a finite place is a hit and answers the query.
    pub open spec fn tested(self, node_count: nat, primitive_ids: Seq<u32>, hit_t: u32) -> BlasModel {
        if float_bits::magnitude(hit_t) < NO_HIT {
            BlasModel {
                request: BlasRequest::Finished(
                    self.result(QueryStatus::Occluded, Some(self.request->Triangle_0), hit_t),
                ),
                ..self
            }
        } else {
            self.next(node_count, primitive_ids)
        }
    }

    /// What every traversal keeps.
    pub open spec fn valid(self, node_count: nat, primitive_count: nat) -> bool {
        &&& self.octant < 8
        &&& self.stack.len() <= STACK_CAPACITY
        &&& self.stack.len() <= self.max_stack_depth <= STACK_CAPACITY
        &&& forall|i: int| 0 <= i < self.stack.len() ==> has_nodes(#[trigger] self.stack[i])
        &&& match self.request {
            BlasRequest::Node(index) => index < node_count && self.primitives.mask == 0
                && self.current == nothing(),
            BlasRequest::Triangle(id) => id < primitive_count,
            BlasRequest::Finished(result) => result.status == QueryStatus::Visible
                ==> self.stack.len() == 0 && self.primitives.mask == 0 && !has_nodes(self.current),
        }
    }
}

impl Blas {
    /// Whether there is anything to traverse.
    pub open spec fn usable(self) -> bool {
        self.has_triangles && self.nodes@.len() > 0 && self.primitive_ids@.len() > 0
    }
}

/// A traversal from the root.
pub open spec fn started(blas: Blas, active: bool, octant: u32) -> BlasModel {
    let idle = BlasModel {
        octant,
        stack: Seq::empty(),
        current: nothing(),
        primitives: nothing(),
        node_tests: 0,
        triangle_tests: 0,
        max_stack_depth: 0,
        request: BlasRequest::Node(0),
    };
    if !active {
        idle.visible()
    } else if !blas.usable() {
        idle.failed()
    } else {
        (BlasModel { current: NodeGroup { base: 0, mask: 0x8000_0000 }, ..idle }).pick_node(
            blas.nodes@.len(),
        )
    }
}

proof fn lemma_pick_node_valid(model: BlasModel, node_count: nat, primitive_count: nat)
    requires
        model.octant < 8,
        model.stack.len() <= STACK_CAPACITY,
        model.stack.len() <= model.max_stack_depth <= STACK_CAPACITY,
        forall|i: int| 0 <= i < model.stack.len() ==> has_nodes(#[trigger] model.stack[i]),
        model.primitives.mask == 0,
        has_nodes(model.current),
    ensures
        model.pick_node(node_count).valid(node_count, primitive_count),
{
}

proof fn lemma_next_valid(model: BlasModel, node_count: nat, primitive_ids: Seq<u32>)
    requires
        model.octant < 8,
        model.stack.len() <= STACK_CAPACITY,
        model.stack.len() <= model.max_stack_depth <= STACK_CAPACITY,
        forall|i: int| 0 <= i < model.stack.len() ==> has_nodes(#[trigger] model.stack[i]),
    ensures
        model.next(node_count, primitive_ids).valid(node_count, primitive_ids.len()),
{
    if model.primitives.mask != 0 {
    } else if has_nodes(model.current) {
        lemma_pick_node_valid(model, node_count, primitive_ids.len());
    } else if model.stack.len() > 0 {
        let popped = BlasModel {
            current: model.stack.last(),
            stack: model.stack.drop_last(),
            ..model
        };
        lemma_pick_node_valid(popped, node_count, primitive_ids.len());
    }
}

impl View for BlasTraversal {
    type V = BlasModel;

    closed spec fn view(&self) -> BlasModel {
        BlasModel {
            octant: self.octants % 256,
            stack: self.stack@,
            current: self.current,
            primitives: self.primitives,
            node_tests: self.node_tests,
            triangle_tests: self.triangle_tests,
            max_stack_depth: self.max_stack_depth,
            request: self.request,
        }
    }
}

impl BlasTraversal {
    /// The octants are one octant in each byte.
    pub closed spec fn inv(self) -> bool {
        self.octants % 256 < 8 && self.octants == (self.octants % 256) * 0x0101_0101
    }

    /// What is asked for.
    pub fn request(&self) -> (request: BlasRequest)
        ensures
            request == self@.request,
    {
        self.request
    }

    fn finish(&mut self, status: QueryStatus, primitive_id: Option<u32>, hit_t: u32)
        requires
            old(self).inv(),
        ensures
            final(self).inv(),
            final(self)@ == (BlasModel {
                request: BlasRequest::Finished(old(self)@.result(status, primitive_id, hit_t)),
                ..old(self)@
            }),
    {
        self.request = BlasRequest::Finished(
            QueryResult {
                status,
                primitive_id,
                hit_t,
                node_tests: self.node_tests,
                triangle_tests: self.triangle_tests,
                max_stack_depth: self.max_stack_depth,
            },
        );
    }

    fn pick_node(&mut self, node_count: usize)
        requires
            old(self).inv(),
            has_nodes(old(self)@.current),
            old(self)@.stack.len() <= STACK_CAPACITY,
        ensures
            final(self).inv(),
            final(self)@ == old(self)@.pick_node(node_count as nat),
    {
        let group = self.current;
        proof {
            bits::law_top_byte(group.mask);
        }
        let offset: u32 = bits::first_bit_high(group.mask);
        let rest = NodeGroup { base: group.base, mask: group.mask & !(1u32 << offset) };
        proof {
            bits::law_top_byte(rest.mask);
        }
        if rest.mask & 0xff00_0000 != 0 {
            if self.stack.len() >= STACK_CAPACITY {
                self.finish(QueryStatus::Failed, None, NO_HIT);
                return;
            }
            self.stack.push(rest);
            let depth: u32 = self.stack.len() as u32;
            if self.max_stack_depth < depth {
                self.max_stack_depth = depth;
            }
        }
        let octant: u32 = self.octants & 0xff;
        let octants: u32 = self.octants;
        let place: u32 = offset - 24;
        let slot: u32 = place ^ octant;
        proof {
            assert(octants & 0xff == octants % 256) by (bit_vector);
            assert(place ^ octant < 8) by (bit_vector)
                requires
                    place < 8,
                    octant < 8,
            ;
        }
        let index: u32 = group.base.wrapping_add(bits::count_ones_below(group.mask, slot));
        if index as usize >= node_count {
            self.finish(QueryStatus::Failed, None, NO_HIT);
            return;
        }
        self.current = nothing();
        self.node_tests = self.node_tests.wrapping_add(1);
        self.request = BlasRequest::Node(index);
    }

    fn pick_primitive(&mut self, primitive_ids: &Vec<u32>)
        requires
            old(self).inv(),
            old(self)@.primitives.mask != 0,
        ensures
            final(self).inv(),
            final(self)@ == old(self)@.pick_primitive(primitive_ids@),
    {
        let group = self.primitives;
        let local: u32 = bits::first_bit_high(group.mask);
        let slot: u32 = group.base.wrapping_add(local);
        let count: usize = primitive_ids.len();
        if slot as usize >= count {
            self.finish(QueryStatus::Failed, None, NO_HIT);
            return;
        }
        let id: u32 = primitive_ids[slot as usize];
        if id as usize >= count {
            self.finish(QueryStatus::Failed, None, NO_HIT);
            return;
        }
        self.primitives = NodeGroup { base: group.base, mask: group.mask & !(1u32 << local) };
        self.triangle_tests = self.triangle_tests.wrapping_add(1);
        self.request = BlasRequest::Triangle(id);
    }

    fn next(&mut self, blas: &Blas)
        requires
            old(self).inv(),
            old(self)@.stack.len() <= STACK_CAPACITY,
            forall|i: int|
                0 <= i < old(self)@.stack.len() ==> has_nodes(#[trigger] old(self)@.stack[i]),
        ensures
            final(self).inv(),
            final(self)@ == old(self)@.next(blas.nodes@.len(), blas.primitive_ids@),
    {
        proof {
            bits::law_top_byte(self.current.mask);
        }
        if self.primitives.mask != 0 {
            self.pick_primitive(&blas.primitive_ids);
        } else if self.current.mask & 0xff00_0000 != 0 {
            self.pick_node(blas.nodes.len());
        } else {
            match self.stack.pop() {
                None => {
                    assert(self@ =~= old(self)@);
                    self.finish(QueryStatus::Visible, None, NO_HIT);
                },
                Some(group) => {
                    assert(has_nodes(old(self)@.stack.last()));
                    self.current = group;
                    self.pick_node(blas.nodes.len());
                },
            }
        }
    }

    /// Tells which of the boxes of the node that was asked for are crossed.
    pub fn node_tested(&mut self, blas: &Blas, crossed: &[bool; 8])
        requires
            old(self).inv(),
            old(self)@.valid(blas.nodes@.len(), blas.primitive_ids@.len()),
            old(self)@.request is Node,
        ensures
            final(self).inv(),
            final(self)@.valid(blas.nodes@.len(), blas.primitive_ids@.len()),
            final(self)@ == old(self)@.opened(
                blas.nodes@[old(self)@.request->Node_0 as int],
                crossed@,
            ).next(blas.nodes@.len(), blas.primitive_ids@),
    {
        if let BlasRequest::Node(index) = self.request {
            let node = &blas.nodes[index as usize];
            let hits: u32 = mesh_nodes::node_intersect(node, self.octants, crossed);
            let inner: u32 = bits::extract_byte(node.words[3], 3);
            self.current = NodeGroup { base: node.words[4], mask: (hits & 0xff00_0000) | inner };
            self.primitives = NodeGroup { base: node.words[5], mask: hits & 0x00ff_ffff };
            proof {
                lemma_next_valid(self@, blas.nodes@.len(), blas.primitive_ids@);
            }
            self.next(blas);
        }
    }

    /// Tells where the segment meets the triangle that was asked for; a place
    /// that is not finite is no hit.
    pub fn triangle_tested(&mut self, blas: &Blas, hit_t: u32)
        requires
            old(self).inv(),
            old(self)@.valid(blas.nodes@.len(), blas.primitive_ids@.len()),
            old(self)@.request is Triangle,
        ensures
            final(self).inv(),
            final(self)@.valid(blas.nodes@.len(), blas.primitive_ids@.len()),
            final(self)@ == old(self)@.tested(blas.nodes@.len(), blas.primitive_ids@, hit_t),
    {
        if let BlasRequest::Triangle(id) = self.request {
            if float_bits::is_finite(hit_t) {
                self.finish(QueryStatus::Occluded, Some(id), hit_t);
            } else {
                proof {
                    lemma_next_valid(self@, blas.nodes@.len(), blas.primitive_ids@);
                }
                self.next(blas);
            }
        }
    }
}

/// Starts an any-hit query of a mesh: a segment that is not active is visible,
/// a mesh that is not there fails, and otherwise the root is asked for.
pub fn blas_any_hit(blas: &Blas, active: bool, backwards: Backwards) -> (traversal: BlasTraversal)
    ensures
        traversal.inv(),
        traversal@.valid(blas.nodes@.len(), blas.primitive_ids@.len()),
        traversal@ == started(*blas, active, mesh_nodes::octant(backwards)),
{
    let mut traversal = BlasTraversal {
        octants: mesh_nodes::ray_octant_inv4(backwards),
        stack: Vec::new(),
        current: nothing(),
        primitives: nothing(),
        node_tests: 0,
        triangle_tests: 0,
        max_stack_depth: 0,
        request: BlasRequest::Node(0),
    };
    if !active {
        traversal.finish(QueryStatus::Visible, None, NO_HIT);
    } else if !blas.has_triangles || blas.nodes.len() == 0 || blas.primitive_ids.len() == 0 {
        traversal.finish(QueryStatus::Failed, None, NO_HIT);
    } else {
        traversal.current = NodeGroup { base: 0, mask: 0x8000_0000 };
        proof {
            lemma_pick_node_valid(traversal@, blas.nodes@.len(), blas.primitive_ids@.len());
        }
        traversal.pick_node(blas.nodes.len());
    }
    traversal
}

// ---------------------------------------------------------------------------
// What a visible answer means

/// A node waits in a group.
pub open spec fn group_owes(group: NodeGroup, octant: u32, index: u32) -> bool {
    exists|offset: u32|
        24 <= offset < 32 && #[trigger] bits::bit(group.mask, offset) && child_index(
            group,
            offset,
            octant,
        ) == index
}

impl BlasModel {
    /// A node waits for its visit.
    pub open spec fn owes_node(self, index: u32) -> bool {
        group_owes(self.current, self.octant, index) || exists|i: int|
            0 <= i < self.stack.len() && group_owes(#[trigger] self.stack[i], self.octant, index)
    }

    /// The primitive in a slot waits for its test.
    pub open spec fn owes_primitive(self, slot: u32) -> bool {
        exists|local: u32|
            local < 32 && #[trigger] bits::bit(self.primitives.mask, local)
                && self.primitives.base.wrapping_add(local) == slot
    }

    /// The query ended without calling the segment visible.
    pub open spec fn ended_otherwise(self) -> bool {
        self.request is Finished && self.request->Finished_0.status != QueryStatus::Visible
    }
}

/// What the traversal is told.
pub enum BlasReply {
    Node(Seq<bool>),
    Triangle(u32),
}

/// The state after one reply.
pub open spec fn replied(blas: Blas, model: BlasModel, reply: BlasReply) -> BlasModel {
    match (model.request, reply) {
        (BlasRequest::Node(index), BlasReply::Node(crossed)) => model.opened(
            blas.nodes@[index as int],
            crossed,
        ).next(blas.nodes@.len(), blas.primitive_ids@),
        (BlasRequest::Triangle(_), BlasReply::Triangle(hit_t)) => model.tested(
            blas.nodes@.len(),
            blas.primitive_ids@,
            hit_t,
        ),
        _ => model,
    }
}

/// The state after the first `n` replies.
pub open spec fn state_after(blas: Blas, start: BlasModel, replies: Seq<BlasReply>, n: nat) -> BlasModel
    decreases n,
{
    if n == 0 {
        start
    } else {
        replied(blas, state_after(blas, start, replies, (n - 1) as nat), replies[n - 1])
    }
}

proof fn lemma_without_keeps_index(group: NodeGroup, offset: u32, cleared: u32, octant: u32)
    requires
        24 <= offset < 32,
        24 <= cleared < 32,
        octant < 8,
    ensures
        child_index(without(group, cleared), offset, octant) == child_index(group, offset, octant),
{
    let place = (offset - 24) as u32;
    assert(place ^ octant < 8) by (bit_vector)
        requires
            place < 8,
            octant < 8,
    ;
    lemma_without_keeps_ones(group.mask, cleared, place ^ octant);
}

proof fn lemma_without_keeps_ones(mask: u32, cleared: u32, n: u32)
    requires
        n <= 8,
        24 <= cleared < 32,
    ensures
        bits::ones_below(mask & !(1u32 << cleared), n) == bits::ones_below(mask, n),
    decreases n,
{
    if n > 0 {
        lemma_without_keeps_ones(mask, cleared, (n - 1) as u32);
        bits::law_clearing_a_bit(mask, cleared, (n - 1) as u32);
    }
}

/// A node that waits in a group is the one with the highest bit, or still waits
/// in the rest.
proof fn lemma_group_split(group: NodeGroup, octant: u32, index: u32)
    requires
        group_owes(group, octant, index),
        octant < 8,
    ensures
        has_nodes(group),
        ({
            let high = bits::high_bit(group.mask);
            ||| child_index(group, high, octant) == index
            ||| has_nodes(without(group, high)) && group_owes(without(group, high), octant, index)
        }),
{
    let offset = choose|offset: u32|
        24 <= offset < 32 && #[trigger] bits::bit(group.mask, offset) && child_index(
            group,
            offset,
            octant,
        ) == index;
    bits::law_top_byte(group.mask);
    bits::law_zero_has_no_bits(group.mask);
    bits::law_high_bit(group.mask);
    let high = bits::high_bit(group.mask);
    if offset != high {
        bits::law_clearing_a_bit(group.mask, high, offset);
        lemma_without_keeps_index(group, offset, high, octant);
        bits::law_top_byte(without(group, high).mask);
        assert(bits::bit(without(group, high).mask, offset));
    }
}

proof fn lemma_pick_node_loses_nothing(model: BlasModel, node_count: nat, index: u32)
    requires
        model.octant < 8,
        has_nodes(model.current),
        model.owes_node(index),
    ensures
        ({
            let after = model.pick_node(node_count);
            ||| after.owes_node(index)
            ||| after.request == BlasRequest::Node(index)
            ||| after.ended_otherwise()
        }),
{
    let after = model.pick_node(node_count);
    let high = bits::high_bit(model.current.mask);
    let rest = without(model.current, high);
    if !after.ended_otherwise() {
        if group_owes(model.current, model.octant, index) {
            lemma_group_split(model.current, model.octant, index);
            if child_index(model.current, high, model.octant) != index {
                assert(after.stack.last() == rest);
                assert(group_owes(after.stack[after.stack.len() - 1], after.octant, index));
            }
        } else {
            let i = choose|i: int|
                0 <= i < model.stack.len() && group_owes(
                    #[trigger] model.stack[i],
                    model.octant,
                    index,
                );
            assert(after.stack[i] == model.stack[i]);
        }
    }
}

/// Choosing what comes next loses no node.
pub proof fn law_next_loses_no_node(model: BlasModel, blas: Blas, index: u32)
    requires
        model.octant < 8,
        forall|i: int| 0 <= i < model.stack.len() ==> has_nodes(#[trigger] model.stack[i]),
        model.owes_node(index),
    ensures
        ({
            let after = model.next(blas.nodes@.len(), blas.primitive_ids@);
            ||| after.owes_node(index)
            ||| after.request == BlasRequest::Node(index)
            ||| after.ended_otherwise()
        }),
{
    let after = model.next(blas.nodes@.len(), blas.primitive_ids@);
    if model.primitives.mask != 0 {
        if !group_owes(model.current, model.octant, index) {
            let i = choose|i: int|
                0 <= i < model.stack.len() && group_owes(
                    #[trigger] model.stack[i],
                    model.octant,
                    index,
                );
            assert(after.stack[i] == model.stack[i]);
        }
    } else if has_nodes(model.current) {
        lemma_pick_node_loses_nothing(model, blas.nodes@.len(), index);
    } else {
        if group_owes(model.current, model.octant, index) {
            lemma_group_split(model.current, model.octant, index);
        }
        let i = choose|i: int|
            0 <= i < model.stack.len() && group_owes(
                #[trigger] model.stack[i],
                model.octant,
                index,
            );
        let popped = BlasModel {
            current: model.stack.last(),
            stack: model.stack.drop_last(),
            ..model
        };
        assert(has_nodes(model.stack.last()));
        if i < model.stack.len() - 1 {
            assert(popped.stack[i] == model.stack[i]);
        }
        lemma_pick_node_loses_nothing(popped, blas.nodes@.len(), index);
    }
}

/// Choosing what comes next loses no primitive.
pub proof fn law_next_loses_no_primitive(model: BlasModel, blas: Blas, slot: u32)
    requires
        model.owes_primitive(slot),
    ensures
        ({
            let after = model.next(blas.nodes@.len(), blas.primitive_ids@);
            ||| after.owes_primitive(slot)
            ||| slot < blas.primitive_ids@.len() && after.request == BlasRequest::Triangle(
                blas.primitive_ids@[slot as int],
            )
            ||| after.ended_otherwise()
        }),
{
    let after = model.next(blas.nodes@.len(), blas.primitive_ids@);
    let local = choose|local: u32|
        local < 32 && #[trigger] bits::bit(model.primitives.mask, local)
            && model.primitives.base.wrapping_add(local) == slot;
    bits::law_zero_has_no_bits(model.primitives.mask);
    bits::law_high_bit(model.primitives.mask);
    let high = bits::high_bit(model.primitives.mask);
    if local != high && !after.ended_otherwise() {
        bits::law_clearing_a_bit(model.primitives.mask, high, local);
        assert(bits::bit(after.primitives.mask, local));
    }
}

proof fn lemma_states_valid(blas: Blas, start: BlasModel, replies: Seq<BlasReply>, n: nat)
    requires
        start.valid(blas.nodes@.len(), blas.primitive_ids@.len()),
    ensures
        state_after(blas, start, replies, n).valid(blas.nodes@.len(), blas.primitive_ids@.len()),
    decreases n,
{
    if n > 0 {
        lemma_states_valid(blas, start, replies, (n - 1) as nat);
        let before = state_after(blas, start, replies, (n - 1) as nat);
        match (before.request, replies[n - 1]) {
            (BlasRequest::Node(index), BlasReply::Node(crossed)) => {
                lemma_next_valid(
                    before.opened(blas.nodes@[index as int], crossed),
                    blas.nodes@.len(),
                    blas.primitive_ids@,
                );
            },
            (BlasRequest::Triangle(_), BlasReply::Triangle(hit_t)) => {
                lemma_next_valid(before, blas.nodes@.len(), blas.primitive_ids@);
            },
            _ => {},
        }
    }
}

proof fn lemma_finished_stays(
    blas: Blas,
    start: BlasModel,
    replies: Seq<BlasReply>,
    k: nat,
    n: nat,
)
    requires
        k <= n,
        state_after(blas, start, replies, k).request is Finished,
    ensures
        state_after(blas, start, replies, n) == state_after(blas, start, replies, k),
    decreases n - k,
{
    if k < n {
        lemma_finished_stays(blas, start, replies, k, (n - 1) as nat);
    }
}

/// Nothing waits once a segment is called visible.
proof fn lemma_visible_owes_nothing(model: BlasModel, node_count: nat, primitive_count: nat, index: u32)
    requires
        model.valid(node_count, primitive_count),
        model.request is Finished,
        model.request->Finished_0.status == QueryStatus::Visible,
    ensures
        !model.owes_node(index),
        !model.owes_primitive(index),
{
    if group_owes(model.current, model.octant, index) {
        lemma_group_split(model.current, model.octant, index);
    }
    bits::law_zero_has_no_bits(model.primitives.mask);
}

/// Where a run calls the segment visible, every node that waited at some point
/// was asked for later on.
pub proof fn law_waiting_node_is_tested(
    blas: Blas,
    start: BlasModel,
    replies: Seq<BlasReply>,
    k: nat,
    n: nat,
    index: u32,
)
    requires
        k <= n,
        start.valid(blas.nodes@.len(), blas.primitive_ids@.len()),
        ({
            let end = state_after(blas, start, replies, n);
            end.request is Finished && end.request->Finished_0.status == QueryStatus::Visible
        }),
        state_after(blas, start, replies, k).owes_node(index),
    ensures
        exists|j: nat|
            k < j < n && #[trigger] state_after(blas, start, replies, j).request
                == BlasRequest::Node(index),
    decreases n - k,
{
    lemma_states_valid(blas, start, replies, n);
    lemma_states_valid(blas, start, replies, k);
    let here = state_after(blas, start, replies, k);
    if k == n {
        lemma_visible_owes_nothing(here, blas.nodes@.len(), blas.primitive_ids@.len(), index);
    } else {
        let after = state_after(blas, start, replies, k + 1);
        if here.request is Finished {
            lemma_finished_stays(blas, start, replies, k, n);
            lemma_visible_owes_nothing(here, blas.nodes@.len(), blas.primitive_ids@.len(), index);
        }
        lemma_step_keeps_node(blas, here, replies[k as int], index);
        if after.request is Finished {
            lemma_finished_stays(blas, start, replies, k + 1, n);
        }
        if after.request != BlasRequest::Node(index) {
            law_waiting_node_is_tested(blas, start, replies, k + 1, n, index);
        } else {
            if k + 1 == n {
                assert(false);
            }
        }
    }
}

proof fn lemma_step_keeps_node(blas: Blas, model: BlasModel, reply: BlasReply, index: u32)
    requires
        model.valid(blas.nodes@.len(), blas.primitive_ids@.len()),
        model.owes_node(index),
    ensures
        ({
            let after = replied(blas, model, reply);
            ||| after.owes_node(index)
            ||| after.request == BlasRequest::Node(index)
            ||| after.ended_otherwise()
        }),
{
    match (model.request, reply) {
        (BlasRequest::Node(at), BlasReply::Node(crossed)) => {
            let opened = model.opened(blas.nodes@[at as int], crossed);
            if group_owes(model.current, model.octant, index) {
                lemma_group_split(model.current, model.octant, index);
            }
            let i = choose|i: int|
                0 <= i < model.stack.len() && group_owes(
                    #[trigger] model.stack[i],
                    model.octant,
                    index,
                );
            assert(opened.stack[i] == model.stack[i]);
            law_next_loses_no_node(opened, blas, index);
        },
        (BlasRequest::Triangle(_), BlasReply::Triangle(hit_t)) => {
            law_next_loses_no_node(model, blas, index);
        },
        _ => {},
    }
}

/// Where a run calls the segment visible, every primitive that waited at some
/// point was asked for later on.
pub proof fn law_waiting_primitive_is_tested(
    blas: Blas,
    start: BlasModel,
    replies: Seq<BlasReply>,
    k: nat,
    n: nat,
    slot: u32,
)
    requires
        k <= n,
        start.valid(blas.nodes@.len(), blas.primitive_ids@.len()),
        ({
            let end = state_after(blas, start, replies, n);
            end.request is Finished && end.request->Finished_0.status == QueryStatus::Visible
        }),
        state_after(blas, start, replies, k).owes_primitive(slot),
    ensures
        slot < blas.primitive_ids@.len(),
        exists|j: nat|
            k < j < n && #[trigger] state_after(blas, start, replies, j).request
                == BlasRequest::Triangle(blas.primitive_ids@[slot as int]),
    decreases n - k,
{
    lemma_states_valid(blas, start, replies, n);
    lemma_states_valid(blas, start, replies, k);
    let here = state_after(blas, start, replies, k);
    if k == n {
        lemma_visible_owes_nothing(here, blas.nodes@.len(), blas.primitive_ids@.len(), slot);
    } else {
        let after = state_after(blas, start, replies, k + 1);
        if here.request is Finished {
            lemma_finished_stays(blas, start, replies, k, n);
            lemma_visible_owes_nothing(here, blas.nodes@.len(), blas.primitive_ids@.len(), slot);
        }
        match (here.request, replies[k as int]) {
            (BlasRequest::Node(_), _) => {
                bits::law_zero_has_no_bits(here.primitives.mask);
            },
            (BlasRequest::Triangle(_), BlasReply::Triangle(hit_t)) => {
                law_next_loses_no_primitive(here, blas, slot);
            },
            _ => {},
        }
        if after.request is Finished {
            lemma_finished_stays(blas, start, replies, k + 1, n);
        }
        if !(slot < blas.primitive_ids@.len() && after.request == BlasRequest::Triangle(
            blas.primitive_ids@[slot as int],
        )) {
            law_waiting_primitive_is_tested(blas, start, replies, k + 1, n, slot);
        } else {
            assert(k + 1 != n);
        }
    }
}

/// A segment is called visible only after everything that its tests left to
/// visit was tested: each child node whose bit was reported, and each primitive.
pub proof fn law_visible_after_all_tests(
    blas: Blas,
    start: BlasModel,
    replies: Seq<BlasReply>,
    k: nat,
    n: nat,
    crossed: Seq<bool>,
    at: u32,
    bit: u32,
)
    requires
        k < n,
        start.valid(blas.nodes@.len(), blas.primitive_ids@.len()),
        ({
            let end = state_after(blas, start, replies, n);
            end.request is Finished && end.request->Finished_0.status == QueryStatus::Visible
        }),
        state_after(blas, start, replies, k).request == BlasRequest::Node(at),
        replies[k as int] == BlasReply::Node(crossed),
        bit < 32,
        bits::bit(mesh_nodes::hit_mask(blas.nodes@[at as int], start.octant, crossed, 8), bit),
    ensures
        ({
            let opened = state_after(blas, start, replies, k).opened(
                blas.nodes@[at as int],
                crossed,
            );
            if bit >= 24 {
                exists|j: nat|
                    k < j < n && #[trigger] state_after(blas, start, replies, j).request
                        == BlasRequest::Node(child_index(opened.current, bit, start.octant))
            } else {
                let slot = blas.nodes@[at as int].first_primitive().wrapping_add(bit);
                slot < blas.primitive_ids@.len() && exists|j: nat|
                    k < j < n && #[trigger] state_after(blas, start, replies, j).request
                        == BlasRequest::Triangle(blas.primitive_ids@[slot as int])
            }
        }),
{
    let here = state_after(blas, start, replies, k);
    lemma_octant_stays(blas, start, replies, k);
    lemma_states_valid(blas, start, replies, k);
    lemma_states_valid(blas, start, replies, n);
    let node = blas.nodes@[at as int];
    let hits = mesh_nodes::hit_mask(node, start.octant, crossed, 8);
    let opened = here.opened(node, crossed);
    let after = state_after(blas, start, replies, k + 1);
    let inner = node.inner_slots();
    if bit >= 24 {
        assert((((hits & 0xff00_0000) | inner) >> bit) & 1 == 1) by (bit_vector)
            requires
                24 <= bit < 32,
                (hits >> bit) & 1 == 1,
        ;
        let index = child_index(opened.current, bit, start.octant);
        assert(bits::bit(opened.current.mask, bit));
        assert(opened.owes_node(index));
        law_next_loses_no_node(opened, blas, index);
        if after.request is Finished {
            lemma_finished_stays(blas, start, replies, k + 1, n);
        }
        if after.request != BlasRequest::Node(index) {
            law_waiting_node_is_tested(blas, start, replies, k + 1, n, index);
        }
    } else {
        assert(((hits & 0x00ff_ffff) >> bit) & 1 == 1) by (bit_vector)
            requires
                bit < 24,
                (hits >> bit) & 1 == 1,
        ;
        let slot = node.first_primitive().wrapping_add(bit);
        assert(bits::bit(opened.primitives.mask, bit));
        assert(opened.owes_primitive(slot));
        law_next_loses_no_primitive(opened, blas, slot);
        if after.request is Finished {
            lemma_finished_stays(blas, start, replies, k + 1, n);
        }
        if after.owes_primitive(slot) {
            law_waiting_primitive_is_tested(blas, start, replies, k + 1, n, slot);
        }
    }
}

proof fn lemma_octant_stays(blas: Blas, start: BlasModel, replies: Seq<BlasReply>, n: nat)
    ensures
        state_after(blas, start, replies, n).octant == start.octant,
    decreases n,
{
    if n > 0 {
        lemma_octant_stays(blas, start, replies, (n - 1) as nat);
    }
}

} // verus!
