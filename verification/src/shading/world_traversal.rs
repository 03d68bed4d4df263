//! Bounded any-hit traversal of a world of mesh instances.
//!
//! The traversal asks for one test at a time, of a node's box or of an
//! instance's mesh, and is told the outcome. Like the traversal of one mesh it
//! fails closed.

use vstd::prelude::*;

use crate::float_bits;
use crate::shading::local_shadow::ShadowState;
use crate::shading::mesh_traversal::{QueryResult, QueryStatus, NO_HIT, STACK_CAPACITY};

verus! {

/// A node over instances: two children that lie side by side, or one instance.
#[derive(Debug, Clone, Copy, PartialEq, Eq, Structural)]
pub struct ShadowTlasNode {
    pub leaf: bool,
    pub child_or_instance: u32,
}

/// A mesh in the world.
#[derive(Debug, Clone, Copy, PartialEq, Eq, Structural)]
pub struct ShadowInstance {
    pub instance_id: u32,
    pub blas_index: u32,
}

/// The hierarchy over all instances.
pub struct ShadowWorld {
    pub nodes: Vec<ShadowTlasNode>,
    pub instances: Vec<ShadowInstance>,
    /// Nodes, instances and meshes are in memory.
    pub present: bool,
}

/// The answer to a query.
#[derive(Debug, Clone, Copy, PartialEq, Eq, Structural)]
pub struct WorldResult {
    pub status: QueryStatus,
    /// The instance that was hit.
    pub instance_id: Option<u32>,
    /// Its primitive.
    pub primitive_id: Option<u32>,
    /// Where the segment was hit.
    pub hit_t: u32,
    pub tlas_node_tests: u32,
    pub blas_node_tests: u32,
    pub triangle_tests: u32,
    pub max_stack_depth: u32,
}

/// What the traversal asks for.
#[derive(Debug, Clone, Copy, PartialEq, Eq, Structural)]
pub enum WorldRequest {
    /// To test a node's box.
    Node(u32),
    /// To query an instance's mesh.
    Instance(u32),
    /// Nothing more: the query is answered.
    Finished(WorldResult),
}

/// A traversal under way.
pub struct WorldTraversal {
    pub stack: Vec<u32>,
    pub tlas_node_tests: u32,
    pub blas_node_tests: u32,
    pub triangle_tests: u32,
    pub max_stack_depth: u32,
    pub request: WorldRequest,
}

/// A traversal's state.
#[verifier::ext_equal]
pub struct WorldModel {
    pub stack: Seq<u32>,
    pub tlas_node_tests: u32,
    pub blas_node_tests: u32,
    pub triangle_tests: u32,
    pub max_stack_depth: u32,
    pub request: WorldRequest,
}

pub open spec fn max_of(a: int, b: int) -> int {
    if a < b {
        b
    } else {
        a
    }
}

impl WorldModel {
    /// The counts so far, with an outcome.
    pub open spec fn ended(
        self,
        status: QueryStatus,
        instance_id: Option<u32>,
        primitive_id: Option<u32>,
        hit_t: u32,
    ) -> WorldModel {
        WorldModel {
            request: WorldRequest::Finished(
                WorldResult {
                    status,
                    instance_id,
                    primitive_id,
                    hit_t,
                    tlas_node_tests: self.tlas_node_tests,
                    blas_node_tests: self.blas_node_tests,
                    triangle_tests: self.triangle_tests,
                    max_stack_depth: self.max_stack_depth,
                },
            ),
            ..self
        }
    }

    pub open spec fn failed(self) -> WorldModel {
        self.ended(QueryStatus::Failed, None, None, NO_HIT)
    }

    pub open spec fn visible(self) -> WorldModel {
        self.ended(QueryStatus::Visible, None, None, NO_HIT)
    }

    /// The node that waits last is asked for.
    pub open spec fn next(self, node_count: nat) -> WorldModel {
        if self.stack.len() == 0 {
            self.visible()
        } else {
            let popped = WorldModel { stack: self.stack.drop_last(), ..self };
            if self.stack.last() >= node_count {
                popped.failed()
            } else {
                WorldModel {
                    tlas_node_tests: self.tlas_node_tests.wrapping_add(1),
                    request: WorldRequest::Node(self.stack.last()),
                    ..popped
                }
            }
        }
    }

    /// A node's box was tested.
    pub open spec fn box_tested(self, world: ShadowWorld, node: ShadowTlasNode, crossed: bool) -> WorldModel {
        if !crossed {
            self.next(world.nodes@.len())
        } else if node.leaf {
            if node.child_or_instance >= world.instances@.len() {
                self.failed()
            } else {
                WorldModel { request: WorldRequest::Instance(node.child_or_instance), ..self }
            }
        } else if node.child_or_instance + 1 >= world.nodes@.len() || self.stack.len() + 2
            > STACK_CAPACITY {
            self.failed()
        } else {
            let stack = self.stack.push((node.child_or_instance + 1) as u32).push(
                node.child_or_instance,
            );
            (WorldModel {
                stack,
                max_stack_depth: max_of(self.max_stack_depth as int, stack.len() as int) as u32,
                ..self
            }).next(world.nodes@.len())
        }
    }

    /// The mesh of an instance was queried; `None` where the segment is not
    /// active in the instance's own space.
    pub open spec fn instance_tested(
        self,
        world: ShadowWorld,
        instance: ShadowInstance,
        answer: Option<QueryResult>,
    ) -> WorldModel {
        match answer {
            None => self.failed(),
            Some(answer) => {
                let counted = WorldModel {
                    blas_node_tests: self.blas_node_tests.wrapping_add(answer.node_tests),
                    triangle_tests: self.triangle_tests.wrapping_add(answer.triangle_tests),
                    max_stack_depth: max_of(
                        self.max_stack_depth as int,
                        answer.max_stack_depth as int,
                    ) as u32,
                    ..self
                };
                match answer.status {
                    QueryStatus::Failed => counted.failed(),
                    QueryStatus::Occluded => counted.ended(
                        QueryStatus::Occluded,
                        Some(instance.instance_id),
                        answer.primitive_id,
                        answer.hit_t,
                    ),
                    QueryStatus::Visible => counted.next(world.nodes@.len()),
                }
            },
        }
    }

    /// What every traversal keeps.
    pub open spec fn valid(self, world: ShadowWorld) -> bool {
        &&& world.nodes@.len() <= u32::MAX
        &&& self.stack.len() <= STACK_CAPACITY
        &&& self.stack.len() <= self.max_stack_depth
        &&& match self.request {
            WorldRequest::Node(index) => index < world.nodes@.len(),
            WorldRequest::Instance(index) => index < world.instances@.len(),
            WorldRequest::Finished(result) => result.status == QueryStatus::Visible
                ==> self.stack.len() == 0,
        }
    }
}

/// A traversal from the root.
pub open spec fn started(world: ShadowWorld, active: bool) -> WorldModel {
    let idle = WorldModel {
        stack: Seq::empty(),
        tlas_node_tests: 0,
        blas_node_tests: 0,
        triangle_tests: 0,
        max_stack_depth: 0,
        request: WorldRequest::Node(0),
    };
    if !active || world.nodes@.len() == 0 {
        idle.visible()
    } else if !world.present {
        idle.failed()
    } else {
        (WorldModel { stack: seq![0], max_stack_depth: 1, ..idle }).next(world.nodes@.len())
    }
}

impl View for WorldTraversal {
    type V = WorldModel;

    open spec fn view(&self) -> WorldModel {
        WorldModel {
            stack: self.stack@,
            tlas_node_tests: self.tlas_node_tests,
            blas_node_tests: self.blas_node_tests,
            triangle_tests: self.triangle_tests,
            max_stack_depth: self.max_stack_depth,
            request: self.request,
        }
    }
}

impl WorldTraversal {
    fn finish(
        &mut self,
        status: QueryStatus,
        instance_id: Option<u32>,
        primitive_id: Option<u32>,
        hit_t: u32,
    )
        ensures
            final(self)@ == old(self)@.ended(status, instance_id, primitive_id, hit_t),
    {
        self.request = WorldRequest::Finished(
            WorldResult {
                status,
                instance_id,
                primitive_id,
                hit_t,
                tlas_node_tests: self.tlas_node_tests,
                blas_node_tests: self.blas_node_tests,
                triangle_tests: self.triangle_tests,
                max_stack_depth: self.max_stack_depth,
            },
        );
    }

    fn fail(&mut self)
        ensures
            final(self)@ == old(self)@.failed(),
    {
        self.finish(QueryStatus::Failed, None, None, NO_HIT);
    }

    fn next(&mut self, node_count: usize)
        ensures
            final(self)@ == old(self)@.next(node_count as nat),
    {
        match self.stack.pop() {
            None => {
                assert(self@ =~= old(self)@);
                self.finish(QueryStatus::Visible, None, None, NO_HIT);
            },
            Some(index) => {
                if index as usize >= node_count {
                    self.fail();
                } else {
                    self.tlas_node_tests = self.tlas_node_tests.wrapping_add(1);
                    self.request = WorldRequest::Node(index);
                }
            },
        }
    }

    fn raise_depth(&mut self, depth: u32)
        ensures
            final(self)@ == (WorldModel {
                max_stack_depth: max_of(old(self)@.max_stack_depth as int, depth as int) as u32,
                ..old(self)@
            }),
    {
        if self.max_stack_depth < depth {
            self.max_stack_depth = depth;
        }
    }

    /// Tells whether the box of the node that was asked for is crossed.
    pub fn box_tested(&mut self, world: &ShadowWorld, crossed: bool)
        requires
            old(self)@.valid(*world),
            old(self)@.request is Node,
        ensures
            final(self)@.valid(*world),
            final(self)@ == old(self)@.box_tested(
                *world,
                world.nodes@[old(self)@.request->Node_0 as int],
                crossed,
            ),
    {
        if let WorldRequest::Node(index) = self.request {
            let node_count: usize = world.nodes.len();
            let node = world.nodes[index as usize];
            if !crossed {
                self.next(node_count);
            } else if node.leaf {
                if node.child_or_instance as usize >= world.instances.len() {
                    self.fail();
                } else {
                    self.request = WorldRequest::Instance(node.child_or_instance);
                }
            } else {
                let first: u32 = node.child_or_instance;
                if first as usize >= node_count - 1 || self.stack.len() > STACK_CAPACITY - 2 {
                    self.fail();
                } else {
                    self.stack.push(first + 1);
                    self.stack.push(first);
                    self.raise_depth(self.stack.len() as u32);
                    assert(self.stack@ =~= old(self)@.stack.push((first + 1) as u32).push(first));
                    self.next(node_count);
                }
            }
        }
    }

    /// Tells what the query of the instance that was asked for gave; `None`
    /// where the segment is not active in the instance's own space.
    pub fn instance_tested(&mut self, world: &ShadowWorld, answer: Option<QueryResult>)
        requires
            old(self)@.valid(*world),
            old(self)@.request is Instance,
        ensures
            final(self)@.valid(*world),
            final(self)@ == old(self)@.instance_tested(
                *world,
                world.instances@[old(self)@.request->Instance_0 as int],
                answer,
            ),
    {
        if let WorldRequest::Instance(index) = self.request {
            match answer {
                None => {
                    self.fail();
                },
                Some(answer) => {
                    self.blas_node_tests = self.blas_node_tests.wrapping_add(answer.node_tests);
                    self.triangle_tests = self.triangle_tests.wrapping_add(answer.triangle_tests);
                    self.raise_depth(answer.max_stack_depth);
                    match answer.status {
                        QueryStatus::Failed => {
                            self.fail();
                        },
                        QueryStatus::Occluded => {
                            self.finish(
                                QueryStatus::Occluded,
                                Some(world.instances[index as usize].instance_id),
                                answer.primitive_id,
                                answer.hit_t,
                            );
                        },
                        QueryStatus::Visible => {
                            self.next(world.nodes.len());
                        },
                    }
                },
            }
        }
    }
}

/// Starts an any-hit query of the world: a segment that is not active or a
/// world without nodes is visible, one that is not in memory fails, and
/// otherwise the root is asked for.
pub fn world_any_hit(world: &ShadowWorld, active: bool) -> (traversal: WorldTraversal)
    requires
        world.nodes@.len() <= u32::MAX,
    ensures
        traversal@.valid(*world),
        traversal@ == started(*world, active),
{
    let mut traversal = WorldTraversal {
        stack: Vec::new(),
        tlas_node_tests: 0,
        blas_node_tests: 0,
        triangle_tests: 0,
        max_stack_depth: 0,
        request: WorldRequest::Node(0),
    };
    if !active || world.nodes.len() == 0 {
        traversal.finish(QueryStatus::Visible, None, None, NO_HIT);
    } else if !world.present {
        traversal.fail();
    } else {
        traversal.stack.push(0);
        traversal.max_stack_depth = 1;
        assert(traversal.stack@ =~= seq![0u32]);
        traversal.next(world.nodes.len());
    }
    traversal
}

// ---------------------------------------------------------------------------
// What a visible answer means

/// What the traversal is told.
pub enum WorldReply {
    Box(bool),
    Instance(Option<QueryResult>),
}

/// The state after one reply.
pub open spec fn replied(world: ShadowWorld, model: WorldModel, reply: WorldReply) -> WorldModel {
    match (model.request, reply) {
        (WorldRequest::Node(index), WorldReply::Box(crossed)) => model.box_tested(
            world,
            world.nodes@[index as int],
            crossed,
        ),
        (WorldRequest::Instance(index), WorldReply::Instance(answer)) => model.instance_tested(
            world,
            world.instances@[index as int],
            answer,
        ),
        _ => model,
    }
}

/// The state after the first `n` replies.
pub open spec fn state_after(
    world: ShadowWorld,
    start: WorldModel,
    replies: Seq<WorldReply>,
    n: nat,
) -> WorldModel
    decreases n,
{
    if n == 0 {
        start
    } else {
        replied(world, state_after(world, start, replies, (n - 1) as nat), replies[n - 1])
    }
}

/// The query ended with the segment visible.
pub open spec fn ended_visible(model: WorldModel) -> bool {
    model.request is Finished && model.request->Finished_0.status == QueryStatus::Visible
}

proof fn lemma_states_valid(world: ShadowWorld, start: WorldModel, replies: Seq<WorldReply>, n: nat)
    requires
        start.valid(world),
    ensures
        state_after(world, start, replies, n).valid(world),
    decreases n,
{
    if n > 0 {
        lemma_states_valid(world, start, replies, (n - 1) as nat);
    }
}

proof fn lemma_finished_stays(
    world: ShadowWorld,
    start: WorldModel,
    replies: Seq<WorldReply>,
    k: nat,
    n: nat,
)
    requires
        k <= n,
        state_after(world, start, replies, k).request is Finished,
    ensures
        state_after(world, start, replies, n) == state_after(world, start, replies, k),
    decreases n - k,
{
    if k < n {
        lemma_finished_stays(world, start, replies, k, (n - 1) as nat);
    }
}

proof fn lemma_next_keeps(model: WorldModel, node_count: nat, index: u32)
    requires
        model.stack.contains(index),
    ensures
        ({
            let after = model.next(node_count);
            ||| after.stack.contains(index)
            ||| after.request == WorldRequest::Node(index)
            ||| after.request is Finished && !ended_visible(after)
        }),
{
    let i = choose|i: int| 0 <= i < model.stack.len() && model.stack[i] == index;
    if i < model.stack.len() - 1 {
        assert(model.stack.drop_last()[i] == index);
    }
}

proof fn lemma_step_keeps(world: ShadowWorld, model: WorldModel, reply: WorldReply, index: u32)
    requires
        model.stack.contains(index),
    ensures
        ({
            let after = replied(world, model, reply);
            ||| after.stack.contains(index)
            ||| after.request == WorldRequest::Node(index)
            ||| after.request is Finished && !ended_visible(after)
        }),
{
    let i = choose|i: int| 0 <= i < model.stack.len() && model.stack[i] == index;
    match (model.request, reply) {
        (WorldRequest::Node(at), WorldReply::Box(crossed)) => {
            let node = world.nodes@[at as int];
            let grown = model.stack.push((node.child_or_instance + 1) as u32).push(
                node.child_or_instance,
            );
            assert(grown[i] == index);
            lemma_next_keeps(model, world.nodes@.len(), index);
            lemma_next_keeps(
                WorldModel {
                    stack: grown,
                    max_stack_depth: max_of(
                        model.max_stack_depth as int,
                        grown.len() as int,
                    ) as u32,
                    ..model
                },
                world.nodes@.len(),
                index,
            );
        },
        (WorldRequest::Instance(at), WorldReply::Instance(Some(answer))) => {
            lemma_next_keeps(
                WorldModel {
                    blas_node_tests: model.blas_node_tests.wrapping_add(answer.node_tests),
                    triangle_tests: model.triangle_tests.wrapping_add(answer.triangle_tests),
                    max_stack_depth: max_of(
                        model.max_stack_depth as int,
                        answer.max_stack_depth as int,
                    ) as u32,
                    ..model
                },
                world.nodes@.len(),
                index,
            );
        },
        _ => {},
    }
}

/// Where a run calls the segment visible, every node that waited at some point
/// was asked for later on.
pub proof fn law_waiting_node_is_tested(
    world: ShadowWorld,
    start: WorldModel,
    replies: Seq<WorldReply>,
    k: nat,
    n: nat,
    index: u32,
)
    requires
        k <= n,
        start.valid(world),
        ended_visible(state_after(world, start, replies, n)),
        state_after(world, start, replies, k).stack.contains(index),
    ensures
        exists|j: nat|
            k < j < n && #[trigger] state_after(world, start, replies, j).request
                == WorldRequest::Node(index),
    decreases n - k,
{
    lemma_states_valid(world, start, replies, n);
    let here = state_after(world, start, replies, k);
    if here.request is Finished {
        lemma_finished_stays(world, start, replies, k, n);
    }
    if k < n {
        let after = state_after(world, start, replies, k + 1);
        lemma_step_keeps(world, here, replies[k as int], index);
        if after.request is Finished {
            lemma_finished_stays(world, start, replies, k + 1, n);
        }
        if after.request != WorldRequest::Node(index) {
            law_waiting_node_is_tested(world, start, replies, k + 1, n, index);
        } else {
            assert(k + 1 != n);
        }
    }
}

/// An instance whose mesh is hit or fails never leaves the segment visible.
pub proof fn law_one_blocker_is_enough(
    world: ShadowWorld,
    start: WorldModel,
    replies: Seq<WorldReply>,
    k: nat,
    n: nat,
    answer: Option<QueryResult>,
)
    requires
        k < n,
        state_after(world, start, replies, k).request is Instance,
        replies[k as int] == WorldReply::Instance(answer),
        answer is Some ==> answer->0.status != QueryStatus::Visible,
    ensures
        state_after(world, start, replies, n).request is Finished,
        !ended_visible(state_after(world, start, replies, n)),
{
    lemma_finished_stays(world, start, replies, k + 1, n);
}

/// Whether a reply finds the mesh of an instance visible.
pub open spec fn found_visible(reply: WorldReply) -> bool {
    reply matches WorldReply::Instance(Some(answer)) && answer.status == QueryStatus::Visible
}

proof fn lemma_instance_found_visible(
    world: ShadowWorld,
    start: WorldModel,
    replies: Seq<WorldReply>,
    k: nat,
    n: nat,
    index: u32,
)
    requires
        k <= n,
        ended_visible(state_after(world, start, replies, n)),
        state_after(world, start, replies, k).request == WorldRequest::Instance(index),
    ensures
        exists|j: nat|
            k <= j < n && #[trigger] state_after(world, start, replies, j).request
                == WorldRequest::Instance(index) && found_visible(replies[j as int]),
    decreases n - k,
{
    if k < n {
        match replies[k as int] {
            WorldReply::Instance(answer) => {
                if !found_visible(replies[k as int]) {
                    law_one_blocker_is_enough(world, start, replies, k, n, answer);
                }
            },
            WorldReply::Box(_) => {
                lemma_instance_found_visible(world, start, replies, k + 1, n, index);
            },
        }
    }
}

/// A segment is called visible only after both children of every inner node
/// whose box it crosses were tested, and after the mesh of every leaf whose box
/// it crosses was found visible.
pub proof fn law_visible_after_all_tests(
    world: ShadowWorld,
    start: WorldModel,
    replies: Seq<WorldReply>,
    k: nat,
    n: nat,
    at: u32,
)
    requires
        k < n,
        start.valid(world),
        ended_visible(state_after(world, start, replies, n)),
        state_after(world, start, replies, k).request == WorldRequest::Node(at),
        replies[k as int] == WorldReply::Box(true),
    ensures
        ({
            let node = world.nodes@[at as int];
            if node.leaf {
                exists|j: nat|
                    k < j < n && #[trigger] state_after(world, start, replies, j).request
                        == WorldRequest::Instance(node.child_or_instance) && found_visible(
                        replies[j as int],
                    )
            } else {
                &&& exists|j: nat|
                    k < j < n && #[trigger] state_after(world, start, replies, j).request
                        == WorldRequest::Node(node.child_or_instance)
                &&& exists|j: nat|
                    k < j < n && #[trigger] state_after(world, start, replies, j).request
                        == WorldRequest::Node((node.child_or_instance + 1) as u32)
            }
        }),
{
    let here = state_after(world, start, replies, k);
    let node = world.nodes@[at as int];
    let after = state_after(world, start, replies, k + 1);
    lemma_states_valid(world, start, replies, n);
    lemma_states_valid(world, start, replies, k);
    if after.request is Finished {
        lemma_finished_stays(world, start, replies, k + 1, n);
    }
    if node.leaf {
        lemma_instance_found_visible(world, start, replies, k + 1, n, node.child_or_instance);
    } else {
        let first = node.child_or_instance;
        let second = (first + 1) as u32;
        let grown = here.stack.push(second).push(first);
        assert(grown.drop_last() =~= here.stack.push(second));
        assert(after.request == WorldRequest::Node(first));
        assert(k + 1 != n);
        assert(after.stack[after.stack.len() - 1] == second);
        law_waiting_node_is_tested(world, start, replies, k + 1, n, second);
    }
}

// ---------------------------------------------------------------------------
// Light-surface pairs

/// A light and a pixel.
#[derive(Debug, Clone, Copy, PartialEq, Eq, Structural)]
pub struct PairPlace {
    pub light: u32,
    pub x: u32,
    pub y: u32,
}

/// The number of a pair: lights first, then rows.
pub open spec fn pair_number(place: PairPlace, width: u32, height: u32) -> int {
    place.light * (width * height) + place.y * width + place.x
}

/// Finds the light and the pixel of an invocation; none for those beyond the
/// last pair.
pub fn pair_place(index: u32, width: u32, height: u32, light_count: u32) -> (place: Option<PairPlace>)
    requires
        width * height * light_count <= u32::MAX,
        width * height <= u32::MAX,
    ensures
        place is Some <==> index < width * height * light_count,
        place matches Some(p) ==> p.light < light_count && p.x < width && p.y < height
            && pair_number(p, width, height) == index,
{
    let pixel_count: u32 = width * height;
    let pair_count: u32 = pixel_count * light_count;
    if index >= pair_count {
        return None;
    }
    proof {
        assert(pixel_count > 0 && light_count > 0) by (nonlinear_arith)
            requires
                pixel_count * light_count > 0,
                pixel_count >= 0,
                light_count >= 0,
        ;
        assert(width > 0) by (nonlinear_arith)
            requires
                width * height > 0,
                width >= 0,
        ;
    }
    let light: u32 = index / pixel_count;
    proof {
        assert(light < light_count && light * pixel_count <= index && index - light * pixel_count
            < pixel_count) by (nonlinear_arith)
            requires
                light == index / pixel_count,
                pixel_count > 0,
                index < pixel_count * light_count,
        ;
    }
    let pixel: u32 = index - light * pixel_count;
    let x: u32 = pixel % width;
    let y: u32 = pixel / width;
    proof {
        assert(x < width && y < height && y * width + x == pixel) by (nonlinear_arith)
            requires
                x == pixel % width,
                y == pixel / width,
                width > 0,
                pixel < width * height,
        ;
    }
    Some(PairPlace { light, x, y })
}

/// Two pairs never share a number.
pub proof fn law_pairs_have_their_own_number(a: PairPlace, b: PairPlace, width: u32, height: u32)
    requires
        a.x < width,
        b.x < width,
        a.y < height,
        b.y < height,
        pair_number(a, width, height) == pair_number(b, width, height),
    ensures
        a == b,
{
    let count = width * height;
    let left = a.y * width + a.x;
    let right = b.y * width + b.x;
    assert(0 <= left < count) by (nonlinear_arith)
        requires
            left == a.y * width + a.x,
            count == width * height,
            a.x < width,
            a.y < height,
            a.x >= 0,
            a.y >= 0,
    ;
    assert(0 <= right < count) by (nonlinear_arith)
        requires
            right == b.y * width + b.x,
            count == width * height,
            b.x < width,
            b.y < height,
            b.x >= 0,
            b.y >= 0,
    ;
    assert(a.light == b.light) by (nonlinear_arith)
        requires
            a.light * count + left == b.light * count + right,
            0 <= left < count,
            0 <= right < count,
    ;
    assert(a.y == b.y) by (nonlinear_arith)
        requires
            a.y * width + a.x == b.y * width + b.x,
            0 <= a.x < width,
            0 <= b.x < width,
    ;
}

/// What is known of a pair before it is traced.
#[derive(Debug, Clone, Copy, PartialEq, Eq, Structural)]
pub enum PairStart {
    /// Nothing is drawn there.
    Inactive,
    /// The light does not reach the surface.
    Visible,
    /// The way to the light has to be traced.
    Trace,
}

/// What a pair's surface and light say. `in_radius` and `segment_active` tell
/// whether the surface lies within the light's radius and whether anything is
/// left between them.
pub fn reconstruct_pair(
    marker: u32,
    depth: u32,
    intensity: u32,
    radius: u32,
    in_radius: bool,
    segment_active: bool,
) -> (start: PairStart)
    ensures
        start == PairStart::Inactive <==> float_bits::at_most(marker, 0) || float_bits::at_most(
            depth,
            0,
        ),
        start == PairStart::Trace <==> !float_bits::at_most(marker, 0) && !float_bits::at_most(
            depth,
            0,
        ) && !float_bits::at_most(intensity, 0) && !float_bits::at_most(radius, 0) && in_radius
            && segment_active,
{
    if float_bits::is_at_most(marker, 0) {
        return PairStart::Inactive;
    }
    if float_bits::is_at_most(depth, 0) {
        return PairStart::Inactive;
    }
    if float_bits::is_at_most(intensity, 0) || float_bits::is_at_most(radius, 0) {
        return PairStart::Visible;
    }
    if !in_radius {
        return PairStart::Visible;
    }
    if !segment_active {
        return PairStart::Visible;
    }
    PairStart::Trace
}

/// The state of a pair, given what its trace said where it was traced.
pub fn mesh_exact_shadow_mask(start: PairStart, traced: QueryStatus) -> (state: ShadowState)
    ensures
        state == match start {
            PairStart::Inactive => ShadowState::Inactive,
            PairStart::Visible => ShadowState::Visible,
            PairStart::Trace => match traced {
                QueryStatus::Occluded => ShadowState::Occluded,
                QueryStatus::Failed => ShadowState::Failed,
                QueryStatus::Visible => ShadowState::Visible,
            },
        },
{
    match start {
        PairStart::Inactive => ShadowState::Inactive,
        PairStart::Visible => ShadowState::Visible,
        PairStart::Trace => match traced {
            QueryStatus::Occluded => ShadowState::Occluded,
            QueryStatus::Failed => ShadowState::Failed,
            QueryStatus::Visible => ShadowState::Visible,
        },
    }
}

} // verus!
