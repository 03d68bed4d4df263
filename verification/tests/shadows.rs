//! Shadow traversal and reusable shadow answers.

use asha_ui::shading::local_light::{
    corner_of, depth_raymarch, exact_shadow_visibility, march_steps, mesh_local_light,
    overlay_color, slot_neighbor_visibility, slot_visibility_resolve, CornerAnswer, LightFrame,
    LightShare, LightSource, MarchStep, OverlayColor, SlotAnswers, SurfacePixel, Visibility,
};
use asha_ui::shading::local_shadow::{
    blur_fractions, blur_gather, blur_scan, check_depth, contact_answer, edge_promoted, enqueue_request,
    failed_slot, history_answer, local_shadow_args, local_shadow_blur, local_shadow_select,
    local_shadow_select_direct, local_shadow_trace, local_shadow_trace_direct,
    pick_representative, rank_lights, reproject, selection_changed, trace_answer,
    validate_occlusion, ContactProbe, CornerSample, HistoryProbe, Priority, ProjectedBlocker,
    Representative, Reprojection,
    RequestQueues, SelectInput, ShadowEvent, ShadowLimits, ShadowState, SlotField, SlotState,
    Texel, TraceOutcome, TraceStep,
};
use asha_ui::shading::mesh_nodes::{
    backwards_of, child_slab, node_intersect, ray_octant_inv4, safe_direction, Backwards,
    CwbvhNode,
};
use asha_ui::shading::mesh_traversal::{
    blas_any_hit, Blas, BlasRequest, QueryResult, QueryStatus, NO_HIT,
};
use asha_ui::shading::world_traversal::{
    mesh_exact_shadow_mask, pair_place, reconstruct_pair, world_any_hit, PairStart,
    ShadowInstance, ShadowTlasNode, ShadowWorld, WorldRequest,
};

fn b(v: f32) -> u32 {
    v.to_bits()
}

// ---------------------------------------------------------------------------
// Hierarchies

const FORWARD: Backwards = Backwards { x: false, y: false, z: false };

#[test]
fn directions_are_kept_off_zero() {
    assert_ne!(f32::from_bits(safe_direction(b(0.0))), 0.0);
    assert_eq!(safe_direction(b(0.5)), b(0.5));
    assert_eq!(backwards_of(b(-1.0), b(1.0), b(-0.0)), Backwards { x: true, y: false, z: false });
    assert_eq!(ray_octant_inv4(FORWARD), 0x0707_0707);
    assert_eq!(ray_octant_inv4(Backwards { x: true, y: false, z: true }), 0x0202_0202);
}

/// A node with one leaf of two primitives in slot 0 and an inner child in slot 1.
fn mixed_node() -> CwbvhNode {
    let mut words = [0; 20];
    words[3] = 0b10 << 24;
    words[4] = 1;
    words[5] = 0;
    // The leaf: two primitives from bit 0 on. The inner child: slot 24 + 1.
    let leaf = 0b011 << 5;
    let inner = (0b001 << 5) | (24 + 1);
    words[6] = leaf | (inner << 8);
    words[8] = 0x10;
    words[10] = 0x90;
    CwbvhNode { words }
}

/// A node with one leaf of one primitive.
fn leaf_node() -> CwbvhNode {
    let mut words = [0; 20];
    words[5] = 2;
    words[6] = 0b001 << 5;
    CwbvhNode { words }
}

#[test]
fn crossed_children_are_left_to_visit() {
    let node = mixed_node();
    let octants = ray_octant_inv4(FORWARD);
    let crossed = [true, true, false, false, false, false, false, false];
    assert_eq!(node_intersect(&node, octants, &crossed), 0b11 | (1 << (24 + (1 ^ 7))));
    assert_eq!(node_intersect(&node, octants, &[false; 8]), 0);
    assert_eq!(child_slab(&node, FORWARD, 0).near_x, 0x10);
    let turned = child_slab(&node, Backwards { x: true, y: false, z: false }, 0);
    assert_eq!((turned.near_x, turned.far_x), (0x90, 0x10));
}

fn blas() -> Blas {
    Blas {
        nodes: vec![mixed_node(), leaf_node()],
        primitive_ids: vec![2, 0, 1],
        has_triangles: true,
    }
}

/// Runs a query; every box is crossed, and the triangles hit where they are told to.
fn query(blas: &Blas, hits: &[u32]) -> (QueryResult, Vec<u32>) {
    let mut traversal = blas_any_hit(blas, true, FORWARD);
    let mut tested = vec![];
    loop {
        match traversal.request() {
            BlasRequest::Node(_) => {
                traversal.node_tested(blas, &[true, true, false, false, false, false, false, false])
            }
            BlasRequest::Triangle(triangle) => {
                tested.push(triangle);
                let t = if hits.contains(&triangle) { b(0.5) } else { NO_HIT };
                traversal.triangle_tested(blas, t);
            }
            BlasRequest::Finished(result) => return (result, tested),
        }
    }
}

#[test]
fn every_triangle_is_tested_before_a_segment_is_clear() {
    let (result, tested) = query(&blas(), &[]);
    assert_eq!(result.status, QueryStatus::Visible);
    assert_eq!((result.node_tests, result.triangle_tests), (2, 3));
    let mut sorted = tested;
    sorted.sort();
    assert_eq!(sorted, vec![0, 1, 2]);
}

#[test]
fn the_first_hit_answers() {
    let (result, _) = query(&blas(), &[1]);
    assert_eq!(result.status, QueryStatus::Occluded);
    assert_eq!(result.primitive_id, Some(1));
    assert_eq!(result.hit_t, b(0.5));
}

#[test]
fn broken_hierarchies_fail() {
    let mut broken = blas();
    broken.primitive_ids = vec![9];
    assert_eq!(query(&broken, &[]).0.status, QueryStatus::Failed);
    let mut missing = blas();
    missing.nodes.pop();
    assert_eq!(query(&missing, &[]).0.status, QueryStatus::Failed);
    let mut absent = blas();
    absent.has_triangles = false;
    assert_eq!(query(&absent, &[]).0.status, QueryStatus::Failed);
    match blas_any_hit(&blas(), false, FORWARD).request() {
        BlasRequest::Finished(result) => assert_eq!(result.status, QueryStatus::Visible),
        _ => panic!("nothing is tested along an inactive segment"),
    }
}

fn world() -> ShadowWorld {
    let node = |leaf, child_or_instance| ShadowTlasNode { leaf, child_or_instance };
    ShadowWorld {
        nodes: vec![node(false, 1), node(true, 0), node(true, 1)],
        instances: vec![
            ShadowInstance { instance_id: 70, blas_index: 0 },
            ShadowInstance { instance_id: 71, blas_index: 0 },
        ],
        present: true,
    }
}

fn answer(status: QueryStatus) -> QueryResult {
    QueryResult {
        status,
        primitive_id: Some(5),
        hit_t: b(0.25),
        node_tests: 2,
        triangle_tests: 3,
        max_stack_depth: 1,
    }
}

fn world_query(world: &ShadowWorld, answers: &[Option<QueryResult>]) -> (QueryStatus, Option<u32>) {
    let mut traversal = world_any_hit(world, true);
    loop {
        match traversal.request {
            WorldRequest::Node(_) => traversal.box_tested(world, true),
            WorldRequest::Instance(i) => traversal.instance_tested(world, answers[i as usize]),
            WorldRequest::Finished(result) => return (result.status, result.instance_id),
        }
    }
}

#[test]
fn worlds_ask_all_instances() {
    let clear = Some(answer(QueryStatus::Visible));
    let blocked = Some(answer(QueryStatus::Occluded));
    let failed = Some(answer(QueryStatus::Failed));
    assert_eq!(world_query(&world(), &[clear, clear]), (QueryStatus::Visible, None));
    assert_eq!(world_query(&world(), &[clear, blocked]), (QueryStatus::Occluded, Some(71)));
    assert_eq!(world_query(&world(), &[failed, blocked]).0, QueryStatus::Failed);
    assert_eq!(world_query(&world(), &[None, blocked]).0, QueryStatus::Failed);
    let mut absent = world();
    absent.present = false;
    assert_eq!(world_query(&absent, &[]).0, QueryStatus::Failed);
    let empty = ShadowWorld { nodes: vec![], instances: vec![], present: false };
    assert_eq!(world_query(&empty, &[]).0, QueryStatus::Visible);
}

#[test]
fn pairs_of_pixels_and_lights() {
    let place = pair_place(3 * 8 + 2 * 4 + 1, 4, 2, 5);
    assert!(place.is_none() || place.unwrap().light < 5);
    let place = pair_place(13, 4, 2, 5).unwrap();
    assert_eq!((place.light, place.y, place.x), (1, 1, 1));
    assert!(pair_place(40, 4, 2, 5).is_none());
    let start = |marker, depth, intensity, radius, near, active| {
        reconstruct_pair(b(marker), b(depth), b(intensity), b(radius), near, active)
    };
    assert_eq!(start(0.0, 0.5, 1.0, 1.0, true, true), PairStart::Inactive);
    assert_eq!(start(1.0, 0.0, 1.0, 1.0, true, true), PairStart::Inactive);
    assert_eq!(start(1.0, 0.5, 0.0, 1.0, true, true), PairStart::Visible);
    assert_eq!(start(1.0, 0.5, 1.0, 1.0, false, true), PairStart::Visible);
    assert_eq!(start(1.0, 0.5, 1.0, 1.0, true, false), PairStart::Visible);
    assert_eq!(start(1.0, 0.5, 1.0, 1.0, true, true), PairStart::Trace);
    assert_eq!(
        mesh_exact_shadow_mask(PairStart::Trace, QueryStatus::Occluded),
        ShadowState::Occluded
    );
    assert_eq!(
        mesh_exact_shadow_mask(PairStart::Visible, QueryStatus::Occluded),
        ShadowState::Visible
    );
}

// ---------------------------------------------------------------------------
// Reusable answers

fn limits() -> ShadowLimits {
    ShadowLimits {
        age_max: 100,
        refresh_interval: 8,
        occluded_refresh: 16,
        dynamic_leash: 4,
        fraction_one: 255,
    }
}

fn state(state: ShadowState, age: u32) -> SlotState {
    SlotState { state, blind: false, dynamic: false, age, hit_q: 0 }
}

const STILL: HistoryProbe =
    HistoryProbe { teleported: false, drifted: false, segment_active: true, validated: true };

#[test]
fn lights_are_ranked_by_score() {
    let scores = vec![b(1.0), b(3.0), b(0.0), b(3.0), b(2.0), b(f32::NAN)];
    assert_eq!(rank_lights(&scores, 3), vec![Some(1), Some(3), Some(4)]);
    assert_eq!(rank_lights(&vec![b(0.0), b(1.0)], 3), vec![Some(1), None, None]);
}

#[test]
fn selections_change_with_their_lights() {
    let remap = vec![Some(4), Some(5), None];
    let before = vec![Some(5), Some(4)];
    assert!(!selection_changed(&vec![Some(0), Some(1)], &before, &remap));
    assert!(selection_changed(&vec![Some(0), Some(2)], &before, &remap));
    assert!(selection_changed(&vec![Some(0), None], &before, &remap));
}

#[test]
fn representatives_show_a_surface() {
    let none = CornerSample { marker: b(0.0), depth: b(0.0) };
    let hit = CornerSample { marker: b(1.0), depth: b(0.5) };
    let rep = pick_representative(2, 3, 100, 100, &vec![none, none, hit, hit]);
    assert_eq!(rep, Some(Representative { x: 4, y: 7, depth: b(0.5) }));
    assert_eq!(pick_representative(2, 3, 100, 7, &vec![none, none, hit, hit]), None);
}

#[test]
fn history_is_reused_refreshed_or_dropped() {
    let visible = history_answer(Some(state(ShadowState::Visible, 3)), STILL, &limits());
    assert_eq!(visible.answered, Some(state(ShadowState::Visible, 4)));
    assert_eq!(visible.event, Some(ShadowEvent::Reused));
    let old = history_answer(Some(state(ShadowState::Visible, 7)), STILL, &limits());
    assert_eq!((old.answered, old.carried), (None, Some(state(ShadowState::Visible, 8))));
    let moved = HistoryProbe { teleported: true, ..STILL };
    let dropped = history_answer(Some(state(ShadowState::Visible, 3)), moved, &limits());
    assert_eq!(dropped.event, Some(ShadowEvent::Invalidated));
    assert_eq!((dropped.answered, dropped.carried), (None, None));
    let shadowed = history_answer(Some(state(ShadowState::Occluded, 3)), STILL, &limits());
    assert_eq!(shadowed.answered, Some(state(ShadowState::Occluded, 4)));
    let unseen = HistoryProbe { validated: false, ..STILL };
    let lost = history_answer(Some(state(ShadowState::Occluded, 3)), unseen, &limits());
    assert_eq!(lost.event, Some(ShadowEvent::Invalidated));
    let blind = SlotState { blind: true, dynamic: true, ..state(ShadowState::Occluded, 1) };
    let held = history_answer(Some(blind), unseen, &limits());
    assert_eq!(held.event, Some(ShadowEvent::Blind));
    let leashed = history_answer(Some(SlotState { age: 3, ..blind }), unseen, &limits());
    assert_eq!(leashed.event, Some(ShadowEvent::Invalidated));
    assert_eq!(history_answer(None, STILL, &limits()).event, Some(ShadowEvent::Invalidated));
}

#[test]
fn queues_have_room_for_so_many() {
    let mut queues = RequestQueues { capacity: 1, high: vec![], low: vec![], overflow: 0 };
    assert!(enqueue_request(&mut queues, 7, Priority::High));
    assert!(!enqueue_request(&mut queues, 8, Priority::High));
    assert!(enqueue_request(&mut queues, 9, Priority::Low));
    assert_eq!((queues.high, queues.low, queues.overflow), (vec![7], vec![9], 1));
    let dispatch = local_shadow_args(10, 10, 8, 12, 4);
    assert_eq!((dispatch.serviced_high, dispatch.serviced_low, dispatch.groups), (8, 4, 3));
    let all = local_shadow_args(3, 2, 8, 0, 4);
    assert_eq!((all.serviced_high, all.serviced_low, all.groups), (3, 2, 2));
}

fn field(width: usize, height: usize, states: &[ShadowState]) -> SlotField {
    SlotField {
        width,
        height,
        slots: 1,
        texels: states
            .iter()
            .map(|s| Texel {
                lights: vec![Some(6)],
                states: vec![SlotState { hit_q: 40, ..state(*s, 1) }],
            })
            .collect(),
    }
}

const V: ShadowState = ShadowState::Visible;
const O: ShadowState = ShadowState::Occluded;

#[test]
fn edges_have_both_answers_nearby() {
    let edge = field(4, 1, &[V, V, V, O]);
    assert!(!edge_promoted(&edge, 1, 0, 6));
    assert!(edge_promoted(&edge, 2, 0, 6));
    assert!(!edge_promoted(&edge, 2, 0, 5));
}

/// In the middle of the first texel, at the stored depth.
const SEEN: Reprojection = Reprojection {
    clip_w: 0x3f80_0000,
    x: 0xbf60_0000,
    y: 0,
    z: 0x3f00_0000,
    pixel_x: 1,
    pixel_y: 1,
    raw_distance: 0,
    raw_limit: 0x3a83_126f,
    linear_distance: 0x3f80_0000,
    linear_limit: 0,
};

#[test]
fn surfaces_are_found_in_the_frame_before() {
    let prev = field(4, 1, &[V, V, V, V]);
    let depths = vec![b(0.5), b(0.0), b(0.5), b(0.5)];
    let found = |at: Reprojection| reproject(&at, &prev, &depths);
    assert_eq!(found(SEEN), Some(0));
    assert_eq!(found(Reprojection { pixel_x: 5, ..SEEN }), Some(2));
    // Beyond the field the last texel counts; one without a depth never does.
    assert_eq!(found(Reprojection { pixel_x: 90, pixel_y: 90, ..SEEN }), Some(3));
    assert_eq!(found(Reprojection { pixel_x: 2, ..SEEN }), None);
    for lost in [
        Reprojection { clip_w: b(1.0e-6), ..SEEN },
        Reprojection { x: b(-1.5), ..SEEN },
        Reprojection { x: b(f32::NAN), ..SEEN },
        Reprojection { y: b(1.5), ..SEEN },
        Reprojection { z: b(0.0), ..SEEN },
        Reprojection { z: b(1.5), ..SEEN },
        Reprojection { raw_distance: b(0.1), ..SEEN },
    ] {
        assert_eq!(found(lost), None);
    }
    let near = Reprojection { raw_distance: b(0.1), linear_limit: b(2.0), ..SEEN };
    assert_eq!(found(near), Some(0));
}

fn select_input(lights: usize) -> SelectInput {
    let hit = CornerSample { marker: b(1.0), depth: b(0.5) };
    SelectInput {
        texel_x: 0,
        texel_y: 0,
        screen_width: 8,
        screen_height: 2,
        samples: vec![hit; 4],
        history_valid: true,
        edge_promotion: false,
        reprojection: SEEN,
        stored_depths: vec![b(0.5); 4],
        scores: vec![b(1.0); lights],
        remap: (0..lights).map(|i| Some(6 + i as u32)).collect(),
        probes: vec![STILL; lights],
        contacts: vec![None; lights],
    }
}

#[test]
fn texels_select_lights_and_reuse_answers() {
    let prev = field(4, 1, &[V, V, V, V]);
    let mut queues = RequestQueues { capacity: 4, high: vec![], low: vec![], overflow: 0 };
    let input = select_input(1);
    let out = local_shadow_select(&input, &prev, &limits(), &mut queues);
    assert_eq!(out.lights, vec![Some(0)]);
    assert_eq!(out.states, vec![SlotState { hit_q: 0, ..state(V, 2) }]);
    assert_eq!(out.fractions, vec![255]);
    assert_eq!(out.events, vec![ShadowEvent::Reused, ShadowEvent::Active]);
    assert!(queues.high.is_empty() && queues.low.is_empty());
}

#[test]
fn texels_without_history_are_traced() {
    let prev = field(4, 1, &[V, V, V, V]);
    let mut queues = RequestQueues { capacity: 4, high: vec![], low: vec![], overflow: 0 };
    let mut input = select_input(1);
    input.history_valid = false;
    input.texel_x = 1;
    let out = local_shadow_select(&input, &prev, &limits(), &mut queues);
    assert_eq!(out.states[0].state, V);
    assert_eq!(queues.high.len(), 1);
    // A march that hits answers at once.
    let mut near = select_input(1);
    near.history_valid = false;
    near.contacts = vec![Some(12)];
    let out = local_shadow_select(&near, &prev, &limits(), &mut queues);
    assert_eq!(out.states[0], SlotState { hit_q: 12, ..state(O, 0) });
    assert_eq!(out.fractions, vec![0]);
    assert_eq!(queues.high.len(), 1);
    // Without room the slot fails, fully lit.
    let mut full = RequestQueues { capacity: 0, high: vec![], low: vec![], overflow: 0 };
    let out = local_shadow_select(&input, &prev, &limits(), &mut full);
    assert_eq!(out.states[0].state, ShadowState::Failed);
    assert_eq!((out.fractions[0], full.overflow), (255, 1));
}

#[test]
fn no_interval_means_no_reuse() {
    let never = ShadowLimits { refresh_interval: 0, ..limits() };
    let mut input = select_input(1);
    input.edge_promotion = true;
    for prev in [field(4, 1, &[V, V, V, V]), field(4, 1, &[V, O, V, O]), field(4, 1, &[O, O, O, O])] {
        let mut queues = RequestQueues { capacity: 4, high: vec![], low: vec![], overflow: 0 };
        let out = local_shadow_select(&input, &prev, &never, &mut queues);
        assert_eq!(out.states, vec![state(V, 100)]);
        assert_eq!(out.events, vec![ShadowEvent::Active]);
        assert_eq!(queues.high, vec![0]);
    }
}

#[test]
fn invalid_history_is_not_reused() {
    let mut lost = select_input(1);
    lost.history_valid = false;
    lost.reprojection = Reprojection { clip_w: 0, ..SEEN };
    let mut seen = select_input(1);
    seen.history_valid = false;
    seen.edge_promotion = true;
    let written = |input: &SelectInput, prev: SlotField| {
        let mut queues = RequestQueues { capacity: 4, high: vec![], low: vec![], overflow: 0 };
        let out = local_shadow_select(input, &prev, &limits(), &mut queues);
        (out.states, out.fractions, out.events, queues.high)
    };
    let expected = (vec![state(V, 100)], vec![255], vec![ShadowEvent::Active], vec![0]);
    assert_eq!(written(&lost, field(4, 1, &[V, V, V, V])), expected);
    assert_eq!(written(&seen, field(4, 1, &[V, O, O, O])), expected);
}

#[test]
fn refuted_history_is_traced() {
    let unseen = HistoryProbe { validated: false, ..STILL };
    let jumped = HistoryProbe { teleported: true, ..STILL };
    for (prev, probe) in [(O, unseen), (V, jumped)] {
        let mut input = select_input(1);
        input.probes = vec![probe];
        let mut queues = RequestQueues { capacity: 4, high: vec![], low: vec![], overflow: 0 };
        let prev = field(4, 1, &[prev, prev, prev, prev]);
        let out = local_shadow_select(&input, &prev, &limits(), &mut queues);
        assert_eq!(out.events, vec![ShadowEvent::Invalidated, ShadowEvent::Active]);
        assert_eq!(queues.high, vec![0]);
        assert!(queues.low.is_empty());
    }
}

#[test]
fn promoted_slots_are_traced() {
    let mut input = select_input(1);
    input.edge_promotion = true;
    let mut queues = RequestQueues { capacity: 4, high: vec![], low: vec![], overflow: 0 };
    let out = local_shadow_select(&input, &field(4, 1, &[V, O, V, V]), &limits(), &mut queues);
    assert_eq!(out.events, vec![ShadowEvent::Promoted, ShadowEvent::Active]);
    assert_eq!(queues.high, vec![0]);
}

#[test]
fn texels_without_a_surface_are_blank() {
    let prev = field(4, 1, &[V, V, V, V]);
    let mut queues = RequestQueues { capacity: 4, high: vec![], low: vec![], overflow: 0 };
    let mut input = select_input(1);
    input.samples = vec![CornerSample { marker: 0, depth: 0 }; 4];
    let out = local_shadow_select(&input, &prev, &limits(), &mut queues);
    assert_eq!(out.representative, None);
    assert_eq!(out.lights, vec![None]);
    assert_eq!(out.states, vec![state(ShadowState::Inactive, 0)]);
}

#[test]
fn direct_selection_traces_every_light() {
    let mut queues = RequestQueues { capacity: 1, high: vec![], low: vec![], overflow: 0 };
    let hit = CornerSample { marker: b(1.0), depth: b(0.5) };
    let out = local_shadow_select_direct(
        0,
        0,
        8,
        8,
        &vec![hit; 4],
        &vec![b(1.0), b(2.0)],
        3,
        30,
        &limits(),
        &mut queues,
    );
    assert_eq!(out.lights, vec![Some(1), Some(0), None]);
    assert_eq!(out.written[0], None);
    assert_eq!(out.written[1], Some((state(ShadowState::Failed, 0), 255)));
    assert_eq!(out.written[2], Some((state(ShadowState::Inactive, 0), 255)));
    assert_eq!(queues.high, vec![30]);
}

#[test]
fn requests_are_served_in_order() {
    let field = field(2, 1, &[V, O]);
    let reps = vec![Some(Representative { x: 3, y: 4, depth: b(0.5) }), None];
    let queues = RequestQueues { capacity: 8, high: vec![0], low: vec![1, 9], overflow: 0 };
    let step = |thread| local_shadow_trace(thread, 1, 2, &queues, &field, &reps, 10);
    match step(0) {
        TraceStep::Trace { id, texel, light, x, y, .. } => {
            assert_eq!((id, texel, light, x, y), (0, 0, 6, 3, 4));
        }
        _ => panic!("the first request is traced"),
    }
    assert_eq!(step(1), TraceStep::Fail { id: 1 });
    assert_eq!(step(2), TraceStep::Overflow);
    assert_eq!(step(3), TraceStep::Idle);
    assert_eq!(check_depth(step(0), b(0.0)), TraceStep::Fail { id: 0 });
    assert_eq!(check_depth(step(0), b(0.5)), step(0));
    assert_eq!(local_shadow_trace_direct(1, 1, &queues, &field, &reps, 10), TraceStep::Idle);
    assert_eq!(
        local_shadow_trace_direct(0, 1, &queues, &field, &reps, 3),
        TraceStep::Fail { id: 0 }
    );
    assert_eq!(failed_slot(true, &limits()).0.state, ShadowState::Failed);
}

#[test]
fn traces_become_answers() {
    let written = |outcome, born| trace_answer(outcome, born, 5, 6, &limits());
    let blocked = TraceOutcome::Occluded { hit_q: 9, seen: false, dynamic: true };
    assert_eq!(
        written(blocked, true),
        (SlotState { state: O, blind: true, dynamic: true, age: 5, hit_q: 9 }, 0)
    );
    assert_eq!(written(TraceOutcome::Clear, true), (state(V, 6), 255));
    assert_eq!(written(TraceOutcome::Clear, false), (state(V, 0), 255));
    assert_eq!(written(TraceOutcome::Failed, true), (state(ShadowState::Failed, 0), 255));
    assert_eq!(written(TraceOutcome::Degenerate, true), (state(V, 0), 255));
}

#[test]
fn edges_are_blurred() {
    let edge = field(4, 1, &[V, V, O, O]);
    assert_eq!(blur_scan(&edge, 1, 0, 0), Some(40));
    assert_eq!(blur_scan(&field(4, 1, &[V, V, V, V]), 1, 0, 0), None);
    let (visible, all) = blur_gather(&edge, 1, 0, 6, &vec![true; 49], 1);
    // Three equal rows of weights 1, 1 and 1, the middle one raised by one.
    assert_eq!((visible, all), (7, 10));
    assert_eq!(local_shadow_blur(&edge, 1, 0, b(1.0), b(0.5)), vec![Some(40)]);
    assert_eq!(local_shadow_blur(&edge, 1, 0, b(0.0), b(0.5)), vec![]);
    let everywhere = vec![true; 49];
    let found = vec![Some(40)];
    assert_eq!(blur_fractions(&edge, 1, 0, &found, &vec![1], &everywhere), vec![Some((7, 10))]);
    assert_eq!(blur_fractions(&edge, 1, 0, &found, &vec![1], &vec![false; 49]), vec![None]);
    assert_eq!(blur_fractions(&edge, 1, 0, &vec![None], &vec![0], &everywhere), vec![None]);
    let lit = blur_gather(&field(4, 1, &[V, V, V, V]), 1, 0, 6, &everywhere, 2);
    assert_eq!(lit.0, lit.1);
    assert_eq!(blur_gather(&field(4, 1, &[O, O, O, O]), 1, 0, 6, &everywhere, 2).0, 0);
}

#[test]
fn blockers_are_validated_by_depth() {
    let blocker = ProjectedBlocker {
        clip_w: b(1.0),
        x: b(0.5),
        y: b(0.5),
        z: b(0.5),
        depth: b(0.5),
        near: b(0.4),
        far: b(0.6),
    };
    assert!(validate_occlusion(&blocker));
    assert!(!validate_occlusion(&ProjectedBlocker { clip_w: b(-1.0), ..blocker }));
    assert!(!validate_occlusion(&ProjectedBlocker { depth: b(0.0), ..blocker }));
}

#[test]
fn contacts_are_marched() {
    let probe = ContactProbe {
        linear_steps: 8,
        segment_active: true,
        span: b(1.0),
        t_min: b(0.1),
        reach: b(0.5),
        projected: true,
        hit: true,
        denominator: b(1.0),
        hit_q: 33,
    };
    assert_eq!(contact_answer(&probe), Some(SlotState { hit_q: 33, ..state(O, 0) }));
    assert_eq!(contact_answer(&ContactProbe { linear_steps: 0, ..probe }), None);
    assert_eq!(contact_answer(&ContactProbe { segment_active: false, ..probe }), None);
    assert_eq!(contact_answer(&ContactProbe { projected: false, ..probe }), None);
    assert_eq!(contact_answer(&ContactProbe { hit: false, ..probe }), None);
}

// ---------------------------------------------------------------------------
// Shading from the answers

#[test]
fn exact_answers_are_all_or_nothing() {
    let full = Visibility::Share { weighted: 255, weight: 1 };
    assert_eq!(exact_shadow_visibility(None, 255), full);
    assert_eq!(exact_shadow_visibility(Some(V), 255), full);
    assert_eq!(
        exact_shadow_visibility(Some(O), 255),
        Visibility::Share { weighted: 0, weight: 1 }
    );
    assert_eq!(exact_shadow_visibility(Some(ShadowState::Failed), 255), Visibility::Failed);
}

#[test]
fn half_resolution_answers_are_interpolated() {
    let weights: Vec<u32> = (0..4).map(|c| corner_of(5, 6, 10, 10, c).weight).collect();
    assert_eq!(weights.iter().sum::<u32>(), 16);
    assert_eq!(weights, vec![3, 1, 9, 3]);
    let own = corner_of(5, 6, 10, 10, 2);
    assert_eq!((own.x, own.y), (2, 3));
    let texel = Texel { lights: vec![None, Some(6)], states: vec![state(V, 0), state(O, 0)] };
    assert_eq!(slot_neighbor_visibility(&texel, &vec![9, 8], 6), Some(8));
    assert_eq!(slot_neighbor_visibility(&texel, &vec![9, 8], 5), None);
    let share = |weight, share, depth_matches| CornerAnswer { weight, share, depth_matches };
    let answers = [
        share(9, Some(255), true),
        share(3, Some(0), true),
        share(3, None, true),
        share(1, Some(255), false),
    ];
    assert_eq!(
        slot_visibility_resolve(Some(100), &answers, 255),
        Visibility::Share { weighted: 2295, weight: 12 }
    );
    assert_eq!(slot_visibility_resolve(None, &answers, 255), Visibility::Failed);
    let none = [share(9, None, true); 4];
    assert_eq!(
        slot_visibility_resolve(Some(100), &none, 255),
        Visibility::Share { weighted: 100, weight: 1 }
    );
}

fn surface(x: u32, y: u32) -> SurfacePixel {
    SurfacePixel { x, y, marker: b(1.0), depth: b(0.5), ramp_map: 0, ramp_sampler: 0 }
}

fn light_frame(source: LightSource) -> LightFrame {
    LightFrame {
        width: 4,
        height: 2,
        light_count: 3,
        fraction_one: 255,
        default_sampler: 7,
        debug_overlay: false,
        source,
    }
}

#[test]
fn pixels_ask_about_every_light() {
    let mut states = vec![V; 24];
    states[8 + 6] = O;
    states[16 + 6] = ShadowState::Failed;
    let frame = light_frame(LightSource::Exact(Some(states)));
    let far = [false; 4];
    let plan = mesh_local_light(&frame, surface(2, 1), &far).unwrap();
    assert_eq!(
        plan.lights,
        vec![
            LightShare { light: 0, weighted: 255, weight: 1 },
            LightShare { light: 1, weighted: 0, weight: 1 },
        ]
    );
    assert!(plan.failed);
    assert_eq!(plan.failure, [b(64.0), 0, b(64.0)]);
    let elsewhere = mesh_local_light(&frame, surface(1, 1), &far).unwrap();
    assert_eq!(elsewhere.lights.len(), 3);
    assert_eq!((elsewhere.failed, elsewhere.failure), (false, [0, 0, 0]));
    assert!(mesh_local_light(&frame, surface(4, 1), &far).is_none());
    assert!(mesh_local_light(&frame, surface(1, 2), &far).is_none());
    let bare = SurfacePixel { marker: b(0.0), ..surface(1, 1) };
    assert!(mesh_local_light(&frame, bare, &far).is_none());
    let cleared = SurfacePixel { depth: b(0.0), ..surface(1, 1) };
    assert!(mesh_local_light(&frame, cleared, &far).is_none());
}

#[test]
fn pixels_add_up_their_lights() {
    let texel = |lights: Vec<Option<u32>>, left, right| Texel {
        lights,
        states: vec![left, right],
    };
    let answers = SlotAnswers {
        field: SlotField {
            width: 2,
            height: 1,
            slots: 2,
            texels: vec![
                texel(vec![Some(2), Some(9)], state(V, 0), state(V, 0)),
                texel(vec![Some(0), Some(2)], state(ShadowState::Failed, 1), state(O, 1)),
            ],
        },
        fractions: vec![vec![255, 255], vec![0, 55]],
    };
    let mut frame = light_frame(LightSource::Slots(answers));
    // The first texel holds light 2 and one beyond the lights.
    let alone = mesh_local_light(&frame, surface(0, 0), &[false; 4]).unwrap();
    assert_eq!(alone.lights, vec![LightShare { light: 2, weighted: 255, weight: 1 }]);
    assert!(!alone.failed && alone.overlay.is_none() && alone.ramp_sampler.is_none());
    // At the inner edge, the other texel weighs one in four.
    let between = mesh_local_light(&frame, surface(1, 0), &[true; 4]).unwrap();
    assert_eq!(
        between.lights,
        vec![LightShare { light: 2, weighted: 12 * 255 + 4 * 55, weight: 16 }]
    );
    // The second texel has no answer about light 0.
    let ramped = SurfacePixel { ramp_map: 3, ..surface(3, 1) };
    frame.debug_overlay = true;
    let failed = mesh_local_light(&frame, ramped, &[false; 4]).unwrap();
    assert_eq!(failed.lights, vec![LightShare { light: 2, weighted: 55, weight: 1 }]);
    assert!(failed.failed);
    assert_eq!(failed.overlay, Some(OverlayColor::Blue));
    assert_eq!(failed.ramp_sampler, Some(7));
}

#[test]
fn overlays_tell_where_answers_come_from() {
    assert_eq!(overlay_color(&state(V, 0), 100), OverlayColor::Red);
    assert_eq!(overlay_color(&state(O, 1), 100), OverlayColor::Green);
    assert_eq!(overlay_color(&state(V, 100), 100), OverlayColor::Yellow);
    assert_eq!(overlay_color(&state(V, 1), 100), OverlayColor::Blue);
}

#[test]
fn marches_end_at_the_first_surface() {
    assert_eq!(march_steps(16, 5), 5);
    assert_eq!(march_steps(16, 1), 2);
    assert_eq!(march_steps(4, 9), 4);
    let step = |distance, penetration| MarchStep {
        distance: b(distance),
        penetration: b(penetration),
    };
    let steps = vec![step(0.5, 0.0), step(-0.1, 0.05), step(-0.1, 0.05)];
    assert_eq!(depth_raymarch(&steps, b(0.2), false), Some(1));
    let deep = vec![step(-0.5, 0.9), step(-0.1, 0.05)];
    assert_eq!(depth_raymarch(&deep, b(0.2), false), None);
    assert_eq!(depth_raymarch(&deep, b(0.2), true), Some(1));
    assert_eq!(depth_raymarch(&vec![], b(0.2), false), None);
}
