//! What local shadows promise: where neighbours lie, which edges are seen, what
//! history is worth, and what becomes of requests.

use vstd::prelude::*;

use crate::float_bits;
use crate::shading::local_shadow;
use crate::shading::local_shadow::{
    CornerSample, HistoryProbe, Priority, ProjectedBlocker, QueuesModel, Representative,
    Reprojection, SelectInput, ShadowEvent, ShadowLimits, ShadowState, SlotCase, SlotField,
    SlotPlan, SlotState, SlotsModel, Texel, TexelResult, TraceOutcome, TraceStep,
};

verus! {

// ---------------------------------------------------------------------------
// Slots and neighbours

/// The answer about a light is that of the first slot that holds it.
pub proof fn law_first_slot_answers(field: SlotField, t: int, light: u32, slot: int)
    requires
        0 <= slot < field.texels@[t].lights@.len(),
        field.texels@[t].lights@[slot] == Some(light),
        forall|s: int|
            0 <= s < slot ==> #[trigger] field.texels@[t].lights@[s] != Some(light),
    ensures
        local_shadow::slot_of(field.texels@[t].lights@, light) == Some(slot as nat),
        field.answer(t, light) == Some(field.texels@[t].states@[slot]),
{
    lemma_first_slot(field.texels@[t].lights@, light, slot);
}

/// There is no answer about a light that no slot holds.
pub proof fn law_missing_light_has_no_answer(field: SlotField, t: int, light: u32)
    requires
        forall|s: int|
            0 <= s < field.texels@[t].lights@.len() ==> #[trigger] field.texels@[t].lights@[s]
                != Some(light),
    ensures
        field.answer(t, light) is None,
{
    local_shadow::lemma_slot_of(field.texels@[t].lights@, light);
}

pub(crate) proof fn lemma_first_slot(lights: Seq<Option<u32>>, light: u32, n: int)
    requires
        0 <= n < lights.len(),
        lights[n] == Some(light),
        forall|i: int| 0 <= i < n ==> #[trigger] lights[i] != Some(light),
    ensures
        local_shadow::slot_of(lights, light) == Some(n as nat),
    decreases n,
{
    if n > 0 {
        assert forall|i: int| 0 <= i < n - 1 implies #[trigger] lights.skip(1)[i] != Some(light) by {
            assert(lights.skip(1)[i] == lights[i + 1]);
        }
        assert(lights[0] != Some(light));
        lemma_first_slot(lights.skip(1), light, n - 1);
    }
}

/// A neighbour within the field lies as many columns and rows away as asked for.
pub proof fn law_neighbours_lie_beside(field: SlotField, x: int, y: int, dx: int, dy: int)
    requires
        0 <= x + dx < field.width,
        0 <= y + dy < field.height,
    ensures
        local_shadow::neighbor(field, x, y, dx, dy) == (y + dy) * field.width + (x + dx),
{
}

/// Beyond the border of the field, its outermost column or row stands in.
pub proof fn law_border_stands_in(field: SlotField, x: int, y: int, dx: int, dy: int)
    requires
        0 <= x < field.width,
        0 <= y < field.height,
    ensures
        x + dx < 0 ==> local_shadow::neighbor(field, x, y, dx, dy) == local_shadow::neighbor(
            field,
            0,
            y,
            0,
            dy,
        ),
        x + dx >= field.width ==> local_shadow::neighbor(field, x, y, dx, dy)
            == local_shadow::neighbor(field, field.width - 1, y, 0, dy),
        y + dy < 0 ==> local_shadow::neighbor(field, x, y, dx, dy) == local_shadow::neighbor(
            field,
            x,
            0,
            dx,
            0,
        ),
        y + dy >= field.height ==> local_shadow::neighbor(field, x, y, dx, dy)
            == local_shadow::neighbor(field, x, field.height - 1, dx, 0),
{
}

/// Whether a texel of the field at most one column and one row away has an
/// answer of the given kind.
pub open spec fn touches(field: SlotField, x: int, y: int, light: u32, state: ShadowState) -> bool {
    exists|nx: int, ny: int|
        x - 1 <= nx <= x + 1 && y - 1 <= ny <= y + 1 && 0 <= nx < field.width && 0 <= ny
            < field.height && #[trigger] local_shadow::answers(
            field,
            ny * field.width + nx,
            light,
            state,
        )
}

/// A texel is promoted just if, among itself and the texels that touch it in
/// any direction, one sees the light and one does not.
pub proof fn law_edges_are_promoted(field: SlotField, x: int, y: int, light: u32, state: ShadowState)
    requires
        0 <= x < field.width,
        0 <= y < field.height,
    ensures
        local_shadow::ring_has(field, x, y, light, state, 9) == touches(field, x, y, light, state),
{
    if local_shadow::ring_has(field, x, y, light, state, 9) {
        let k = choose|k: int|
            0 <= k < 9 && #[trigger] local_shadow::answers(
                field,
                local_shadow::neighbor(
                    field,
                    x,
                    y,
                    local_shadow::ring_dx(k),
                    local_shadow::ring_dy(k),
                ),
                light,
                state,
            );
        let nx = local_shadow::moved(x, local_shadow::ring_dx(k), field.width as int);
        let ny = local_shadow::moved(y, local_shadow::ring_dy(k), field.height as int);
        assert(local_shadow::answers(field, ny * field.width + nx, light, state));
    }
    if touches(field, x, y, light, state) {
        let (nx, ny) = choose|nx: int, ny: int|
            x - 1 <= nx <= x + 1 && y - 1 <= ny <= y + 1 && 0 <= nx < field.width && 0 <= ny
                < field.height && #[trigger] local_shadow::answers(
                field,
                ny * field.width + nx,
                light,
                state,
            );
        let k = (ny - y + 1) * 3 + (nx - x + 1);
        assert(local_shadow::ring_dx(k) == nx - x);
        assert(local_shadow::ring_dy(k) == ny - y);
        law_neighbours_lie_beside(field, x, y, nx - x, ny - y);
        assert(local_shadow::answers(
            field,
            local_shadow::neighbor(
                field,
                x,
                y,
                local_shadow::ring_dx(k),
                local_shadow::ring_dy(k),
            ),
            light,
            state,
        ));
    }
}

/// Where two texels that touch, one beside, above or across from the other, see
/// a light differently, both are promoted, and reconstruction finds an edge at
/// both.
pub proof fn law_neighbours_that_differ_make_an_edge(
    field: SlotField,
    x: int,
    y: int,
    nx: int,
    ny: int,
    light: u32,
    slot: int,
)
    requires
        0 <= x < field.width,
        0 <= y < field.height,
        0 <= nx < field.width,
        0 <= ny < field.height,
        -1 <= nx - x <= 1,
        -1 <= ny - y <= 1,
        local_shadow::answers(field, y * field.width + x, light, ShadowState::Visible),
        local_shadow::answers(field, ny * field.width + nx, light, ShadowState::Occluded),
    ensures
        local_shadow::ring_has(field, x, y, light, ShadowState::Visible, 9),
        local_shadow::ring_has(field, x, y, light, ShadowState::Occluded, 9),
        local_shadow::ring_has(field, nx, ny, light, ShadowState::Visible, 9),
        local_shadow::ring_has(field, nx, ny, light, ShadowState::Occluded, 9),
        field.texels@[y * field.width + x].lights@[slot] == Some(light)
            && field.texels@[y * field.width + x].states@[slot].state == ShadowState::Visible
            ==> local_shadow::is_mixed(field, x, y, slot),
        field.texels@[ny * field.width + nx].lights@[slot] == Some(light)
            && field.texels@[ny * field.width + nx].states@[slot].state == ShadowState::Occluded
            ==> local_shadow::is_mixed(field, nx, ny, slot),
{
    law_edges_are_promoted(field, x, y, light, ShadowState::Visible);
    law_edges_are_promoted(field, x, y, light, ShadowState::Occluded);
    law_edges_are_promoted(field, nx, ny, light, ShadowState::Visible);
    law_edges_are_promoted(field, nx, ny, light, ShadowState::Occluded);
    lemma_ring_is_probed(field, x, y, light, ShadowState::Visible);
    lemma_ring_is_probed(field, x, y, light, ShadowState::Occluded);
    lemma_ring_is_probed(field, nx, ny, light, ShadowState::Visible);
    lemma_ring_is_probed(field, nx, ny, light, ShadowState::Occluded);
}

proof fn lemma_ring_is_probed(field: SlotField, x: int, y: int, light: u32, state: ShadowState)
    ensures
        local_shadow::ring_has(field, x, y, light, state, 9) ==> local_shadow::probes_have(
            field,
            x,
            y,
            light,
            state,
            17,
        ),
{
    if local_shadow::ring_has(field, x, y, light, state, 9) {
        let k = choose|k: int|
            0 <= k < 9 && #[trigger] local_shadow::answers(
                field,
                local_shadow::neighbor(
                    field,
                    x,
                    y,
                    local_shadow::ring_dx(k),
                    local_shadow::ring_dy(k),
                ),
                light,
                state,
            );
        assert(local_shadow::answers(
            field,
            local_shadow::neighbor(
                field,
                x,
                y,
                local_shadow::probe_offset(k).0,
                local_shadow::probe_offset(k).1,
            ),
            light,
            state,
        ));
    }
}

/// Whether reconstruction looks at an offset: at the next texels in every
/// direction, and at those three away.
pub open spec fn is_probed(dx: int, dy: int) -> bool {
    (-1 <= dx <= 1 && -1 <= dy <= 1) || ((dx == -3 || dx == 0 || dx == 3) && (dy == -3 || dy == 0
        || dy == 3))
}

/// Reconstruction looks at the next texels and at those three away, in every
/// direction, and nowhere else.
pub proof fn law_probes_look_in_every_direction(
    field: SlotField,
    x: int,
    y: int,
    light: u32,
    state: ShadowState,
)
    ensures
        local_shadow::probes_have(field, x, y, light, state, 17) == exists|dx: int, dy: int|
            is_probed(dx, dy) && #[trigger] local_shadow::answers(
                field,
                local_shadow::neighbor(field, x, y, dx, dy),
                light,
                state,
            ),
{
    if local_shadow::probes_have(field, x, y, light, state, 17) {
        let k = choose|k: int|
            0 <= k < 17 && #[trigger] local_shadow::answers(
                field,
                local_shadow::neighbor(
                    field,
                    x,
                    y,
                    local_shadow::probe_offset(k).0,
                    local_shadow::probe_offset(k).1,
                ),
                light,
                state,
            );
        assert(is_probed(local_shadow::probe_offset(k).0, local_shadow::probe_offset(k).1));
    }
    if exists|dx: int, dy: int|
        is_probed(dx, dy) && #[trigger] local_shadow::answers(
            field,
            local_shadow::neighbor(field, x, y, dx, dy),
            light,
            state,
        ) {
        let (dx, dy) = choose|dx: int, dy: int|
            is_probed(dx, dy) && #[trigger] local_shadow::answers(
                field,
                local_shadow::neighbor(field, x, y, dx, dy),
                light,
                state,
            );
        let k: int = if -1 <= dx <= 1 && -1 <= dy <= 1 {
            (dy + 1) * 3 + dx + 1
        } else if dy == -3 {
            if dx == -3 {
                9int
            } else if dx == 0 {
                10int
            } else {
                11int
            }
        } else if dy == 0 {
            if dx == -3 {
                12int
            } else {
                13int
            }
        } else if dx == -3 {
            14int
        } else if dx == 0 {
            15int
        } else {
            16int
        };
        assert(local_shadow::probe_offset(k) == (dx, dy));
        assert(local_shadow::answers(
            field,
            local_shadow::neighbor(
                field,
                x,
                y,
                local_shadow::probe_offset(k).0,
                local_shadow::probe_offset(k).1,
            ),
            light,
            state,
        ));
    }
}

/// Only a slot whose own answer is visible or occluded is reconstructed.
pub proof fn law_only_answered_slots_are_reconstructed(field: SlotField, x: int, y: int, slot: int)
    requires
        local_shadow::is_mixed(field, x, y, slot),
    ensures
        ({
            let texel = field.texels@[y * field.width + x];
            &&& texel.lights@[slot] is Some
            &&& texel.states@[slot].state == ShadowState::Visible || texel.states@[slot].state
                == ShadowState::Occluded
            &&& local_shadow::probes_have(
                field,
                x,
                y,
                texel.lights@[slot]->0,
                ShadowState::Visible,
                17,
            )
            &&& local_shadow::probes_have(
                field,
                x,
                y,
                texel.lights@[slot]->0,
                ShadowState::Occluded,
                17,
            )
        }),
{
}

/// The place of an offset in the square at full reach.
pub open spec fn place(dx: int, dy: int) -> int {
    (dy + 3) * 7 + dx + 3
}

/// The square at full reach holds the neighbours at every offset up to three.
pub proof fn law_square_holds_every_offset(field: SlotField, x: int, y: int, light: u32, dx: int, dy: int)
    requires
        -3 <= dx <= 3,
        -3 <= dy <= 3,
    ensures
        0 <= place(dx, dy) < 49,
        local_shadow::square_answer(field, x, y, light, place(dx, dy)) == field.answer(
            local_shadow::neighbor(field, x, y, dx, dy),
            light,
        ),
{
    assert(local_shadow::square_dx(place(dx, dy)) == dx);
    assert(local_shadow::square_dy(place(dx, dy)) == dy);
}

/// No blocker within three texels is nearer than the one that is found.
pub proof fn law_no_nearer_blocker(field: SlotField, x: int, y: int, light: u32, dx: int, dy: int)
    requires
        -3 <= dx <= 3,
        -3 <= dy <= 3,
        field.answer(local_shadow::neighbor(field, x, y, dx, dy), light) matches Some(answer)
            && answer.state == ShadowState::Occluded,
    ensures
        local_shadow::nearest_blocker(field, x, y, light, 49) <= field.answer(
            local_shadow::neighbor(field, x, y, dx, dy),
            light,
        )->0.hit_q,
{
    law_square_holds_every_offset(field, x, y, light, dx, dy);
    local_shadow::law_nearest_blocker_is_least(field, x, y, light, 49, place(dx, dy));
}

/// The blocker that is found is one within three texels, or the farthest place
/// of all.
pub proof fn law_nearest_blocker_is_there(field: SlotField, x: int, y: int, light: u32)
    ensures
        local_shadow::nearest_blocker(field, x, y, light, 49) == 65535 || exists|dx: int, dy: int|
            -3 <= dx <= 3 && -3 <= dy <= 3 && (#[trigger] field.answer(
                local_shadow::neighbor(field, x, y, dx, dy),
                light,
            ) matches Some(answer) && answer.state == ShadowState::Occluded && answer.hit_q
                == local_shadow::nearest_blocker(field, x, y, light, 49)),
{
    local_shadow::law_nearest_blocker_is_found(field, x, y, light, 49);
    if local_shadow::nearest_blocker(field, x, y, light, 49) != 65535 {
        let k = choose|k: int|
            0 <= k < 49 && (#[trigger] local_shadow::square_answer(field, x, y, light, k) matches Some(
                answer,
            ) && answer.state == ShadowState::Occluded && answer.hit_q
                == local_shadow::nearest_blocker(field, x, y, light, 49));
        let dx = local_shadow::square_dx(k);
        let dy = local_shadow::square_dy(k);
        assert(field.answer(local_shadow::neighbor(field, x, y, dx, dy), light) is Some);
        assert(-3 <= dx <= 3 && -3 <= dy <= 3);
    }
}

/// A weight is at least `radius + 1 - steps` just for the places at most so many
/// steps away in both directions, and never more than `radius + 1`.
pub proof fn law_weights_fall_with_distance(dx: int, dy: int, radius: int, steps: int)
    requires
        -3 <= dx <= 3,
        -3 <= dy <= 3,
        0 <= steps <= radius,
    ensures
        0 <= local_shadow::tent_weight(place(dx, dy), radius) <= radius + 1,
        (local_shadow::tent_weight(place(dx, dy), radius) >= radius + 1 - steps) == (-steps <= dx
            <= steps && -steps <= dy <= steps),
{
    assert(local_shadow::square_dx(place(dx, dy)) == dx);
    assert(local_shadow::square_dy(place(dx, dy)) == dy);
}

proof fn lemma_same_places_gather_the_same(
    field: SlotField,
    x: int,
    y: int,
    light: u32,
    a: Seq<bool>,
    b: Seq<bool>,
    radius: int,
    n: nat,
)
    requires
        forall|k: int| 0 <= k < n ==> #[trigger] a[k] == b[k],
    ensures
        local_shadow::gathered(field, x, y, light, a, radius, n) == local_shadow::gathered(
            field,
            x,
            y,
            light,
            b,
            radius,
            n,
        ),
    decreases n,
{
    if n > 0 {
        lemma_same_places_gather_the_same(field, x, y, light, a, b, radius, (n - 1) as nat);
        assert(a[n - 1] == b[n - 1]);
    }
}

/// Without places that are accepted nothing is gathered, and accepting one more
/// adds its weight: to the light where it is visible, to the total where it is
/// visible or occluded, and else nowhere.
pub proof fn law_places_add_their_weight(
    field: SlotField,
    x: int,
    y: int,
    light: u32,
    accepted: Seq<bool>,
    radius: int,
    n: nat,
    k: int,
)
    requires
        0 <= k < n <= accepted.len(),
        !accepted[k],
    ensures
        ({
            let before = local_shadow::gathered(field, x, y, light, accepted, radius, n);
            let after = local_shadow::gathered(
                field,
                x,
                y,
                light,
                accepted.update(k, true),
                radius,
                n,
            );
            let weight = local_shadow::tent_weight(k, radius);
            match local_shadow::square_answer(field, x, y, light, k) {
                Some(answer) => {
                    &&& answer.state == ShadowState::Visible ==> after == (
                        before.0 + weight,
                        before.1 + weight,
                    )
                    &&& answer.state == ShadowState::Occluded ==> after == (
                        before.0,
                        before.1 + weight,
                    )
                    &&& answer.state == ShadowState::Inactive || answer.state
                        == ShadowState::Failed ==> after == before
                },
                None => after == before,
            }
        }),
        (forall|i: int| 0 <= i < n ==> !#[trigger] accepted[i]) ==> local_shadow::gathered(
            field,
            x,
            y,
            light,
            accepted,
            radius,
            n,
        ) == (0int, 0int),
    decreases n,
{
    if k < n - 1 {
        law_places_add_their_weight(field, x, y, light, accepted, radius, (n - 1) as nat, k);
        assert(accepted.update(k, true)[n - 1] == accepted[n - 1]);
    } else {
        lemma_same_places_gather_the_same(
            field,
            x,
            y,
            light,
            accepted,
            accepted.update(k, true),
            radius,
            (n - 1) as nat,
        );
    }
    if forall|i: int| 0 <= i < n ==> !#[trigger] accepted[i] {
        lemma_nothing_gathers_nothing(field, x, y, light, accepted, radius, n);
    }
}

proof fn lemma_nothing_gathers_nothing(
    field: SlotField,
    x: int,
    y: int,
    light: u32,
    accepted: Seq<bool>,
    radius: int,
    n: nat,
)
    requires
        forall|i: int| 0 <= i < n ==> !#[trigger] accepted[i],
    ensures
        local_shadow::gathered(field, x, y, light, accepted, radius, n) == (0int, 0int),
    decreases n,
{
    if n > 0 {
        lemma_nothing_gathers_nothing(field, x, y, light, accepted, radius, (n - 1) as nat);
        assert(!accepted[n - 1]);
    }
}

/// Reconstruction works on texels of the field that show a surface, for lights
/// that have a size.
pub proof fn law_reconstruction_needs_a_surface_and_a_source(
    field: SlotField,
    x: usize,
    y: usize,
    source_radius: u32,
    own_depth: u32,
)
    ensures
        local_shadow::blur_applies(field, x, y, source_radius, own_depth) ==> x < field.width && y
            < field.height,
        float_bits::less(0, source_radius) && float_bits::less(0, own_depth) && x < field.width
            && y < field.height ==> local_shadow::blur_applies(
            field,
            x,
            y,
            source_radius,
            own_depth,
        ),
        float_bits::less(source_radius, 0) || source_radius == 0 ==> !local_shadow::blur_applies(
            field,
            x,
            y,
            source_radius,
            own_depth,
        ),
        float_bits::less(own_depth, 0) || own_depth == 0 ==> !local_shadow::blur_applies(
            field,
            x,
            y,
            source_radius,
            own_depth,
        ),
{
}

// ---------------------------------------------------------------------------
// Representatives

/// Whether the corner `right` and `down` of a texel is on the screen and shows a
/// surface with a depth.
pub open spec fn corner_shows(
    tx: u32,
    ty: u32,
    width: u32,
    height: u32,
    sample: CornerSample,
    right: int,
    down: int,
) -> bool {
    &&& tx + tx + right < width
    &&& ty + ty + down < height
    &&& float_bits::less(0, sample.marker)
    &&& float_bits::less(0, sample.depth)
}

/// A texel is stood for by the first of its pixels, from left to right and from
/// top to bottom, that is on the screen and shows a surface; by none if none
/// does.
pub proof fn law_first_pixel_stands_for_a_texel(
    tx: u32,
    ty: u32,
    width: u32,
    height: u32,
    samples: Seq<CornerSample>,
)
    requires
        samples.len() == 4,
        2 * tx + 1 <= u32::MAX,
        2 * ty + 1 <= u32::MAX,
    ensures
        ({
            let rep = local_shadow::representative_from(tx, ty, width, height, samples, 0);
            let a = corner_shows(tx, ty, width, height, samples[0], 0, 0);
            let b = corner_shows(tx, ty, width, height, samples[1], 1, 0);
            let c = corner_shows(tx, ty, width, height, samples[2], 0, 1);
            let d = corner_shows(tx, ty, width, height, samples[3], 1, 1);
            &&& rep is Some == (a || b || c || d)
            &&& a ==> rep->0.x == 2 * tx && rep->0.y == 2 * ty && rep->0.depth == samples[0].depth
            &&& !a && b ==> rep->0.x == 2 * tx + 1 && rep->0.y == 2 * ty && rep->0.depth
                == samples[1].depth
            &&& !a && !b && c ==> rep->0.x == 2 * tx && rep->0.y == 2 * ty + 1 && rep->0.depth
                == samples[2].depth
            &&& !a && !b && !c && d ==> rep->0.x == 2 * tx + 1 && rep->0.y == 2 * ty + 1
                && rep->0.depth == samples[3].depth
        }),
{
    reveal_with_fuel(local_shadow::representative_from, 5);
}

// ---------------------------------------------------------------------------
// Ranking

/// Slots hold lights that add something, brightest first and earlier ones first
/// among equals, and a light is left out only if every slot has one that adds
/// as much.
pub proof fn law_brightest_lights_have_slots(
    scores: Seq<u32>,
    lights: Seq<Option<u32>>,
    s: int,
    t: int,
    out: u32,
)
    requires
        local_shadow::holds_best(scores, scores.len() as int, lights),
        0 <= s < t < lights.len(),
        out < scores.len(),
    ensures
        lights[t] is Some ==> lights[s] is Some,
        lights[s] matches Some(a) ==> a < scores.len() && float_bits::less(0, scores[a as int]),
        lights[s] matches Some(a) ==> lights[t] matches Some(b) ==> {
            ||| float_bits::less(scores[b as int], scores[a as int])
            ||| float_bits::equal(scores[a as int], scores[b as int]) && a < b
        },
        float_bits::less(0, scores[out as int]) && !lights.contains(Some(out)) ==> {
            &&& lights[s] is Some
            &&& !float_bits::less(scores[lights[s]->0 as int], scores[out as int])
        },
{
    if float_bits::less(0, scores[out as int]) && !lights.contains(Some(out)) {
        assert(local_shadow::counts(scores, out as int));
        assert(lights.last() == lights[lights.len() - 1]);
        assert(lights[lights.len() - 1] is Some);
        assert(lights[s] is Some);
        assert(local_shadow::ranks_before(
            scores,
            lights[s]->0 as int,
            lights[lights.len() - 1]->0 as int,
        ));
    }
}

/// A selection of the same lights, each known from the frame before, counts as
/// unchanged; one with a light that was not there counts as changed.
pub proof fn law_same_lights_do_not_churn(
    lights: Seq<Option<u32>>,
    before: Seq<Option<u32>>,
    remap: Seq<Option<u32>>,
)
    requires
        lights.len() == before.len(),
        forall|s: int| 0 <= s < lights.len() ==> (#[trigger] lights[s] is Some) == (before[s] is Some),
        forall|s: int|
            0 <= s < lights.len() ==> (#[trigger] lights[s] matches Some(light)
                ==> remap[light as int] == before[s]),
    ensures
        !local_shadow::churned(lights, before, remap),
{
    lemma_filled_alike(lights, before, lights.len());
    assert forall|s: int| 0 <= s < lights.len() implies #[trigger] local_shadow::kept(
        lights,
        before,
        remap,
        s,
    ) by {
        if let Some(light) = lights[s] {
            assert(before[s] is Some);
            local_shadow::lemma_slot_of(before, before[s]->0);
            assert(before[s] == Some(before[s]->0));
        }
    }
}

proof fn lemma_filled_alike(a: Seq<Option<u32>>, b: Seq<Option<u32>>, n: nat)
    requires
        n <= a.len(),
        forall|s: int| 0 <= s < n ==> (#[trigger] a[s] is Some) == (b[s] is Some),
    ensures
        local_shadow::filled(a, n) == local_shadow::filled(b, n),
    decreases n,
{
    if n > 0 {
        lemma_filled_alike(a, b, (n - 1) as nat);
        assert(a[n - 1] is Some == b[n - 1] is Some);
    }
}

/// A light that was not selected before makes the selection another one.
pub proof fn law_new_light_churns(
    lights: Seq<Option<u32>>,
    before: Seq<Option<u32>>,
    remap: Seq<Option<u32>>,
    s: int,
)
    requires
        0 <= s < lights.len(),
        lights[s] is Some,
        remap[lights[s]->0 as int] is None || forall|t: int|
            0 <= t < before.len() ==> #[trigger] before[t] != remap[lights[s]->0 as int],
    ensures
        local_shadow::churned(lights, before, remap),
{
    if let Some(id) = remap[lights[s]->0 as int] {
        local_shadow::lemma_slot_of(before, id);
    }
    assert(!local_shadow::kept(lights, before, remap, s));
}

// ---------------------------------------------------------------------------
// History

/// Whether an answer is an earlier one, a frame later: the same state, and of an
/// occlusion the same blocker.
pub open spec fn is_frame_older(later: SlotState, before: SlotState) -> bool {
    &&& later.state == before.state
    &&& later.age == before.age + 1
    &&& before.state == ShadowState::Occluded ==> later.hit_q == before.hit_q && later.blind
        == before.blind && later.dynamic == (before.blind && before.dynamic)
    &&& before.state == ShadowState::Visible ==> later.hit_q == 0 && !later.blind && !later.dynamic
}

/// Whatever history hands on is the earlier answer, a frame older. It either
/// holds or is an estimate, not both.
pub proof fn law_history_hands_on_what_was_known(before: SlotState, probe: HistoryProbe, limits: ShadowLimits)
    requires
        before.age < limits.age_max < u32::MAX,
    ensures
        ({
            let answer = local_shadow::history_of(Some(before), probe, limits);
            &&& answer.answered is None || answer.carried is None
            &&& answer.answered matches Some(later) ==> is_frame_older(later, before)
            &&& answer.carried matches Some(later) ==> is_frame_older(later, before)
        }),
{
}

/// Ages stop growing at the largest one.
pub proof fn law_ages_are_capped(before: SlotState, probe: HistoryProbe, limits: ShadowLimits)
    requires
        limits.age_max <= before.age < u32::MAX,
        local_shadow::history_of(Some(before), probe, limits).carried is Some,
    ensures
        local_shadow::history_of(Some(before), probe, limits).carried->0.age == limits.age_max,
{
}

/// A visible answer holds while it is young and its light stays; once it is old
/// or the light has drifted it is an estimate; a jump of the light ends it.
pub proof fn law_visible_history(before: SlotState, probe: HistoryProbe, limits: ShadowLimits)
    requires
        before.age < u32::MAX,
        before.state == ShadowState::Visible,
    ensures
        ({
            let answer = local_shadow::history_of(Some(before), probe, limits);
            &&& answer.answered is Some == (!probe.teleported && !probe.drifted && before.age + 1
                < limits.refresh_interval)
            &&& answer.carried is Some == (!probe.teleported && (probe.drifted || before.age + 1
                >= limits.refresh_interval))
            &&& answer.answered is Some ==> answer.event == Some(ShadowEvent::Reused)
            &&& answer.carried is Some ==> answer.event is None
            &&& probe.teleported ==> answer.event == Some(ShadowEvent::Invalidated)
        }),
{
}

/// An occlusion that the camera sees holds only where this frame has confirmed
/// it and the light has stayed; once it is due for a refresh it is an estimate.
pub proof fn law_seen_occlusion_history(before: SlotState, probe: HistoryProbe, limits: ShadowLimits)
    requires
        before.age < u32::MAX,
        before.state == ShadowState::Occluded,
        !before.blind,
    ensures
        ({
            let answer = local_shadow::history_of(Some(before), probe, limits);
            let confirmed = probe.segment_active && probe.validated && !probe.drifted;
            let due = limits.occluded_refresh > 0 && before.age + 1 >= limits.occluded_refresh;
            &&& answer.answered is Some == (confirmed && !due)
            &&& answer.carried is Some == (confirmed && due)
            &&& confirmed ==> answer.event == Some(ShadowEvent::Validated)
            &&& !confirmed ==> answer.event == Some(ShadowEvent::Invalidated)
        }),
{
}

/// An occlusion that the camera can not see is believed in for so long as its
/// leash says: a shorter one for blockers that move and lights that drift, whose
/// end refutes it, and none at all where occlusions are never refreshed.
pub proof fn law_blind_occlusion_history(before: SlotState, probe: HistoryProbe, limits: ShadowLimits)
    requires
        before.age < u32::MAX,
        before.state == ShadowState::Occluded,
        before.blind,
    ensures
        ({
            let answer = local_shadow::history_of(Some(before), probe, limits);
            let moving = before.dynamic || probe.drifted;
            &&& probe.teleported ==> answer.answered is None && answer.carried is None
                && answer.event == Some(ShadowEvent::Invalidated)
            &&& !probe.teleported && limits.occluded_refresh == 0 ==> answer.answered is Some
            &&& !probe.teleported && limits.occluded_refresh > 0 && !moving ==> {
                &&& answer.answered is Some == (before.age + 1 < limits.occluded_refresh)
                &&& answer.carried is Some == (before.age + 1 >= limits.occluded_refresh)
            }
            &&& !probe.teleported && limits.occluded_refresh > 0 && moving
                && limits.dynamic_leash > 0 ==> {
                &&& answer.answered is Some == (before.age + 1 < limits.dynamic_leash)
                &&& answer.carried is None
                &&& answer.answered is None ==> answer.event == Some(ShadowEvent::Invalidated)
            }
            &&& answer.answered is Some ==> answer.event == Some(ShadowEvent::Blind)
        }),
{
}

/// Slots that were empty or failed have no history, and say nothing of it.
pub proof fn law_no_answer_no_history(before: SlotState, probe: HistoryProbe, limits: ShadowLimits)
    requires
        before.state == ShadowState::Inactive || before.state == ShadowState::Failed,
    ensures
        local_shadow::history_of(Some(before), probe, limits).answered is None,
        local_shadow::history_of(Some(before), probe, limits).carried is None,
        local_shadow::history_of(Some(before), probe, limits).event is None,
{
}

/// History is looked up at the reprojected texel under the light's earlier
/// number.
pub proof fn law_history_follows_texel_and_light(
    prev: SlotField,
    texel: Option<usize>,
    remap: Seq<Option<u32>>,
    light: u32,
)
    ensures
        texel is None || remap[light as int] is None ==> local_shadow::earlier_answer(
            prev,
            texel,
            remap,
            light,
        ) is None,
        texel is Some && remap[light as int] is Some ==> local_shadow::earlier_answer(
            prev,
            texel,
            remap,
            light,
        ) == prev.answer(texel->0 as int, remap[light as int]->0),
{
}

// ---------------------------------------------------------------------------
// Requests

/// A request goes to the end of its own queue where that has room; otherwise it
/// is counted, and both queues stay.
pub proof fn law_requests_are_queued_or_counted(queues: QueuesModel, id: u32, priority: Priority)
    ensures
        ({
            let after = queues.with(id, priority);
            &&& after.capacity == queues.capacity
            &&& priority == Priority::High && queues.high.len() < queues.capacity ==> after.high
                == queues.high.push(id) && after.low == queues.low && after.overflow
                == queues.overflow
            &&& priority == Priority::Low && queues.low.len() < queues.capacity ==> after.low
                == queues.low.push(id) && after.high == queues.high && after.overflow
                == queues.overflow
            &&& priority == Priority::High && queues.high.len() >= queues.capacity || priority
                == Priority::Low && queues.low.len() >= queues.capacity ==> after.high
                == queues.high && after.low == queues.low && (queues.overflow < u32::MAX
                ==> after.overflow == queues.overflow + 1)
        }),
        queues.has_room(Priority::High) == (queues.high.len() < queues.capacity),
        queues.has_room(Priority::Low) == (queues.low.len() < queues.capacity),
{
}

/// As many requests are served as were made, as their queue holds and as the
/// budget allows, high priority first; a budget of zero is no limit.
pub proof fn law_served_as_far_as_possible(
    requests_high: u32,
    requests_low: u32,
    capacity: u32,
    ray_budget: u32,
)
    ensures
        ({
            let high = local_shadow::served_high(requests_high, capacity, ray_budget);
            let low = local_shadow::served_low(requests_high, requests_low, capacity, ray_budget);
            &&& 0 <= high <= requests_high
            &&& high <= capacity
            &&& 0 <= low <= requests_low
            &&& low <= capacity
            &&& ray_budget > 0 ==> high + low <= ray_budget
            &&& high < requests_high && high < capacity ==> ray_budget > 0 && high == ray_budget
            &&& low < requests_low && low < capacity && ray_budget > 0 ==> high + low == ray_budget
            &&& low < requests_low && low < capacity && ray_budget == 0 ==> high + low == u32::MAX
        }),
{
}

// ---------------------------------------------------------------------------
// Plans

/// Empty slots are inactive and ask for nothing.
pub proof fn law_empty_slots_are_inactive(limits: ShadowLimits)
    ensures
        local_shadow::plan_of(SlotCase::Empty, limits).state.state == ShadowState::Inactive,
        local_shadow::plan_of(SlotCase::Empty, limits).request is None,
        local_shadow::plan_of(SlotCase::Empty, limits).events.0 is None,
        local_shadow::plan_of(SlotCase::Empty, limits).events.1 is None,
{
}

/// On an edge, the earlier answer about the light stands in until the trace;
/// without one the light is taken to be seen, as old as can be.
pub proof fn law_edges_keep_their_answer(before: Option<SlotState>, limits: ShadowLimits)
    ensures
        ({
            let plan = local_shadow::plan_of(SlotCase::Promoted { before }, limits);
            let known = before is Some && (before->0.state == ShadowState::Visible
                || before->0.state == ShadowState::Occluded);
            &&& known ==> plan.state == before->0
            &&& !known ==> plan.state.state == ShadowState::Visible && plan.state.age
                == limits.age_max && plan.state.hit_q == 0 && !plan.state.blind
                && !plan.state.dynamic
            &&& plan.request == Some(Priority::High)
            &&& plan.events.0 == Some(ShadowEvent::Promoted)
            &&& plan.events.1 is None
        }),
{
}

/// Elsewhere, what history says comes before what the march found, and that
/// before an estimate; only an estimate and the lack of one are traced.
pub proof fn law_plans_prefer_what_is_known(
    history: local_shadow::HistoryAnswer,
    contact: Option<u32>,
    limits: ShadowLimits,
)
    ensures
        ({
            let plan = local_shadow::plan_of(SlotCase::Regular { history, contact }, limits);
            &&& history.answered is Some ==> plan.state == history.answered->0 && plan.request is None
                && plan.events.1 is None
            &&& history.answered is None && contact is Some ==> {
                &&& plan.state.state == ShadowState::Occluded
                &&& plan.state.hit_q == contact->0
                &&& plan.state.age == 0
                &&& !plan.state.blind
                &&& !plan.state.dynamic
                &&& plan.request is None
                &&& plan.events.1 == Some(ShadowEvent::Contact)
            }
            &&& history.answered is None && contact is None && history.carried is Some ==> {
                &&& plan.state == history.carried->0
                &&& plan.request == Some(Priority::Low)
                &&& plan.events.1 is None
            }
            &&& history.answered is None && contact is None && history.carried is None ==> {
                &&& plan.state.state == ShadowState::Visible
                &&& plan.state.age == limits.age_max
                &&& plan.state.hit_q == 0
                &&& plan.request == Some(Priority::High)
                &&& plan.events.1 is None
            }
            &&& plan.events.0 == history.event
        }),
{
}

/// Writing a slot adds one answer and one fraction: no light where the answer is
/// an occlusion, else all of it. A slot whose request finds no room fails.
pub proof fn law_written_slots(slots: SlotsModel, plan: SlotPlan, id: u32, limits: ShadowLimits)
    ensures
        ({
            let after = slots.write(plan, id, limits);
            &&& after.states.len() == slots.states.len() + 1
            &&& after.fractions.len() == slots.fractions.len() + 1
            &&& forall|s: int|
                0 <= s < slots.states.len() ==> #[trigger] after.states[s] == slots.states[s]
            &&& forall|s: int|
                0 <= s < slots.fractions.len() ==> #[trigger] after.fractions[s]
                    == slots.fractions[s]
            &&& after.fractions.last() == if after.states.last().state == ShadowState::Occluded {
                0
            } else {
                limits.fraction_one
            }
            &&& plan.request is None ==> after.states.last() == plan.state && after.queues
                == slots.queues
            &&& plan.request matches Some(priority) ==> {
                &&& after.queues == slots.queues.with(id, priority)
                &&& slots.queues.has_room(priority) ==> after.states.last() == plan.state
                &&& !slots.queues.has_room(priority) ==> after.states.last().state
                    == ShadowState::Failed
            }
            &&& after.events.len() == slots.events.len() + (if plan.events.0 is Some {
                1int
            } else {
                0
            }) + (if plan.events.1 is Some {
                1int
            } else {
                0
            })
        }),
{
}

/// Each slot of a texel has its turn with its own light, its own number and what
/// is known of it: the answer of a slot is what its plan asks for, or a failure
/// where a request was to be made.
pub proof fn law_every_slot_has_its_turn(
    input: SelectInput,
    prev: SlotField,
    limits: ShadowLimits,
    lights: Seq<Option<u32>>,
    queues: QueuesModel,
    n: nat,
    s: int,
)
    requires
        0 <= s < n,
    ensures
        ({
            let slots = input.slots_after(prev, limits, lights, queues, n);
            let plan = local_shadow::plan_of(input.slot_case(prev, limits, lights[s]), limits);
            &&& slots.states.len() == n
            &&& slots.fractions.len() == n
            &&& slots.states[s] == plan.state || (plan.request is Some && slots.states[s].state
                == ShadowState::Failed)
            &&& slots.fractions[s] == if slots.states[s].state == ShadowState::Occluded {
                0
            } else {
                limits.fraction_one
            }
        }),
    decreases n,
{
    if s < n - 1 {
        law_every_slot_has_its_turn(input, prev, limits, lights, queues, (n - 1) as nat, s);
    } else if n > 1 {
        law_every_slot_has_its_turn(input, prev, limits, lights, queues, (n - 1) as nat, 0);
    } else {
        let before = input.slots_after(prev, limits, lights, queues, 0);
        assert(before.states.len() == 0 && before.fractions.len() == 0);
    }
}

/// A queue that starts empty and has room for all of a texel's slots holds, for
/// each of its requests, the number of a slot of that texel whose plan asks for
/// just that priority.
pub proof fn law_requests_name_their_slots(
    input: SelectInput,
    prev: SlotField,
    limits: ShadowLimits,
    lights: Seq<Option<u32>>,
    queues: QueuesModel,
    n: nat,
    s: int,
)
    requires
        0 <= s < n,
        queues.high.len() + n <= queues.capacity,
        queues.low.len() + n <= queues.capacity,
    ensures
        ({
            let slots = input.slots_after(prev, limits, lights, queues, n);
            let plan = local_shadow::plan_of(input.slot_case(prev, limits, lights[s]), limits);
            let id = ((input.texel_y * prev.width + input.texel_x) * prev.slots + s) as u32;
            &&& slots.queues.capacity == queues.capacity
            &&& slots.queues.high.len() <= queues.high.len() + n
            &&& slots.queues.low.len() <= queues.low.len() + n
            &&& slots.states[s] == plan.state
            &&& plan.request == Some(Priority::High) ==> slots.queues.high.contains(id)
            &&& plan.request == Some(Priority::Low) ==> slots.queues.low.contains(id)
        }),
    decreases n,
{
    law_every_slot_has_its_turn(input, prev, limits, lights, queues, n, s);
    let before = input.slots_after(prev, limits, lights, queues, (n - 1) as nat);
    let after = input.slots_after(prev, limits, lights, queues, n);
    let id = ((input.texel_y * prev.width + input.texel_x) * prev.slots + s) as u32;
    let last = ((input.texel_y * prev.width + input.texel_x) * prev.slots + n - 1) as u32;
    assert(input.index(prev) == input.texel_y * prev.width + input.texel_x);
    if n > 1 {
        law_requests_name_their_slots(
            input,
            prev,
            limits,
            lights,
            queues,
            (n - 1) as nat,
            if s < n - 1 {
                s
            } else {
                0
            },
        );
        law_every_slot_has_its_turn(input, prev, limits, lights, queues, (n - 1) as nat, 0);
    }
    let plan = local_shadow::plan_of(input.slot_case(prev, limits, lights[n - 1]), limits);
    assert(after.queues.high == before.queues.high || after.queues.high == before.queues.high.push(
        last,
    ));
    assert(after.queues.low == before.queues.low || after.queues.low == before.queues.low.push(
        last,
    ));
    if s < n - 1 {
        if before.queues.high.contains(id) {
            let k = choose|k: int| 0 <= k < before.queues.high.len() && before.queues.high[k] == id;
            assert(after.queues.high[k] == id);
        }
        if before.queues.low.contains(id) {
            let k = choose|k: int| 0 <= k < before.queues.low.len() && before.queues.low[k] == id;
            assert(after.queues.low[k] == id);
        }
    } else {
        if plan.request == Some(Priority::High) {
            assert(after.queues.high == before.queues.high.push(last));
            assert(after.queues.high[before.queues.high.len() as int] == id);
        }
        if plan.request == Some(Priority::Low) {
            assert(after.queues.low == before.queues.low.push(last));
            assert(after.queues.low[before.queues.low.len() as int] == id);
        }
    }
}

/// What is known of a slot: nothing without a light; on an edge, the light's
/// answer at the texel that history is looked for around; else what history
/// says of the light at the reprojected texel, and the march towards it.
pub proof fn law_slot_cases(
    input: SelectInput,
    prev: SlotField,
    limits: ShadowLimits,
    light: u32,
)
    ensures
        input.slot_case(prev, limits, None) == SlotCase::Empty,
        !input.promoted(prev, limits) ==> {
            &&& input.slot_case(prev, limits, Some(light)) is Regular
            &&& input.slot_case(prev, limits, Some(light))->contact == input.contacts@[light as int]
            &&& input.history_valid && limits.refresh_interval > 0 ==> input.slot_case(
                prev,
                limits,
                Some(light),
            )->history == local_shadow::history_of(
                local_shadow::earlier_answer(
                    prev,
                    local_shadow::reprojected_texel(
                        input.reprojection,
                        prev,
                        input.stored_depths@,
                    ),
                    input.remap@,
                    light,
                ),
                input.probes@[light as int],
                limits,
            )
        },
        input.promoted(prev, limits) ==> input.slot_case(prev, limits, Some(light)) is Promoted,
        input.promoted(prev, limits) ==> input.edge_promotion && input.history_valid
            && limits.refresh_interval > 0,
{
}

/// Edges are looked for around the texel that shows the same surface in the
/// frame before, or else around the texel itself.
pub proof fn law_edges_are_looked_for_where_the_surface_was(
    input: SelectInput,
    prev: SlotField,
    limits: ShadowLimits,
)
    ensures
        ({
            let there = local_shadow::reprojected_texel(
                input.reprojection,
                prev,
                input.stored_depths@,
            );
            let reuses = input.history_valid && limits.refresh_interval > 0;
            &&& reuses && there is Some ==> input.history_texel(prev, limits) == there->0
            &&& !reuses || there is None ==> input.history_texel(prev, limits) == input.texel_y
                * prev.width + input.texel_x
        }),
{
}

// ---------------------------------------------------------------------------
// Reprojection

/// The frame before shows the same surface only where the place lies within its
/// view, something was seen there, and one of the two depths matches; the texel
/// is the one that the pixel lies in.
pub proof fn law_reprojection_finds_the_surface(
    at: Reprojection,
    field: SlotField,
    depths: Seq<u32>,
    column: int,
    row: int,
)
    requires
        0 <= column < field.width,
        0 <= row < field.height,
        2 * column <= at.pixel_x < 2 * column + 2,
        2 * row <= at.pixel_y < 2 * row + 2,
        row * field.width + column <= usize::MAX,
        0 <= row * field.width + column,
    ensures
        ({
            let t = row * field.width + column;
            let close = float_bits::at_most(at.raw_distance, at.raw_limit) || float_bits::at_most(
                at.linear_distance,
                at.linear_limit,
            );
            let within = float_bits::less(local_shadow::CLIP_W_MIN, at.clip_w)
                && float_bits::at_most(0xbf80_0000, at.x) && float_bits::at_most(at.x, 0x3f80_0000)
                && float_bits::at_most(0xbf80_0000, at.y) && float_bits::at_most(at.y, 0x3f80_0000)
                && float_bits::less(0, at.z) && float_bits::at_most(at.z, 0x3f80_0000);
            local_shadow::reprojected_texel(at, field, depths) == if within && close
                && float_bits::less(0, depths[t]) {
                Some(t as usize)
            } else {
                None
            }
        }),
{
    assert(at.pixel_x as int / 2 == column);
    assert(at.pixel_y as int / 2 == row);
}

/// Pixels beyond the field's texels fall into its last column and row.
pub proof fn law_reprojection_stays_within(at: Reprojection, field: SlotField)
    requires
        0 < field.width,
        0 < field.height,
        at.pixel_x >= 2 * field.width,
        at.pixel_y >= 2 * field.height,
    ensures
        at.texel(field) == (field.height - 1) * field.width + (field.width - 1),
{
}

// ---------------------------------------------------------------------------
// Tracing

/// A request for slot `s` of texel `t` traces the light in that slot from the
/// pixel that stands for that texel, and fails without a light, without a pixel
/// or where the light is gone.
pub proof fn law_requests_lead_to_their_slot(
    t: int,
    s: int,
    id: u32,
    born: bool,
    slots: nat,
    texels: Seq<Texel>,
    reps: Seq<Option<Representative>>,
    light_count: u32,
)
    requires
        0 <= s < slots,
        0 <= t < texels.len(),
        texels.len() <= usize::MAX,
        id == t * slots + s,
    ensures
        ({
            let step = local_shadow::step_for(id, born, slots, texels, reps, light_count);
            match (texels[t].lights@[s], reps[t]) {
                (Some(light), Some(rep)) => {
                    &&& light < light_count ==> step == (TraceStep::Trace {
                        id,
                        texel: t as usize,
                        light,
                        x: rep.x,
                        y: rep.y,
                        born,
                    })
                    &&& light >= light_count ==> step == (TraceStep::Fail { id })
                },
                _ => step == (TraceStep::Fail { id }),
            }
        }),
{
    let d = slots as int;
    vstd::arithmetic::div_mod::lemma_fundamental_div_mod_converse(id as int, d, t, s);
    assert(id < texels.len() * slots) by (nonlinear_arith)
        requires
            id == t * slots + s,
            0 <= s < slots,
            0 <= t < texels.len(),
    ;
}

/// A request beyond all slots is only counted.
pub proof fn law_requests_beyond_the_slots(
    id: u32,
    born: bool,
    slots: nat,
    texels: Seq<Texel>,
    reps: Seq<Option<Representative>>,
    light_count: u32,
)
    requires
        id >= texels.len() * slots,
    ensures
        local_shadow::step_for(id, born, slots, texels, reps, light_count) == TraceStep::Overflow,
{
}

/// The mark of an edge does not change the slot that a request names.
pub proof fn law_mark_leaves_the_slot(id: u32)
    requires
        id < 0x8000_0000,
    ensures
        local_shadow::request_id(id) == id,
        local_shadow::request_id((id + 0x8000_0000) as u32) == id,
{
}

/// Tracing needs a depth in front of the camera; nothing else changes a step.
pub proof fn law_steps_need_a_depth(step: TraceStep, depth: u32)
    ensures
        step is Trace && (float_bits::less(depth, 0) || depth == 0) ==> local_shadow::step_at_depth(
            step,
            depth,
        ) == (TraceStep::Fail { id: step->Trace_id }),
        float_bits::less(0, depth) ==> local_shadow::step_at_depth(step, depth) == step,
        !(step is Trace) ==> local_shadow::step_at_depth(step, depth) == step,
{
}

/// What tracing answers: a hit is an occlusion at its place, marked where the
/// camera can not see it; a clear way and a degenerate one are visible; a query
/// that gave up fails.
pub proof fn law_traced_answers(
    outcome: TraceOutcome,
    born: bool,
    occluded_age: u32,
    visible_age: u32,
)
    ensures
        ({
            let answer = local_shadow::traced_answer(outcome, born, occluded_age, visible_age);
            &&& outcome matches TraceOutcome::Occluded { hit_q, seen, dynamic } ==> {
                &&& answer.state == ShadowState::Occluded
                &&& answer.hit_q == hit_q
                &&& answer.blind != seen
                &&& answer.dynamic == (dynamic && !seen)
                &&& answer.age == if born {
                    occluded_age
                } else {
                    0
                }
            }
            &&& outcome is Clear ==> answer.state == ShadowState::Visible && answer.age == if born {
                visible_age
            } else {
                0
            }
            &&& outcome is Degenerate ==> answer.state == ShadowState::Visible && answer.age == 0
            &&& outcome is Failed ==> answer.state == ShadowState::Failed && answer.age == 0
            &&& !(outcome is Occluded) ==> answer.hit_q == 0 && !answer.blind && !answer.dynamic
        }),
{
}

/// Selection without history writes the slots that tracing will not: empty ones
/// and those that found no room, all of them fully lit; and queues all others by
/// their number.
pub proof fn law_direct_slots(
    lights: Seq<Option<u32>>,
    base: int,
    queues: QueuesModel,
    limits: ShadowLimits,
    n: nat,
    s: int,
)
    requires
        0 <= s < n,
        queues.high.len() + n <= queues.capacity,
    ensures
        ({
            let after = local_shadow::direct_after(lights, base, queues, limits, n);
            &&& after.0.len() == n
            &&& after.1.high.len() <= queues.high.len() + n
            &&& after.1.capacity == queues.capacity
            &&& after.1.low == queues.low
            &&& lights[s] is None ==> after.0[s] == Some(
                (
                    SlotState {
                        state: ShadowState::Inactive,
                        blind: false,
                        dynamic: false,
                        age: 0,
                        hit_q: 0,
                    },
                    limits.fraction_one,
                ),
            )
            &&& lights[s] is Some ==> after.0[s] is None && after.1.high.contains((base + s) as u32)
        }),
    decreases n,
{
    let before = local_shadow::direct_after(lights, base, queues, limits, (n - 1) as nat);
    let after = local_shadow::direct_after(lights, base, queues, limits, n);
    if n > 1 {
        law_direct_slots(
            lights,
            base,
            queues,
            limits,
            (n - 1) as nat,
            if s < n - 1 {
                s
            } else {
                0
            },
        );
    }
    let last = (base + n - 1) as u32;
    if s < n - 1 {
        if before.1.high.contains((base + s) as u32) {
            let k = choose|k: int|
                0 <= k < before.1.high.len() && before.1.high[k] == (base + s) as u32;
            assert(after.1.high[k] == (base + s) as u32);
        }
    } else if lights[s] is Some {
        assert(after.1.high == before.1.high.push(last));
        assert(after.1.high[before.1.high.len() as int] == last);
    }
}

/// Where the queue is full from the start, every light's slot fails, fully lit.
pub proof fn law_direct_slots_without_room(
    lights: Seq<Option<u32>>,
    base: int,
    queues: QueuesModel,
    limits: ShadowLimits,
    n: nat,
    s: int,
)
    requires
        0 <= s < n,
        queues.high.len() >= queues.capacity,
        lights[s] is Some,
    ensures
        ({
            let after = local_shadow::direct_after(lights, base, queues, limits, n);
            &&& after.0.len() == n
            &&& after.1.high == queues.high
            &&& after.0[s] matches Some((state, fraction)) && state.state == ShadowState::Failed
                && fraction == limits.fraction_one
        }),
    decreases n,
{
    lemma_direct_full(lights, base, queues, limits, n);
    if s < n - 1 {
        law_direct_slots_without_room(lights, base, queues, limits, (n - 1) as nat, s);
    } else {
        lemma_direct_full(lights, base, queues, limits, (n - 1) as nat);
    }
}

proof fn lemma_direct_full(
    lights: Seq<Option<u32>>,
    base: int,
    queues: QueuesModel,
    limits: ShadowLimits,
    n: nat,
)
    requires
        queues.high.len() >= queues.capacity,
    ensures
        local_shadow::direct_after(lights, base, queues, limits, n).0.len() == n,
        local_shadow::direct_after(lights, base, queues, limits, n).1.high == queues.high,
        local_shadow::direct_after(lights, base, queues, limits, n).1.capacity == queues.capacity,
    decreases n,
{
    if n > 0 {
        lemma_direct_full(lights, base, queues, limits, (n - 1) as nat);
    }
}

/// A blocker is projected onto the screen where it lies before the camera and
/// within the view in all three directions.
pub proof fn law_blockers_on_the_screen(blocker: ProjectedBlocker)
    requires
        !float_bits::is_nan(blocker.clip_w),
        !float_bits::is_nan(blocker.x),
        !float_bits::is_nan(blocker.y),
        !float_bits::is_nan(blocker.z),
    ensures
        local_shadow::on_screen(blocker) == (float_bits::less(
            local_shadow::CLIP_W_MIN,
            blocker.clip_w,
        ) && float_bits::at_most(0xbf80_0000, blocker.x) && float_bits::at_most(
            blocker.x,
            0x3f80_0000,
        ) && float_bits::at_most(0xbf80_0000, blocker.y) && float_bits::at_most(
            blocker.y,
            0x3f80_0000,
        ) && float_bits::less(0, blocker.z) && float_bits::at_most(blocker.z, 0x3f80_0000)),
{
}

/// A texel is promoted just if history may be reused, edges are asked for, and
/// around the texel that shows the same surface in the frame before, that texel
/// included, the light that mattered most there is seen and not seen.
pub proof fn law_promotion_looks_at_touching_texels(
    input: SelectInput,
    prev: SlotField,
    limits: ShadowLimits,
    x: int,
    y: int,
    light: u32,
)
    requires
        0 <= x < prev.width,
        0 <= y < prev.height,
        input.history_texel(prev, limits) == y * prev.width + x,
        prev.texels@[y * prev.width + x].lights@[0] == Some(light),
    ensures
        input.promoted(prev, limits) <==> input.history_valid && limits.refresh_interval > 0
            && input.edge_promotion && touches(prev, x, y, light, ShadowState::Visible) && touches(
            prev,
            x,
            y,
            light,
            ShadowState::Occluded,
        ),
{
    let w = prev.width as int;
    vstd::arithmetic::div_mod::lemma_fundamental_div_mod_converse(y * w + x, w, y, x);
    law_edges_are_promoted(prev, x, y, light, ShadowState::Visible);
    law_edges_are_promoted(prev, x, y, light, ShadowState::Occluded);
}

/// The filled slots are counted one by one: none of none, all of all, and never
/// more than there are.
pub proof fn law_filled_slots_are_counted(lights: Seq<Option<u32>>, n: nat)
    requires
        n <= lights.len(),
    ensures
        local_shadow::filled(lights, 0) == 0,
        local_shadow::filled(lights, n) <= n,
        (forall|i: int| 0 <= i < n ==> #[trigger] lights[i] is Some) ==> local_shadow::filled(
            lights,
            n,
        ) == n,
        (forall|i: int| 0 <= i < n ==> #[trigger] lights[i] is None) ==> local_shadow::filled(
            lights,
            n,
        ) == 0,
        n < lights.len() && lights[n as int] is Some ==> local_shadow::filled(lights, n + 1)
            == local_shadow::filled(lights, n) + 1,
        n < lights.len() && lights[n as int] is None ==> local_shadow::filled(lights, n + 1)
            == local_shadow::filled(lights, n),
    decreases n,
{
    if n > 0 {
        law_filled_slots_are_counted(lights, (n - 1) as nat);
    }
}

/// A texel without a surface has no light in any of its slots, no history, the
/// whole of its fraction, and nothing to count.
pub proof fn law_blank_texels(out: TexelResult, slots: nat, limits: ShadowLimits, s: int)
    requires
        local_shadow::is_blank(out, slots, limits),
    ensures
        out.representative is None,
        out.lights@.len() == slots,
        out.states@.len() == slots,
        out.fractions@.len() == slots,
        out.events@.len() == 0,
        0 <= s < slots ==> out.lights@[s] is None && out.states@[s].state == ShadowState::Inactive
            && out.states@[s].age == 0 && out.states@[s].hit_q == 0 && out.fractions@[s]
            == limits.fraction_one,
{
}

/// A slot gets a share just if a nearest blocker was looked for and a place
/// counts: the weight of the visible places out of that of all.
pub proof fn law_blurred_shares(
    field: SlotField,
    x: int,
    y: int,
    slot: int,
    nearest: Option<u32>,
    accepted: Seq<bool>,
    radius: int,
    light: u32,
)
    requires
        field.texels@[y * field.width + x].lights@[slot] == Some(light),
    ensures
        ({
            let weights = local_shadow::gathered(field, x, y, light, accepted, radius, 49);
            let share = local_shadow::blurred(field, x, y, slot, nearest, accepted, radius);
            &&& nearest is None ==> share is None
            &&& weights.1 == 0 ==> share is None
            &&& nearest is Some && 0 < weights.1 <= u32::MAX && weights.0 <= u32::MAX ==> share
                == Some((weights.0 as u32, weights.1 as u32))
        }),
{
}

} // verus!
