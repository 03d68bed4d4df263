//! Half-resolution local-shadow selection, tracing, and reconstruction.
//!
//! Each half-resolution texel has a fixed number of slots for the lights that
//! matter most to it. History is checked before it is reused: visible answers
//! expire by age or by light drift, occlusions have to be validated or, where
//! the camera can not see the blocker, are kept on an age leash. What history
//! can not answer is queued for tracing. Depths, scores and distances are
//! single-precision bit patterns or comparisons made by the caller.

use vstd::prelude::*;

use crate::float_bits;

verus! {

/// What is known of the light in a slot.
#[derive(Debug, Clone, Copy, PartialEq, Eq, Structural)]
pub enum ShadowState {
    Inactive,
    Visible,
    Occluded,
    Failed,
}

/// The answer in a slot.
#[derive(Debug, Clone, Copy, PartialEq, Eq, Structural)]
pub struct SlotState {
    pub state: ShadowState,
    /// The blocker can not be seen by the camera.
    pub blind: bool,
    /// The blocker moves.
    pub dynamic: bool,
    /// Frames since the answer was proved.
    pub age: u32,
    /// Where the blocker lies on the way to the light, in 65535ths.
    pub hit_q: u32,
}

impl SlotState {
    /// An answer about a blocker that the camera sees, or about none.
    #[verifier::allow_in_spec]
    pub fn plain(state: ShadowState, age: u32, hit_q: u32) -> SlotState
        returns
            (SlotState { state, blind: false, dynamic: false, age, hit_q }),
    {
        SlotState { state, blind: false, dynamic: false, age, hit_q }
    }
}

/// Limits of history reuse.
#[derive(Debug, Clone, Copy, PartialEq, Eq, Structural)]
pub struct ShadowLimits {
    /// The largest age that an answer can have.
    pub age_max: u32,
    /// Age at which visible history expires; zero disables all reuse.
    pub refresh_interval: u32,
    /// Age at which occlusions are proved again; zero means never.
    pub occluded_refresh: u32,
    /// The same for blockers that move or lights that drift.
    pub dynamic_leash: u32,
    /// The fraction that means fully lit.
    pub fraction_one: u32,
}

/// The fraction of light that an answer lets through.
pub open spec fn fraction_of(answer: SlotState, limits: ShadowLimits) -> u32 {
    if answer.state == ShadowState::Occluded {
        0
    } else {
        limits.fraction_one
    }
}

fn slot_fraction(answer: &SlotState, limits: &ShadowLimits) -> (fraction: u32)
    ensures
        fraction == fraction_of(*answer, *limits),
{
    if answer.state == ShadowState::Occluded {
        0
    } else {
        limits.fraction_one
    }
}

// ---------------------------------------------------------------------------
// Slots of one texel

/// The slots of one texel.
pub struct Texel {
    /// The light in each slot.
    pub lights: Vec<Option<u32>>,
    /// The answer in each slot.
    pub states: Vec<SlotState>,
}

/// The first slot that holds a light.
pub open spec fn slot_of(lights: Seq<Option<u32>>, light: u32) -> Option<nat>
    decreases lights.len(),
{
    if lights.len() == 0 {
        None
    } else if lights[0] == Some(light) {
        Some(0)
    } else {
        match slot_of(lights.skip(1), light) {
            Some(slot) => Some(slot + 1),
            None => None,
        }
    }
}

pub(crate) proof fn lemma_slot_of(lights: Seq<Option<u32>>, light: u32)
    ensures
        match slot_of(lights, light) {
            Some(slot) => slot < lights.len() && lights[slot as int] == Some(light),
            None => forall|i: int| 0 <= i < lights.len() ==> #[trigger] lights[i] != Some(light),
        },
    decreases lights.len(),
{
    if lights.len() > 0 && lights[0] != Some(light) {
        lemma_slot_of(lights.skip(1), light);
        if slot_of(lights.skip(1), light) is None {
            assert forall|i: int| 0 <= i < lights.len() implies #[trigger] lights[i] != Some(light) by {
                if i > 0 {
                    assert(lights[i] == lights.skip(1)[i - 1]);
                }
            }
        }
    }
}

proof fn lemma_slot_of_at(lights: Seq<Option<u32>>, light: u32, n: int)
    requires
        0 <= n < lights.len(),
        lights[n] == Some(light),
        forall|i: int| 0 <= i < n ==> #[trigger] lights[i] != Some(light),
    ensures
        slot_of(lights, light) == Some(n as nat),
    decreases n,
{
    if n > 0 {
        assert forall|i: int| 0 <= i < n - 1 implies #[trigger] lights.skip(1)[i] != Some(light) by {
            assert(lights.skip(1)[i] == lights[i + 1]);
        }
        lemma_slot_of_at(lights.skip(1), light, n - 1);
    }
}

/// Finds the slot that holds a light.
pub fn find_slot(lights: &Vec<Option<u32>>, light: u32) -> (slot: Option<usize>)
    ensures
        match slot_of(lights@, light) {
            Some(n) => slot == Some(n as usize) && n < lights@.len(),
            None => slot is None,
        },
{
    let mut i: usize = 0;
    while i < lights.len()
        invariant
            i <= lights@.len(),
            forall|k: int| 0 <= k < i ==> #[trigger] lights@[k] != Some(light),
        decreases lights@.len() - i,
    {
        if let Some(found) = lights[i] {
            if found == light {
                proof {
                    lemma_slot_of_at(lights@, light, i as int);
                }
                return Some(i);
            }
        }
        i = i + 1;
    }
    proof {
        lemma_slot_of(lights@, light);
    }
    None
}

/// The slots of all half-resolution texels, row by row.
pub struct SlotField {
    pub width: usize,
    pub height: usize,
    pub slots: usize,
    pub texels: Vec<Texel>,
}

impl SlotField {
    /// Whether every texel is there and has all its slots.
    pub open spec fn wf(self) -> bool {
        &&& 0 < self.width <= 0x7fff_ffff
        &&& 0 < self.height <= 0x7fff_ffff
        &&& self.texels@.len() == self.width * self.height
        &&& forall|t: int|
            0 <= t < self.texels@.len() ==> (#[trigger] self.texels@[t]).lights@.len() == self.slots
                && self.texels@[t].states@.len() == self.slots
    }

    /// The answer about a light at a texel, if the light has a slot there.
    pub open spec fn answer(self, t: int, light: u32) -> Option<SlotState> {
        match slot_of(self.texels@[t].lights@, light) {
            Some(slot) => Some(self.texels@[t].states@[slot as int]),
            None => None,
        }
    }

    /// The answer about a light at a texel, if the light has a slot there.
    pub fn answer_at(&self, t: usize, light: u32) -> (answer: Option<SlotState>)
        requires
            self.wf(),
            t < self.texels@.len(),
        ensures
            answer == self.answer(t as int, light),
    {
        let texel: &Texel = &self.texels[t];
        assert(self.texels@[t as int].states@.len() == self.slots);
        match find_slot(&texel.lights, light) {
            Some(slot) => Some(texel.states[slot]),
            None => None,
        }
    }
}

// ---------------------------------------------------------------------------
// Neighborhoods

/// A coordinate moved and held within `0..limit`.
pub open spec fn moved(at: int, by: int, limit: int) -> int {
    if at + by < 0 {
        0
    } else if at + by > limit - 1 {
        limit - 1
    } else {
        at + by
    }
}

/// The texel beside another, held within the field.
pub open spec fn neighbor(field: SlotField, x: int, y: int, dx: int, dy: int) -> int {
    moved(y, dy, field.height as int) * field.width + moved(x, dx, field.width as int)
}

proof fn lemma_texel_within(x: int, y: int, width: int, height: int)
    requires
        0 <= x < width,
        0 <= y < height,
    ensures
        0 <= y * width + x < width * height,
{
    assert(y * width + x < (y + 1) * width) by (nonlinear_arith)
        requires
            0 <= x < width,
    ;
    assert((y + 1) * width <= width * height) by (nonlinear_arith)
        requires
            y + 1 <= height,
            0 < width,
    ;
    assert(0 <= y * width) by (nonlinear_arith)
        requires
            0 <= y,
            0 < width,
    ;
}

fn neighbor_texel(field: &SlotField, x: usize, y: usize, dx: i64, dy: i64) -> (t: usize)
    requires
        field.wf(),
        x < field.width,
        y < field.height,
        -3 <= dx <= 3,
        -3 <= dy <= 3,
    ensures
        t == neighbor(*field, x as int, y as int, dx as int, dy as int),
        t < field.texels@.len(),
{
    let nx: i64 = x as i64 + dx;
    let ny: i64 = y as i64 + dy;
    let cx: usize = if nx < 0 {
        0
    } else if nx > field.width as i64 - 1 {
        field.width - 1
    } else {
        nx as usize
    };
    let cy: usize = if ny < 0 {
        0
    } else if ny > field.height as i64 - 1 {
        field.height - 1
    } else {
        ny as usize
    };
    let total: usize = field.texels.len();
    proof {
        lemma_texel_within(cx as int, cy as int, field.width as int, field.height as int);
        assert(0 <= cy * field.width) by (nonlinear_arith);
    }
    cy * field.width + cx
}

/// Whether a light has an answer of the given kind at a texel.
pub open spec fn answers(field: SlotField, t: int, light: u32, state: ShadowState) -> bool {
    field.answer(t, light) matches Some(answer) && answer.state == state
}

/// Horizontal offset of place `n` in a row-by-row three-by-three neighborhood.
pub open spec fn ring_dx(n: int) -> int {
    n % 3 - 1
}

/// Vertical offset of place `n` in a row-by-row three-by-three neighborhood.
pub open spec fn ring_dy(n: int) -> int {
    n / 3 - 1
}

/// Whether one of the first `n` places of a texel's three-by-three neighborhood
/// has an answer of the given kind.
pub open spec fn ring_has(field: SlotField, x: int, y: int, light: u32, state: ShadowState, n: int) -> bool {
    exists|k: int|
        0 <= k < n && #[trigger] answers(
            field,
            neighbor(field, x, y, ring_dx(k), ring_dy(k)),
            light,
            state,
        )
}

/// Whether a texel lies on a shadow edge: its neighborhood holds both visible
/// and occluded answers for the light.
pub fn edge_promoted(field: &SlotField, x: usize, y: usize, light: u32) -> (promoted: bool)
    requires
        field.wf(),
        x < field.width,
        y < field.height,
    ensures
        promoted == (ring_has(*field, x as int, y as int, light, ShadowState::Visible, 9)
            && ring_has(*field, x as int, y as int, light, ShadowState::Occluded, 9)),
{
    let mut seen_visible: bool = false;
    let mut seen_occluded: bool = false;
    let mut n: u32 = 0;
    while n < 9
        invariant
            field.wf(),
            x < field.width,
            y < field.height,
            n <= 9,
            seen_visible == ring_has(*field, x as int, y as int, light, ShadowState::Visible, n as int),
            seen_occluded == ring_has(*field, x as int, y as int, light, ShadowState::Occluded, n as int),
        decreases 9 - n,
    {
        let t: usize = neighbor_texel(field, x, y, (n % 3) as i64 - 1, (n / 3) as i64 - 1);
        assert(t == neighbor(*field, x as int, y as int, ring_dx(n as int), ring_dy(n as int)));
        let ghost visible_before = seen_visible;
        let ghost occluded_before = seen_occluded;
        if let Some(answer) = field.answer_at(t, light) {
            if answer.state == ShadowState::Visible {
                seen_visible = true;
            } else if answer.state == ShadowState::Occluded {
                seen_occluded = true;
            }
        }
        proof {
            lemma_ring_grows(*field, x as int, y as int, light, ShadowState::Visible, n as int);
            lemma_ring_grows(*field, x as int, y as int, light, ShadowState::Occluded, n as int);
        }
        n = n + 1;
    }
    seen_visible && seen_occluded
}

proof fn lemma_ring_grows(field: SlotField, x: int, y: int, light: u32, state: ShadowState, n: int)
    requires
        0 <= n,
    ensures
        ring_has(field, x, y, light, state, n + 1) == (ring_has(field, x, y, light, state, n)
            || answers(field, neighbor(field, x, y, ring_dx(n), ring_dy(n)), light, state)),
{
    if answers(field, neighbor(field, x, y, ring_dx(n), ring_dy(n)), light, state) {
        assert(ring_has(field, x, y, light, state, n + 1));
    }
    if ring_has(field, x, y, light, state, n) {
        let k = choose|k: int|
            0 <= k < n && #[trigger] answers(
                field,
                neighbor(field, x, y, ring_dx(k), ring_dy(k)),
                light,
                state,
            );
        assert(0 <= k < n + 1);
    }
}

// ---------------------------------------------------------------------------
// Representatives

/// What the surface buffers hold at one pixel.
#[derive(Debug, Clone, Copy, PartialEq, Eq, Structural)]
pub struct CornerSample {
    pub marker: u32,
    pub depth: u32,
}

/// The pixel that stands for a texel.
#[derive(Debug, Clone, Copy, PartialEq, Eq, Structural)]
pub struct Representative {
    pub x: u32,
    pub y: u32,
    pub depth: u32,
}

/// Whether corner `j` of a texel lies on the screen and shows a surface.
pub open spec fn covers(
    texel_x: u32,
    texel_y: u32,
    screen_width: u32,
    screen_height: u32,
    samples: Seq<CornerSample>,
    j: int,
) -> bool {
    &&& 2 * texel_x + j % 2 < screen_width
    &&& 2 * texel_y + j / 2 < screen_height
    &&& float_bits::less(0, samples[j].marker)
    &&& float_bits::less(0, samples[j].depth)
}

/// Corner `j` of a texel.
pub open spec fn corner_pixel(
    texel_x: u32,
    texel_y: u32,
    samples: Seq<CornerSample>,
    j: int,
) -> Representative {
    Representative {
        x: (2 * texel_x + j % 2) as u32,
        y: (2 * texel_y + j / 2) as u32,
        depth: samples[j].depth,
    }
}

/// The pixel that stands for a texel: the first of its corners from `j` on, row
/// by row, that lies on the screen and shows a surface.
pub open spec fn representative_from(
    texel_x: u32,
    texel_y: u32,
    screen_width: u32,
    screen_height: u32,
    samples: Seq<CornerSample>,
    j: int,
) -> Option<Representative>
    decreases 4 - j,
{
    if j >= 4 {
        None
    } else if covers(texel_x, texel_y, screen_width, screen_height, samples, j) {
        Some(corner_pixel(texel_x, texel_y, samples, j))
    } else {
        representative_from(texel_x, texel_y, screen_width, screen_height, samples, j + 1)
    }
}

/// Picks the pixel that stands for a texel: the first of its four corners, row
/// by row, that lies on the screen and shows a surface.
///
/// `samples` holds what the buffers hold at the corners; what it holds for a
/// corner off the screen does not matter.
pub fn pick_representative(
    texel_x: u32,
    texel_y: u32,
    screen_width: u32,
    screen_height: u32,
    samples: &Vec<CornerSample>,
) -> (rep: Option<Representative>)
    requires
        samples@.len() == 4,
        2 * texel_x + 1 <= u32::MAX,
        2 * texel_y + 1 <= u32::MAX,
    ensures
        rep == representative_from(
            texel_x,
            texel_y,
            screen_width,
            screen_height,
            samples@,
            0,
        ),
{
    let mut corner: usize = 0;
    while corner < 4
        invariant
            corner <= 4,
            samples@.len() == 4,
            2 * texel_x + 1 <= u32::MAX,
            2 * texel_y + 1 <= u32::MAX,
            representative_from(texel_x, texel_y, screen_width, screen_height, samples@, 0)
                == representative_from(
                texel_x,
                texel_y,
                screen_width,
                screen_height,
                samples@,
                corner as int,
            ),
        decreases 4 - corner,
    {
        let x: u32 = 2 * texel_x + (corner % 2) as u32;
        let y: u32 = 2 * texel_y + (corner / 2) as u32;
        let sample: CornerSample = samples[corner];
        if x < screen_width && y < screen_height && float_bits::is_less(0, sample.marker)
            && float_bits::is_less(0, sample.depth) {
            return Some(Representative { x, y, depth: sample.depth });
        }
        corner = corner + 1;
    }
    None
}

// ---------------------------------------------------------------------------
// Ranking lights

/// Whether a light adds anything.
pub open spec fn counts(scores: Seq<u32>, i: int) -> bool {
    float_bits::less(0, scores[i])
}

/// Whether light `a` ranks before light `b`: it scores higher, or equally high and comes first.
pub open spec fn ranks_before(scores: Seq<u32>, a: int, b: int) -> bool {
    float_bits::less(scores[b], scores[a]) || (float_bits::equal(scores[a], scores[b]) && a < b)
}

/// Whether the slots hold the best of the first `n` lights, best first.
///
/// Only lights that add something get a slot. The filled slots come first and
/// are in rank order, and a light that was left out ranks behind all of them
/// and found every slot taken.
pub open spec fn holds_best(scores: Seq<u32>, n: int, lights: Seq<Option<u32>>) -> bool {
    &&& forall|s: int|
        0 <= s < lights.len() ==> (#[trigger] lights[s] matches Some(i) ==> i < n && counts(
            scores,
            i as int,
        ))
    &&& forall|s: int, t: int|
        0 <= s < t < lights.len() && #[trigger] lights[t] is Some ==> #[trigger] lights[s] is Some
            && ranks_before(scores, lights[s]->0 as int, lights[t]->0 as int)
    &&& forall|i: u32|
        i < n && counts(scores, i as int) && !(#[trigger] lights.contains(Some(i)))
            ==> lights.len() > 0 && lights.last() is Some && ranks_before(
            scores,
            lights.last()->0 as int,
            i as int,
        )
}

fn slot_score(scores: &Vec<u32>, light: Option<u32>) -> (score: u32)
    requires
        light matches Some(i) ==> i < scores@.len(),
    ensures
        score == (match light {
            Some(i) => scores@[i as int],
            None => 0,
        }),
{
    match light {
        Some(i) => scores[i as usize],
        None => 0,
    }
}

/// Ranks lights by their score and keeps the best, ties in favor of the earlier one.
///
/// There are as many slots in the result as asked for; those that no light
/// gets stay empty. Scores that are not positive never get a slot.
pub fn rank_lights(scores: &Vec<u32>, slots: usize) -> (lights: Vec<Option<u32>>)
    requires
        slots > 0,
        scores@.len() <= u32::MAX,
    ensures
        lights@.len() == slots,
        holds_best(scores@, scores@.len() as int, lights@),
{
    let mut lights: Vec<Option<u32>> = Vec::new();
    while lights.len() < slots
        invariant
            lights@.len() <= slots,
            forall|s: int| 0 <= s < lights@.len() ==> #[trigger] lights@[s] is None,
        decreases slots - lights@.len(),
    {
        lights.push(None);
    }
    let mut i: usize = 0;
    while i < scores.len()
        invariant
            slots > 0,
            lights@.len() == slots,
            i <= scores@.len() <= u32::MAX,
            holds_best(scores@, i as int, lights@),
        decreases scores@.len() - i,
    {
        let score: u32 = scores[i];
        let ghost before = lights@;
        // All slots from `place` on score lower than the light.
        let mut place: usize = slots;
        while place > 0 && float_bits::is_less(slot_score(scores, lights[place - 1]), score)
            invariant
                lights@ == before,
                lights@.len() == slots,
                place <= slots,
                i < scores@.len() <= u32::MAX,
                score == scores@[i as int],
                holds_best(scores@, i as int, before),
                forall|s: int|
                    place <= s < slots ==> (#[trigger] lights@[s] matches Some(k)
                        ==> float_bits::less(scores@[k as int], score)),
                place < slots ==> float_bits::less(0, score),
            ensures
                place > 0 ==> !float_bits::less(
                    (match lights@[place - 1] {
                        Some(k) => scores@[k as int],
                        None => 0,
                    }),
                    score,
                ),
            decreases place,
        {
            place = place - 1;
            proof {
                if let Some(k) = lights@[place as int] {
                    assert(counts(scores@, k as int));
                }
            }
        }
        if place < slots {
            lights.insert(place, Some(i as u32));
            lights.pop();
            proof {
                assert(lights@ =~= before.take(place as int).push(Some(i as u32)) + before.subrange(
                    place as int,
                    slots - 1,
                ));
                lemma_inserted(scores@, i as int, before, place as int, lights@);
            }
        } else {
            proof {
                lemma_left_out(scores@, i as int, before);
            }
        }
        i = i + 1;
    }
    lights
}

/// Putting the next light in front of all lower scores and dropping the last slot keeps the best.
proof fn lemma_inserted(scores: Seq<u32>, i: int, before: Seq<Option<u32>>, place: int, after: Seq<Option<u32>>)
    requires
        0 <= i < scores.len() <= u32::MAX,
        0 <= place < before.len(),
        holds_best(scores, i, before),
        float_bits::less(0, scores[i]),
        forall|s: int|
            place <= s < before.len() ==> (#[trigger] before[s] matches Some(k) ==> float_bits::less(
                scores[k as int],
                scores[i],
            )),
        place > 0 ==> !float_bits::less(
            (match before[place - 1] {
                Some(k) => scores[k as int],
                None => 0,
            }),
            scores[i],
        ),
        after == before.take(place).push(Some(i as u32)) + before.subrange(
            place,
            before.len() - 1,
        ),
    ensures
        holds_best(scores, i + 1, after),
{
    let len = before.len() as int;
    assert(after.len() == len);
    assert(forall|s: int| 0 <= s < place ==> #[trigger] after[s] == before[s]);
    assert(after[place] == Some(i as u32));
    assert(forall|s: int| place < s < len ==> #[trigger] after[s] == before[s - 1]);
    if place > 0 {
        // The slot before the place is filled, and so are all before it.
        assert(before[place - 1] is Some);
        assert(counts(scores, before[place - 1]->0 as int));
    }
    assert forall|s: int| 0 <= s < place implies ranks_before(
        scores,
        (#[trigger] before[s])->0 as int,
        i,
    ) && before[s] is Some by {
        if s < place - 1 {
            assert(before[place - 1] is Some);
            assert(ranks_before(scores, before[s]->0 as int, before[place - 1]->0 as int));
        }
        assert(counts(scores, before[s]->0 as int));
    }
    assert forall|s: int, t: int|
        0 <= s < t < after.len() && #[trigger] after[t] is Some implies #[trigger] after[s] is Some
        && ranks_before(scores, after[s]->0 as int, after[t]->0 as int) by {
        if t < place {
            assert(before[t] is Some);
        } else if t == place {
            assert(before[s] is Some);
        } else {
            assert(before[t - 1] is Some);
            if s < place {
                assert(before[s] is Some);
            } else if s > place {
                assert(before[s - 1] is Some);
            }
        }
    }
    assert forall|k: u32|
        k < i + 1 && counts(scores, k as int) && !(#[trigger] after.contains(Some(k))) implies after.last() is Some
        && ranks_before(scores, after.last()->0 as int, k as int) by {
        assert(after[place] == Some(i as u32));
        assert(k != i);
        if before.contains(Some(k)) {
            let s = choose|s: int| 0 <= s < before.len() && before[s] == Some(k);
            if s < place {
                assert(after[s] == Some(k));
            } else if s < len - 1 {
                assert(after[s + 1] == Some(k));
            } else {
                // It was in the slot that is dropped.
                assert(before[len - 1] == Some(k));
                if place == len - 1 {
                    assert(after.last() == Some(i as u32));
                } else {
                    assert(after.last() == before[len - 2]);
                    assert(before[len - 2] is Some);
                }
            }
        } else {
            assert(before.last() is Some);
            let last = before.last()->0;
            assert(ranks_before(scores, last as int, k as int));
            assert(counts(scores, last as int));
            if place == len - 1 {
                assert(after.last() == Some(i as u32));
                assert(before[place] matches Some(x) && float_bits::less(scores[x as int], scores[i]));
            } else {
                assert(after.last() == before[len - 2]);
                assert(before[len - 1] is Some);
                assert(ranks_before(scores, before[len - 2]->0 as int, last as int));
            }
        }
    }
    assert forall|s: int| 0 <= s < after.len() implies (#[trigger] after[s] matches Some(k) ==> k < i
        + 1 && counts(scores, k as int)) by {
        if s < place {
            assert(after[s] == before[s]);
        } else if s > place {
            assert(after[s] == before[s - 1]);
        }
    }
}

/// A light that does not beat the last slot changes nothing.
proof fn lemma_left_out(scores: Seq<u32>, i: int, lights: Seq<Option<u32>>)
    requires
        0 <= i < scores.len() <= u32::MAX,
        lights.len() > 0,
        holds_best(scores, i, lights),
        !float_bits::less(
            (match lights.last() {
                Some(k) => scores[k as int],
                None => 0,
            }),
            scores[i],
        ),
    ensures
        holds_best(scores, i + 1, lights),
{
    assert forall|k: u32|
        k < i + 1 && counts(scores, k as int) && !(#[trigger] lights.contains(Some(k))) implies lights.last() is Some
        && ranks_before(scores, lights.last()->0 as int, k as int) by {
        if k == i {
            assert(lights[lights.len() - 1] == lights.last());
            if let Some(last) = lights.last() {
                assert(counts(scores, last as int));
            }
        }
    }
}

/// There is only one way to hold the best lights.
pub proof fn law_ranking_is_unique(scores: Seq<u32>, n: int, a: Seq<Option<u32>>, b: Seq<Option<u32>>)
    requires
        0 <= n <= scores.len() <= u32::MAX,
        a.len() == b.len(),
        holds_best(scores, n, a),
        holds_best(scores, n, b),
    ensures
        a == b,
{
    assert forall|s: int| 0 <= s < a.len() implies a[s] == b[s] by {
        lemma_same_ranks(scores, n, a, b, s);
    }
    assert(a =~= b);
}

proof fn lemma_same_ranks(scores: Seq<u32>, n: int, a: Seq<Option<u32>>, b: Seq<Option<u32>>, s: int)
    requires
        0 <= n <= scores.len() <= u32::MAX,
        a.len() == b.len(),
        holds_best(scores, n, a),
        holds_best(scores, n, b),
        0 <= s < a.len(),
    ensures
        forall|t: int| 0 <= t <= s ==> a[t] == b[t],
    decreases s,
{
    if s > 0 {
        lemma_same_ranks(scores, n, a, b, s - 1);
    }
    if a[s] is Some {
        lemma_rank_not_later(scores, n, a, b, s);
    }
    if b[s] is Some {
        lemma_rank_not_later(scores, n, b, a, s);
    }
    if a[s] is Some && b[s] is Some {
        let x = a[s]->0;
        let y = b[s]->0;
        assert(counts(scores, x as int) && counts(scores, y as int));
    }
}

/// Where the slots before `s` agree, the other list's slot `s` holds a light
/// that ranks no later.
proof fn lemma_rank_not_later(scores: Seq<u32>, n: int, a: Seq<Option<u32>>, b: Seq<Option<u32>>, s: int)
    requires
        0 <= n <= scores.len() <= u32::MAX,
        a.len() == b.len(),
        holds_best(scores, n, a),
        holds_best(scores, n, b),
        0 <= s < a.len(),
        a[s] is Some,
        forall|t: int| 0 <= t < s ==> a[t] == b[t],
    ensures
        b[s] is Some,
        b[s] == a[s] || ranks_before(scores, b[s]->0 as int, a[s]->0 as int),
{
    let x = a[s]->0;
    assert(counts(scores, x as int));
    if b.contains(Some(x)) {
        let t = choose|t: int| 0 <= t < b.len() && b[t] == Some(x);
        if t < s {
            assert(a[t] == Some(x));
            assert(ranks_before(scores, a[t]->0 as int, a[s]->0 as int));
        } else if t > s {
            assert(b[t] is Some);
            assert(b[s] is Some);
        }
    } else {
        assert(b.last() is Some);
        assert(b[b.len() - 1] is Some);
        if s < b.len() - 1 {
            assert(b[s] is Some);
            assert(ranks_before(scores, b[s]->0 as int, b.last()->0 as int));
        }
        assert(counts(scores, b[s]->0 as int));
        assert(counts(scores, b.last()->0 as int));
    }
}

// ---------------------------------------------------------------------------
// Selection churn

/// How many of the first `n` slots are filled.
pub open spec fn filled(lights: Seq<Option<u32>>, n: nat) -> nat
    decreases n,
{
    if n == 0 {
        0
    } else {
        filled(lights, (n - 1) as nat) + (if lights[n - 1] is Some { 1nat } else { 0 })
    }
}

/// Number that a light had in the frame before, if it was there.
pub open spec fn earlier(remap: Seq<Option<u32>>, light: u32) -> Option<u32> {
    remap[light as int]
}

/// Whether a slot's light was selected in the frame before, or the slot is empty.
pub open spec fn kept(lights: Seq<Option<u32>>, before: Seq<Option<u32>>, remap: Seq<Option<u32>>, s: int) -> bool {
    match lights[s] {
        None => true,
        Some(light) => match earlier(remap, light) {
            None => false,
            Some(id) => slot_of(before, id) is Some,
        },
    }
}

/// Whether the selection is another one than in the frame before: a light is
/// new, or the number of lights has changed.
pub open spec fn churned(lights: Seq<Option<u32>>, before: Seq<Option<u32>>, remap: Seq<Option<u32>>) -> bool {
    (exists|s: int| 0 <= s < lights.len() && !#[trigger] kept(lights, before, remap, s)) || filled(
        lights,
        lights.len(),
    ) != filled(before, before.len())
}

/// Whether the selection is another one than in the frame before.
pub fn selection_changed(lights: &Vec<Option<u32>>, before: &Vec<Option<u32>>, remap: &Vec<Option<u32>>) -> (changed:
    bool)
    requires
        lights@.len() == before@.len(),
        forall|s: int|
            0 <= s < lights@.len() ==> (#[trigger] lights@[s] matches Some(light) ==> light
                < remap@.len()),
    ensures
        changed == churned(lights@, before@, remap@),
{
    let mut same: bool = true;
    let mut count: usize = 0;
    let mut count_before: usize = 0;
    let mut s: usize = 0;
    while s < lights.len()
        invariant
            lights@.len() == before@.len(),
            forall|s: int|
                0 <= s < lights@.len() ==> (#[trigger] lights@[s] matches Some(light) ==> light
                    < remap@.len()),
            s <= lights@.len(),
            same == (forall|k: int| 0 <= k < s ==> #[trigger] kept(lights@, before@, remap@, k)),
            count == filled(lights@, s as nat),
            count <= s,
            count_before == filled(before@, s as nat),
            count_before <= s,
        decreases lights@.len() - s,
    {
        if let Some(light) = lights[s] {
            count = count + 1;
            let found: bool = match remap[light as usize] {
                Some(id) => find_slot(before, id).is_some(),
                None => false,
            };
            assert(found == kept(lights@, before@, remap@, s as int));
            if !found {
                same = false;
            }
        } else {
            assert(kept(lights@, before@, remap@, s as int));
        }
        if before[s].is_some() {
            count_before = count_before + 1;
        }
        s = s + 1;
    }
    !same || count != count_before
}

/// The lights in slots.
pub open spec fn light_set(lights: Seq<Option<u32>>) -> Set<u32> {
    Set::new(|light: u32| lights.contains(Some(light)))
}

/// The selected lights under the numbers that they had in the frame before.
pub open spec fn earlier_set(lights: Seq<Option<u32>>, remap: Seq<Option<u32>>) -> Set<u32> {
    Set::new(
        |id: u32|
            exists|light: u32|
                #[trigger] lights.contains(Some(light)) && earlier(remap, light) == Some(id),
    )
}

/// Whether no light has two slots.
pub open spec fn no_repeats(lights: Seq<Option<u32>>) -> bool {
    forall|s: int, t: int|
        0 <= s < t < lights.len() && #[trigger] lights[s] is Some ==> lights[s] != #[trigger] lights[t]
}

proof fn lemma_set_size(lights: Seq<Option<u32>>, n: nat)
    requires
        no_repeats(lights),
        n <= lights.len(),
    ensures
        light_set(lights.take(n as int)).finite(),
        light_set(lights.take(n as int)).len() == filled(lights, n),
    decreases n,
{
    if n == 0 {
        assert(light_set(lights.take(0)) =~= Set::empty());
    } else {
        lemma_set_size(lights, (n - 1) as nat);
        let shorter = lights.take(n - 1);
        let longer = lights.take(n as int);
        assert(longer =~= shorter.push(lights[n - 1]));
        match lights[n - 1] {
            None => {
                assert(light_set(longer) =~= light_set(shorter)) by {
                    assert forall|light: u32| longer.contains(Some(light)) == shorter.contains(
                        Some(light),
                    ) by {
                        if longer.contains(Some(light)) {
                            let k = choose|k: int| 0 <= k < longer.len() && longer[k] == Some(light);
                            assert(shorter[k] == Some(light));
                        }
                        if shorter.contains(Some(light)) {
                            let k = choose|k: int|
                                0 <= k < shorter.len() && shorter[k] == Some(light);
                            assert(longer[k] == Some(light));
                        }
                    }
                }
            },
            Some(last) => {
                assert(light_set(longer) =~= light_set(shorter).insert(last)) by {
                    assert forall|light: u32|
                        longer.contains(Some(light)) == (shorter.contains(Some(light)) || light
                            == last) by {
                        if longer.contains(Some(light)) {
                            let k = choose|k: int| 0 <= k < longer.len() && longer[k] == Some(light);
                            if k < n - 1 {
                                assert(shorter[k] == Some(light));
                            }
                        }
                        if shorter.contains(Some(light)) {
                            let k = choose|k: int|
                                0 <= k < shorter.len() && shorter[k] == Some(light);
                            assert(longer[k] == Some(light));
                        }
                        assert(longer[n - 1] == Some(last));
                    }
                }
                if shorter.contains(Some(last)) {
                    let k = choose|k: int| 0 <= k < shorter.len() && shorter[k] == Some(last);
                    assert(lights[k] == lights[n - 1]);
                }
            },
        }
    }
}

proof fn lemma_earlier_set_size(lights: Seq<Option<u32>>, remap: Seq<Option<u32>>, n: nat)
    requires
        no_repeats(lights),
        n <= lights.len(),
        forall|light: u32| #[trigger] lights.contains(Some(light)) ==> earlier(remap, light) is Some,
        forall|a: u32, b: u32|
            #[trigger] lights.contains(Some(a)) && #[trigger] lights.contains(Some(b)) && earlier(remap, a) == earlier(remap, b) ==> a == b,
    ensures
        earlier_set(lights.take(n as int), remap).finite(),
        earlier_set(lights.take(n as int), remap).len() == filled(lights, n),
    decreases n,
{
    if n == 0 {
        assert(earlier_set(lights.take(0), remap) =~= Set::empty());
    } else {
        lemma_earlier_set_size(lights, remap, (n - 1) as nat);
        let shorter = lights.take(n - 1);
        let longer = lights.take(n as int);
        assert(longer =~= shorter.push(lights[n - 1]));
        assert forall|light: u32|
            longer.contains(Some(light)) == (shorter.contains(Some(light)) || lights[n - 1] == Some(light))
            by {
            if longer.contains(Some(light)) {
                let k = choose|k: int| 0 <= k < longer.len() && longer[k] == Some(light);
                if k < n - 1 {
                    assert(shorter[k] == Some(light));
                }
            }
            if shorter.contains(Some(light)) {
                let k = choose|k: int| 0 <= k < shorter.len() && shorter[k] == Some(light);
                assert(longer[k] == Some(light));
            }
            assert(longer[n - 1] == lights[n - 1]);
        }
        match lights[n - 1] {
            None => {
                assert(earlier_set(longer, remap) =~= earlier_set(shorter, remap));
            },
            Some(last) => {
                assert(lights.contains(Some(last))) by {
                    assert(lights[n - 1] == Some(last));
                }
                let id = earlier(remap, last)->0;
                assert(earlier_set(longer, remap) =~= earlier_set(shorter, remap).insert(id)) by {
                    assert(longer.contains(Some(last)));
                    assert forall|x: u32|
                        earlier_set(longer, remap).contains(x) == (earlier_set(shorter, remap).contains(
                            x,
                        ) || x == id) by {
                        if earlier_set(longer, remap).contains(x) {
                            let light = choose|light: u32|
                                #[trigger] longer.contains(Some(light)) && earlier(remap, light)
                                    == Some(x);
                            if light != last {
                                assert(shorter.contains(Some(light)));
                            }
                        }
                        if earlier_set(shorter, remap).contains(x) {
                            let light = choose|light: u32|
                                #[trigger] shorter.contains(Some(light)) && earlier(remap, light)
                                    == Some(x);
                            assert(longer.contains(Some(light)));
                        }
                    }
                }
                if earlier_set(shorter, remap).contains(id) {
                    let light = choose|light: u32|
                        #[trigger] shorter.contains(Some(light)) && earlier(remap, light) == Some(id);
                    let k = choose|k: int| 0 <= k < shorter.len() && shorter[k] == Some(light);
                    assert(lights[k] == Some(light));
                    assert(lights.contains(Some(light)));
                    assert(light == last);
                    assert(lights[k] == lights[n - 1]);
                }
            },
        }
    }
}

/// Equal numbers and one-way membership show that two selections are the same
/// set: unless the selection has changed, the lights of this frame are, under
/// their earlier numbers, just those of the frame before.
pub proof fn law_unchanged_selection_is_the_same_set(
    lights: Seq<Option<u32>>,
    before: Seq<Option<u32>>,
    remap: Seq<Option<u32>>,
)
    requires
        lights.len() == before.len(),
        no_repeats(lights),
        no_repeats(before),
        forall|a: u32, b: u32|
            #[trigger] lights.contains(Some(a)) && #[trigger] lights.contains(Some(b)) && earlier(remap, a) == earlier(remap, b) && earlier(remap, a) is Some ==> a == b,
        !churned(lights, before, remap),
    ensures
        earlier_set(lights, remap) == light_set(before),
{
    assert(lights.take(lights.len() as int) =~= lights);
    assert(before.take(before.len() as int) =~= before);
    assert forall|light: u32| #[trigger] lights.contains(Some(light)) implies earlier(remap, light) is Some
        && before.contains(earlier(remap, light)) by {
        let s = choose|s: int| 0 <= s < lights.len() && lights[s] == Some(light);
        assert(kept(lights, before, remap, s));
        lemma_slot_of(before, earlier(remap, light)->0);
    }
    lemma_set_size(before, before.len());
    lemma_earlier_set_size(lights, remap, lights.len());
    assert(earlier_set(lights, remap).subset_of(light_set(before)));
    vstd::set_lib::lemma_subset_equality(earlier_set(lights, remap), light_set(before));
}

// ---------------------------------------------------------------------------
// History

/// What is measured of an earlier answer in the current frame.
#[derive(Debug, Clone, Copy, PartialEq, Eq, Structural)]
pub struct HistoryProbe {
    /// The light has moved too far since the last frame.
    pub teleported: bool,
    /// The light has moved too far since the answer was proved.
    pub drifted: bool,
    /// There is a way to the light to be blocked.
    pub segment_active: bool,
    /// The camera still sees a surface where the blocker was hit.
    pub validated: bool,
}

/// What is counted.
#[derive(Debug, Clone, Copy, PartialEq, Eq, Structural)]
pub enum ShadowEvent {
    Validated,
    Reused,
    Invalidated,
    Contact,
    Promoted,
    Blind,
    Churn,
    Active,
}

/// What history says of a slot.
#[derive(Debug, Clone, Copy, PartialEq, Eq, Structural)]
pub struct HistoryAnswer {
    /// An answer that holds.
    pub answered: Option<SlotState>,
    /// An answer that serves until it is proved again, at low priority.
    pub carried: Option<SlotState>,
    pub event: Option<ShadowEvent>,
}

/// History has nothing to say.
pub open spec fn no_history(event: Option<ShadowEvent>) -> HistoryAnswer {
    HistoryAnswer { answered: None, carried: None, event }
}

/// An age one frame later, up to the largest one.
pub open spec fn capped_age(before: SlotState, limits: ShadowLimits) -> u32 {
    if before.age + 1 <= limits.age_max {
        (before.age + 1) as u32
    } else {
        limits.age_max
    }
}

/// Frames for which a blocker that the camera can not see is believed in; zero means forever.
pub open spec fn leash(before: SlotState, drifted: bool, limits: ShadowLimits) -> u32 {
    if limits.occluded_refresh == 0 {
        0
    } else if before.dynamic || drifted {
        limits.dynamic_leash
    } else {
        limits.occluded_refresh
    }
}

/// What an earlier answer is worth now.
pub open spec fn history_of(before: Option<SlotState>, probe: HistoryProbe, limits: ShadowLimits) -> HistoryAnswer {
    match before {
        None => no_history(Some(ShadowEvent::Invalidated)),
        Some(before) => {
            let age = before.age + 1;
            match before.state {
                ShadowState::Occluded => if before.blind {
                    let again = SlotState {
                        state: ShadowState::Occluded,
                        blind: true,
                        dynamic: before.dynamic,
                        age: capped_age(before, limits),
                        hit_q: before.hit_q,
                    };
                    let expired = leash(before, probe.drifted, limits) != 0 && age >= leash(
                        before,
                        probe.drifted,
                        limits,
                    );
                    if probe.teleported {
                        no_history(Some(ShadowEvent::Invalidated))
                    } else if !expired {
                        HistoryAnswer {
                            answered: Some(again),
                            carried: None,
                            event: Some(ShadowEvent::Blind),
                        }
                    } else if before.dynamic || probe.drifted {
                        no_history(Some(ShadowEvent::Invalidated))
                    } else {
                        HistoryAnswer { answered: None, carried: Some(again), event: None }
                    }
                } else if !probe.segment_active || !probe.validated || probe.drifted {
                    no_history(Some(ShadowEvent::Invalidated))
                } else {
                    let again = SlotState {
                        state: ShadowState::Occluded,
                        blind: false,
                        dynamic: false,
                        age: capped_age(before, limits),
                        hit_q: before.hit_q,
                    };
                    if limits.occluded_refresh != 0 && age >= limits.occluded_refresh {
                        HistoryAnswer {
                            answered: None,
                            carried: Some(again),
                            event: Some(ShadowEvent::Validated),
                        }
                    } else {
                        HistoryAnswer {
                            answered: Some(again),
                            carried: None,
                            event: Some(ShadowEvent::Validated),
                        }
                    }
                },
                ShadowState::Visible => if probe.teleported {
                    no_history(Some(ShadowEvent::Invalidated))
                } else if age < limits.refresh_interval && !probe.drifted {
                    HistoryAnswer {
                        answered: Some(SlotState::plain(ShadowState::Visible, age as u32, 0)),
                        carried: None,
                        event: Some(ShadowEvent::Reused),
                    }
                } else {
                    HistoryAnswer {
                        answered: None,
                        carried: Some(
                            SlotState::plain(ShadowState::Visible, capped_age(before, limits), 0),
                        ),
                        event: None,
                    }
                },
                _ => no_history(None),
            }
        },
    }
}

/// Answers a slot from history.
///
/// A slot that gets neither an answer nor a carried estimate has to be traced
/// at high priority; a carried estimate at low priority.
pub fn history_answer(before: Option<SlotState>, probe: HistoryProbe, limits: &ShadowLimits) -> (answer:
    HistoryAnswer)
    requires
        before matches Some(b) ==> b.age < u32::MAX,
    ensures
        answer == history_of(before, probe, *limits),
{
    let invalid: HistoryAnswer = HistoryAnswer {
        answered: None,
        carried: None,
        event: Some(ShadowEvent::Invalidated),
    };
    let before: SlotState = match before {
        Some(before) => before,
        None => return invalid,
    };
    let age: u32 = before.age + 1;
    let capped: u32 = if age <= limits.age_max { age } else { limits.age_max };
    match before.state {
        ShadowState::Occluded => {
            if before.blind {
                // The camera can not check the blocker: bound its reuse by age.
                if probe.teleported {
                    return invalid;
                }
                let short: bool = before.dynamic || probe.drifted;
                let leash: u32 = if limits.occluded_refresh == 0 {
                    0
                } else if short {
                    limits.dynamic_leash
                } else {
                    limits.occluded_refresh
                };
                let again: SlotState = SlotState {
                    state: ShadowState::Occluded,
                    blind: true,
                    dynamic: before.dynamic,
                    age: capped,
                    hit_q: before.hit_q,
                };
                if leash != 0 && age >= leash {
                    if short {
                        return invalid;
                    }
                    return HistoryAnswer { answered: None, carried: Some(again), event: None };
                }
                return HistoryAnswer {
                    answered: Some(again),
                    carried: None,
                    event: Some(ShadowEvent::Blind),
                };
            }
            if probe.segment_active && probe.validated {
                if probe.drifted {
                    return invalid;
                }
                let again: SlotState = SlotState::plain(ShadowState::Occluded, capped, before.hit_q);
                if limits.occluded_refresh != 0 && age >= limits.occluded_refresh {
                    return HistoryAnswer {
                        answered: None,
                        carried: Some(again),
                        event: Some(ShadowEvent::Validated),
                    };
                }
                return HistoryAnswer {
                    answered: Some(again),
                    carried: None,
                    event: Some(ShadowEvent::Validated),
                };
            }
            invalid
        },
        ShadowState::Visible => {
            if probe.teleported {
                return invalid;
            }
            if age < limits.refresh_interval && !probe.drifted {
                return HistoryAnswer {
                    answered: Some(SlotState::plain(ShadowState::Visible, age, 0)),
                    carried: None,
                    event: Some(ShadowEvent::Reused),
                };
            }
            HistoryAnswer {
                answered: None,
                carried: Some(SlotState::plain(ShadowState::Visible, capped, 0)),
                event: None,
            }
        },
        _ => HistoryAnswer { answered: None, carried: None, event: None },
    }
}

/// History is never trusted without bounds: a reused visible answer is younger
/// than the refresh interval and its light has not drifted; a reused occlusion
/// is younger than its refresh age, where there is one, and was validated this
/// frame unless the camera can not see its blocker; and nothing is reused
/// across a jump of the light, but for validated occlusions.
pub proof fn law_history_is_bounded(before: SlotState, probe: HistoryProbe, limits: ShadowLimits)
    requires
        before.age < u32::MAX,
        history_of(Some(before), probe, limits).answered is Some,
    ensures
        ({
            let answer = history_of(Some(before), probe, limits).answered->0;
            &&& answer.state == before.state
            &&& answer.state == ShadowState::Visible || answer.state == ShadowState::Occluded
            &&& answer.state == ShadowState::Visible ==> answer.age < limits.refresh_interval
                && !probe.drifted && !probe.teleported
            &&& answer.state == ShadowState::Occluded && !answer.blind ==> probe.validated
                && !probe.drifted
            &&& answer.state == ShadowState::Occluded && limits.occluded_refresh != 0 ==> {
                ||| answer.age < limits.occluded_refresh
                ||| (answer.dynamic || probe.drifted) && (limits.dynamic_leash == 0 || answer.age
                    < limits.dynamic_leash)
            }
            &&& answer.blind ==> !probe.teleported
            &&& history_of(Some(before), probe, limits).carried is None
        }),
{
}

/// The earlier answer about a light at a texel of the frame before: none without a
/// texel, or if the light was not there or had no slot.
pub open spec fn earlier_answer(
    prev: SlotField,
    texel: Option<usize>,
    remap: Seq<Option<u32>>,
    light: u32,
) -> Option<SlotState> {
    match texel {
        None => None,
        Some(t) => match earlier(remap, light) {
            None => None,
            Some(id) => prev.answer(t as int, id),
        },
    }
}

/// Looks up the earlier answer about a light.
pub fn find_history(prev: &SlotField, texel: Option<usize>, remap: &Vec<Option<u32>>, light: u32) -> (before:
    Option<SlotState>)
    requires
        prev.wf(),
        texel matches Some(t) ==> t < prev.texels@.len(),
        light < remap@.len(),
    ensures
        before == earlier_answer(*prev, texel, remap@, light),
{
    match texel {
        None => None,
        Some(t) => match remap[light as usize] {
            None => None,
            Some(id) => prev.answer_at(t, id),
        },
    }
}

// ---------------------------------------------------------------------------
// Requests

/// Which queue a request goes to.
#[derive(Debug, Clone, Copy, PartialEq, Eq, Structural)]
pub enum Priority {
    High,
    Low,
}

/// The two queues of trace requests.
pub struct RequestQueues {
    /// Requests that each queue can hold.
    pub capacity: u32,
    pub high: Vec<u32>,
    pub low: Vec<u32>,
    /// Requests that found no room.
    pub overflow: u32,
}

/// Model of the queues.
pub struct QueuesModel {
    pub capacity: u32,
    pub high: Seq<u32>,
    pub low: Seq<u32>,
    pub overflow: u32,
}

impl View for RequestQueues {
    type V = QueuesModel;

    open spec fn view(&self) -> QueuesModel {
        QueuesModel {
            capacity: self.capacity,
            high: self.high@,
            low: self.low@,
            overflow: self.overflow,
        }
    }
}

impl QueuesModel {
    /// Whether a queue has room.
    pub open spec fn has_room(self, priority: Priority) -> bool {
        match priority {
            Priority::High => self.high.len() < self.capacity,
            Priority::Low => self.low.len() < self.capacity,
        }
    }

    /// The queues after a request has been made.
    pub open spec fn with(self, id: u32, priority: Priority) -> QueuesModel {
        if !self.has_room(priority) {
            QueuesModel {
                overflow: if self.overflow == u32::MAX {
                    0
                } else {
                    (self.overflow + 1) as u32
                },
                ..self
            }
        } else {
            match priority {
                Priority::High => QueuesModel { high: self.high.push(id), ..self },
                Priority::Low => QueuesModel { low: self.low.push(id), ..self },
            }
        }
    }
}

/// Appends a request to its queue; a request that finds no room is only counted.
pub fn enqueue_request(queues: &mut RequestQueues, id: u32, priority: Priority) -> (queued: bool)
    ensures
        queued == old(queues)@.has_room(priority),
        final(queues)@ == old(queues)@.with(id, priority),
{
    match priority {
        Priority::High => {
            if queues.high.len() < queues.capacity as usize {
                queues.high.push(id);
                return true;
            }
        },
        Priority::Low => {
            if queues.low.len() < queues.capacity as usize {
                queues.low.push(id);
                return true;
            }
        },
    }
    queues.overflow = queues.overflow.wrapping_add(1);
    false
}

/// How many requests are served, and by how many groups of threads.
#[derive(Debug, Clone, Copy, PartialEq, Eq, Structural)]
pub struct TraceDispatch {
    pub serviced_high: u32,
    pub serviced_low: u32,
    /// Groups of threads to dispatch.
    pub groups: u32,
}

/// The smaller of two numbers.
pub open spec fn smaller(a: int, b: int) -> int {
    if a <= b {
        a
    } else {
        b
    }
}

/// Rays that may be traced; zero in the configuration means all.
pub open spec fn budget(ray_budget: u32) -> int {
    if ray_budget == 0 {
        u32::MAX as int
    } else {
        ray_budget as int
    }
}

/// High-priority requests that are served.
pub open spec fn served_high(requests_high: u32, queue_capacity: u32, ray_budget: u32) -> int {
    smaller(smaller(requests_high as int, queue_capacity as int), budget(ray_budget))
}

/// Low-priority requests that are served, out of what the others have left of the budget.
pub open spec fn served_low(
    requests_high: u32,
    requests_low: u32,
    queue_capacity: u32,
    ray_budget: u32,
) -> int {
    smaller(
        smaller(requests_low as int, queue_capacity as int),
        budget(ray_budget) - served_high(requests_high, queue_capacity, ray_budget),
    )
}

/// Tracing stays within its budget, serves no low-priority request while a
/// queued high-priority one is left over, and leaves a queued request over only
/// if the budget is used up.
pub proof fn law_budget_is_kept(
    requests_high: u32,
    requests_low: u32,
    queue_capacity: u32,
    ray_budget: u32,
)
    ensures
        ({
            let high = served_high(requests_high, queue_capacity, ray_budget);
            let low = served_low(requests_high, requests_low, queue_capacity, ray_budget);
            let queued_high = smaller(requests_high as int, queue_capacity as int);
            let queued_low = smaller(requests_low as int, queue_capacity as int);
            &&& 0 <= high <= queued_high
            &&& 0 <= low <= queued_low
            &&& high + low <= budget(ray_budget)
            &&& low > 0 ==> high == queued_high
            &&& high + low < queued_high + queued_low ==> high + low == budget(ray_budget)
        }),
{
}

/// Plans the trace dispatch: high-priority requests first, then low-priority
/// ones, as far as queues and budget go.
pub fn local_shadow_args(
    requests_high: u32,
    requests_low: u32,
    queue_capacity: u32,
    ray_budget: u32,
    group_size: u32,
) -> (dispatch: TraceDispatch)
    requires
        group_size > 0,
    ensures
        dispatch.serviced_high == served_high(requests_high, queue_capacity, ray_budget),
        dispatch.serviced_low == served_low(
            requests_high,
            requests_low,
            queue_capacity,
            ray_budget,
        ),
        dispatch.groups == (dispatch.serviced_high + dispatch.serviced_low + group_size - 1)
            / (group_size as int),
{
    let high: u32 = if requests_high <= queue_capacity { requests_high } else { queue_capacity };
    let low: u32 = if requests_low <= queue_capacity { requests_low } else { queue_capacity };
    let budget: u32 = if ray_budget == 0 { u32::MAX } else { ray_budget };
    let serviced_high: u32 = if high <= budget { high } else { budget };
    let rest: u32 = budget - serviced_high;
    let serviced_low: u32 = if low <= rest { low } else { rest };
    let total: u32 = serviced_high + serviced_low;
    let groups: u64 = (total as u64 + group_size as u64 - 1) / (group_size as u64);
    proof {
        let x: int = total + group_size - 1;
        let d: int = group_size as int;
        vstd::arithmetic::div_mod::lemma_fundamental_div_mod(x, d);
        vstd::arithmetic::div_mod::lemma_mod_bound(x, d);
        let q: int = x / d;
        assert(q <= total) by (nonlinear_arith)
            requires
                x == d * q + x % d,
                x == total + d - 1,
                0 <= x % d,
                d >= 1,
                total >= 0,
        ;
    }
    TraceDispatch { serviced_high, serviced_low, groups: groups as u32 }
}

// ---------------------------------------------------------------------------
// Selection

/// What is known of a slot when its turn comes.
#[derive(Debug, Clone, Copy, PartialEq, Eq, Structural)]
pub enum SlotCase {
    /// No light has the slot.
    Empty,
    /// The texel lies on a shadow edge; this was answered before.
    Promoted { before: Option<SlotState> },
    /// What history says, and where a short march near the surface was blocked.
    Regular { history: HistoryAnswer, contact: Option<u32> },
}

/// What is written to a slot, and whether it is to be traced.
#[derive(Debug, Clone, Copy)]
pub struct SlotPlan {
    pub state: SlotState,
    pub request: Option<Priority>,
    pub events: (Option<ShadowEvent>, Option<ShadowEvent>),
}

/// Visibility that nothing has proved yet.
pub open spec fn unproved(limits: ShadowLimits) -> SlotState {
    SlotState::plain(ShadowState::Visible, limits.age_max, 0)
}

/// Plan of a slot.
///
/// Edges are proved again in any case, with the earlier answer standing in
/// meanwhile. Otherwise an answer from history or from the march is final, a
/// carried estimate is refreshed at low priority, and anything else is taken
/// to be visible until it is traced at high priority.
pub open spec fn plan_of(case: SlotCase, limits: ShadowLimits) -> SlotPlan {
    match case {
        SlotCase::Empty => SlotPlan {
            state: SlotState::plain(ShadowState::Inactive, 0, 0),
            request: None,
            events: (None, None),
        },
        SlotCase::Promoted { before } => SlotPlan {
            state: match before {
                Some(before) => if before.state == ShadowState::Visible || before.state
                    == ShadowState::Occluded {
                    before
                } else {
                    unproved(limits)
                },
                None => unproved(limits),
            },
            request: Some(Priority::High),
            events: (Some(ShadowEvent::Promoted), None),
        },
        SlotCase::Regular { history, contact } => match (history.answered, contact) {
            (Some(answer), _) => SlotPlan {
                state: answer,
                request: None,
                events: (history.event, None),
            },
            (None, Some(hit_q)) => SlotPlan {
                state: SlotState::plain(ShadowState::Occluded, 0, hit_q),
                request: None,
                events: (history.event, Some(ShadowEvent::Contact)),
            },
            (None, None) => match history.carried {
                Some(carried) => SlotPlan {
                    state: carried,
                    request: Some(Priority::Low),
                    events: (history.event, None),
                },
                None => SlotPlan {
                    state: unproved(limits),
                    request: Some(Priority::High),
                    events: (history.event, None),
                },
            },
        },
    }
}

/// Plans a slot.
pub fn plan_slot(case: SlotCase, limits: &ShadowLimits) -> (plan: SlotPlan)
    ensures
        plan == plan_of(case, *limits),
{
    let unproved: SlotState = SlotState::plain(ShadowState::Visible, limits.age_max, 0);
    match case {
        SlotCase::Empty => SlotPlan {
            state: SlotState::plain(ShadowState::Inactive, 0, 0),
            request: None,
            events: (None, None),
        },
        SlotCase::Promoted { before } => {
            let mut state: SlotState = unproved;
            if let Some(before) = before {
                if before.state == ShadowState::Visible || before.state == ShadowState::Occluded {
                    state = before;
                }
            }
            SlotPlan {
                state,
                request: Some(Priority::High),
                events: (Some(ShadowEvent::Promoted), None),
            }
        },
        SlotCase::Regular { history, contact } => {
            if let Some(answer) = history.answered {
                return SlotPlan { state: answer, request: None, events: (history.event, None) };
            }
            if let Some(hit_q) = contact {
                return SlotPlan {
                    state: SlotState::plain(ShadowState::Occluded, 0, hit_q),
                    request: None,
                    events: (history.event, Some(ShadowEvent::Contact)),
                };
            }
            match history.carried {
                Some(carried) => SlotPlan {
                    state: carried,
                    request: Some(Priority::Low),
                    events: (history.event, None),
                },
                None => SlotPlan {
                    state: unproved,
                    request: Some(Priority::High),
                    events: (history.event, None),
                },
            }
        },
    }
}

/// Slots written so far, with the queues and the events counted on the way.
pub struct SlotsModel {
    pub states: Seq<SlotState>,
    pub fractions: Seq<u32>,
    pub queues: QueuesModel,
    pub events: Seq<ShadowEvent>,
}

/// A list of events with one more, if there is one.
pub open spec fn logged(events: Seq<ShadowEvent>, event: Option<ShadowEvent>) -> Seq<ShadowEvent> {
    match event {
        Some(event) => events.push(event),
        None => events,
    }
}

impl SlotsModel {
    /// Writes the next slot. A slot whose request finds no room fails, fully lit.
    pub open spec fn write(self, plan: SlotPlan, id: u32, limits: ShadowLimits) -> SlotsModel {
        let events = logged(logged(self.events, plan.events.0), plan.events.1);
        match plan.request {
            None => SlotsModel {
                states: self.states.push(plan.state),
                fractions: self.fractions.push(fraction_of(plan.state, limits)),
                queues: self.queues,
                events,
            },
            Some(priority) => if self.queues.has_room(priority) {
                SlotsModel {
                    states: self.states.push(plan.state),
                    fractions: self.fractions.push(fraction_of(plan.state, limits)),
                    queues: self.queues.with(id, priority),
                    events,
                }
            } else {
                SlotsModel {
                    states: self.states.push(SlotState::plain(ShadowState::Failed, 0, 0)),
                    fractions: self.fractions.push(limits.fraction_one),
                    queues: self.queues.with(id, priority),
                    events,
                }
            },
        }
    }
}

/// What selection writes for one texel.
pub struct TexelResult {
    pub representative: Option<Representative>,
    pub lights: Vec<Option<u32>>,
    pub states: Vec<SlotState>,
    pub fractions: Vec<u32>,
    /// What is to be counted.
    pub events: Vec<ShadowEvent>,
}

fn log_event(events: &mut Vec<ShadowEvent>, event: Option<ShadowEvent>)
    ensures
        final(events)@ == logged(old(events)@, event),
{
    if let Some(event) = event {
        events.push(event);
    }
}

fn write_slot(out: &mut TexelResult, queues: &mut RequestQueues, plan: SlotPlan, id: u32, limits: &ShadowLimits)
    ensures
        final(out).representative == old(out).representative,
        final(out).lights == old(out).lights,
        ({
            let after = (SlotsModel {
                states: old(out).states@,
                fractions: old(out).fractions@,
                queues: old(queues)@,
                events: old(out).events@,
            }).write(plan, id, *limits);
            &&& final(out).states@ == after.states
            &&& final(out).fractions@ == after.fractions
            &&& final(queues)@ == after.queues
            &&& final(out).events@ == after.events
        }),
{
    log_event(&mut out.events, plan.events.0);
    log_event(&mut out.events, plan.events.1);
    let served: bool = match plan.request {
        None => true,
        Some(priority) => enqueue_request(queues, id, priority),
    };
    if served {
        out.states.push(plan.state);
        out.fractions.push(slot_fraction(&plan.state, limits));
    } else {
        out.states.push(SlotState::plain(ShadowState::Failed, 0, 0));
        out.fractions.push(limits.fraction_one);
    }
}

/// Where the frame before saw a surface, as bit patterns.
#[derive(Debug, Clone, Copy, PartialEq, Eq, Structural)]
pub struct Reprojection {
    /// The place in the frame before's clip space.
    pub clip_w: u32,
    pub x: u32,
    pub y: u32,
    pub z: u32,
    /// The pixel that it falls on.
    pub pixel_x: u32,
    pub pixel_y: u32,
    /// How far the depth that is stored there lies from the expected one, and
    /// how far it may.
    pub raw_distance: u32,
    pub raw_limit: u32,
    /// The same for the depths as distances from the camera.
    pub linear_distance: u32,
    pub linear_limit: u32,
}

impl Reprojection {
    /// Whether the frame before could see the place.
    pub open spec fn is_seen(self) -> bool {
        &&& float_bits::less(CLIP_W_MIN, self.clip_w)
        &&& float_bits::at_most(MINUS_ONE, self.x)
        &&& float_bits::at_most(self.x, PLUS_ONE)
        &&& float_bits::at_most(MINUS_ONE, self.y)
        &&& float_bits::at_most(self.y, PLUS_ONE)
        &&& float_bits::less(0, self.z)
        &&& float_bits::at_most(self.z, PLUS_ONE)
    }

    /// Whether the stored depth is close enough by either measure.
    pub open spec fn depth_matches(self) -> bool {
        float_bits::at_most(self.raw_distance, self.raw_limit) || float_bits::at_most(
            self.linear_distance,
            self.linear_limit,
        )
    }

    /// The texel that the pixel lies in, held within a field.
    pub open spec fn texel(self, field: SlotField) -> int {
        let x = self.pixel_x as int / 2;
        let y = self.pixel_y as int / 2;
        (if y < field.height { y } else { field.height - 1 }) * field.width + (if x < field.width {
            x
        } else {
            field.width - 1
        })
    }
}

/// The texel of the frame before that shows the same surface: the place was
/// seen, and what is stored there has about its depth.
pub open spec fn reprojected_texel(at: Reprojection, field: SlotField, depths: Seq<u32>) -> Option<usize> {
    if at.is_seen() && float_bits::less(0, depths[at.texel(field)]) && at.depth_matches() {
        Some(at.texel(field) as usize)
    } else {
        None
    }
}

/// Finds the texel of the frame before that shows the same surface.
pub fn reproject(at: &Reprojection, field: &SlotField, depths: &Vec<u32>) -> (texel: Option<usize>)
    requires
        field.wf(),
        depths@.len() == field.texels@.len(),
    ensures
        texel == reprojected_texel(*at, *field, depths@),
        texel matches Some(t) ==> t < field.texels@.len() && t == at.texel(*field),
{
    if !(float_bits::is_less(CLIP_W_MIN, at.clip_w) && float_bits::is_at_most(MINUS_ONE, at.x)
        && float_bits::is_at_most(at.x, PLUS_ONE) && float_bits::is_at_most(MINUS_ONE, at.y)
        && float_bits::is_at_most(at.y, PLUS_ONE) && float_bits::is_less(0, at.z)
        && float_bits::is_at_most(at.z, PLUS_ONE)) {
        return None;
    }
    let half_x: usize = (at.pixel_x / 2) as usize;
    let half_y: usize = (at.pixel_y / 2) as usize;
    let x: usize = if half_x < field.width {
        half_x
    } else {
        field.width - 1
    };
    let y: usize = if half_y < field.height {
        half_y
    } else {
        field.height - 1
    };
    let total: usize = depths.len();
    proof {
        lemma_texel_within(x as int, y as int, field.width as int, field.height as int);
        assert(0 <= y * field.width) by (nonlinear_arith);
        assert(y * field.width + x < total);
    }
    let t: usize = y * field.width + x;
    if float_bits::is_less(0, depths[t]) && (float_bits::is_at_most(at.raw_distance, at.raw_limit)
        || float_bits::is_at_most(at.linear_distance, at.linear_limit)) {
        Some(t)
    } else {
        None
    }
}

/// What selection reads of one texel.
pub struct SelectInput {
    pub texel_x: u32,
    pub texel_y: u32,
    pub screen_width: u32,
    pub screen_height: u32,
    /// The surface buffers at the texel's four corners.
    pub samples: Vec<CornerSample>,
    /// Whether there is a frame before to reuse.
    pub history_valid: bool,
    /// Whether shadow edges are proved again every frame.
    pub edge_promotion: bool,
    /// Where the frame before saw the texel's surface.
    pub reprojection: Reprojection,
    /// For each texel of the frame before, the depth of its representative; zero
    /// where it had none.
    pub stored_depths: Vec<u32>,
    /// What each light adds to the surface.
    pub scores: Vec<u32>,
    /// Number of each light in the frame before.
    pub remap: Vec<Option<u32>>,
    /// What is measured of each light's earlier answer.
    pub probes: Vec<HistoryProbe>,
    /// Where a short march towards each light is blocked.
    pub contacts: Vec<Option<u32>>,
}

impl SelectInput {
    /// Whether everything that selection reads is there.
    pub open spec fn wf(self, prev: SlotField, limits: ShadowLimits) -> bool {
        &&& prev.wf()
        &&& prev.slots > 0
        &&& self.texel_x < prev.width
        &&& self.texel_y < prev.height
        &&& prev.width * prev.height * prev.slots <= u32::MAX
        &&& self.samples@.len() == 4
        &&& self.scores@.len() <= u32::MAX
        &&& self.remap@.len() == self.scores@.len()
        &&& self.probes@.len() == self.scores@.len()
        &&& self.contacts@.len() == self.scores@.len()
        &&& self.stored_depths@.len() == prev.texels@.len()
        &&& forall|t: int, s: int|
            0 <= t < prev.texels@.len() && 0 <= s < prev.slots ==> (
            #[trigger] prev.texels@[t].states@[s]).age < u32::MAX
    }

    /// Whether history may be reused at all.
    pub open spec fn reuses(self, limits: ShadowLimits) -> bool {
        self.history_valid && limits.refresh_interval != 0
    }

    /// The texel of the frame before that shows the same surface, if it is known.
    pub open spec fn reprojected(self, prev: SlotField) -> Option<usize> {
        reprojected_texel(self.reprojection, prev, self.stored_depths@)
    }

    /// The texel's place in its field.
    pub open spec fn index(self, prev: SlotField) -> int {
        self.texel_y * prev.width + self.texel_x
    }

    /// The texel that history is looked for around: the reprojected one, else
    /// the texel itself.
    pub open spec fn history_texel(self, prev: SlotField, limits: ShadowLimits) -> int {
        if self.reuses(limits) && self.reprojected(prev) is Some {
            self.reprojected(prev)->0 as int
        } else {
            self.index(prev)
        }
    }

    /// Whether the texel lies on an edge of the shadow of the light that
    /// mattered most to it.
    pub open spec fn promoted(self, prev: SlotField, limits: ShadowLimits) -> bool {
        let t = self.history_texel(prev, limits);
        self.reuses(limits) && self.edge_promotion && match prev.texels@[t].lights@[0] {
            None => false,
            Some(light) => {
                let x = t % (prev.width as int);
                let y = t / (prev.width as int);
                ring_has(prev, x, y, light, ShadowState::Visible, 9) && ring_has(
                    prev,
                    x,
                    y,
                    light,
                    ShadowState::Occluded,
                    9,
                )
            },
        }
    }

    /// What is known of a slot when its turn comes.
    pub open spec fn slot_case(self, prev: SlotField, limits: ShadowLimits, light: Option<u32>) -> SlotCase {
        match light {
            None => SlotCase::Empty,
            Some(light) => if self.promoted(prev, limits) {
                SlotCase::Promoted {
                    before: earlier_answer(
                        prev,
                        Some(self.history_texel(prev, limits) as usize),
                        self.remap@,
                        light,
                    ),
                }
            } else {
                SlotCase::Regular {
                    history: if self.reuses(limits) {
                        history_of(
                            earlier_answer(prev, self.reprojected(prev), self.remap@, light),
                            self.probes@[light as int],
                            limits,
                        )
                    } else {
                        no_history(None)
                    },
                    contact: self.contacts@[light as int],
                }
            },
        }
    }

    /// What is counted before the slots have their turn: a changed selection.
    pub open spec fn churn_events(self, prev: SlotField, limits: ShadowLimits, lights: Seq<Option<u32>>) -> Seq<ShadowEvent> {
        if self.reuses(limits) && self.reprojected(prev) is Some && churned(
            lights,
            prev.texels@[self.reprojected(prev)->0 as int].lights@,
            self.remap@,
        ) {
            seq![ShadowEvent::Churn]
        } else {
            Seq::empty()
        }
    }

    /// The first `n` slots, written.
    pub open spec fn slots_after(
        self,
        prev: SlotField,
        limits: ShadowLimits,
        lights: Seq<Option<u32>>,
        queues: QueuesModel,
        n: nat,
    ) -> SlotsModel
        decreases n,
    {
        if n == 0 {
            SlotsModel {
                states: Seq::empty(),
                fractions: Seq::empty(),
                queues,
                events: self.churn_events(prev, limits, lights),
            }
        } else {
            self.slots_after(prev, limits, lights, queues, (n - 1) as nat).write(
                plan_of(self.slot_case(prev, limits, lights[n - 1]), limits),
                (self.index(prev) * prev.slots + n - 1) as u32,
                limits,
            )
        }
    }

    /// Finds out whether the texel lies on a shadow edge.
    fn is_promoted(&self, prev: &SlotField, limits: &ShadowLimits, history_texel: usize) -> (promoted: bool)
        requires
            self.wf(*prev, *limits),
            history_texel == self.history_texel(*prev, *limits),
            history_texel < prev.texels@.len(),
        ensures
            promoted == self.promoted(*prev, *limits),
    {
        if !(self.history_valid && limits.refresh_interval != 0 && self.edge_promotion) {
            return false;
        }
        assert(prev.texels@[history_texel as int].lights@.len() == prev.slots);
        match prev.texels[history_texel].lights[0] {
            None => false,
            Some(light) => {
                let x: usize = history_texel % prev.width;
                let y: usize = history_texel / prev.width;
                proof {
                    let t = history_texel as int;
                    let w = prev.width as int;
                    vstd::arithmetic::div_mod::lemma_fundamental_div_mod(t, w);
                    vstd::arithmetic::div_mod::lemma_mod_bound(t, w);
                    let q = t / w;
                    assert(q < prev.height) by (nonlinear_arith)
                        requires
                            t == w * q + t % w,
                            0 <= t % w,
                            t < w * prev.height,
                            w > 0,
                    ;
                }
                edge_promoted(prev, x, y, light)
            },
        }
    }

    /// Finds out what is known of a slot.
    fn case_of(
        &self,
        prev: &SlotField,
        limits: &ShadowLimits,
        reprojected: Option<usize>,
        history_texel: usize,
        promoted: bool,
        light: Option<u32>,
    ) -> (case: SlotCase)
        requires
            self.wf(*prev, *limits),
            reprojected == self.reprojected(*prev),
            reprojected matches Some(t) ==> t < prev.texels@.len(),
            history_texel == self.history_texel(*prev, *limits),
            history_texel < prev.texels@.len(),
            promoted == self.promoted(*prev, *limits),
            light matches Some(light) ==> light < self.scores@.len(),
        ensures
            case == self.slot_case(*prev, *limits, light),
    {
        let light: u32 = match light {
            None => return SlotCase::Empty,
            Some(light) => light,
        };
        if promoted {
            return SlotCase::Promoted {
                before: find_history(prev, Some(history_texel), &self.remap, light),
            };
        }
        let history: HistoryAnswer = if self.history_valid && limits.refresh_interval != 0 {
            let before: Option<SlotState> = find_history(prev, reprojected, &self.remap, light);
            proof {
                lemma_earlier_age(*self, *prev, *limits, light);
            }
            history_answer(before, self.probes[light as usize], limits)
        } else {
            HistoryAnswer { answered: None, carried: None, event: None }
        };
        SlotCase::Regular { history, contact: self.contacts[light as usize] }
    }
}

/// Without a valid history or without a refresh interval nothing of the frame
/// before is reused: no edge is promoted, no selection counts as changed, every
/// slot is answered as if it had no history, and what is written depends neither
/// on the frame before nor on what is measured of it.
pub proof fn law_no_interval_means_no_reuse(
    input: SelectInput,
    prev: SlotField,
    other_input: SelectInput,
    other: SlotField,
    limits: ShadowLimits,
    lights: Seq<Option<u32>>,
    queues: QueuesModel,
    n: nat,
)
    requires
        !input.history_valid || limits.refresh_interval == 0,
        !other_input.history_valid || limits.refresh_interval == 0,
        other_input.texel_x == input.texel_x,
        other_input.texel_y == input.texel_y,
        other_input.contacts@ == input.contacts@,
        other.width == prev.width,
        other.slots == prev.slots,
    ensures
        !input.promoted(prev, limits),
        input.churn_events(prev, limits, lights) == Seq::<ShadowEvent>::empty(),
        forall|light: u32|
            #[trigger] input.slot_case(prev, limits, Some(light)) == (SlotCase::Regular {
                history: no_history(None),
                contact: input.contacts@[light as int],
            }),
        input.slots_after(prev, limits, lights, queues, n) == other_input.slots_after(
            other,
            limits,
            lights,
            queues,
            n,
        ),
    decreases n,
{
    if n > 0 {
        law_no_interval_means_no_reuse(
            input,
            prev,
            other_input,
            other,
            limits,
            lights,
            queues,
            (n - 1) as nat,
        );
    }
}

/// What history can not vouch for is traced at high priority in the same frame,
/// unless a march near the surface has found a blocker: a light or a surface
/// that was not there before, an occlusion that is not confirmed, and a jump of
/// the light. All of these count as invalidated.
pub proof fn law_refuted_history_is_traced(before: Option<SlotState>, probe: HistoryProbe, limits: ShadowLimits)
    requires
        before is None || (before->0.state == ShadowState::Occluded && !before->0.blind
            && !probe.validated) || (probe.teleported && (before->0.state == ShadowState::Visible
            || before->0.blind)),
        before matches Some(b) ==> b.state == ShadowState::Visible || b.state
            == ShadowState::Occluded,
    ensures
        history_of(before, probe, limits) == no_history(Some(ShadowEvent::Invalidated)),
        plan_of(
            SlotCase::Regular { history: history_of(before, probe, limits), contact: None },
            limits,
        ).request == Some(Priority::High),
{
}

/// Promotion to an edge adds rays and nothing else: whatever was answered
/// before, the slot is traced at high priority.
pub proof fn law_promoted_slots_are_traced(before: Option<SlotState>, limits: ShadowLimits)
    ensures
        plan_of(SlotCase::Promoted { before }, limits).request == Some(Priority::High),
{
}

proof fn lemma_earlier_age(input: SelectInput, prev: SlotField, limits: ShadowLimits, light: u32)
    requires
        input.wf(prev, limits),
        light < input.scores@.len(),
        input.reprojected(prev) matches Some(t) ==> t < prev.texels@.len(),
    ensures
        earlier_answer(prev, input.reprojected(prev), input.remap@, light) matches Some(b) ==> b.age
            < u32::MAX,
{
    if let Some(t) = input.reprojected(prev) {
        if let Some(id) = earlier(input.remap@, light) {
            lemma_slot_of(prev.texels@[t as int].lights@, id);
            if let Some(slot) = slot_of(prev.texels@[t as int].lights@, id) {
                assert(prev.texels@[t as int].states@[slot as int].age < u32::MAX);
            }
        }
    }
}

/// Whether a result is what selection gives for a texel without a surface.
pub open spec fn is_blank(out: TexelResult, slots: nat, limits: ShadowLimits) -> bool {
    &&& out.representative is None
    &&& out.lights@ == Seq::new(slots, |s: int| None::<u32>)
    &&& out.states@ == Seq::new(slots, |s: int| SlotState::plain(ShadowState::Inactive, 0, 0))
    &&& out.fractions@ == Seq::new(slots, |s: int| limits.fraction_one)
    &&& out.events@ == Seq::<ShadowEvent>::empty()
}

fn blank_texel(slots: usize, limits: &ShadowLimits) -> (out: TexelResult)
    ensures
        is_blank(out, slots as nat, *limits),
{
    let mut out: TexelResult = TexelResult {
        representative: None,
        lights: Vec::new(),
        states: Vec::new(),
        fractions: Vec::new(),
        events: Vec::new(),
    };
    let mut s: usize = 0;
    assert(out.lights@ =~= Seq::new(0, |s: int| None::<u32>));
    assert(out.states@ =~= Seq::new(0, |s: int| SlotState::plain(ShadowState::Inactive, 0, 0)));
    assert(out.fractions@ =~= Seq::new(0, |s: int| limits.fraction_one));
    while s < slots
        invariant
            s <= slots,
            is_blank(out, s as nat, *limits),
        decreases slots - s,
    {
        out.lights.push(None);
        out.states.push(SlotState::plain(ShadowState::Inactive, 0, 0));
        out.fractions.push(limits.fraction_one);
        s = s + 1;
        assert(out.lights@ =~= Seq::new(s as nat, |s: int| None::<u32>));
        assert(out.states@ =~= Seq::new(
            s as nat,
            |s: int| SlotState::plain(ShadowState::Inactive, 0, 0),
        ));
        assert(out.fractions@ =~= Seq::new(s as nat, |s: int| limits.fraction_one));
    }
    out
}

/// Selects the lights of one texel, reuses checked history, and queues what is left open.
///
/// A texel without a surface gets empty slots. Otherwise its lights are the
/// best ones by score, each slot is planned from edge promotion, history and
/// the near-field march, and requests are queued in slot order.
pub fn local_shadow_select(
    input: &SelectInput,
    prev: &SlotField,
    limits: &ShadowLimits,
    queues: &mut RequestQueues,
) -> (out: TexelResult)
    requires
        input.wf(*prev, *limits),
        2 * input.texel_x + 1 <= u32::MAX,
        2 * input.texel_y + 1 <= u32::MAX,
    ensures
        ({
            let covered = out.representative is Some;
            &&& out.representative == representative_from(
                input.texel_x,
                input.texel_y,
                input.screen_width,
                input.screen_height,
                input.samples@,
                0,
            )
            &&& !covered ==> is_blank(out, prev.slots as nat, *limits) && final(queues)@
                == old(queues)@
            &&& covered ==> {
                let slots = input.slots_after(
                    *prev,
                    *limits,
                    out.lights@,
                    old(queues)@,
                    prev.slots as nat,
                );
                &&& out.lights@.len() == prev.slots
                &&& holds_best(input.scores@, input.scores@.len() as int, out.lights@)
                &&& out.states@ == slots.states
                &&& out.fractions@ == slots.fractions
                &&& final(queues)@ == slots.queues
                &&& out.events@ == (if out.lights@[0] is Some {
                    slots.events.push(ShadowEvent::Active)
                } else {
                    slots.events
                })
            }
        }),
{
    let representative: Option<Representative> = pick_representative(
        input.texel_x,
        input.texel_y,
        input.screen_width,
        input.screen_height,
        &input.samples,
    );
    if representative.is_none() {
        return blank_texel(prev.slots, limits);
    }
    let lights: Vec<Option<u32>> = rank_lights(&input.scores, prev.slots);
    proof {
        lemma_texel_within(
            input.texel_x as int,
            input.texel_y as int,
            prev.width as int,
            prev.height as int,
        );
        let t = input.index(*prev);
        let count = prev.width * prev.height;
        assert(t * prev.slots + prev.slots <= count * prev.slots) by (nonlinear_arith)
            requires
                0 <= t,
                t + 1 <= count,
                prev.slots >= 0,
        ;
        assert(0 <= t * prev.slots) by (nonlinear_arith)
            requires
                0 <= t,
                prev.slots >= 0,
        ;
        assert(0 <= input.texel_y * prev.width) by (nonlinear_arith);
        assert(count <= count * prev.slots) by (nonlinear_arith)
            requires
                prev.slots >= 1,
                count >= 0,
        ;
    }
    let index: usize = input.texel_y as usize * prev.width + input.texel_x as usize;
    let base: usize = index * prev.slots;
    let reuses: bool = input.history_valid && limits.refresh_interval != 0;
    let mut history_texel: usize = index;
    let mut events: Vec<ShadowEvent> = Vec::new();
    let reprojected: Option<usize> = reproject(&input.reprojection, prev, &input.stored_depths);
    if reuses {
        if let Some(t) = reprojected {
            history_texel = t;
            assert(prev.texels@[t as int].lights@.len() == prev.slots);
            assert forall|s: int| 0 <= s < lights@.len() implies (#[trigger] lights@[s] matches Some(
                light,
            ) ==> light < input.remap@.len()) by {}
            if selection_changed(&lights, &prev.texels[t].lights, &input.remap) {
                events.push(ShadowEvent::Churn);
            }
        }
    }
    assert(events@ =~= input.churn_events(*prev, *limits, lights@));
    let promoted: bool = input.is_promoted(prev, limits, history_texel);
    let mut out: TexelResult = TexelResult {
        representative,
        lights,
        states: Vec::new(),
        fractions: Vec::new(),
        events,
    };
    let ghost chosen = out.lights@;
    let mut slot: usize = 0;
    while slot < prev.slots
        invariant
            slot <= prev.slots,
            input.wf(*prev, *limits),
            reprojected == input.reprojected(*prev),
            reprojected matches Some(t) ==> t < prev.texels@.len(),
            history_texel == input.history_texel(*prev, *limits),
            history_texel < prev.texels@.len(),
            promoted == input.promoted(*prev, *limits),
            base == input.index(*prev) * prev.slots,
            base + prev.slots <= u32::MAX,
            out.representative == representative,
            out.lights@ == chosen,
            chosen.len() == prev.slots,
            holds_best(input.scores@, input.scores@.len() as int, chosen),
            ({
                let slots = input.slots_after(*prev, *limits, chosen, old(queues)@, slot as nat);
                &&& out.states@ == slots.states
                &&& out.fractions@ == slots.fractions
                &&& queues@ == slots.queues
                &&& out.events@ == slots.events
            }),
        decreases prev.slots - slot,
    {
        let light: Option<u32> = out.lights[slot];
        assert(chosen[slot as int] == light);
        let case: SlotCase = input.case_of(
            prev,
            limits,
            reprojected,
            history_texel,
            promoted,
            light,
        );
        let plan: SlotPlan = plan_slot(case, limits);
        write_slot(&mut out, queues, plan, (base + slot) as u32, limits);
        slot = slot + 1;
    }
    if out.lights[0].is_some() {
        out.events.push(ShadowEvent::Active);
    }
    out
}

// ---------------------------------------------------------------------------
// Tracing

/// Bit of a request that marks a promoted edge sample.
pub const REQUEST_PROMOTED: u32 = 0x8000_0000;

/// What a tracing thread has to do.
#[derive(Debug, Clone, Copy, PartialEq, Eq, Structural)]
pub enum TraceStep {
    /// Nothing: there is no request for the thread.
    Idle,
    /// The request names no slot; it is only counted.
    Overflow,
    /// The slot holds nothing that could be traced.
    Fail { id: u32 },
    /// Trace the light from the pixel that stands for the texel.
    Trace {
        id: u32,
        texel: usize,
        light: u32,
        x: u32,
        y: u32,
        /// Whether the answer is a new one rather than a refreshed one.
        born: bool,
    },
}

/// The slot that a request names.
pub open spec fn request_id(raw: u32) -> u32 {
    if raw >= REQUEST_PROMOTED {
        (raw - REQUEST_PROMOTED) as u32
    } else {
        raw
    }
}

/// What a request for slot `id` leads to.
pub open spec fn step_for(
    id: u32,
    born: bool,
    slots: nat,
    lights: Seq<Texel>,
    reps: Seq<Option<Representative>>,
    light_count: u32,
) -> TraceStep {
    let texel = id as int / slots as int;
    let slot = id as int % slots as int;
    if id >= lights.len() * slots {
        TraceStep::Overflow
    } else {
        match (lights[texel].lights@[slot], reps[texel]) {
            (Some(light), Some(rep)) => if light >= light_count {
                TraceStep::Fail { id }
            } else {
                TraceStep::Trace { id, texel: texel as usize, light, x: rep.x, y: rep.y, born }
            },
            _ => TraceStep::Fail { id },
        }
    }
}

/// Decodes a request for a slot.
fn decode_request(
    id: u32,
    born: bool,
    field: &SlotField,
    reps: &Vec<Option<Representative>>,
    light_count: u32,
) -> (step: TraceStep)
    requires
        field.wf(),
        field.slots > 0,
        reps@.len() == field.texels@.len(),
    ensures
        step == step_for(id, born, field.slots as nat, field.texels@, reps@, light_count),
{
    let total: usize = field.texels.len();
    assert(total * field.slots <= 0xffff_ffff_ffff_ffff * 0xffff_ffff_ffff_ffff) by (nonlinear_arith)
        requires
            0 <= total <= 0xffff_ffff_ffff_ffff,
            0 <= field.slots <= 0xffff_ffff_ffff_ffff,
    ;
    let count: u128 = total as u128 * field.slots as u128;
    if id as u128 >= count {
        return TraceStep::Overflow;
    }
    let texel: usize = id as usize / field.slots;
    let slot: usize = id as usize % field.slots;
    proof {
        let d = field.slots as int;
        vstd::arithmetic::div_mod::lemma_fundamental_div_mod(id as int, d);
        vstd::arithmetic::div_mod::lemma_mod_bound(id as int, d);
        let q = id as int / d;
        assert(q < field.texels@.len()) by (nonlinear_arith)
            requires
                id as int == d * q + id as int % d,
                0 <= id as int % d,
                id < field.texels@.len() * d,
                d > 0,
        ;
    }
    assert(field.texels@[texel as int].lights@.len() == field.slots);
    match (field.texels[texel].lights[slot], reps[texel]) {
        (Some(light), Some(rep)) => {
            if light >= light_count {
                TraceStep::Fail { id }
            } else {
                TraceStep::Trace { id, texel, light, x: rep.x, y: rep.y, born }
            }
        },
        _ => TraceStep::Fail { id },
    }
}

/// Finds a tracing thread's work: the high-priority requests come first, then the low-priority ones.
pub fn local_shadow_trace(
    thread: u32,
    serviced_high: u32,
    serviced_low: u32,
    queues: &RequestQueues,
    field: &SlotField,
    reps: &Vec<Option<Representative>>,
    light_count: u32,
) -> (step: TraceStep)
    requires
        field.wf(),
        field.slots > 0,
        reps@.len() == field.texels@.len(),
        serviced_high <= queues.high@.len(),
        serviced_low <= queues.low@.len(),
        serviced_high + serviced_low <= u32::MAX,
    ensures
        step == (if thread >= serviced_high + serviced_low {
            TraceStep::Idle
        } else if thread < serviced_high {
            step_for(
                request_id(queues.high@[thread as int]),
                true,
                field.slots as nat,
                field.texels@,
                reps@,
                light_count,
            )
        } else {
            step_for(
                request_id(queues.low@[thread - serviced_high]),
                false,
                field.slots as nat,
                field.texels@,
                reps@,
                light_count,
            )
        }),
{
    if thread >= serviced_high + serviced_low {
        return TraceStep::Idle;
    }
    let born: bool = thread < serviced_high;
    let raw: u32 = if born {
        queues.high[thread as usize]
    } else {
        queues.low[(thread - serviced_high) as usize]
    };
    let id: u32 = if raw >= REQUEST_PROMOTED { raw - REQUEST_PROMOTED } else { raw };
    decode_request(id, born, field, reps, light_count)
}

/// A step once the depth of its pixel is known: without a surface it fails.
pub open spec fn step_at_depth(step: TraceStep, depth: u32) -> TraceStep {
    match step {
        TraceStep::Trace { id, .. } => if float_bits::at_most(depth, 0) {
            TraceStep::Fail { id }
        } else {
            step
        },
        _ => step,
    }
}

/// Reconsiders a step once the depth of its pixel is known.
pub fn check_depth(step: TraceStep, depth: u32) -> (checked: TraceStep)
    ensures
        checked == step_at_depth(step, depth),
{
    if let TraceStep::Trace { id, .. } = step {
        if float_bits::is_at_most(depth, 0) {
            return TraceStep::Fail { id };
        }
    }
    step
}

/// What is written to a slot that can not be traced. Refreshing keeps the
/// slot's fraction of light; stateless tracing makes it fully lit.
pub fn failed_slot(stateless: bool, limits: &ShadowLimits) -> (written: (SlotState, Option<u32>))
    ensures
        written.0 == SlotState::plain(ShadowState::Failed, 0, 0),
        written.1 == (if stateless { Some(limits.fraction_one) } else { None }),
{
    let fraction: Option<u32> = if stateless { Some(limits.fraction_one) } else { None };
    (SlotState::plain(ShadowState::Failed, 0, 0), fraction)
}

/// Finds a tracing thread's work where all requests are new ones.
pub fn local_shadow_trace_direct(
    thread: u32,
    serviced: u32,
    queues: &RequestQueues,
    field: &SlotField,
    reps: &Vec<Option<Representative>>,
    light_count: u32,
) -> (step: TraceStep)
    requires
        field.wf(),
        field.slots > 0,
        reps@.len() == field.texels@.len(),
        serviced <= queues.high@.len(),
    ensures
        step == (if thread >= serviced {
            TraceStep::Idle
        } else {
            let step = step_for(
                queues.high@[thread as int],
                true,
                field.slots as nat,
                field.texels@,
                reps@,
                light_count,
            );
            match step {
                TraceStep::Trace { texel, .. } => step_at_depth(
                    step,
                    reps@[texel as int]->0.depth,
                ),
                other => other,
            }
        }),
{
    if thread >= serviced {
        return TraceStep::Idle;
    }
    let total: usize = field.texels.len();
    let step: TraceStep = decode_request(queues.high[thread as usize], true, field, reps, light_count);
    if let TraceStep::Trace { texel, .. } = step {
        proof {
            lemma_step_texel(
                queues.high@[thread as int],
                true,
                field.slots as nat,
                field.texels@,
                reps@,
                light_count,
            );
        }
        if let Some(rep) = reps[texel] {
            return check_depth(step, rep.depth);
        }
    }
    step
}

proof fn lemma_step_texel(
    id: u32,
    born: bool,
    slots: nat,
    lights: Seq<Texel>,
    reps: Seq<Option<Representative>>,
    light_count: u32,
)
    requires
        slots > 0,
        lights.len() <= usize::MAX,
        reps.len() == lights.len(),
    ensures
        step_for(id, born, slots, lights, reps, light_count) matches TraceStep::Trace { texel, .. }
            ==> texel < reps.len() && reps[texel as int] is Some,
{
    if step_for(id, born, slots, lights, reps, light_count) is Trace {
        let d = slots as int;
        vstd::arithmetic::div_mod::lemma_fundamental_div_mod(id as int, d);
        vstd::arithmetic::div_mod::lemma_mod_bound(id as int, d);
        let q = id as int / d;
        assert(q < lights.len()) by (nonlinear_arith)
            requires
                id as int == d * q + id as int % d,
                0 <= id as int % d,
                id < lights.len() * d,
                d > 0,
        ;
        assert(0 <= q) by (nonlinear_arith)
            requires
                id as int == d * q + id as int % d,
                id as int % d < d,
                0 <= id as int,
                d > 0,
        ;
    }
}

/// What tracing a light found.
#[derive(Debug, Clone, Copy, PartialEq, Eq, Structural)]
pub enum TraceOutcome {
    /// The surface lies within the light's own bias shell.
    Degenerate,
    /// A blocker was hit.
    Occluded {
        hit_q: u32,
        /// The camera sees the hit.
        seen: bool,
        /// The blocker moves.
        dynamic: bool,
    },
    /// The way is clear.
    Clear,
    /// The query gave up.
    Failed,
}

/// The answer that tracing gives.
///
/// Blockers that the camera can not see are marked, and of these the moving
/// ones. New answers start with an age that staggers their refresh.
pub open spec fn traced_answer(
    outcome: TraceOutcome,
    born: bool,
    occluded_age: u32,
    visible_age: u32,
) -> SlotState {
    match outcome {
        TraceOutcome::Degenerate => SlotState::plain(ShadowState::Visible, 0, 0),
        TraceOutcome::Occluded { hit_q, seen, dynamic } => SlotState {
            state: ShadowState::Occluded,
            blind: !seen,
            dynamic: !seen && dynamic,
            age: if born { occluded_age } else { 0 },
            hit_q,
        },
        TraceOutcome::Clear => SlotState::plain(
            ShadowState::Visible,
            if born { visible_age } else { 0 },
            0,
        ),
        TraceOutcome::Failed => SlotState::plain(ShadowState::Failed, 0, 0),
    }
}

/// Turns what tracing found into a slot's answer and its fraction of light.
pub fn trace_answer(
    outcome: TraceOutcome,
    born: bool,
    occluded_age: u32,
    visible_age: u32,
    limits: &ShadowLimits,
) -> (written: (SlotState, u32))
    ensures
        written.0 == traced_answer(outcome, born, occluded_age, visible_age),
        written.1 == fraction_of(written.0, *limits),
{
    let answer: SlotState = match outcome {
        TraceOutcome::Degenerate => SlotState::plain(ShadowState::Visible, 0, 0),
        TraceOutcome::Occluded { hit_q, seen, dynamic } => SlotState {
            state: ShadowState::Occluded,
            blind: !seen,
            dynamic: !seen && dynamic,
            age: if born { occluded_age } else { 0 },
            hit_q,
        },
        TraceOutcome::Clear => SlotState::plain(
            ShadowState::Visible,
            if born { visible_age } else { 0 },
            0,
        ),
        TraceOutcome::Failed => SlotState::plain(ShadowState::Failed, 0, 0),
    };
    let fraction: u32 = slot_fraction(&answer, limits);
    (answer, fraction)
}

/// Tracing darkens a surface only on evidence: a slot lets less than full light
/// through just if a blocker was hit.
pub proof fn law_tracing_fails_lit(
    outcome: TraceOutcome,
    born: bool,
    occluded_age: u32,
    visible_age: u32,
    limits: ShadowLimits,
)
    requires
        limits.fraction_one > 0,
    ensures
        fraction_of(traced_answer(outcome, born, occluded_age, visible_age), limits)
            < limits.fraction_one <==> outcome is Occluded,
{
}

// ---------------------------------------------------------------------------
// Selection without history

/// What stateless selection writes for one texel.
pub struct DirectResult {
    pub representative: Option<Representative>,
    pub lights: Vec<Option<u32>>,
    /// Answer and fraction of the slots that tracing will not write.
    pub written: Vec<Option<(SlotState, u32)>>,
}

/// What is written to a slot before tracing: empty slots and those whose
/// request found no room, both fully lit.
pub open spec fn direct_write(light: Option<u32>, room: bool, limits: ShadowLimits) -> Option<(
    SlotState,
    u32,
)> {
    match light {
        None => Some((SlotState::plain(ShadowState::Inactive, 0, 0), limits.fraction_one)),
        Some(_) => if room {
            None
        } else {
            Some((SlotState::plain(ShadowState::Failed, 0, 0), limits.fraction_one))
        },
    }
}

/// The first `n` slots and the queues after them.
pub open spec fn direct_after(
    lights: Seq<Option<u32>>,
    base: int,
    queues: QueuesModel,
    limits: ShadowLimits,
    n: nat,
) -> (Seq<Option<(SlotState, u32)>>, QueuesModel)
    decreases n,
{
    if n == 0 {
        (Seq::empty(), queues)
    } else {
        let before = direct_after(lights, base, queues, limits, (n - 1) as nat);
        (
            before.0.push(
                direct_write(lights[n - 1], before.1.has_room(Priority::High), limits),
            ),
            if lights[n - 1] is Some {
                before.1.with((base + n - 1) as u32, Priority::High)
            } else {
                before.1
            },
        )
    }
}

/// Selects the lights of one texel without history and queues every filled slot.
///
/// `base` is the number of the texel's first slot.
pub fn local_shadow_select_direct(
    texel_x: u32,
    texel_y: u32,
    screen_width: u32,
    screen_height: u32,
    samples: &Vec<CornerSample>,
    scores: &Vec<u32>,
    slots: usize,
    base: u32,
    limits: &ShadowLimits,
    queues: &mut RequestQueues,
) -> (out: DirectResult)
    requires
        samples@.len() == 4,
        2 * texel_x + 1 <= u32::MAX,
        2 * texel_y + 1 <= u32::MAX,
        slots > 0,
        base + slots <= u32::MAX,
        scores@.len() <= u32::MAX,
    ensures
        ({
            let covered = out.representative is Some;
            let slots_after = direct_after(
                out.lights@,
                base as int,
                old(queues)@,
                *limits,
                slots as nat,
            );
            &&& out.representative == representative_from(
                texel_x,
                texel_y,
                screen_width,
                screen_height,
                samples@,
                0,
            )
            &&& out.lights@.len() == slots
            &&& covered ==> holds_best(scores@, scores@.len() as int, out.lights@)
            &&& !covered ==> forall|s: int| 0 <= s < slots ==> #[trigger] out.lights@[s] is None
            &&& out.written@ == slots_after.0
            &&& final(queues)@ == slots_after.1
        }),
{
    let representative: Option<Representative> = pick_representative(
        texel_x,
        texel_y,
        screen_width,
        screen_height,
        samples,
    );
    let mut lights: Vec<Option<u32>> = Vec::new();
    if representative.is_some() {
        lights = rank_lights(scores, slots);
    } else {
        while lights.len() < slots
            invariant
                lights@.len() <= slots,
                forall|s: int| 0 <= s < lights@.len() ==> #[trigger] lights@[s] is None,
            decreases slots - lights@.len(),
        {
            lights.push(None);
        }
    }
    let mut written: Vec<Option<(SlotState, u32)>> = Vec::new();
    let mut slot: usize = 0;
    while slot < slots
        invariant
            slot <= slots,
            lights@.len() == slots,
            base + slots <= u32::MAX,
            ({
                let after = direct_after(
                    lights@,
                    base as int,
                    old(queues)@,
                    *limits,
                    slot as nat,
                );
                &&& written@ == after.0
                &&& queues@ == after.1
            }),
        decreases slots - slot,
    {
        if lights[slot].is_none() {
            written.push(
                Some((SlotState::plain(ShadowState::Inactive, 0, 0), limits.fraction_one)),
            );
        } else if enqueue_request(queues, base + slot as u32, Priority::High) {
            written.push(None);
        } else {
            written.push(Some((SlotState::plain(ShadowState::Failed, 0, 0), limits.fraction_one)));
        }
        slot = slot + 1;
    }
    DirectResult { representative, lights, written }
}

// ---------------------------------------------------------------------------
// Penumbra reconstruction

/// Reach of the reconstruction in texels.
pub const SCAN: i64 = 3;

/// Offset of probe `n`: the three-by-three neighborhood, then the corners and
/// edge midpoints of the square at full reach.
pub open spec fn probe_offset(n: int) -> (int, int) {
    if n < 9 {
        (ring_dx(n), ring_dy(n))
    } else if n == 9 {
        (-3, -3)
    } else if n == 10 {
        (0, -3)
    } else if n == 11 {
        (3, -3)
    } else if n == 12 {
        (-3, 0)
    } else if n == 13 {
        (3, 0)
    } else if n == 14 {
        (-3, 3)
    } else if n == 15 {
        (0, 3)
    } else {
        (3, 3)
    }
}

fn probe_at(n: u32) -> (offset: (i64, i64))
    requires
        n < 17,
    ensures
        offset.0 == probe_offset(n as int).0,
        offset.1 == probe_offset(n as int).1,
        -3 <= offset.0 <= 3,
        -3 <= offset.1 <= 3,
{
    if n < 9 {
        return ((n % 3) as i64 - 1, (n / 3) as i64 - 1);
    }
    match n {
        9 => (-SCAN, -SCAN),
        10 => (0, -SCAN),
        11 => (SCAN, -SCAN),
        12 => (-SCAN, 0),
        13 => (SCAN, 0),
        14 => (-SCAN, SCAN),
        15 => (0, SCAN),
        _ => (SCAN, SCAN),
    }
}

/// Whether one of the first `n` probes finds an answer of the given kind.
pub open spec fn probes_have(field: SlotField, x: int, y: int, light: u32, state: ShadowState, n: int) -> bool {
    exists|k: int|
        0 <= k < n && #[trigger] answers(
            field,
            neighbor(field, x, y, probe_offset(k).0, probe_offset(k).1),
            light,
            state,
        )
}

proof fn lemma_probes_grow(field: SlotField, x: int, y: int, light: u32, state: ShadowState, n: int)
    requires
        0 <= n,
    ensures
        probes_have(field, x, y, light, state, n + 1) == (probes_have(field, x, y, light, state, n)
            || answers(
            field,
            neighbor(field, x, y, probe_offset(n).0, probe_offset(n).1),
            light,
            state,
        )),
{
    if answers(field, neighbor(field, x, y, probe_offset(n).0, probe_offset(n).1), light, state) {
        assert(probes_have(field, x, y, light, state, n + 1));
    }
    if probes_have(field, x, y, light, state, n) {
        let k = choose|k: int|
            0 <= k < n && #[trigger] answers(
                field,
                neighbor(field, x, y, probe_offset(k).0, probe_offset(k).1),
                light,
                state,
            );
        assert(0 <= k < n + 1);
    }
}

/// Horizontal offset of place `k` in the row-by-row square at full reach.
pub open spec fn square_dx(k: int) -> int {
    k % 7 - 3
}

/// Vertical offset of place `k` in the row-by-row square at full reach.
pub open spec fn square_dy(k: int) -> int {
    k / 7 - 3
}

/// The answer about a light at place `k` of a texel's square.
pub open spec fn square_answer(field: SlotField, x: int, y: int, light: u32, k: int) -> Option<SlotState> {
    field.answer(neighbor(field, x, y, square_dx(k), square_dy(k)), light)
}

/// The nearest blocker among the first `n` places, 65535 if there is none nearer.
pub open spec fn nearest_blocker(field: SlotField, x: int, y: int, light: u32, n: nat) -> u32
    decreases n,
{
    if n == 0 {
        0xFFFF
    } else {
        let before = nearest_blocker(field, x, y, light, (n - 1) as nat);
        match square_answer(field, x, y, light, n - 1) {
            Some(answer) => if answer.state == ShadowState::Occluded && answer.hit_q < before {
                answer.hit_q
            } else {
                before
            },
            None => before,
        }
    }
}

/// Whether a slot's fraction is to be reconstructed: its answer is visible or
/// occluded, and probes around it find both.
pub open spec fn is_mixed(field: SlotField, x: int, y: int, slot: int) -> bool {
    let t = y * field.width + x;
    match field.texels@[t].lights@[slot] {
        None => false,
        Some(light) => {
            let own = field.texels@[t].states@[slot].state;
            &&& own == ShadowState::Visible || own == ShadowState::Occluded
            &&& probes_have(field, x, y, light, ShadowState::Visible, 17)
            &&& probes_have(field, x, y, light, ShadowState::Occluded, 17)
        },
    }
}

/// Looks for a shadow edge around a slot, and if there is one for the nearest blocker.
pub fn blur_scan(field: &SlotField, x: usize, y: usize, slot: usize) -> (nearest: Option<u32>)
    requires
        field.wf(),
        x < field.width,
        y < field.height,
        slot < field.slots,
    ensures
        nearest is Some == is_mixed(*field, x as int, y as int, slot as int),
        nearest matches Some(hit_q) ==> hit_q == nearest_blocker(
            *field,
            x as int,
            y as int,
            field.texels@[y * field.width + x].lights@[slot as int]->0,
            49,
        ),
{
    let t: usize = neighbor_texel(field, x, y, 0, 0);
    assert(t == y * field.width + x);
    assert(field.texels@[t as int].lights@.len() == field.slots);
    let light: u32 = match field.texels[t].lights[slot] {
        None => return None,
        Some(light) => light,
    };
    let own: ShadowState = field.texels[t].states[slot].state;
    if own != ShadowState::Visible && own != ShadowState::Occluded {
        return None;
    }
    let mut seen_visible: bool = false;
    let mut seen_occluded: bool = false;
    let mut probe: u32 = 0;
    while probe < 17
        invariant
            field.wf(),
            x < field.width,
            y < field.height,
            probe <= 17,
            seen_visible == probes_have(*field, x as int, y as int, light, ShadowState::Visible, probe as int),
            seen_occluded == probes_have(*field, x as int, y as int, light, ShadowState::Occluded, probe as int),
        decreases 17 - probe,
    {
        let (dx, dy): (i64, i64) = probe_at(probe);
        let n: usize = neighbor_texel(field, x, y, dx, dy);
        if let Some(answer) = field.answer_at(n, light) {
            if answer.state == ShadowState::Visible {
                seen_visible = true;
            } else if answer.state == ShadowState::Occluded {
                seen_occluded = true;
            }
        }
        proof {
            lemma_probes_grow(*field, x as int, y as int, light, ShadowState::Visible, probe as int);
            lemma_probes_grow(*field, x as int, y as int, light, ShadowState::Occluded, probe as int);
        }
        probe = probe + 1;
    }
    if !(seen_visible && seen_occluded) {
        return None;
    }
    let mut nearest: u32 = 0xFFFF;
    let mut k: u32 = 0;
    while k < 49
        invariant
            field.wf(),
            x < field.width,
            y < field.height,
            k <= 49,
            nearest == nearest_blocker(*field, x as int, y as int, light, k as nat),
        decreases 49 - k,
    {
        let n: usize = neighbor_texel(field, x, y, (k % 7) as i64 - SCAN, (k / 7) as i64 - SCAN);
        if let Some(answer) = field.answer_at(n, light) {
            if answer.state == ShadowState::Occluded && answer.hit_q < nearest {
                nearest = answer.hit_q;
            }
        }
        k = k + 1;
    }
    Some(nearest)
}

/// No blocker of the neighborhood is nearer than the nearest one.
pub proof fn law_nearest_blocker_is_least(field: SlotField, x: int, y: int, light: u32, n: nat, k: int)
    requires
        0 <= k < n,
        square_answer(field, x, y, light, k) is Some,
        square_answer(field, x, y, light, k)->0.state == ShadowState::Occluded,
    ensures
        nearest_blocker(field, x, y, light, n) <= square_answer(field, x, y, light, k)->0.hit_q,
    decreases n,
{
    if k < n - 1 {
        law_nearest_blocker_is_least(field, x, y, light, (n - 1) as nat, k);
    }
}

/// The nearest blocker is one of the neighborhood's, unless none is near.
pub proof fn law_nearest_blocker_is_found(field: SlotField, x: int, y: int, light: u32, n: nat)
    ensures
        nearest_blocker(field, x, y, light, n) == 0xFFFF || exists|k: int|
            0 <= k < n && (#[trigger] square_answer(field, x, y, light, k) matches Some(answer)
                && answer.state == ShadowState::Occluded && answer.hit_q == nearest_blocker(
                field,
                x,
                y,
                light,
                n,
            )),
    decreases n,
{
    if n > 0 {
        let before = nearest_blocker(field, x, y, light, (n - 1) as nat);
        law_nearest_blocker_is_found(field, x, y, light, (n - 1) as nat);
        if nearest_blocker(field, x, y, light, n) != before {
            assert(square_answer(field, x, y, light, n - 1) is Some);
        } else if before != 0xFFFF {
            let k = choose|k: int|
                0 <= k < n - 1 && (#[trigger] square_answer(field, x, y, light, k) matches Some(
                    answer,
                ) && answer.state == ShadowState::Occluded && answer.hit_q == before);
            assert(square_answer(field, x, y, light, k) is Some);
        }
    }
}

/// Distance of place `k` from the middle of the square, diagonal steps counting once.
pub open spec fn square_distance(k: int) -> int {
    let dx = if square_dx(k) < 0 { -square_dx(k) } else { square_dx(k) };
    let dy = if square_dy(k) < 0 { -square_dy(k) } else { square_dy(k) };
    if dx >= dy {
        dx
    } else {
        dy
    }
}

/// Weight of place `k`: falls off from `radius + 1` in the middle to one at the radius.
pub open spec fn tent_weight(k: int, radius: int) -> int {
    if square_distance(k) <= radius {
        radius + 1 - square_distance(k)
    } else {
        0
    }
}

/// Whether place `k` counts: the caller accepts its depth, and its answer is visible or occluded.
pub open spec fn gathers(field: SlotField, x: int, y: int, light: u32, accepted: Seq<bool>, k: int) -> bool {
    accepted[k] && match square_answer(field, x, y, light, k) {
        Some(answer) => answer.state == ShadowState::Visible || answer.state
            == ShadowState::Occluded,
        None => false,
    }
}

/// Weight of the visible places and of all places among the first `n`.
pub open spec fn gathered(
    field: SlotField,
    x: int,
    y: int,
    light: u32,
    accepted: Seq<bool>,
    radius: int,
    n: nat,
) -> (int, int)
    decreases n,
{
    if n == 0 {
        (0, 0)
    } else {
        let before = gathered(field, x, y, light, accepted, radius, (n - 1) as nat);
        if gathers(field, x, y, light, accepted, n - 1) {
            let weight = tent_weight(n - 1, radius);
            (
                before.0 + (if square_answer(field, x, y, light, n - 1)->0.state
                    == ShadowState::Visible {
                    weight
                } else {
                    0
                }),
                before.1 + weight,
            )
        } else {
            before
        }
    }
}

/// Gathers the visibility around a texel with tent weights.
///
/// The result is the weight of the visible places and of all places that
/// count, both in units of `1 / (radius + 1)`; their ratio is the fraction of light.
pub fn blur_gather(
    field: &SlotField,
    x: usize,
    y: usize,
    light: u32,
    accepted: &Vec<bool>,
    radius: i64,
) -> (weights: (u32, u32))
    requires
        field.wf(),
        x < field.width,
        y < field.height,
        accepted@.len() == 49,
        1 <= radius <= SCAN,
    ensures
        weights.0 == gathered(*field, x as int, y as int, light, accepted@, radius as int, 49).0,
        weights.1 == gathered(*field, x as int, y as int, light, accepted@, radius as int, 49).1,
        weights.0 <= weights.1 <= 196,
{
    let mut lit: u32 = 0;
    let mut total: u32 = 0;
    let mut k: usize = 0;
    while k < 49
        invariant
            field.wf(),
            x < field.width,
            y < field.height,
            accepted@.len() == 49,
            1 <= radius <= SCAN,
            k <= 49,
            lit <= total <= 4 * k,
            lit == gathered(*field, x as int, y as int, light, accepted@, radius as int, k as nat).0,
            total == gathered(*field, x as int, y as int, light, accepted@, radius as int, k as nat).1,
        decreases 49 - k,
    {
        let dx: i64 = (k % 7) as i64 - SCAN;
        let dy: i64 = (k / 7) as i64 - SCAN;
        let across: i64 = if dx < 0 { -dx } else { dx };
        let down: i64 = if dy < 0 { -dy } else { dy };
        let distance: i64 = if across >= down { across } else { down };
        if accepted[k] {
            let n: usize = neighbor_texel(field, x, y, dx, dy);
            if let Some(answer) = field.answer_at(n, light) {
                if answer.state == ShadowState::Visible || answer.state == ShadowState::Occluded {
                    let weight: u32 = if distance <= radius {
                        (radius + 1 - distance) as u32
                    } else {
                        0
                    };
                    if answer.state == ShadowState::Visible {
                        lit = lit + weight;
                    }
                    total = total + weight;
                }
            }
        }
        k = k + 1;
    }
    (lit, total)
}

/// Whether reconstruction does anything at a texel: it lies within the field,
/// the light source has a size, and the texel shows a surface.
pub open spec fn blur_applies(field: SlotField, x: usize, y: usize, source_radius: u32, own_depth: u32) -> bool {
    &&& x < field.width
    &&& y < field.height
    &&& !float_bits::at_most(source_radius, 0)
    &&& !float_bits::at_most(own_depth, 0)
}

/// Finds the slots of a texel whose fraction is to be reconstructed, each with
/// its nearest blocker.
pub fn local_shadow_blur(field: &SlotField, x: usize, y: usize, source_radius: u32, own_depth: u32) -> (nearest: Vec<
    Option<u32>,
>)
    requires
        field.wf(),
    ensures
        !blur_applies(*field, x, y, source_radius, own_depth) ==> nearest@.len() == 0,
        blur_applies(*field, x, y, source_radius, own_depth) ==> nearest@.len() == field.slots
            && forall|s: int|
            0 <= s < field.slots ==> (#[trigger] nearest@[s] is Some) == is_mixed(
                *field,
                x as int,
                y as int,
                s,
            ) && (nearest@[s] matches Some(hit_q) ==> hit_q == nearest_blocker(
                *field,
                x as int,
                y as int,
                field.texels@[y * field.width + x].lights@[s]->0,
                49,
            )),
{
    let mut nearest: Vec<Option<u32>> = Vec::new();
    if x >= field.width || y >= field.height {
        return nearest;
    }
    if float_bits::is_at_most(source_radius, 0) || float_bits::is_at_most(own_depth, 0) {
        return nearest;
    }
    let mut slot: usize = 0;
    while slot < field.slots
        invariant
            field.wf(),
            x < field.width,
            y < field.height,
            slot <= field.slots,
            nearest@.len() == slot,
            forall|s: int|
                0 <= s < slot ==> (#[trigger] nearest@[s] is Some) == is_mixed(
                    *field,
                    x as int,
                    y as int,
                    s,
                ) && (nearest@[s] matches Some(hit_q) ==> hit_q == nearest_blocker(
                    *field,
                    x as int,
                    y as int,
                    field.texels@[y * field.width + x].lights@[s]->0,
                    49,
                )),
        decreases field.slots - slot,
    {
        nearest.push(blur_scan(field, x, y, slot));
        slot = slot + 1;
    }
    nearest
}

/// The share of light that a slot gets from its neighborhood: the weight of the
/// visible places and of all places that count. There is none where the slot
/// lies on no shadow edge or no place counts; its fraction stays then.
pub open spec fn blurred(
    field: SlotField,
    x: int,
    y: int,
    slot: int,
    nearest: Option<u32>,
    accepted: Seq<bool>,
    radius: int,
) -> Option<(u32, u32)> {
    let light = field.texels@[y * field.width + x].lights@[slot]->0;
    let weights = gathered(field, x, y, light, accepted, radius, 49);
    if nearest is Some && weights.1 > 0 {
        Some((weights.0 as u32, weights.1 as u32))
    } else {
        None
    }
}

/// Reconstructs the fractions of a texel's slots. `nearest` is what
/// [`local_shadow_blur`] found, and `radii` holds for each slot the radius that
/// its nearest blocker calls for.
pub fn blur_fractions(
    field: &SlotField,
    x: usize,
    y: usize,
    nearest: &Vec<Option<u32>>,
    radii: &Vec<i64>,
    accepted: &Vec<bool>,
) -> (shares: Vec<Option<(u32, u32)>>)
    requires
        field.wf(),
        x < field.width,
        y < field.height,
        nearest@.len() == field.slots,
        radii@.len() == field.slots,
        accepted@.len() == 49,
        forall|s: int|
            0 <= s < field.slots && (#[trigger] nearest@[s]) is Some ==> is_mixed(
                *field,
                x as int,
                y as int,
                s,
            ) && 1 <= radii@[s] <= SCAN,
    ensures
        shares@.len() == field.slots,
        forall|s: int|
            0 <= s < field.slots ==> #[trigger] shares@[s] == blurred(
                *field,
                x as int,
                y as int,
                s,
                nearest@[s],
                accepted@,
                radii@[s] as int,
            ),
        forall|s: int|
            0 <= s < field.slots ==> (#[trigger] shares@[s] matches Some(share) ==> {
                let light = field.texels@[y * field.width + x].lights@[s]->0;
                let weights = gathered(
                    *field,
                    x as int,
                    y as int,
                    light,
                    accepted@,
                    radii@[s] as int,
                    49,
                );
                &&& share.0 == weights.0
                &&& share.1 == weights.1
                &&& share.0 <= share.1 <= 196
                &&& share.1 > 0
            }),
{
    let mut shares: Vec<Option<(u32, u32)>> = Vec::new();
    let t: usize = neighbor_texel(field, x, y, 0, 0);
    assert(t == y * field.width + x);
    assert(field.texels@[t as int].lights@.len() == field.slots);
    let mut slot: usize = 0;
    while slot < field.slots
        invariant
            field.wf(),
            x < field.width,
            y < field.height,
            t == y * field.width + x,
            t < field.texels@.len(),
            field.texels@[t as int].lights@.len() == field.slots,
            nearest@.len() == field.slots,
            radii@.len() == field.slots,
            accepted@.len() == 49,
            forall|s: int|
                0 <= s < field.slots && (#[trigger] nearest@[s]) is Some ==> is_mixed(
                    *field,
                    x as int,
                    y as int,
                    s,
                ) && 1 <= radii@[s] <= SCAN,
            slot <= field.slots,
            shares@.len() == slot,
            forall|s: int|
                0 <= s < slot ==> #[trigger] shares@[s] == blurred(
                    *field,
                    x as int,
                    y as int,
                    s,
                    nearest@[s],
                    accepted@,
                    radii@[s] as int,
                ),
            forall|s: int|
                0 <= s < slot ==> (#[trigger] shares@[s] matches Some(share) ==> {
                    let light = field.texels@[y * field.width + x].lights@[s]->0;
                    let weights = gathered(
                        *field,
                        x as int,
                        y as int,
                        light,
                        accepted@,
                        radii@[s] as int,
                        49,
                    );
                    &&& share.0 == weights.0
                    &&& share.1 == weights.1
                    &&& share.0 <= share.1 <= 196
                    &&& share.1 > 0
                }),
        decreases field.slots - slot,
    {
        let mut share: Option<(u32, u32)> = None;
        if nearest[slot].is_some() {
            if let Some(light) = field.texels[t].lights[slot] {
                let weights: (u32, u32) = blur_gather(field, x, y, light, accepted, radii[slot]);
                if weights.1 > 0 {
                    share = Some(weights);
                }
            }
        }
        shares.push(share);
        slot = slot + 1;
    }
    shares
}

/// Reconstruction keeps even surroundings as they are: where every place that
/// counts is visible all light comes through, and where none is, none does.
pub proof fn law_even_surroundings_stay(
    field: SlotField,
    x: int,
    y: int,
    light: u32,
    accepted: Seq<bool>,
    radius: int,
    n: nat,
)
    requires
        n <= 49,
    ensures
        0 <= gathered(field, x, y, light, accepted, radius, n).0 <= gathered(
            field,
            x,
            y,
            light,
            accepted,
            radius,
            n,
        ).1,
        (forall|k: int|
            0 <= k < n && gathers(field, x, y, light, accepted, k) ==> (#[trigger] square_answer(
                field,
                x,
                y,
                light,
                k,
            ))->0.state == ShadowState::Visible) ==> gathered(
            field,
            x,
            y,
            light,
            accepted,
            radius,
            n,
        ).0 == gathered(field, x, y, light, accepted, radius, n).1,
        (forall|k: int|
            0 <= k < n && gathers(field, x, y, light, accepted, k) ==> (#[trigger] square_answer(
                field,
                x,
                y,
                light,
                k,
            ))->0.state != ShadowState::Visible) ==> gathered(
            field,
            x,
            y,
            light,
            accepted,
            radius,
            n,
        ).0 == 0,
    decreases n,
{
    if n > 0 {
        law_even_surroundings_stay(field, x, y, light, accepted, radius, (n - 1) as nat);
    }
}

// ---------------------------------------------------------------------------
// Blockers on the screen

/// The distance before the camera below which nothing is projected.
pub const CLIP_W_MIN: u32 = 0x3586_37bd;

/// Where a blocker is projected to, and the surfaces that are seen there.
#[derive(Debug, Clone, Copy, PartialEq, Eq, Structural)]
pub struct ProjectedBlocker {
    pub clip_w: u32,
    pub x: u32,
    pub y: u32,
    pub z: u32,
    /// Its own depth.
    pub depth: u32,
    /// The nearer of the two surfaces that are sampled, less the band.
    pub near: u32,
    /// The farther of the two, and the band.
    pub far: u32,
}

/// The bit patterns of one and of minus one.
pub const PLUS_ONE: u32 = 0x3f80_0000;

pub const MINUS_ONE: u32 = 0xbf80_0000;

/// Whether a blocker is projected onto the screen.
pub open spec fn on_screen(blocker: ProjectedBlocker) -> bool {
    &&& !float_bits::at_most(blocker.clip_w, CLIP_W_MIN)
    &&& !float_bits::less(blocker.x, MINUS_ONE)
    &&& !float_bits::less(PLUS_ONE, blocker.x)
    &&& !float_bits::less(blocker.y, MINUS_ONE)
    &&& !float_bits::less(PLUS_ONE, blocker.y)
    &&& !float_bits::at_most(blocker.z, 0)
    &&& !float_bits::less(PLUS_ONE, blocker.z)
}

/// Validates a blocker: it is on the screen, and a surface is seen within the
/// band around it.
pub fn validate_occlusion(blocker: &ProjectedBlocker) -> (valid: bool)
    ensures
        valid == (on_screen(*blocker) && float_bits::less(blocker.near, blocker.depth)
            && float_bits::less(blocker.depth, blocker.far)),
{
    if float_bits::is_at_most(blocker.clip_w, CLIP_W_MIN) {
        return false;
    }
    if float_bits::is_less(blocker.x, MINUS_ONE) || float_bits::is_less(PLUS_ONE, blocker.x)
        || float_bits::is_less(blocker.y, MINUS_ONE) || float_bits::is_less(PLUS_ONE, blocker.y)
        || float_bits::is_at_most(blocker.z, 0) || float_bits::is_less(PLUS_ONE, blocker.z) {
        return false;
    }
    float_bits::is_less(blocker.near, blocker.depth) && float_bits::is_less(
        blocker.depth,
        blocker.far,
    )
}

/// What a short march towards a light found.
#[derive(Debug, Clone, Copy, PartialEq, Eq, Structural)]
pub struct ContactProbe {
    /// The steps of the march; none switches it off.
    pub linear_steps: u32,
    pub segment_active: bool,
    /// The length of the way to the light.
    pub span: u32,
    /// Where the way starts.
    pub t_min: u32,
    /// How far the march goes.
    pub reach: u32,
    /// The march could be projected onto the screen.
    pub projected: bool,
    /// The march hit something.
    pub hit: bool,
    /// What the place of the hit is divided by.
    pub denominator: u32,
    /// The place of the hit, in 65535ths of the way.
    pub hit_q: u32,
}

/// Answers from a short march: an occlusion where it hit something, else
/// nothing.
pub fn contact_answer(probe: &ContactProbe) -> (answer: Option<SlotState>)
    ensures
        answer == if probe.linear_steps != 0 && probe.segment_active && !float_bits::at_most(
            probe.span,
            0,
        ) && !float_bits::at_most(probe.reach, probe.t_min) && probe.projected && probe.hit
            && !float_bits::at_most(probe.denominator, 0) {
            Some(SlotState::plain(ShadowState::Occluded, 0, probe.hit_q))
        } else {
            None
        },
{
    if probe.linear_steps == 0 {
        return None;
    }
    if !probe.segment_active {
        return None;
    }
    if float_bits::is_at_most(probe.span, 0) {
        return None;
    }
    if float_bits::is_at_most(probe.reach, probe.t_min) {
        return None;
    }
    if !probe.projected {
        return None;
    }
    if !probe.hit {
        return None;
    }
    if float_bits::is_at_most(probe.denominator, 0) {
        return None;
    }
    Some(SlotState::plain(ShadowState::Occluded, 0, probe.hit_q))
}

} // verus!
