//! Local lights of a surface pixel: which lights count, how visible each is,
//! and what a failed query looks like.

use vstd::prelude::*;

use crate::float_bits;
use crate::shading::clusters;
use crate::shading::local_shadow;
use crate::shading::local_shadow::{ShadowState, SlotField, SlotState, Texel};

verus! {

/// How much of a light a pixel sees.
#[derive(Debug, Clone, Copy, PartialEq, Eq, Structural)]
pub enum Visibility {
    /// No answer: it is shown as such, not as shadow.
    Failed,
    /// The share `weighted / weight`.
    Share { weighted: u32, weight: u32 },
}

/// The visibility that an exact query means; a light without queries is fully
/// visible.
pub open spec fn exact_visibility(state: Option<ShadowState>, fraction_one: u32) -> Visibility {
    match state {
        None => Visibility::Share { weighted: fraction_one, weight: 1 },
        Some(ShadowState::Visible) => Visibility::Share { weighted: fraction_one, weight: 1 },
        Some(ShadowState::Occluded) => Visibility::Share { weighted: 0, weight: 1 },
        _ => Visibility::Failed,
    }
}

/// The answer of an exact query.
pub fn exact_shadow_visibility(state: Option<ShadowState>, fraction_one: u32) -> (visibility: Visibility)
    ensures
        visibility == exact_visibility(state, fraction_one),
{
    match state {
        None => Visibility::Share { weighted: fraction_one, weight: 1 },
        Some(ShadowState::Visible) => Visibility::Share { weighted: fraction_one, weight: 1 },
        Some(ShadowState::Occluded) => Visibility::Share { weighted: 0, weight: 1 },
        Some(ShadowState::Failed) => Visibility::Failed,
        Some(ShadowState::Inactive) => Visibility::Failed,
    }
}

// ---------------------------------------------------------------------------
// Half-resolution answers

/// The share of a light that a texel lets through, where it has an answer.
pub open spec fn texel_share(
    lights: Seq<Option<u32>>,
    states: Seq<SlotState>,
    fractions: Seq<u32>,
    light: u32,
) -> Option<u32> {
    match local_shadow::slot_of(lights, light) {
        None => None,
        Some(slot) => if states[slot as int].state == ShadowState::Visible
            || states[slot as int].state == ShadowState::Occluded {
            Some(fractions[slot as int])
        } else {
            None
        },
    }
}

/// Finds the share of a light that a texel lets through.
pub fn slot_neighbor_visibility(texel: &Texel, fractions: &Vec<u32>, light: u32) -> (share: Option<u32>)
    requires
        texel.lights@.len() == texel.states@.len(),
        texel.lights@.len() == fractions@.len(),
    ensures
        share == texel_share(texel.lights@, texel.states@, fractions@, light),
{
    let count: usize = texel.lights.len();
    assert(count == texel.lights@.len());
    match local_shadow::find_slot(&texel.lights, light) {
        None => None,
        Some(slot) => {
            let state = texel.states[slot].state;
            if state == ShadowState::Visible || state == ShadowState::Occluded {
                Some(fractions[slot])
            } else {
                None
            }
        },
    }
}

/// A texel of the half-resolution grid around a pixel, with its share of the
/// pixel in sixteenths.
#[derive(Debug, Clone, Copy, PartialEq, Eq, Structural)]
pub struct Corner {
    pub x: u32,
    pub y: u32,
    pub weight: u32,
}

/// The place along one axis of the texel at an offset, held within the grid.
pub open spec fn axis_place(at: int, size: int, offset: int) -> int {
    let place = (if at % 2 == 0 {
        at / 2 - 1
    } else {
        at / 2
    }) + offset;
    if place < 0 {
        0
    } else if place > size - 1 {
        size - 1
    } else {
        place
    }
}

/// The weight along one axis, in quarters: the texel that the pixel lies in has
/// three.
pub open spec fn axis_weight(at: int, offset: int) -> int {
    if (at % 2 == 0) == (offset == 1) {
        3
    } else {
        1
    }
}

/// One of the four texels around a pixel.
pub open spec fn corner_at(x: u32, y: u32, width: u32, height: u32, corner: int) -> Corner {
    Corner {
        x: axis_place(x as int, width as int, corner % 2) as u32,
        y: axis_place(y as int, height as int, corner / 2) as u32,
        weight: (axis_weight(x as int, corner % 2) * axis_weight(y as int, corner / 2)) as u32,
    }
}

fn place_along(at: u32, size: u32, offset: u32) -> (place: u32)
    requires
        size > 0,
        offset < 2,
    ensures
        place == axis_place(at as int, size as int, offset as int),
        place < size,
{
    let half: u32 = at / 2;
    if at % 2 == 0 {
        if offset == 0 {
            if half == 0 {
                0
            } else if half - 1 > size - 1 {
                size - 1
            } else {
                half - 1
            }
        } else if half > size - 1 {
            size - 1
        } else {
            half
        }
    } else if half as u64 + offset as u64 > (size - 1) as u64 {
        size - 1
    } else {
        half + offset
    }
}

fn weight_along(at: u32, offset: u32) -> (weight: u32)
    requires
        offset < 2,
    ensures
        weight == axis_weight(at as int, offset as int),
        weight == 1 || weight == 3,
{
    if (at % 2 == 0) == (offset == 1) {
        3
    } else {
        1
    }
}

/// Finds one of the four texels around a pixel.
pub fn corner_of(x: u32, y: u32, width: u32, height: u32, corner: u32) -> (texel: Corner)
    requires
        width > 0,
        height > 0,
        corner < 4,
    ensures
        texel == corner_at(x, y, width, height, corner as int),
        texel.x < width,
        texel.y < height,
        1 <= texel.weight <= 9,
{
    let across: u32 = weight_along(x, corner % 2);
    let down: u32 = weight_along(y, corner / 2);
    assert(1 <= across * down <= 9) by (nonlinear_arith)
        requires
            across == 1 || across == 3,
            down == 1 || down == 3,
    ;
    Corner {
        x: place_along(x, width, corner % 2),
        y: place_along(y, height, corner / 2),
        weight: across * down,
    }
}

/// The four weights make one whole, and the texel that a pixel lies in has the
/// most.
pub proof fn law_corner_weights_make_one(x: u32, y: u32, width: u32, height: u32)
    requires
        (x as int) / 2 < width,
        (y as int) / 2 < height,
    ensures
        corner_at(x, y, width, height, 0).weight + corner_at(x, y, width, height, 1).weight
            + corner_at(x, y, width, height, 2).weight + corner_at(x, y, width, height, 3).weight
            == 16,
        ({
            let own = (if x % 2 == 0 { 1int } else { 0 }) + (if y % 2 == 0 { 2int } else { 0 });
            corner_at(x, y, width, height, own) == (Corner {
                x: (x as int / 2) as u32,
                y: (y as int / 2) as u32,
                weight: 9,
            })
        }),
{
    let a = axis_weight(x as int, 0);
    let b = axis_weight(x as int, 1);
    let c = axis_weight(y as int, 0);
    let d = axis_weight(y as int, 1);
    assert(a * c + b * c + a * d + b * d == 16 && 0 <= a * c <= 9 && 0 <= b * c <= 9 && 0 <= a * d
        <= 9 && 0 <= b * d <= 9) by (nonlinear_arith)
        requires
            (a == 1 && b == 3) || (a == 3 && b == 1),
            (c == 1 && d == 3) || (c == 3 && d == 1),
    ;
    assert(corner_at(x, y, width, height, 0).weight == a * c);
    assert(corner_at(x, y, width, height, 1).weight == b * c);
    assert(corner_at(x, y, width, height, 2).weight == a * d);
    assert(corner_at(x, y, width, height, 3).weight == b * d);
}

/// What a corner says of a light.
#[derive(Debug, Clone, Copy, PartialEq, Eq, Structural)]
pub struct CornerAnswer {
    pub weight: u32,
    /// Its share of the light, where it has an answer.
    pub share: Option<u32>,
    /// It has a representative whose depth is close to the pixel's.
    pub depth_matches: bool,
}

/// Whether a corner takes part.
pub open spec fn takes_part(answer: CornerAnswer) -> bool {
    answer.share is Some && answer.depth_matches
}

/// The weights of the first `n` corners that take part.
pub open spec fn weight_of(answers: Seq<CornerAnswer>, n: int) -> int
    decreases n,
{
    if n <= 0 {
        0
    } else {
        weight_of(answers, n - 1) + (if takes_part(answers[n - 1]) {
            answers[n - 1].weight as int
        } else {
            0
        })
    }
}

/// The weighted shares of the first `n` corners that take part.
pub open spec fn weighted_of(answers: Seq<CornerAnswer>, n: int) -> int
    decreases n,
{
    if n <= 0 {
        0
    } else {
        weighted_of(answers, n - 1) + (if takes_part(answers[n - 1]) {
            answers[n - 1].weight * answers[n - 1].share->0
        } else {
            0
        })
    }
}

/// The visibility of a light at a pixel: failed where its own texel has no
/// answer, else the mean of the corners that take part, else its own answer.
pub open spec fn resolved(own: Option<u32>, answers: Seq<CornerAnswer>) -> Visibility {
    if own is None {
        Visibility::Failed
    } else if weight_of(answers, 4) > 0 {
        Visibility::Share {
            weighted: weighted_of(answers, 4) as u32,
            weight: weight_of(answers, 4) as u32,
        }
    } else {
        Visibility::Share { weighted: own->0, weight: 1 }
    }
}

/// Resolves the visibility of a light at a pixel from the texels around it.
pub fn slot_visibility_resolve(own: Option<u32>, answers: &[CornerAnswer; 4], fraction_one: u32) -> (visibility: Visibility)
    requires
        fraction_one <= 0xffff,
        forall|i: int|
            0 <= i < 4 ==> (#[trigger] answers@[i]).weight <= 9 && (answers@[i].share is Some
                ==> answers@[i].share->0 <= fraction_one),
    ensures
        visibility == resolved(own, answers@),
        0 <= weighted_of(answers@, 4) <= weight_of(answers@, 4) * fraction_one,
        0 <= weight_of(answers@, 4) <= 36,
{
    let mut weight: u32 = 0;
    let mut weighted: u32 = 0;
    let mut corner: usize = 0;
    while corner < 4
        invariant
            corner <= 4,
            fraction_one <= 0xffff,
            forall|i: int|
                0 <= i < 4 ==> (#[trigger] answers@[i]).weight <= 9 && (answers@[i].share is Some
                    ==> answers@[i].share->0 <= fraction_one),
            weight == weight_of(answers@, corner as int),
            weighted == weighted_of(answers@, corner as int),
            weight <= 9 * corner,
            weighted <= weight * fraction_one,
        decreases 4 - corner,
    {
        let answer = answers[corner];
        assert(answer == answers@[corner as int]);
        if answer.depth_matches {
            if let Some(share) = answer.share {
                assert(answer.weight * share <= answer.weight * fraction_one) by (nonlinear_arith)
                    requires
                        share <= fraction_one,
                        answer.weight >= 0,
                ;
                assert((weight + answer.weight) * fraction_one == weight * fraction_one
                    + answer.weight * fraction_one) by (nonlinear_arith);
                assert((weight + answer.weight) * fraction_one <= 36 * 0xffff) by (nonlinear_arith)
                    requires
                        weight + answer.weight <= 36,
                        fraction_one <= 0xffff,
                ;
                assert(0 <= answer.weight * share) by (nonlinear_arith)
                    requires
                        answer.weight >= 0,
                        share >= 0,
                ;
                weighted = weighted + answer.weight * share;
                weight = weight + answer.weight;
            }
        }
        corner = corner + 1;
    }
    match own {
        None => Visibility::Failed,
        Some(share) => if weight > 0 {
            Visibility::Share { weighted, weight }
        } else {
            Visibility::Share { weighted: share, weight: 1 }
        },
    }
}

// ---------------------------------------------------------------------------
// Shading

/// A light that adds to a pixel.
#[derive(Debug, Clone, Copy, PartialEq, Eq, Structural)]
pub struct LightShare {
    pub light: u32,
    pub weighted: u32,
    pub weight: u32,
}

/// A light that a pixel asks about; none for an empty slot.
#[derive(Debug, Clone, Copy, PartialEq, Eq, Structural)]
pub struct LightQuery {
    pub light: Option<u32>,
    pub visibility: Visibility,
}

/// Whether a query is about a light that there is.
pub open spec fn is_active(query: LightQuery, light_count: u32) -> bool {
    query.light is Some && query.light->0 < light_count
}

/// The lights of the first `n` queries that add to the pixel, in order.
pub open spec fn shares(queries: Seq<LightQuery>, light_count: u32, n: int) -> Seq<LightShare>
    decreases n,
{
    if n <= 0 {
        Seq::empty()
    } else {
        let before = shares(queries, light_count, n - 1);
        let query = queries[n - 1];
        match query.visibility {
            Visibility::Share { weighted, weight } => if is_active(query, light_count) {
                before.push(LightShare { light: query.light->0, weighted, weight })
            } else {
                before
            },
            Visibility::Failed => before,
        }
    }
}

/// Whether one of the first `n` queries failed.
pub open spec fn any_failed(queries: Seq<LightQuery>, light_count: u32, n: int) -> bool {
    exists|i: int|
        0 <= i < n && is_active(#[trigger] queries[i], light_count) && queries[i].visibility
            == Visibility::Failed
}

/// The lights that queries add up, and whether one of them failed.
fn add_up(queries: &Vec<LightQuery>, light_count: u32) -> (sum: (Vec<LightShare>, bool))
    ensures
        sum.0@ == shares(queries@, light_count, queries@.len() as int),
        sum.1 == any_failed(queries@, light_count, queries@.len() as int),
{
    let mut lights: Vec<LightShare> = Vec::new();
    let mut failed = false;
    let count: usize = queries.len();
    let mut i: usize = 0;
    while i < count
        invariant
            i <= count,
            count == queries@.len(),
            lights@ == shares(queries@, light_count, i as int),
            failed == any_failed(queries@, light_count, i as int),
        decreases count - i,
    {
        let query = queries[i];
        assert(query == queries@[i as int]);
        if let Some(light) = query.light {
            if light < light_count {
                match query.visibility {
                    Visibility::Failed => {
                        failed = true;
                    },
                    Visibility::Share { weighted, weight } => {
                        lights.push(LightShare { light, weighted, weight });
                    },
                }
            }
        }
        proof {
            if any_failed(queries@, light_count, i + 1) {
                let k = choose|k: int|
                    0 <= k < i + 1 && is_active(#[trigger] queries@[k], light_count)
                        && queries@[k].visibility == Visibility::Failed;
                assert(k < i ==> any_failed(queries@, light_count, i as int));
            }
            if any_failed(queries@, light_count, i as int) {
                let k = choose|k: int|
                    0 <= k < i && is_active(#[trigger] queries@[k], light_count)
                        && queries@[k].visibility == Visibility::Failed;
                assert(is_active(queries@[k], light_count));
            }
        }
        i = i + 1;
    }
    (lights, failed)
}

proof fn lemma_share_of(queries: Seq<LightQuery>, light_count: u32, n: int, k: int)
    requires
        0 <= k < n <= queries.len(),
        is_active(queries[k], light_count),
        queries[k].visibility is Share,
    ensures
        exists|j: int|
            0 <= j < shares(queries, light_count, n).len() && (#[trigger] shares(
                queries,
                light_count,
                n,
            )[j]).light == queries[k].light->0,
    decreases n,
{
    let list = shares(queries, light_count, n);
    if k == n - 1 {
        assert(list[list.len() - 1].light == queries[k].light->0);
    } else {
        lemma_share_of(queries, light_count, n - 1, k);
        let before = shares(queries, light_count, n - 1);
        let j = choose|j: int|
            0 <= j < before.len() && (#[trigger] before[j]).light == queries[k].light->0;
        assert(list[j] == before[j]);
    }
}

/// Every light that is asked about is shaded or shown as failed.
pub proof fn law_no_query_is_dropped(queries: Seq<LightQuery>, light_count: u32, k: int)
    requires
        0 <= k < queries.len(),
        is_active(queries[k], light_count),
    ensures
        any_failed(queries, light_count, queries.len() as int) || exists|j: int|
            0 <= j < shares(queries, light_count, queries.len() as int).len() && (
            #[trigger] shares(queries, light_count, queries.len() as int)[j]).light
                == queries[k].light->0,
{
    if queries[k].visibility is Share {
        lemma_share_of(queries, light_count, queries.len() as int, k);
    }
}

/// What the first slot of a texel is painted with to show where its answer
/// comes from.
#[derive(Debug, Clone, Copy, PartialEq, Eq, Structural)]
pub enum OverlayColor {
    /// Proved in this frame.
    Red,
    /// Kept though the camera can not see the blocker.
    Cyan,
    /// An occlusion that was validated.
    Green,
    /// As old as an answer gets.
    Yellow,
    /// Visible by history.
    Blue,
}

/// The colour that shows where an answer comes from.
pub open spec fn overlay_of(answer: SlotState, age_max: u32) -> OverlayColor {
    if answer.age == 0 {
        OverlayColor::Red
    } else if answer.state == ShadowState::Occluded {
        if answer.blind {
            OverlayColor::Cyan
        } else {
            OverlayColor::Green
        }
    } else if answer.age >= age_max {
        OverlayColor::Yellow
    } else {
        OverlayColor::Blue
    }
}

/// Chooses the colour that shows where an answer comes from.
pub fn overlay_color(answer: &SlotState, age_max: u32) -> (color: OverlayColor)
    ensures
        color == overlay_of(*answer, age_max),
{
    if answer.state == ShadowState::Occluded {
        if answer.age == 0 {
            OverlayColor::Red
        } else if answer.blind {
            OverlayColor::Cyan
        } else {
            OverlayColor::Green
        }
    } else if answer.age == 0 {
        OverlayColor::Red
    } else if answer.age >= age_max {
        OverlayColor::Yellow
    } else {
        OverlayColor::Blue
    }
}

// ---------------------------------------------------------------------------
// Pixels

/// The age at which an answer counts as old.
pub const OLDEST_AGE: u32 = 255;

/// Bits of the red and of the blue that a failed query adds, so that it can not
/// be taken for shadow.
pub const FAILURE_LIGHT: u32 = 0x4280_0000;

/// The answers of the half-resolution grid.
pub struct SlotAnswers {
    pub field: SlotField,
    /// For each texel, the fraction of light that each slot lets through.
    pub fractions: Vec<Vec<u32>>,
}

impl SlotAnswers {
    /// Every slot has its fraction, and none lets more through than all.
    pub open spec fn valid(self, fraction_one: u32) -> bool {
        &&& self.field.wf()
        &&& fraction_one <= 0xffff
        &&& self.fractions@.len() == self.field.texels@.len()
        &&& forall|t: int|
            0 <= t < self.fractions@.len() ==> (#[trigger] self.fractions@[t])@.len()
                == self.field.slots
        &&& forall|t: int, i: int|
            0 <= t < self.fractions@.len() && 0 <= i < self.field.slots ==> (
            #[trigger] self.fractions@[t]@[i]) <= fraction_one
    }

    /// The texel that a pixel lies in.
    pub open spec fn own_texel(self, x: u32, y: u32) -> int {
        (y as int / 2) * self.field.width + x as int / 2
    }

    /// The share of a light that a texel lets through, where it has an answer.
    pub open spec fn share(self, t: int, light: u32) -> Option<u32> {
        texel_share(
            self.field.texels@[t].lights@,
            self.field.texels@[t].states@,
            self.fractions@[t]@,
            light,
        )
    }

    /// What a corner around a pixel says of a light.
    pub open spec fn corner_answer(self, x: u32, y: u32, close: Seq<bool>, light: u32, corner: int) -> CornerAnswer {
        let at = corner_at(x, y, self.field.width as u32, self.field.height as u32, corner);
        CornerAnswer {
            weight: at.weight,
            share: self.share(at.y * self.field.width + at.x, light),
            depth_matches: close[corner],
        }
    }

    /// What the four corners around a pixel say of a light.
    pub open spec fn corner_answers(self, x: u32, y: u32, close: Seq<bool>, light: u32) -> Seq<CornerAnswer> {
        Seq::new(4, |corner: int| self.corner_answer(x, y, close, light, corner))
    }

    /// The query of a slot of the pixel's texel. One without a light is not
    /// resolved.
    pub open spec fn query(
        self,
        x: u32,
        y: u32,
        close: Seq<bool>,
        light_count: u32,
        fraction_one: u32,
        slot: int,
    ) -> LightQuery {
        let own = self.own_texel(x, y);
        let light = self.field.texels@[own].lights@[slot];
        LightQuery {
            light,
            visibility: if light is Some && light->0 < light_count {
                resolved(self.share(own, light->0), self.corner_answers(x, y, close, light->0))
            } else {
                Visibility::Share { weighted: fraction_one, weight: 1 }
            },
        }
    }

    proof fn lemma_texel(self, x: int, y: int)
        requires
            self.field.wf(),
            0 <= x < self.field.width,
            0 <= y < self.field.height,
        ensures
            0 <= y * self.field.width + x < self.field.texels@.len(),
            0 <= y * self.field.width,
    {
        let width = self.field.width as int;
        let height = self.field.height as int;
        assert(0 <= y * width && y * width + x < width * height) by (nonlinear_arith)
            requires
                0 <= x < width,
                0 <= y < height,
        ;
    }

    fn texel_at(&self, x: u32, y: u32) -> (t: usize)
        requires
            self.field.wf(),
            x < self.field.width,
            y < self.field.height,
        ensures
            t == y * self.field.width + x,
            t < self.field.texels@.len(),
    {
        let total: usize = self.field.texels.len();
        proof {
            self.lemma_texel(x as int, y as int);
            assert(y * self.field.width + x < total);
        }
        y as usize * self.field.width + x as usize
    }

    fn share_at(&self, t: usize, light: u32, fraction_one: u32) -> (share: Option<u32>)
        requires
            self.valid(fraction_one),
            t < self.field.texels@.len(),
        ensures
            share == self.share(t as int, light),
            share matches Some(s) ==> s <= fraction_one,
    {
        let texel = &self.field.texels[t];
        assert(self.field.texels@[t as int].lights@.len() == self.field.slots);
        assert(self.fractions@[t as int]@.len() == self.field.slots);
        let share = slot_neighbor_visibility(texel, &self.fractions[t], light);
        proof {
            if share is Some {
                let slot = local_shadow::slot_of(texel.lights@, light)->0;
                local_shadow::lemma_slot_of(texel.lights@, light);
                assert(self.fractions@[t as int]@[slot as int] <= fraction_one);
            }
        }
        share
    }

    fn answer_of(&self, x: u32, y: u32, close: &[bool; 4], light: u32, corner: u32, fraction_one: u32) -> (answer: CornerAnswer)
        requires
            self.valid(fraction_one),
            corner < 4,
        ensures
            answer == self.corner_answer(x, y, close@, light, corner as int),
            answer.weight <= 9,
            answer.share is Some ==> answer.share->0 <= fraction_one,
    {
        let at = corner_of(x, y, self.field.width as u32, self.field.height as u32, corner);
        let t: usize = self.texel_at(at.x, at.y);
        CornerAnswer {
            weight: at.weight,
            share: self.share_at(t, light, fraction_one),
            depth_matches: close[corner as usize],
        }
    }

    /// Asks about each slot of a pixel's texel. `close` tells of each corner
    /// around the pixel whether it has a representative whose depth is close.
    pub fn queries(&self, x: u32, y: u32, close: &[bool; 4], light_count: u32, fraction_one: u32) -> (queries:
        Vec<LightQuery>)
        requires
            self.valid(fraction_one),
            (x as int) / 2 < self.field.width,
            (y as int) / 2 < self.field.height,
        ensures
            queries@.len() == self.field.slots,
            forall|i: int|
                0 <= i < queries@.len() ==> #[trigger] queries@[i] == self.query(
                    x,
                    y,
                    close@,
                    light_count,
                    fraction_one,
                    i,
                ),
    {
        let own: usize = self.texel_at(x / 2, y / 2);
        assert(self.field.texels@[own as int].lights@.len() == self.field.slots);
        let mut queries: Vec<LightQuery> = Vec::new();
        let mut slot: usize = 0;
        while slot < self.field.slots
            invariant
                slot <= self.field.slots,
                self.valid(fraction_one),
                own == self.own_texel(x, y),
                own < self.field.texels@.len(),
                self.field.texels@[own as int].lights@.len() == self.field.slots,
                queries@.len() == slot,
                forall|i: int|
                    0 <= i < slot ==> #[trigger] queries@[i] == self.query(
                        x,
                        y,
                        close@,
                        light_count,
                        fraction_one,
                        i,
                    ),
            decreases self.field.slots - slot,
        {
            let light = self.field.texels[own].lights[slot];
            let mut visibility = Visibility::Share { weighted: fraction_one, weight: 1 };
            if let Some(id) = light {
                if id < light_count {
                    let answers: [CornerAnswer; 4] = [
                        self.answer_of(x, y, close, id, 0, fraction_one),
                        self.answer_of(x, y, close, id, 1, fraction_one),
                        self.answer_of(x, y, close, id, 2, fraction_one),
                        self.answer_of(x, y, close, id, 3, fraction_one),
                    ];
                    assert(answers@ =~= self.corner_answers(x, y, close@, id));
                    visibility = slot_visibility_resolve(
                        self.share_at(own, id, fraction_one),
                        &answers,
                        fraction_one,
                    );
                }
            }
            queries.push(LightQuery { light, visibility });
            slot = slot + 1;
        }
        queries
    }
}

/// The query of a light that is answered for every pixel by itself.
pub open spec fn exact_query(
    states: Option<Seq<ShadowState>>,
    pixel_count: u32,
    pixel: u32,
    fraction_one: u32,
    light: int,
) -> LightQuery {
    LightQuery {
        light: Some(light as u32),
        visibility: exact_visibility(
            match states {
                Some(states) => Some(states[light * pixel_count + pixel]),
                None => None,
            },
            fraction_one,
        ),
    }
}

/// Asks about every light at a pixel. Without states all lights are visible.
pub fn exact_queries(
    states: &Option<Vec<ShadowState>>,
    pixel_count: u32,
    pixel: u32,
    light_count: u32,
    fraction_one: u32,
) -> (queries: Vec<LightQuery>)
    requires
        pixel < pixel_count,
        states matches Some(s) ==> light_count * pixel_count <= s@.len(),
    ensures
        queries@.len() == light_count,
        forall|i: int|
            0 <= i < queries@.len() ==> #[trigger] queries@[i] == exact_query(
                states_view(*states),
                pixel_count,
                pixel,
                fraction_one,
                i,
            ),
{
    let mut queries: Vec<LightQuery> = Vec::new();
    let mut light: u32 = 0;
    while light < light_count
        invariant
            light <= light_count,
            pixel < pixel_count,
            states matches Some(s) ==> light_count * pixel_count <= s@.len(),
            queries@.len() == light,
            forall|i: int|
                0 <= i < light ==> #[trigger] queries@[i] == exact_query(
                    states_view(*states),
                    pixel_count,
                    pixel,
                    fraction_one,
                    i,
                ),
        decreases light_count - light,
    {
        let state = match states {
            Some(states) => {
                let total: usize = states.len();
                proof {
                    assert(light * pixel_count + pixel < light_count * pixel_count && 0 <= light
                        * pixel_count) by (nonlinear_arith)
                        requires
                            light < light_count,
                            pixel < pixel_count,
                    ;
                    assert(light * pixel_count + pixel < total);
                }
                Some(states[light as usize * pixel_count as usize + pixel as usize])
            },
            None => None,
        };
        queries.push(
            LightQuery { light: Some(light), visibility: exact_shadow_visibility(state, fraction_one) },
        );
        light = light + 1;
    }
    queries
}

pub open spec fn states_view(states: Option<Vec<ShadowState>>) -> Option<Seq<ShadowState>> {
    match states {
        Some(states) => Some(states@),
        None => None,
    }
}

/// Where the visibility of lights comes from.
pub enum LightSource {
    /// From a state for every light and pixel.
    Exact(Option<Vec<ShadowState>>),
    /// From the slots of the half-resolution grid.
    Slots(SlotAnswers),
}

/// What a pixel shows.
#[derive(Debug, Clone, Copy, PartialEq, Eq, Structural)]
pub struct SurfacePixel {
    pub x: u32,
    pub y: u32,
    pub marker: u32,
    pub depth: u32,
    pub ramp_map: u32,
    pub ramp_sampler: u32,
}

/// What a frame lights its pixels with.
pub struct LightFrame {
    pub width: u32,
    pub height: u32,
    pub light_count: u32,
    pub fraction_one: u32,
    pub default_sampler: u32,
    /// Paint answers by where they come from.
    pub debug_overlay: bool,
    pub source: LightSource,
}

impl LightFrame {
    /// All that is asked for is there.
    pub open spec fn valid(self) -> bool {
        &&& self.width * self.height <= u32::MAX
        &&& match self.source {
            LightSource::Exact(states) => states matches Some(s) ==> self.light_count * (self.width
                * self.height) <= s@.len(),
            LightSource::Slots(answers) => {
                &&& answers.valid(self.fraction_one)
                &&& answers.field.slots > 0
                &&& self.width <= 2 * answers.field.width
                &&& self.height <= 2 * answers.field.height
            },
        }
    }

    /// The queries of a pixel: one for each slot of its texel, or one for each
    /// light.
    pub open spec fn queries(self, pixel: SurfacePixel, close: Seq<bool>) -> Seq<LightQuery> {
        match self.source {
            LightSource::Exact(states) => Seq::new(
                self.light_count as nat,
                |light: int|
                    exact_query(
                        states_view(states),
                        (self.width * self.height) as u32,
                        (pixel.y * self.width + pixel.x) as u32,
                        self.fraction_one,
                        light,
                    ),
            ),
            LightSource::Slots(answers) => Seq::new(
                answers.field.slots as nat,
                |slot: int|
                    answers.query(
                        pixel.x,
                        pixel.y,
                        close,
                        self.light_count,
                        self.fraction_one,
                        slot,
                    ),
            ),
        }
    }

    /// The colour that a pixel is painted with instead of its light.
    pub open spec fn overlay(self, pixel: SurfacePixel) -> Option<OverlayColor> {
        match self.source {
            LightSource::Slots(answers) => if self.debug_overlay {
                Some(
                    overlay_of(
                        answers.field.texels@[answers.own_texel(pixel.x, pixel.y)].states@[0],
                        OLDEST_AGE,
                    ),
                )
            } else {
                None
            },
            LightSource::Exact(_) => None,
        }
    }

    /// Whether a pixel is on the screen and shows a surface.
    pub open spec fn is_lit(self, pixel: SurfacePixel) -> bool {
        &&& pixel.x < self.width
        &&& pixel.y < self.height
        &&& !float_bits::at_most(pixel.marker, 0)
        &&& !float_bits::at_most(pixel.depth, 0)
    }
}

/// What a pixel adds up.
pub struct LightPlan {
    pub lights: Vec<LightShare>,
    /// A query failed.
    pub failed: bool,
    /// Bits of the light that is added to show a failure.
    pub failure: [u32; 3],
    /// The sampler of the material's ramp, if it has one.
    pub ramp_sampler: Option<u32>,
    /// The colour that is painted instead.
    pub overlay: Option<OverlayColor>,
}

/// Plans the light of a pixel. One beyond the screen or without a surface has no
/// plan. `close` tells of each corner around the pixel whether it has a
/// representative whose depth is close.
pub fn mesh_local_light(frame: &LightFrame, pixel: SurfacePixel, close: &[bool; 4]) -> (plan: Option<LightPlan>)
    requires
        frame.valid(),
    ensures
        plan is Some <==> frame.is_lit(pixel),
        plan matches Some(p) ==> {
            let queries = frame.queries(pixel, close@);
            &&& p.lights@ == shares(queries, frame.light_count, queries.len() as int)
            &&& p.failed == any_failed(queries, frame.light_count, queries.len() as int)
            &&& p.failure@ == if p.failed {
                seq![FAILURE_LIGHT, 0, FAILURE_LIGHT]
            } else {
                seq![0, 0, 0]
            }
            &&& p.ramp_sampler == clusters::chosen_sampler(
                pixel.ramp_map,
                pixel.ramp_sampler,
                frame.default_sampler,
            )
            &&& p.overlay == frame.overlay(pixel)
        },
{
    if pixel.x >= frame.width || pixel.y >= frame.height {
        return None;
    }
    if float_bits::is_at_most(pixel.marker, 0) || float_bits::is_at_most(pixel.depth, 0) {
        return None;
    }
    let mut overlay: Option<OverlayColor> = None;
    let queries: Vec<LightQuery> = match &frame.source {
        LightSource::Exact(states) => {
            proof {
                assert(pixel.y * frame.width + pixel.x < frame.width * frame.height && 0 <= pixel.y
                    * frame.width) by (nonlinear_arith)
                    requires
                        pixel.x < frame.width,
                        pixel.y < frame.height,
                ;
            }
            exact_queries(
                states,
                frame.width * frame.height,
                pixel.y * frame.width + pixel.x,
                frame.light_count,
                frame.fraction_one,
            )
        },
        LightSource::Slots(answers) => {
            if frame.debug_overlay {
                let own: usize = answers.texel_at(pixel.x / 2, pixel.y / 2);
                assert(answers.field.texels@[own as int].states@.len() == answers.field.slots);
                overlay = Some(overlay_color(&answers.field.texels[own].states[0], OLDEST_AGE));
            }
            answers.queries(pixel.x, pixel.y, close, frame.light_count, frame.fraction_one)
        },
    };
    assert(queries@ =~= frame.queries(pixel, close@));
    let (lights, failed) = add_up(&queries, frame.light_count);
    let failure: [u32; 3] = if failed {
        [FAILURE_LIGHT, 0, FAILURE_LIGHT]
    } else {
        [0, 0, 0]
    };
    assert(failure@ =~= if failed {
        seq![FAILURE_LIGHT, 0, FAILURE_LIGHT]
    } else {
        seq![0, 0, 0]
    });
    let ramp_sampler = clusters::color_sampler(
        pixel.ramp_map,
        pixel.ramp_sampler,
        frame.default_sampler,
    );
    Some(LightPlan { lights, failed, failure, ramp_sampler, overlay })
}

// ---------------------------------------------------------------------------
// Depth marches

/// What one step of a march found.
#[derive(Debug, Clone, Copy, PartialEq, Eq, Structural)]
pub struct MarchStep {
    /// How far the ray is in front of the farther surface.
    pub distance: u32,
    /// How far the ray is behind the nearer surface.
    pub penetration: u32,
}

/// How a march ends at a step, if it does.
#[derive(Debug, Clone, Copy, PartialEq, Eq, Structural)]
pub enum MarchEnd {
    Hit,
    /// The ray went in too deep to tell.
    Unresolved,
}

/// How a step ends the march, if it does.
pub open spec fn march_end(step: MarchStep, thickness: u32, go_on_when_deep: bool) -> Option<MarchEnd> {
    let shallow = float_bits::less(step.penetration, thickness);
    if float_bits::less(step.distance, 0) && (!go_on_when_deep || shallow) {
        if shallow && float_bits::less(step.distance, thickness) {
            Some(MarchEnd::Hit)
        } else if !go_on_when_deep {
            Some(MarchEnd::Unresolved)
        } else {
            None
        }
    } else {
        None
    }
}

/// The number of steps of a march: no more than pixels or than the limit, but
/// at least two.
pub fn march_steps(linear_steps: u32, pixel_steps: u32) -> (steps: u32)
    ensures
        steps == if linear_steps <= 2 || pixel_steps <= 2 {
            2
        } else if linear_steps < pixel_steps {
            linear_steps
        } else {
            pixel_steps
        },
{
    let fewer: u32 = if linear_steps < pixel_steps {
        linear_steps
    } else {
        pixel_steps
    };
    if fewer > 2 {
        fewer
    } else {
        2
    }
}

/// Whether the first step that ends a march is a given one.
pub open spec fn first_end(steps: Seq<MarchStep>, thickness: u32, go_on_when_deep: bool, at: int) -> bool {
    &&& 0 <= at < steps.len()
    &&& march_end(steps[at], thickness, go_on_when_deep) is Some
    &&& forall|i: int|
        0 <= i < at ==> (#[trigger] march_end(steps[i], thickness, go_on_when_deep)) is None
}

/// Finds the step of a march that hits. A march that ends unresolved, or not at
/// all, hits nothing.
pub fn depth_raymarch(steps: &Vec<MarchStep>, thickness: u32, go_on_when_deep: bool) -> (hit: Option<usize>)
    ensures
        match hit {
            Some(at) => first_end(steps@, thickness, go_on_when_deep, at as int) && march_end(
                steps@[at as int],
                thickness,
                go_on_when_deep,
            ) == Some(MarchEnd::Hit),
            None => forall|at: int|
                #[trigger] first_end(steps@, thickness, go_on_when_deep, at) ==> march_end(
                    steps@[at],
                    thickness,
                    go_on_when_deep,
                ) == Some(MarchEnd::Unresolved),
        },
{
    let count: usize = steps.len();
    let mut i: usize = 0;
    while i < count
        invariant
            i <= count,
            count == steps@.len(),
            forall|p: int|
                0 <= p < i ==> (#[trigger] march_end(steps@[p], thickness, go_on_when_deep)) is None,
        decreases count - i,
    {
        let step = steps[i];
        assert(step == steps@[i as int]);
        let shallow = float_bits::is_less(step.penetration, thickness);
        let valid = !go_on_when_deep || shallow;
        if float_bits::is_less(step.distance, 0) && valid {
            if shallow && float_bits::is_less(step.distance, thickness) {
                return Some(i);
            }
            if !go_on_when_deep {
                proof {
                    assert forall|at: int| #[trigger]
                        first_end(steps@, thickness, go_on_when_deep, at) implies march_end(
                        steps@[at],
                        thickness,
                        go_on_when_deep,
                    ) == Some(MarchEnd::Unresolved) by {
                        if at > i {
                            assert(march_end(steps@[i as int], thickness, go_on_when_deep) is None);
                        } else if at < i {
                            assert(march_end(steps@[at], thickness, go_on_when_deep) is None);
                        }
                    }
                }
                return None;
            }
        }
        i = i + 1;
    }
    None
}

} // verus!
