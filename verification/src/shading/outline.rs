//! Outlines by jump flooding: each step takes the nearest of nine seeds.

use vstd::prelude::*;

use crate::float_bits;

verus! {

/// A pixel.
#[derive(Debug, Clone, Copy, PartialEq, Eq, Structural)]
pub struct FloodPixel {
    pub x: u32,
    pub y: u32,
}

/// The pixel that one of the nine samples of a step looks at, if it lies in the
/// image: samples go row by row, from the pixel above and to the left on.
pub open spec fn sample_place(at: FloodPixel, step: u32, width: u32, height: u32, sample: int) -> Option<FloodPixel> {
    let x = at.x + (sample % 3 - 1) * step;
    let y = at.y + (sample / 3 - 1) * step;
    if 0 <= x < width && 0 <= y < height {
        Some(FloodPixel { x: x as u32, y: y as u32 })
    } else {
        None
    }
}

fn moved(at: u32, step: u32, way: u32, size: u32) -> (place: Option<u32>)
    requires
        way < 3,
    ensures
        ({
            let x = at + (way - 1) * step;
            place == if 0 <= x < size {
                Some(x as u32)
            } else {
                None
            }
        }),
{
    proof {
        assert((way - 1) * step == if way == 0 {
            -step
        } else if way == 1 {
            0
        } else {
            step as int
        }) by (nonlinear_arith)
            requires
                way < 3,
        ;
    }
    if way == 0 {
        if at < step || at - step >= size {
            None
        } else {
            Some(at - step)
        }
    } else if way == 1 {
        if at < size {
            Some(at)
        } else {
            None
        }
    } else if step >= size || at >= size - step {
        None
    } else {
        Some(at + step)
    }
}

/// Finds the pixel that a sample looks at.
pub fn flood_sample(at: FloodPixel, step: u32, width: u32, height: u32, sample: u32) -> (place: Option<FloodPixel>)
    requires
        sample < 9,
    ensures
        place == sample_place(at, step, width, height, sample as int),
{
    proof {
        assert((sample as int % 3 - 1) * step == if sample % 3 == 0 {
            -step
        } else if sample % 3 == 1 {
            0
        } else {
            step as int
        }) by (nonlinear_arith);
        assert((sample as int / 3 - 1) * step == if sample / 3 == 0 {
            -step
        } else if sample / 3 == 1 {
            0
        } else {
            step as int
        }) by (nonlinear_arith)
            requires
                sample < 9,
        ;
    }
    match (moved(at.x, step, sample % 3, width), moved(at.y, step, sample / 3, height)) {
        (Some(x), Some(y)) => Some(FloodPixel { x, y }),
        _ => None,
    }
}

/// What a sample found.
#[derive(Debug, Clone, Copy, PartialEq, Eq, Structural)]
pub struct FloodSeed {
    /// The sample lies in the image and holds a seed.
    pub seeded: bool,
    /// The squared distance of the seed from the pixel.
    pub distance: u32,
}

/// The distance that every seed has to be below.
pub const FAR_AWAY: u32 = 0x60ad_78ec;

/// The distance of the seed that was taken, or of none.
pub open spec fn taken_distance(seeds: Seq<FloodSeed>, taken: Option<usize>) -> u32 {
    match taken {
        Some(i) => seeds[i as int].distance,
        None => FAR_AWAY,
    }
}

/// Takes the nearest seed; the first of those that are equally near.
pub fn outline_jfa_flood(seeds: &[FloodSeed; 9]) -> (taken: Option<usize>)
    ensures
        taken matches Some(i) ==> i < 9 && seeds@[i as int].seeded && float_bits::less(
            seeds@[i as int].distance,
            FAR_AWAY,
        ) && forall|j: int|
            0 <= j < i && (#[trigger] seeds@[j]).seeded ==> !float_bits::at_most(
                seeds@[j].distance,
                seeds@[i as int].distance,
            ),
        forall|j: int|
            0 <= j < 9 && (#[trigger] seeds@[j]).seeded ==> !float_bits::less(
                seeds@[j].distance,
                taken_distance(seeds@, taken),
            ),
{
    let mut taken: Option<usize> = None;
    let mut best: u32 = FAR_AWAY;
    let mut i: usize = 0;
    while i < 9
        invariant
            i <= 9,
            best == taken_distance(seeds@, taken),
            !float_bits::is_nan(best),
            float_bits::at_most(best, FAR_AWAY),
            taken matches Some(t) ==> t < i && seeds@[t as int].seeded && float_bits::less(
                seeds@[t as int].distance,
                FAR_AWAY,
            ) && forall|j: int|
                0 <= j < t && (#[trigger] seeds@[j]).seeded ==> !float_bits::at_most(
                    seeds@[j].distance,
                    seeds@[t as int].distance,
                ),
            forall|j: int|
                0 <= j < i && (#[trigger] seeds@[j]).seeded ==> !float_bits::less(
                    seeds@[j].distance,
                    best,
                ),
        decreases 9 - i,
    {
        let seed = seeds[i];
        assert(seed == seeds@[i as int]);
        if seed.seeded && float_bits::is_less(seed.distance, best) {
            taken = Some(i);
            best = seed.distance;
        }
        i = i + 1;
    }
    taken
}

/// Whether a pixel of the mask is a seed.
pub fn outline_jfa_init(mask: u32) -> (seeded: bool)
    ensures
        seeded == float_bits::less(0, mask),
{
    float_bits::is_less(0, mask)
}

/// A rectangle of pixels, its maximum left out.
#[derive(Debug, Clone, Copy, PartialEq, Eq, Structural)]
pub struct OutlineRegion {
    pub min_x: u32,
    pub min_y: u32,
    pub max_x: u32,
    pub max_y: u32,
}

impl OutlineRegion {
    pub open spec fn holds(self, x: u32, y: u32) -> bool {
        self.min_x <= x < self.max_x && self.min_y <= y < self.max_y
    }
}

/// What a pixel knows of the outline.
#[derive(Debug, Clone, Copy, PartialEq, Eq, Structural)]
pub struct OutlineField {
    /// The silhouette at the pixel.
    pub mask: u32,
    /// The column of its seed, negative without one.
    pub seed_x: u32,
    /// The group of its seed.
    pub group_id: u32,
}

/// The group whose outline a pixel can show: outside all silhouettes, with the
/// seed of a group that there is.
pub open spec fn outline_group(
    region: OutlineRegion,
    x: u32,
    y: u32,
    field: OutlineField,
    group_count: u32,
    capacity: u32,
) -> Option<u32> {
    if region.holds(x, y) && !float_bits::less(0, field.mask) && !float_bits::less(field.seed_x, 0)
        && 0 < field.group_id <= group_count && field.group_id <= capacity {
        Some((field.group_id - 1) as u32)
    } else {
        None
    }
}

/// Finds the group whose outline a pixel can show.
pub fn outline_composite(
    region: OutlineRegion,
    x: u32,
    y: u32,
    field: OutlineField,
    group_count: u32,
    capacity: u32,
) -> (group: Option<u32>)
    ensures
        group == outline_group(region, x, y, field, group_count, capacity),
{
    if x < region.min_x || y < region.min_y || x >= region.max_x || y >= region.max_y {
        return None;
    }
    if float_bits::is_less(0, field.mask) {
        return None;
    }
    if float_bits::is_less(field.seed_x, 0) {
        return None;
    }
    if field.group_id == 0 || field.group_id > group_count || field.group_id > capacity {
        return None;
    }
    Some(field.group_id - 1)
}

/// Whether a pixel lies within the width of its group's outline.
pub fn within_outline(distance: u32, width: u32) -> (yes: bool)
    ensures
        yes == !float_bits::less(width, distance),
{
    !float_bits::is_less(width, distance)
}

/// A silhouette's group in the mask; the group zero draws nothing.
pub fn silhouette_group(group: u32) -> (kept: Option<u32>)
    ensures
        kept == if group == 0 {
            None
        } else {
            Some(group)
        },
{
    if group == 0 {
        None
    } else {
        Some(group)
    }
}

} // verus!
