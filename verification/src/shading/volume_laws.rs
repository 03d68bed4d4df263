//! What sums, columns of extinction and fog promise of single steps.

use vstd::prelude::*;

use crate::bits;
use crate::float_bits;
use crate::shading::extinction;
use crate::shading::extinction::{ExtinctionModel, Occupancy, Splat, Tint, TintModel};
use crate::shading::fog;
use crate::shading::fog::{
    ChannelStep, FroxelRange, QuadCorner, SliceStep, TileBounds, TileModel, TintStep,
};
use crate::shading::reduce;
use crate::shading::reduce::TilePlace;
use crate::shading::scan;

verus! {

// ---------------------------------------------------------------------------
// Sums

/// Sums of ranges that follow each other make the sum of both; a single count is
/// its own sum; and nothing sums to zero.
pub proof fn law_sums_join(counts: Seq<u32>, from: int, mid: int, to: int)
    requires
        0 <= from <= mid <= to <= counts.len(),
    ensures
        scan::sum(counts, from, to) == scan::sum(counts, from, mid) + scan::sum(counts, mid, to),
        scan::sum(counts, mid, mid) == 0,
        from < counts.len() ==> scan::sum(counts, from, from + 1) == counts[from],
    decreases to - mid,
{
    if from < counts.len() {
        assert(scan::sum(counts, from, from) == 0);
        assert(scan::sum(counts, from, from + 1) == counts[from]);
    }
    if mid < to {
        law_sums_join(counts, from, mid, to - 1);
    }
}

/// A sum that fits a word is kept as it is.
pub proof fn law_small_sums_are_exact(x: int)
    requires
        0 <= x < 0x1_0000_0000,
    ensures
        scan::word(x) == x,
{
}

/// A workgroup publishes the sum of its own 64 values.
pub proof fn law_groups_sum_their_values(values: Seq<u32>, group: int)
    requires
        0 <= group,
        64 * group + 64 <= values.len(),
        0 <= scan::sum(values, 64 * group, 64 * group + 64) < 0x1_0000_0000,
    ensures
        reduce::group_sum(values, group) == scan::sum(values, 64 * group, 64 * group + 64),
{
}

/// Pixel `32 * row + column` of a tile lies on the screen just if its column and
/// its row do, and only such pixels add their depth.
pub proof fn law_tiles_end_with_the_screen(
    place: TilePlace,
    fetched: Seq<u32>,
    column: int,
    row: int,
)
    requires
        0 <= column < 32,
        0 <= row < 32,
        fetched.len() == 1024,
    ensures
        ({
            let inside = 32 * place.tile_x + column < place.screen_width && 32 * place.tile_y + row
                < place.screen_height;
            &&& place.has(32 * row + column) == inside
            &&& place.depths(fetched).len() == 1024
            &&& inside ==> place.depths(fetched)[32 * row + column] == fetched[32 * row + column]
            &&& !inside ==> place.depths(fetched)[32 * row + column] == 0
        }),
{
}

// ---------------------------------------------------------------------------
// Extinction

/// A splat adds to its own word alone, marks its own slice, and moves the first
/// overflowing slice forwards just if its lane overflows.
pub proof fn law_splats_stay_in_their_slice(
    column: ExtinctionModel,
    slice: u32,
    amount: u32,
    other: u32,
)
    requires
        slice < 64,
        other < 64,
        (slice as int) / 4 < column.words.len(),
        amount <= 255,
    ensures
        ({
            let after = column.splatted(slice, amount);
            &&& after.words.len() == column.words.len()
            &&& forall|w: int|
                0 <= w < column.words.len() && w != slice as int / 4 ==> #[trigger] after.words[w]
                    == column.words[w]
            &&& after.occupancy.holds(other) == (column.occupancy.holds(other) || other == slice)
            &&& column.lane(slice) + amount <= 255 ==> {
                &&& after.overflow == column.overflow
                &&& after.lane(slice) == column.lane(slice) + amount
            }
            &&& column.lane(slice) + amount > 255 ==> after.overflow <= slice && after.overflow
                <= column.overflow && (after.overflow == slice || after.overflow
                == column.overflow)
        }),
{
    extinction::lemma_occupied(column.occupancy, slice, other);
    if column.lane(slice) + amount <= 255 {
        lemma_lane_grows(column.words[slice as int / 4], amount, slice % 4);
    }
}

/// What a sum of fields has above, at and below its fields of eight bits.
proof fn lemma_fields(high: int, byte: int, low: int, sum: int)
    requires
        high >= 0,
        0 <= byte < 256,
        low >= 0,
    ensures
        sum == 256 * high + byte ==> sum % 256 == byte,
        low < 256 && sum == 65536 * high + 256 * byte + low ==> sum / 256 == 256 * high + byte,
        low < 65536 && sum == 16777216 * high + 65536 * byte + low ==> sum / 65536 == 256 * high
            + byte,
        low < 16777216 && sum == 16777216 * byte + low ==> sum / 16777216 == byte,
{
}

/// A lane that does not overflow grows by just the amount.
proof fn lemma_lane_grows(word: u32, amount: u32, lane: u32)
    requires
        lane < 4,
        bits::byte_of(word, lane) + amount <= 255,
    ensures
        bits::byte_of(
            ((word + amount * extinction::byte_weight(lane as int)) % 0x1_0000_0000) as u32,
            lane,
        ) == bits::byte_of(word, lane) + amount,
{
    let w = word as int;
    if lane == 0 {
        lemma_fields(w / 256, w % 256 + amount, 0, w + amount);
        assert(w / 256 <= 0xff_ffff);
    } else if lane == 1 {
        let byte = w / 256 % 256 + amount;
        lemma_fields(w / 65536, byte, w % 256, w + amount * 256);
        assert(w / 65536 <= 0xffff);
        lemma_fields(w / 65536, byte, 0, 256 * (w / 65536) + byte);
    } else if lane == 2 {
        let byte = w / 65536 % 256 + amount;
        lemma_fields(w / 16777216, byte, w % 65536, w + amount * 65536);
        assert(w / 16777216 <= 0xff);
        lemma_fields(w / 16777216, byte, 0, 256 * (w / 16777216) + byte);
    } else {
        lemma_fields(0, w / 16777216 + amount, w % 16777216, w + amount * 16777216);
    }
}

/// Nothing is splatted where there is no amount.
pub proof fn law_no_amount_no_splat(column: ExtinctionModel, splat: Splat)
    ensures
        splat.amount == 0 ==> extinction::splatted_if_any(column, splat) == column,
        splat.amount > 0 ==> extinction::splatted_if_any(column, splat) == column.splatted(
            splat.slice,
            splat.amount,
        ),
{
}

/// A splat of three channels adds each amount to its own field of the slice's
/// word, marks the slice, and records it for just those channels that overflow.
pub proof fn law_tints_stay_in_their_channel(column: TintModel, slice: u32, amounts: Tint)
    requires
        slice < 64,
        slice < column.words.len(),
        amounts.red <= 255,
        amounts.green <= 255,
        amounts.blue <= 255,
        amounts.red + amounts.green + amounts.blue > 0,
    ensures
        ({
            let after = column.splatted(slice, amounts);
            let word = column.words[slice as int];
            let red = word % 1024;
            let green = (word / 1024) % 1024;
            let blue = (word / 1048576) % 1024;
            &&& after.words.len() == column.words.len()
            &&& forall|w: int|
                0 <= w < column.words.len() && w != slice ==> #[trigger] after.words[w]
                    == column.words[w]
            &&& after.occupancy.holds(slice)
            &&& red + amounts.red <= 1023 ==> after.overflow.red == column.overflow.red
            &&& green + amounts.green <= 1023 ==> after.overflow.green == column.overflow.green
            &&& blue + amounts.blue <= 1023 ==> after.overflow.blue == column.overflow.blue
            &&& red + amounts.red > 1023 ==> after.overflow.red <= slice && after.overflow.red
                <= column.overflow.red && (after.overflow.red == slice || after.overflow.red
                == column.overflow.red)
            &&& green + amounts.green > 1023 ==> after.overflow.green <= slice
                && after.overflow.green <= column.overflow.green && (after.overflow.green == slice
                || after.overflow.green == column.overflow.green)
            &&& blue + amounts.blue > 1023 ==> after.overflow.blue <= slice && after.overflow.blue
                <= column.overflow.blue && (after.overflow.blue == slice || after.overflow.blue
                == column.overflow.blue)
            &&& red + amounts.red <= 1023 && green + amounts.green <= 1023 && blue + amounts.blue
                <= 1023 && word < 0x4000_0000 ==> after.words[slice as int] == word + amounts.red
                + 1024 * amounts.green + 1048576 * amounts.blue
        }),
{
    extinction::lemma_occupied(column.occupancy, slice, slice);
}

/// A splat without any amount leaves the column as it is.
pub proof fn law_no_tint_no_splat(column: TintModel, slice: u32)
    ensures
        column.splatted(slice, Tint { red: 0, green: 0, blue: 0 }) == column,
{
}

/// A field of a word is one of its three groups of ten bits.
pub proof fn law_words_are_made_of_fields(word: u32)
    requires
        word < 0x4000_0000,
    ensures
        word == extinction::field_of(word, 0) + 1024 * extinction::field_of(word, 1) + 1048576
            * extinction::field_of(word, 2),
        0 <= extinction::field_of(word, 0) < 1024,
        0 <= extinction::field_of(word, 1) < 1024,
        0 <= extinction::field_of(word, 2) < 1024,
{
}

/// A fragment is tinted where any of its three optical depths is above zero.
pub proof fn law_any_channel_tints(tint: Tint)
    ensures
        float_bits::less(0, tint.red) ==> extinction::tinted(tint),
        float_bits::less(0, tint.green) ==> extinction::tinted(tint),
        float_bits::less(0, tint.blue) ==> extinction::tinted(tint),
        extinction::tinted(tint) ==> float_bits::less(0, tint.red) || float_bits::less(
            0,
            tint.green,
        ) || float_bits::less(0, tint.blue),
{
}

/// A fragment counts in the bin of its slice; what lies behind the last bin
/// counts there.
pub proof fn law_fragments_count_in_their_bin(raw_slice: u32, bins: int)
    requires
        0 < bins,
    ensures
        0 <= extinction::bin(raw_slice, bins) < bins,
        raw_slice < bins ==> extinction::bin(raw_slice, bins) == raw_slice,
        raw_slice >= bins ==> extinction::bin(raw_slice, bins) == bins - 1,
{
}

// ---------------------------------------------------------------------------
// Fog

/// A light takes the next slot of a tile; where none is left the tile is marked,
/// and the lights in it stay.
pub proof fn law_lights_take_the_next_slot(tile: TileModel, light: u32, per_tile: u32)
    requires
        tile.count < u32::MAX,
        tile.valid(per_tile),
    ensures
        ({
            let after = tile.with(light, per_tile);
            &&& after.count == tile.count + 1
            &&& tile.count < per_tile ==> after.lights == tile.lights.push(light)
                && after.overflow == tile.overflow
            &&& tile.count >= per_tile ==> after.lights == tile.lights && after.overflow
            &&& after.valid(per_tile)
        }),
{
}

/// A light reaches the tiles between its bounds in both directions, both ends
/// included.
pub proof fn law_bounds_reach_both_ends(bounds: TileBounds, x: int, y: int)
    ensures
        bounds.covers(x, y) == (bounds.min_x <= x && x <= bounds.max_x && bounds.min_y <= y && y
            <= bounds.max_y),
        bounds.is_empty() ==> !bounds.covers(x, y),
        !bounds.is_empty() ==> bounds.covers(bounds.min_x as int, bounds.min_y as int)
            && bounds.covers(bounds.max_x as int, bounds.max_y as int),
{
}

/// A tile evaluates the lights in its list, or every light where the list has
/// overflowed.
pub proof fn law_evaluated_lights(tile: TileModel, light_count: u32, light: u32)
    ensures
        light_count == 0 ==> fog::evaluated(tile, light_count).len() == 0,
        light_count > 0 && !tile.overflow ==> fog::evaluated(tile, light_count) == tile.lights,
        tile.overflow && light < light_count ==> fog::evaluated(tile, light_count).len()
            == light_count && fog::evaluated(tile, light_count)[light as int] == light,
{
}

/// A slice is opaque just if extinction is on and the slice lies at or behind the
/// first one that overflows; any other slice has the extinction that was
/// splatted into it, and none where nothing was.
pub proof fn law_slices(
    oit: Option<ExtinctionModel>,
    tints: Option<TintModel>,
    slice: u32,
)
    ensures
        ({
            let step = fog::slice_step(oit, tints, slice);
            &&& step is Saturated == (oit is Some && oit->0.overflow <= slice)
            &&& step matches SliceStep::Integrate(amount, tint) ==> {
                &&& oit is None ==> amount == 0
                &&& oit matches Some(column) ==> column.occupancy.holds(slice) ==> amount
                    == column.lane(slice)
                &&& oit matches Some(column) ==> !column.occupancy.holds(slice) ==> amount == 0
                &&& tint is Some == tints is Some
            }
        }),
{
}

/// Each channel of a slice is dark from the first slice on that overflows in it,
/// and else lets through what its own field leaves; an empty slice takes nothing.
pub proof fn law_channels(tints: TintModel, slice: u32)
    ensures
        ({
            let step = fog::tint_step(tints, slice);
            let word = tints.words[slice as int];
            let held = tints.occupancy.holds(slice);
            &&& step.red is Dark == (tints.overflow.red <= slice)
            &&& step.green is Dark == (tints.overflow.green <= slice)
            &&& step.blue is Dark == (tints.overflow.blue <= slice)
            &&& step.red matches ChannelStep::Through(field) ==> field == if held {
                word % 1024
            } else {
                0
            }
            &&& step.green matches ChannelStep::Through(field) ==> field == if held {
                (word / 1024) % 1024
            } else {
                0
            }
            &&& step.blue matches ChannelStep::Through(field) ==> field == if held {
                (word / 1048576) % 1024
            } else {
                0
            }
        }),
{
}

/// Nothing passes a slice that is opaque, nor one that lets through no more than
/// counts; anything else passes.
pub proof fn law_where_nothing_passes(
    steps: Seq<SliceStep>,
    throughputs: Seq<u32>,
    epsilon: u32,
    i: int,
)
    ensures
        steps[i] is Saturated ==> fog::ends(steps, throughputs, epsilon, i),
        float_bits::at_most(throughputs[i], epsilon) ==> fog::ends(steps, throughputs, epsilon, i),
        steps[i] is Integrate && float_bits::less(epsilon, throughputs[i]) ==> !fog::ends(
            steps,
            throughputs,
            epsilon,
            i,
        ),
{
}

/// The vertices of a quad's triangles: down the left side, across to the lower
/// right, and back by the upper right.
pub proof fn law_quad_corners()
    ensures
        fog::corner_of(0) == (QuadCorner { right: false, lower: false }),
        fog::corner_of(1) == (QuadCorner { right: false, lower: true }),
        fog::corner_of(2) == (QuadCorner { right: true, lower: true }),
        fog::corner_of(3) == (QuadCorner { right: false, lower: false }),
        fog::corner_of(4) == (QuadCorner { right: true, lower: true }),
        fog::corner_of(5) == (QuadCorner { right: true, lower: false }),
{
}

/// A range of columns holds the column at `row * width + column` just if both lie
/// within it.
pub proof fn law_ranges_hold_their_columns(range: FroxelRange, column: int, row: int, width: int)
    requires
        0 <= column < width,
        0 <= row,
    ensures
        range.covers(row * width + column, width) == (range.x0 <= column <= range.x1 && range.y0
            <= row <= range.y1),
{
    vstd::arithmetic::div_mod::lemma_fundamental_div_mod_converse(
        row * width + column,
        width,
        row,
        column,
    );
}

} // verus!
