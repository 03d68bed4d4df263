//! Extinction that transparent surfaces splat into a column of fog slices.
//!
//! Four slices share one word, one byte each, and the three colour channels of a
//! slice share another, ten bits each. Splats add to the words without looking
//! at the other lanes, so a lane that overflows carries into the next one. The
//! first slice that overflows is recorded, and what lies at or behind it is
//! taken as opaque; in front of it every lane holds exactly what was added.

use vstd::prelude::*;

use crate::bits;
use crate::float_bits;

verus! {

/// The slice of a column that nothing overflows.
pub const NEVER: u32 = 0xffff_ffff;

/// The most slices that a column has.
pub const SLICES: u32 = 64;

/// One bit for each slice that something was splatted into.
#[derive(Debug, Clone, Copy, PartialEq, Eq, Structural)]
pub struct Occupancy {
    pub low: u32,
    pub high: u32,
}

impl Occupancy {
    /// Whether a slice's bit is set.
    pub open spec fn holds(self, slice: u32) -> bool {
        if slice < 32 {
            bits::bit(self.low, slice)
        } else {
            bits::bit(self.high, (slice - 32) as u32)
        }
    }

    /// Tells whether a slice's bit is set.
    pub fn contains(&self, slice: u32) -> (yes: bool)
        requires
            slice < SLICES,
        ensures
            yes == self.holds(slice),
    {
        let word: u32 = if slice / 32 == 0 {
            self.low
        } else {
            self.high
        };
        let place: u32 = slice % 32;
        proof {
            assert((word & (1u32 << place) != 0) == ((word >> place) & 1 == 1)) by (bit_vector)
                requires
                    place < 32,
            ;
        }
        word & (1u32 << place) != 0
    }

    /// Sets a slice's bit.
    pub fn insert(&mut self, slice: u32)
        requires
            slice < SLICES,
        ensures
            forall|s: u32|
                s < SLICES ==> #[trigger] final(self).holds(s) == (old(self).holds(s) || s
                    == slice),
            *final(self) == occupied(*old(self), slice),
    {
        let place: u32 = slice % 32;
        let low: u32 = self.low;
        let high: u32 = self.high;
        if slice / 32 == 0 {
            self.low = low | (1u32 << place);
        } else {
            self.high = high | (1u32 << place);
        }
        proof {
            assert forall|s: u32| s < SLICES implies #[trigger] self.holds(s) == (old(self).holds(s)
                || s == slice) by {
                if s < 32 {
                    lemma_set_bit(low, place, s);
                } else {
                    lemma_set_bit(high, place, (s - 32) as u32);
                }
            }
        }
    }
}

/// The occupancy with a slice's bit set.
pub open spec fn occupied(occupancy: Occupancy, slice: u32) -> Occupancy {
    if slice < 32 {
        Occupancy { low: occupancy.low | (1u32 << slice), ..occupancy }
    } else {
        Occupancy { high: occupancy.high | (1u32 << ((slice - 32) as u32)), ..occupancy }
    }
}

proof fn lemma_set_bit(word: u32, place: u32, i: u32)
    requires
        place < 32,
        i < 32,
    ensures
        bits::bit(word | (1u32 << place), i) == (bits::bit(word, i) || i == place),
{
    assert((((word | (1u32 << place)) >> i) & 1 == 1) == ((word >> i) & 1 == 1 || i == place))
        by (bit_vector)
        requires
            place < 32,
            i < 32,
    ;
}

pub open spec fn earlier(a: u32, b: u32) -> u32 {
    if a < b {
        a
    } else {
        b
    }
}

fn earlier_of(a: u32, b: u32) -> (first: u32)
    ensures
        first == earlier(a, b),
{
    if a < b {
        a
    } else {
        b
    }
}

// ---------------------------------------------------------------------------
// Scalar extinction

/// A column's extinction, four slices to a word.
pub struct ExtinctionColumn {
    pub words: Vec<u32>,
    pub occupancy: Occupancy,
    /// The first slice that overflows.
    pub overflow: u32,
}

/// A column's state.
#[verifier::ext_equal]
pub struct ExtinctionModel {
    pub words: Seq<u32>,
    pub occupancy: Occupancy,
    pub overflow: u32,
}

impl View for ExtinctionColumn {
    type V = ExtinctionModel;

    open spec fn view(&self) -> ExtinctionModel {
        ExtinctionModel {
            words: self.words@,
            occupancy: self.occupancy,
            overflow: self.overflow,
        }
    }
}

/// What one unit in a byte weighs.
pub open spec fn byte_weight(lane: int) -> int {
    if lane == 0 {
        1
    } else if lane == 1 {
        256
    } else if lane == 2 {
        65536
    } else {
        16777216
    }
}

impl ExtinctionModel {
    /// The extinction in a slice's lane.
    pub open spec fn lane(self, slice: u32) -> u32 {
        bits::byte_of(self.words[slice as int / 4], slice % 4)
    }

    /// The column after a splat.
    pub open spec fn splatted(self, slice: u32, amount: u32) -> ExtinctionModel {
        ExtinctionModel {
            words: self.words.update(
                slice as int / 4,
                ((self.words[slice as int / 4] + amount * byte_weight(slice as int % 4))
                    % 0x1_0000_0000) as u32,
            ),
            occupancy: occupied(self.occupancy, slice),
            overflow: if self.lane(slice) + amount > 255 {
                earlier(self.overflow, slice)
            } else {
                self.overflow
            },
        }
    }
}

/// Adds an amount to a slice's lane and records the slice where the lane
/// overflows.
pub fn oit_splat_one(column: &mut ExtinctionColumn, slice: u32, amount: u32)
    requires
        slice < SLICES,
        (slice as int) / 4 < old(column)@.words.len(),
        amount <= 255,
    ensures
        final(column)@ == old(column)@.splatted(slice, amount),
{
    let at: usize = (slice / 4) as usize;
    let lane: u32 = slice % 4;
    let shift: u32 = lane * 8;
    column.occupancy.insert(slice);
    let previous: u32 = column.words[at];
    proof {
        assert(amount << shift == amount * (if lane == 0 {
            1
        } else if lane == 1 {
            256
        } else if lane == 2 {
            65536
        } else {
            16777216int
        })) by (bit_vector)
            requires
                amount <= 255,
                lane < 4,
                shift == lane * 8,
        ;
    }
    column.words.set(at, previous.wrapping_add(amount << shift));
    if bits::extract_byte(previous, lane) + amount > 255 {
        column.overflow = earlier_of(column.overflow, slice);
    }
}

/// One splat.
#[derive(Debug, Clone, Copy, PartialEq, Eq, Structural)]
pub struct Splat {
    pub slice: u32,
    pub amount: u32,
}

/// A column of `words` words after the first `n` splats.
pub open spec fn column_after(words: nat, splats: Seq<Splat>, n: int) -> ExtinctionModel
    decreases n,
{
    if n <= 0 {
        ExtinctionModel {
            words: Seq::new(words, |i: int| 0u32),
            occupancy: Occupancy { low: 0, high: 0 },
            overflow: NEVER,
        }
    } else {
        column_after(words, splats, n - 1).splatted(splats[n - 1].slice, splats[n - 1].amount)
    }
}

/// What the first `n` splats add to a slice.
pub open spec fn added(splats: Seq<Splat>, slice: int, n: int) -> int
    decreases n,
{
    if n <= 0 {
        0
    } else {
        added(splats, slice, n - 1) + (if splats[n - 1].slice == slice {
            splats[n - 1].amount as int
        } else {
            0
        })
    }
}

/// What four slices make of a word.
pub open spec fn four(a: int, b: int, c: int, d: int) -> int {
    a + 256 * b + 65536 * c + 16777216 * d
}

/// A lane is exact as long as it and those below it have not overflowed.
proof fn lemma_lane_is_exact(a: int, b: int, c: int, d: int)
    requires
        0 <= a,
        0 <= b,
        0 <= c,
        0 <= d,
    ensures
        ({
            let word = (four(a, b, c, d) % 0x1_0000_0000) as u32;
            &&& a <= 255 ==> bits::byte_of(word, 0) == a
            &&& a <= 255 && b <= 255 ==> bits::byte_of(word, 1) == b
            &&& a <= 255 && b <= 255 && c <= 255 ==> bits::byte_of(word, 2) == c
            &&& a <= 255 && b <= 255 && c <= 255 && d <= 255 ==> bits::byte_of(word, 3) == d
        }),
{
    let sum = four(a, b, c, d);
    let word = sum % 0x1_0000_0000;
    let high = sum / 0x1_0000_0000;
    assert(sum == 0x1_0000_0000 * high + word);
    if a <= 255 {
        assert(word % 256 == a);
        let second = b + 256 * c + 65536 * d;
        assert(word / 256 == second - 0x100_0000 * high);
        if b <= 255 {
            assert((word / 256) % 256 == b);
            let third = c + 256 * d;
            assert(word / 65536 == third - 0x1_0000 * high);
            if c <= 255 {
                assert((word / 65536) % 256 == c);
            }
        }
    }
}

proof fn lemma_added_is_not_negative(splats: Seq<Splat>, slice: int, n: int)
    ensures
        added(splats, slice, n) >= 0,
    decreases n,
{
    if n > 0 {
        lemma_added_is_not_negative(splats, slice, n - 1);
    }
}

/// The words hold the sums of their lanes, and no slice in front of the
/// recorded one has overflowed.
spec fn adds_up(words: nat, splats: Seq<Splat>, n: int) -> bool {
    let column = column_after(words, splats, n);
    &&& column.words.len() == words
    &&& forall|w: int|
        0 <= w < words ==> #[trigger] column.words[w] == four(
            added(splats, 4 * w, n),
            added(splats, 4 * w + 1, n),
            added(splats, 4 * w + 2, n),
            added(splats, 4 * w + 3, n),
        ) % 0x1_0000_0000
    &&& forall|s: int|
        0 <= s < 4 * words && s < column.overflow ==> #[trigger] added(splats, s, n) <= 255
}

proof fn lemma_word_grows(before: u32, sum: int, weighted: int)
    requires
        before == sum % 0x1_0000_0000,
    ensures
        (before + weighted) % 0x1_0000_0000 == (sum + weighted) % 0x1_0000_0000,
{
    vstd::arithmetic::div_mod::lemma_add_mod_noop(sum, weighted, 0x1_0000_0000);
    vstd::arithmetic::div_mod::lemma_add_mod_noop(before as int, weighted, 0x1_0000_0000);
}

proof fn lemma_adds_up(words: nat, splats: Seq<Splat>, n: int)
    requires
        0 <= n <= splats.len(),
        forall|i: int|
            0 <= i < splats.len() ==> (#[trigger] splats[i]).slice < 4 * words && splats[i].amount
                <= 255,
    ensures
        adds_up(words, splats, n),
    decreases n,
{
    if n == 0 {
        assert forall|w: int| 0 <= w < words implies #[trigger] column_after(
            words,
            splats,
            n,
        ).words[w] == four(
            added(splats, 4 * w, n),
            added(splats, 4 * w + 1, n),
            added(splats, 4 * w + 2, n),
            added(splats, 4 * w + 3, n),
        ) % 0x1_0000_0000 by {}
    } else {
        lemma_adds_up(words, splats, n - 1);
        let splat = splats[n - 1];
        let before = column_after(words, splats, n - 1);
        let after = column_after(words, splats, n);
        let at = splat.slice as int / 4;
        let a = added(splats, 4 * at, n - 1);
        let b = added(splats, 4 * at + 1, n - 1);
        let c = added(splats, 4 * at + 2, n - 1);
        let d = added(splats, 4 * at + 3, n - 1);
        lemma_added_is_not_negative(splats, 4 * at, n - 1);
        lemma_added_is_not_negative(splats, 4 * at + 1, n - 1);
        lemma_added_is_not_negative(splats, 4 * at + 2, n - 1);
        lemma_added_is_not_negative(splats, 4 * at + 3, n - 1);
        assert(before.words[at] == four(a, b, c, d) % 0x1_0000_0000);
        lemma_lane_is_exact(a, b, c, d);
        assert forall|w: int| 0 <= w < words implies #[trigger] after.words[w] == four(
            added(splats, 4 * w, n),
            added(splats, 4 * w + 1, n),
            added(splats, 4 * w + 2, n),
            added(splats, 4 * w + 3, n),
        ) % 0x1_0000_0000 by {
            if w == at {
                let weighted = splat.amount * byte_weight(splat.slice as int % 4);
                lemma_word_grows(before.words[at], four(a, b, c, d), weighted);
            } else {
                assert(after.words[w] == before.words[w]);
            }
        }
        assert forall|s: int| 0 <= s < 4 * words && s < after.overflow implies #[trigger] added(
            splats,
            s,
            n,
        ) <= 255 by {
            assert(added(splats, s, n - 1) <= 255);
            if s == splat.slice {
                let lane = s % 4;
                assert(s == 4 * at + lane);
                assert(4 * at < after.overflow);
                assert(lane >= 1 ==> 4 * at + 1 < after.overflow);
                assert(lane >= 2 ==> 4 * at + 2 < after.overflow);
                assert(a <= 255);
                assert(lane >= 1 ==> b <= 255);
                assert(lane >= 2 ==> c <= 255);
                assert(before.lane(splat.slice) == added(splats, s, n - 1));
            }
        }
    }
}

/// In front of the recorded slice, each lane holds exactly what was splatted
/// into its slice.
pub proof fn law_extinction_adds_up(words: nat, splats: Seq<Splat>, slice: u32)
    requires
        forall|i: int|
            0 <= i < splats.len() ==> (#[trigger] splats[i]).slice < 4 * words && splats[i].amount
                <= 255,
        slice < 4 * words,
        slice < column_after(words, splats, splats.len() as int).overflow,
    ensures
        column_after(words, splats, splats.len() as int).lane(slice) == added(
            splats,
            slice as int,
            splats.len() as int,
        ),
{
    let n = splats.len() as int;
    lemma_adds_up(words, splats, n);
    let column = column_after(words, splats, n);
    let at = slice as int / 4;
    let lane = slice as int % 4;
    let a = added(splats, 4 * at, n);
    let b = added(splats, 4 * at + 1, n);
    let c = added(splats, 4 * at + 2, n);
    let d = added(splats, 4 * at + 3, n);
    lemma_added_is_not_negative(splats, 4 * at, n);
    lemma_added_is_not_negative(splats, 4 * at + 1, n);
    lemma_added_is_not_negative(splats, 4 * at + 2, n);
    lemma_added_is_not_negative(splats, 4 * at + 3, n);
    assert(column.words[at] == four(a, b, c, d) % 0x1_0000_0000);
    assert(a <= 255);
    assert(lane >= 1 ==> b <= 255);
    assert(lane >= 2 ==> c <= 255);
    assert(lane >= 3 ==> d <= 255);
    lemma_lane_is_exact(a, b, c, d);
}

pub(crate) proof fn lemma_occupied(occupancy: Occupancy, slice: u32, s: u32)
    requires
        slice < SLICES,
        s < SLICES,
    ensures
        occupied(occupancy, slice).holds(s) == (occupancy.holds(s) || s == slice),
{
    if slice < 32 && s < 32 {
        lemma_set_bit(occupancy.low, slice, s);
    } else if slice >= 32 && s >= 32 {
        lemma_set_bit(occupancy.high, (slice - 32) as u32, (s - 32) as u32);
    }
}

/// A slice whose bit is not set was never splatted into, so it holds nothing.
pub proof fn law_empty_slices_hold_nothing(words: nat, splats: Seq<Splat>, n: int, slice: u32)
    requires
        0 <= n <= splats.len(),
        forall|i: int| 0 <= i < splats.len() ==> (#[trigger] splats[i]).slice < SLICES,
        slice < SLICES,
        !column_after(words, splats, n).occupancy.holds(slice),
    ensures
        added(splats, slice as int, n) == 0,
    decreases n,
{
    if n > 0 {
        lemma_occupied(
            column_after(words, splats, n - 1).occupancy,
            splats[n - 1].slice,
            slice,
        );
        law_empty_slices_hold_nothing(words, splats, n - 1, slice);
    }
}

// ---------------------------------------------------------------------------
// Extinction by channel

/// The most that a channel's field holds.
pub const FIELD_MAX: u32 = 1023;

/// What one unit in a channel's field weighs.
pub open spec fn field_weight(channel: int) -> int {
    if channel == 0 {
        1
    } else if channel == 1 {
        1024
    } else {
        1048576
    }
}

/// A channel's field of a word.
pub open spec fn field_of(word: u32, channel: int) -> int {
    (word as int / field_weight(channel)) % 1024
}

/// Reads a channel's field of a word.
pub fn ext_rgb_field(word: u32, channel: u32) -> (field: u32)
    requires
        channel < 3,
    ensures
        field == field_of(word, channel as int),
        field <= FIELD_MAX,
{
    if channel == 0 {
        word % 1024
    } else if channel == 1 {
        (word / 1024) % 1024
    } else {
        (word / 1048576) % 1024
    }
}

/// An amount for each channel.
#[derive(Debug, Clone, Copy, PartialEq, Eq, Structural)]
pub struct Tint {
    pub red: u32,
    pub green: u32,
    pub blue: u32,
}

impl Tint {
    pub open spec fn of(self, channel: int) -> u32 {
        if channel == 0 {
            self.red
        } else if channel == 1 {
            self.green
        } else {
            self.blue
        }
    }

    /// All three amounts in one word.
    pub open spec fn packed(self) -> int {
        self.red + 1024 * self.green + 1048576 * self.blue
    }
}

/// A column's extinction by channel, one slice to a word.
pub struct TintColumn {
    pub words: Vec<u32>,
    pub occupancy: Occupancy,
    /// The first slice that overflows in each channel.
    pub overflow: Tint,
}

/// A column's state.
#[verifier::ext_equal]
pub struct TintModel {
    pub words: Seq<u32>,
    pub occupancy: Occupancy,
    pub overflow: Tint,
}

impl View for TintColumn {
    type V = TintModel;

    open spec fn view(&self) -> TintModel {
        TintModel { words: self.words@, occupancy: self.occupancy, overflow: self.overflow }
    }
}

impl TintModel {
    /// The first overflowing slice of a channel after a splat.
    pub open spec fn overflow_after(self, slice: u32, amounts: Tint, channel: int) -> u32 {
        if field_of(self.words[slice as int], channel) + amounts.of(channel) > FIELD_MAX {
            earlier(self.overflow.of(channel), slice)
        } else {
            self.overflow.of(channel)
        }
    }

    /// The column after a splat.
    pub open spec fn splatted(self, slice: u32, amounts: Tint) -> TintModel {
        if amounts == (Tint { red: 0, green: 0, blue: 0 }) {
            self
        } else {
            TintModel {
                words: self.words.update(
                    slice as int,
                    ((self.words[slice as int] + amounts.packed()) % 0x1_0000_0000) as u32,
                ),
                occupancy: occupied(self.occupancy, slice),
                overflow: Tint {
                    red: self.overflow_after(slice, amounts, 0),
                    green: self.overflow_after(slice, amounts, 1),
                    blue: self.overflow_after(slice, amounts, 2),
                },
            }
        }
    }
}

/// Adds an amount to each channel of a slice, all in one word, and records the
/// slice for each channel that overflows.
pub fn oit_splat_rgb_one(column: &mut TintColumn, slice: u32, amounts: Tint)
    requires
        slice < SLICES,
        slice < old(column)@.words.len(),
        amounts.red <= 255,
        amounts.green <= 255,
        amounts.blue <= 255,
    ensures
        final(column)@ == old(column)@.splatted(slice, amounts),
{
    if amounts.red == 0 && amounts.green == 0 && amounts.blue == 0 {
        return;
    }
    column.occupancy.insert(slice);
    let at: usize = slice as usize;
    let previous: u32 = column.words[at];
    let packed: u32 = amounts.red + 1024 * amounts.green + 1048576 * amounts.blue;
    column.words.set(at, previous.wrapping_add(packed));
    if ext_rgb_field(previous, 0) + amounts.red > FIELD_MAX {
        column.overflow.red = earlier_of(column.overflow.red, slice);
    }
    if ext_rgb_field(previous, 1) + amounts.green > FIELD_MAX {
        column.overflow.green = earlier_of(column.overflow.green, slice);
    }
    if ext_rgb_field(previous, 2) + amounts.blue > FIELD_MAX {
        column.overflow.blue = earlier_of(column.overflow.blue, slice);
    }
}

/// One splat of all channels.
#[derive(Debug, Clone, Copy, PartialEq, Eq, Structural)]
pub struct TintSplat {
    pub slice: u32,
    pub amounts: Tint,
}

/// A column of `slices` slices after the first `n` splats.
pub open spec fn tint_after(slices: nat, splats: Seq<TintSplat>, n: int) -> TintModel
    decreases n,
{
    if n <= 0 {
        TintModel {
            words: Seq::new(slices, |i: int| 0u32),
            occupancy: Occupancy { low: 0, high: 0 },
            overflow: Tint { red: NEVER, green: NEVER, blue: NEVER },
        }
    } else {
        tint_after(slices, splats, n - 1).splatted(splats[n - 1].slice, splats[n - 1].amounts)
    }
}

/// What the first `n` splats add to a channel of a slice.
pub open spec fn tint_added(splats: Seq<TintSplat>, slice: int, channel: int, n: int) -> int
    decreases n,
{
    if n <= 0 {
        0
    } else {
        tint_added(splats, slice, channel, n - 1) + (if splats[n - 1].slice == slice {
            splats[n - 1].amounts.of(channel) as int
        } else {
            0
        })
    }
}

proof fn lemma_tint_added_is_not_negative(splats: Seq<TintSplat>, slice: int, channel: int, n: int)
    ensures
        tint_added(splats, slice, channel, n) >= 0,
    decreases n,
{
    if n > 0 {
        lemma_tint_added_is_not_negative(splats, slice, channel, n - 1);
    }
}

/// A field is exact as long as it and those below it have not overflowed.
proof fn lemma_field_is_exact(a: int, b: int, c: int)
    requires
        0 <= a,
        0 <= b,
        0 <= c,
    ensures
        ({
            let word = ((a + 1024 * b + 1048576 * c) % 0x1_0000_0000) as u32;
            &&& a <= 1023 ==> field_of(word, 0) == a
            &&& a <= 1023 && b <= 1023 ==> field_of(word, 1) == b
            &&& a <= 1023 && b <= 1023 && c <= 1023 ==> field_of(word, 2) == c
        }),
{
    let sum = a + 1024 * b + 1048576 * c;
    let word = sum % 0x1_0000_0000;
    let high = sum / 0x1_0000_0000;
    assert(sum == 0x1_0000_0000 * high + word);
    if a <= 1023 {
        assert(word % 1024 == a);
        assert(word / 1024 == b + 1024 * c - 0x40_0000 * high);
        if b <= 1023 {
            assert((word / 1024) % 1024 == b);
            assert(word / 1048576 == c - 0x1000 * high);
        }
    }
}

spec fn tint_adds_up(slices: nat, splats: Seq<TintSplat>, n: int) -> bool {
    let column = tint_after(slices, splats, n);
    &&& column.words.len() == slices
    &&& forall|s: int|
        0 <= s < slices ==> #[trigger] column.words[s] == (tint_added(splats, s, 0, n) + 1024
            * tint_added(splats, s, 1, n) + 1048576 * tint_added(splats, s, 2, n)) % 0x1_0000_0000
    &&& forall|s: int|
        0 <= s < slices && s < column.overflow.red ==> #[trigger] tint_added(splats, s, 0, n)
            <= 1023
    &&& forall|s: int|
        0 <= s < slices && s < column.overflow.red && s < column.overflow.green
            ==> #[trigger] tint_added(splats, s, 1, n) <= 1023
    &&& forall|s: int|
        0 <= s < slices && s < column.overflow.red && s < column.overflow.green && s
            < column.overflow.blue ==> #[trigger] tint_added(splats, s, 2, n) <= 1023
}

proof fn lemma_tint_adds_up(slices: nat, splats: Seq<TintSplat>, n: int)
    requires
        0 <= n <= splats.len(),
        forall|i: int|
            0 <= i < splats.len() ==> (#[trigger] splats[i]).slice < slices
                && splats[i].amounts.red <= 255 && splats[i].amounts.green <= 255
                && splats[i].amounts.blue <= 255,
    ensures
        tint_adds_up(slices, splats, n),
    decreases n,
{
    if n > 0 {
        lemma_tint_adds_up(slices, splats, n - 1);
        let splat = splats[n - 1];
        let before = tint_after(slices, splats, n - 1);
        let after = tint_after(slices, splats, n);
        let at = splat.slice as int;
        let a = tint_added(splats, at, 0, n - 1);
        let b = tint_added(splats, at, 1, n - 1);
        let c = tint_added(splats, at, 2, n - 1);
        lemma_tint_added_is_not_negative(splats, at, 0, n - 1);
        lemma_tint_added_is_not_negative(splats, at, 1, n - 1);
        lemma_tint_added_is_not_negative(splats, at, 2, n - 1);
        assert(before.words[at] == (a + 1024 * b + 1048576 * c) % 0x1_0000_0000);
        lemma_field_is_exact(a, b, c);
        assert forall|s: int| 0 <= s < slices implies #[trigger] after.words[s] == (tint_added(
            splats,
            s,
            0,
            n,
        ) + 1024 * tint_added(splats, s, 1, n) + 1048576 * tint_added(splats, s, 2, n))
            % 0x1_0000_0000 by {
            assert(before.words[s] == (tint_added(splats, s, 0, n - 1) + 1024 * tint_added(
                splats,
                s,
                1,
                n - 1,
            ) + 1048576 * tint_added(splats, s, 2, n - 1)) % 0x1_0000_0000);
            if s == at {
                lemma_word_grows(
                    before.words[at],
                    a + 1024 * b + 1048576 * c,
                    splat.amounts.packed(),
                );
            }
        }
        assert forall|s: int| 0 <= s < slices && s < after.overflow.red implies #[trigger] tint_added(
            splats,
            s,
            0,
            n,
        ) <= 1023 by {
            assert(tint_added(splats, s, 0, n - 1) <= 1023);
        }
        assert forall|s: int|
            0 <= s < slices && s < after.overflow.red && s
                < after.overflow.green implies #[trigger] tint_added(splats, s, 1, n) <= 1023 by {
            assert(tint_added(splats, s, 0, n - 1) <= 1023);
            assert(tint_added(splats, s, 1, n - 1) <= 1023);
        }
        assert forall|s: int|
            0 <= s < slices && s < after.overflow.red && s < after.overflow.green && s
                < after.overflow.blue implies #[trigger] tint_added(splats, s, 2, n) <= 1023 by {
            assert(tint_added(splats, s, 0, n - 1) <= 1023);
            assert(tint_added(splats, s, 1, n - 1) <= 1023);
            assert(tint_added(splats, s, 2, n - 1) <= 1023);
        }
    }
}

/// In front of the slices recorded for it and for the channels below it, a
/// channel holds exactly what was splatted into it. A channel that overflows
/// carries into the next channel of the same slice, so that one is not exact
/// there.
pub proof fn law_tint_adds_up(slices: nat, splats: Seq<TintSplat>, slice: u32, channel: int)
    requires
        forall|i: int|
            0 <= i < splats.len() ==> (#[trigger] splats[i]).slice < slices
                && splats[i].amounts.red <= 255 && splats[i].amounts.green <= 255
                && splats[i].amounts.blue <= 255,
        slice < slices,
        0 <= channel < 3,
        forall|c: int|
            0 <= c <= channel ==> slice < #[trigger] tint_after(
                slices,
                splats,
                splats.len() as int,
            ).overflow.of(c),
    ensures
        field_of(
            tint_after(slices, splats, splats.len() as int).words[slice as int],
            channel,
        ) == tint_added(splats, slice as int, channel, splats.len() as int),
{
    let n = splats.len() as int;
    lemma_tint_adds_up(slices, splats, n);
    let column = tint_after(slices, splats, n);
    let at = slice as int;
    let a = tint_added(splats, at, 0, n);
    let b = tint_added(splats, at, 1, n);
    let c = tint_added(splats, at, 2, n);
    lemma_tint_added_is_not_negative(splats, at, 0, n);
    lemma_tint_added_is_not_negative(splats, at, 1, n);
    lemma_tint_added_is_not_negative(splats, at, 2, n);
    assert(column.words[at] == (a + 1024 * b + 1048576 * c) % 0x1_0000_0000);
    assert(at < column.overflow.of(0));
    assert(channel >= 1 ==> at < column.overflow.of(1));
    assert(channel >= 2 ==> at < column.overflow.of(2));
    lemma_field_is_exact(a, b, c);
}

// ---------------------------------------------------------------------------
// One fragment

/// What a fragment splats: its distance in slices, and two slices with the
/// amounts that go to each.
#[derive(Debug, Clone, Copy, PartialEq, Eq, Structural)]
pub struct Fragment {
    /// The slice before it is moved to where slices are dense.
    pub raw_slice: u32,
    pub first: Splat,
    pub second: Splat,
    /// The colours' optical depths, as bit patterns.
    pub tint: Tint,
    pub first_tint: Tint,
    pub second_tint: Tint,
}

/// Whether any optical depth is positive.
pub open spec fn tinted(tint: Tint) -> bool {
    float_bits::less(0, tint.red) || float_bits::less(0, tint.green) || float_bits::less(
        0,
        tint.blue,
    )
}

/// The bin that a fragment counts in.
pub open spec fn bin(raw_slice: u32, bins: int) -> int {
    if raw_slice < bins {
        raw_slice as int
    } else {
        bins - 1
    }
}

/// A column after a splat of something.
pub open spec fn splatted_if_any(column: ExtinctionModel, splat: Splat) -> ExtinctionModel {
    if splat.amount != 0 {
        column.splatted(splat.slice, splat.amount)
    } else {
        column
    }
}

/// Splats a fragment into its column and counts it where it left anything. The
/// histogram has a bin for every slice that there can be; those of the curve are
/// used.
pub fn oit_splat_frag(
    column: &mut ExtinctionColumn,
    tints: &mut TintColumn,
    histogram: &mut Vec<u32>,
    slice_count: u32,
    fragment: Fragment,
)
    requires
        fragment.first.slice < SLICES,
        fragment.second.slice < SLICES,
        (fragment.first.slice as int) / 4 < old(column)@.words.len(),
        (fragment.second.slice as int) / 4 < old(column)@.words.len(),
        fragment.first.slice < old(tints)@.words.len(),
        fragment.second.slice < old(tints)@.words.len(),
        fragment.first.amount <= 255,
        fragment.second.amount <= 255,
        fragment.first_tint.red <= 255,
        fragment.first_tint.green <= 255,
        fragment.first_tint.blue <= 255,
        fragment.second_tint.red <= 255,
        fragment.second_tint.green <= 255,
        fragment.second_tint.blue <= 255,
        0 < slice_count <= old(histogram)@.len(),
    ensures
        final(column)@ == splatted_if_any(
            splatted_if_any(old(column)@, fragment.first),
            fragment.second,
        ),
        final(tints)@ == if tinted(fragment.tint) {
            old(tints)@.splatted(fragment.first.slice, fragment.first_tint).splatted(
                fragment.second.slice,
                fragment.second_tint,
            )
        } else {
            old(tints)@
        },
        final(histogram)@ == if fragment.first.amount != 0 || fragment.second.amount != 0 || tinted(
            fragment.tint,
        ) {
            let at = bin(fragment.raw_slice, slice_count as int);
            old(histogram)@.update(at, old(histogram)@[at].wrapping_add(1))
        } else {
            old(histogram)@
        },
{
    if fragment.first.amount != 0 {
        oit_splat_one(column, fragment.first.slice, fragment.first.amount);
    }
    if fragment.second.amount != 0 {
        oit_splat_one(column, fragment.second.slice, fragment.second.amount);
    }
    let coloured = float_bits::is_less(0, fragment.tint.red) || float_bits::is_less(
        0,
        fragment.tint.green,
    ) || float_bits::is_less(0, fragment.tint.blue);
    if coloured {
        oit_splat_rgb_one(tints, fragment.first.slice, fragment.first_tint);
        oit_splat_rgb_one(tints, fragment.second.slice, fragment.second_tint);
    }
    if fragment.first.amount != 0 || fragment.second.amount != 0 || coloured {
        let at: usize = if fragment.raw_slice < slice_count {
            fragment.raw_slice as usize
        } else {
            (slice_count - 1) as usize
        };
        let count: u32 = histogram[at];
        histogram.set(at, count.wrapping_add(1));
    }
}

/// Takes the counts of the last frame and starts again from zero.
pub fn take_histogram(histogram: &mut Vec<u32>) -> (counts: Vec<u32>)
    ensures
        counts@ == old(histogram)@,
        final(histogram)@ == Seq::new(old(histogram)@.len(), |i: int| 0u32),
{
    let mut counts: Vec<u32> = Vec::new();
    let bins: usize = histogram.len();
    let mut i: usize = 0;
    while i < bins
        invariant
            i <= bins,
            bins == old(histogram)@.len(),
            histogram@.len() == bins,
            counts@ == old(histogram)@.take(i as int),
            forall|p: int| 0 <= p < i ==> #[trigger] histogram@[p] == 0,
            forall|p: int| i <= p < bins ==> #[trigger] histogram@[p] == old(histogram)@[p],
        decreases bins - i,
    {
        counts.push(histogram[i]);
        histogram.set(i, 0);
        proof {
            assert(old(histogram)@.take(i + 1) =~= old(histogram)@.take(i as int).push(
                old(histogram)@[i as int],
            ));
        }
        i = i + 1;
    }
    proof {
        assert(old(histogram)@.take(bins as int) =~= old(histogram)@);
        assert(histogram@ =~= Seq::new(old(histogram)@.len(), |i: int| 0u32));
    }
    counts
}

} // verus!
