//! Where the stops of a linear gradient lie.
//!
//! A stop without a position of its own is placed evenly between its
//! neighbours that have one. Positions are bit patterns, so what can be
//! computed with comparisons alone is computed here and the rest is handed out
//! as the fraction of the way from one stop to another.

use vstd::prelude::*;

use crate::float_bits;

verus! {

/// Where a stop lies on the gradient line.
#[derive(Debug, Clone, Copy, PartialEq, Eq, Structural)]
pub enum StopPosition {
    /// At this distance from the start of the line.
    Fixed(u32),
    /// `part` of `whole` equal steps on the way from one fixed stop to another.
    Between { start: usize, end: usize, part: usize, whole: usize },
}

/// Whether a stop has a position of its own: a given one, or that of an end of the line.
pub open spec fn pinned(positions: Seq<u32>, i: int) -> bool {
    i == 0 || i == positions.len() - 1 || !float_bits::is_nan(positions[i])
}

/// The first given position at or after `i`, if there is one.
pub open spec fn first_given(positions: Seq<u32>, i: int) -> Option<u32>
    decreases positions.len() - i,
{
    if i < 0 || i >= positions.len() {
        None
    } else if !float_bits::is_nan(positions[i]) {
        Some(positions[i])
    } else {
        first_given(positions, i + 1)
    }
}

/// The last given position before `i`, if there is one.
pub open spec fn last_given(positions: Seq<u32>, i: int) -> Option<u32>
    decreases i,
{
    if i <= 0 || i > positions.len() {
        None
    } else if !float_bits::is_nan(positions[i - 1]) {
        Some(positions[i - 1])
    } else {
        last_given(positions, i - 1)
    }
}

/// Start of the line: zero, or the first given position if that lies before zero.
pub open spec fn line_start(positions: Seq<u32>) -> u32 {
    match first_given(positions, 0) {
        Some(p) => if float_bits::less(p, 0) { p } else { 0 },
        None => 0,
    }
}

/// End of the line: its length, or the last given position if that lies beyond it.
pub open spec fn line_end(positions: Seq<u32>, length: u32) -> u32 {
    match last_given(positions, positions.len() as int) {
        Some(p) => if float_bits::is_nan(length) || float_bits::less(length, p) {
            p
        } else {
            length
        },
        None => length,
    }
}

/// Position of a pinned stop.
pub open spec fn pinned_position(positions: Seq<u32>, length: u32, i: int) -> u32 {
    if !float_bits::is_nan(positions[i]) {
        positions[i]
    } else if i == 0 {
        line_start(positions)
    } else {
        line_end(positions, length)
    }
}

/// Whether stop `i` lies where it should.
pub open spec fn placed(positions: Seq<u32>, length: u32, i: int, at: StopPosition) -> bool {
    if pinned(positions, i) {
        at == StopPosition::Fixed(pinned_position(positions, length, i))
    } else {
        at matches StopPosition::Between { start, end, part, whole } && {
            &&& start < i < end < positions.len()
            &&& pinned(positions, start as int)
            &&& pinned(positions, end as int)
            &&& forall|j: int| start < j < end ==> !#[trigger] pinned(positions, j)
            &&& part == i - start
            &&& whole == end - start
        }
    }
}

/// Places the stops of a gradient line of the given length.
///
/// A position that is no number stands for a stop that has none of its own.
/// The first and last stop are then pinned to the ends of the line, and each
/// run of such stops in between is spread evenly.
pub fn resolve_gradient_stops(positions: &Vec<u32>, length: u32) -> (out: Vec<StopPosition>)
    ensures
        out@.len() == positions@.len(),
        forall|i: int|
            0 <= i < out@.len() ==> placed(positions@, length, i, #[trigger] out@[i]),
{
    let mut out: Vec<StopPosition> = Vec::new();
    let n: usize = positions.len();
    if n == 0 {
        return out;
    }
    let min: u32 = start_of_line(positions);
    let max: u32 = end_of_line(positions, length);
    let last: usize = n - 1;
    let mut i: usize = 0;
    while i < n
        invariant
            n == positions@.len(),
            last == n - 1,
            i <= n,
            min == line_start(positions@),
            max == line_end(positions@, length),
            out@.len() == i,
            i > 0 ==> pinned(positions@, i - 1),
            forall|k: int| 0 <= k < i ==> placed(positions@, length, k, #[trigger] out@[k]),
        decreases n - i,
    {
        let p: u32 = positions[i];
        if !float_bits::is_not_a_number(p) {
            out.push(StopPosition::Fixed(p));
            i = i + 1;
        } else if i == 0 {
            out.push(StopPosition::Fixed(min));
            i = i + 1;
        } else if i == last {
            out.push(StopPosition::Fixed(max));
            i = i + 1;
        } else {
            let mut end: usize = i + 1;
            while end < last && float_bits::is_not_a_number(positions[end])
                invariant
                    n == positions@.len(),
                    last == n - 1,
                    0 < i < end <= last,
                    float_bits::is_nan(positions@[i as int]),
                    forall|j: int| i <= j < end ==> !#[trigger] pinned(positions@, j),
                decreases last - end,
            {
                end = end + 1;
            }
            let start: usize = i - 1;
            let whole: usize = end - start;
            while i < end
                invariant
                    n == positions@.len(),
                    start < i <= end <= last,
                    last == n - 1,
                    whole == end - start,
                    out@.len() == i,
                    pinned(positions@, start as int),
                    pinned(positions@, end as int),
                    forall|j: int| start < j < end ==> !#[trigger] pinned(positions@, j),
                    forall|k: int| 0 <= k < i ==> placed(positions@, length, k, #[trigger] out@[k]),
                decreases end - i,
            {
                assert(!pinned(positions@, i as int));
                out.push(StopPosition::Between { start, end, part: i - start, whole });
                i = i + 1;
            }
            let at_end: u32 = positions[end];
            if !float_bits::is_not_a_number(at_end) {
                out.push(StopPosition::Fixed(at_end));
            } else {
                out.push(StopPosition::Fixed(max));
            }
            i = i + 1;
        }
    }
    out
}

fn start_of_line(positions: &Vec<u32>) -> (min: u32)
    ensures
        min == line_start(positions@),
{
    let mut i: usize = 0;
    while i < positions.len()
        invariant
            i <= positions@.len(),
            first_given(positions@, 0) == first_given(positions@, i as int),
        decreases positions@.len() - i,
    {
        let p: u32 = positions[i];
        if !float_bits::is_not_a_number(p) {
            return if float_bits::is_less(p, 0) { p } else { 0 };
        }
        i = i + 1;
    }
    0
}

fn end_of_line(positions: &Vec<u32>, length: u32) -> (max: u32)
    ensures
        max == line_end(positions@, length),
{
    let mut i: usize = positions.len();
    while i > 0
        invariant
            i <= positions@.len(),
            last_given(positions@, positions@.len() as int) == last_given(positions@, i as int),
        decreases i,
    {
        let p: u32 = positions[i - 1];
        if !float_bits::is_not_a_number(p) {
            return if float_bits::is_not_a_number(length) || float_bits::is_less(length, p) {
                p
            } else {
                length
            };
        }
        i = i - 1;
    }
    length
}

/// There is only one place for each stop.
pub proof fn law_stops_have_one_place(positions: Seq<u32>, length: u32, i: int, a: StopPosition, b: StopPosition)
    requires
        0 <= i < positions.len(),
        placed(positions, length, i, a),
        placed(positions, length, i, b),
    ensures
        a == b,
{
    if !pinned(positions, i) {
        match (a, b) {
            (
                StopPosition::Between { start, end, .. },
                StopPosition::Between { start: other_start, end: other_end, .. },
            ) => {
                assert(pinned(positions, start as int) && pinned(positions, other_start as int));
                assert(pinned(positions, end as int) && pinned(positions, other_end as int));
            },
            _ => {},
        }
    }
}

} // verus!
