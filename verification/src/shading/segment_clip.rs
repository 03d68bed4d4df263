//! The part of a segment that lies within the view.

use vstd::prelude::*;

use crate::float_bits;

verus! {

/// A segment held against a plane.
#[derive(Debug, Clone, Copy, PartialEq, Eq, Structural)]
pub struct PlaneCut {
    /// Distance of the segment's start from the plane, negative outside.
    pub start: u32,
    /// Distance of its end.
    pub end: u32,
    /// Where it crosses the plane, as a fraction of its length.
    pub crossing: u32,
}

/// A part of a segment, by the fractions at which it starts and ends.
#[derive(Debug, Clone, Copy, PartialEq, Eq, Structural)]
pub struct SegmentPart {
    pub t0: u32,
    pub t1: u32,
}

impl PlaneCut {
    pub open spec fn starts_outside(self) -> bool {
        float_bits::less(self.start, 0)
    }

    pub open spec fn ends_outside(self) -> bool {
        float_bits::less(self.end, 0)
    }

    /// What the plane leaves of a part: it starts later where the segment comes
    /// in, and ends sooner where it goes out.
    pub open spec fn leaves(self, part: SegmentPart) -> SegmentPart {
        if self.starts_outside() && !self.ends_outside() {
            SegmentPart { t0: float_bits::larger(part.t0, self.crossing), ..part }
        } else if !self.starts_outside() && self.ends_outside() {
            SegmentPart { t1: float_bits::smaller(part.t1, self.crossing), ..part }
        } else {
            part
        }
    }

    /// Whether anything of a part is left.
    pub open spec fn passes(self, part: SegmentPart) -> bool {
        !(self.starts_outside() && self.ends_outside()) && float_bits::at_most(
            self.leaves(part).t0,
            self.leaves(part).t1,
        )
    }
}

/// Cuts a part of a segment at a plane and tells whether anything is left.
pub fn clip_plane(cut: PlaneCut, part: &mut SegmentPart) -> (left: bool)
    ensures
        left == cut.passes(*old(part)),
        *final(part) == cut.leaves(*old(part)),
{
    let starts_outside = float_bits::is_less(cut.start, 0);
    let ends_outside = float_bits::is_less(cut.end, 0);
    if starts_outside && ends_outside {
        return false;
    }
    if starts_outside {
        part.t0 = float_bits::larger_of(part.t0, cut.crossing);
    } else if ends_outside {
        part.t1 = float_bits::smaller_of(part.t1, cut.crossing);
    }
    float_bits::is_at_most(part.t0, part.t1)
}

/// The whole segment.
pub open spec fn whole() -> SegmentPart {
    SegmentPart { t0: 0, t1: 0x3f80_0000 }
}

/// Whether something is left after each of the first `n` planes.
pub open spec fn left_after(cuts: Seq<PlaneCut>, n: int) -> bool
    decreases n,
{
    n <= 0 || (left_after(cuts, n - 1) && cuts[n - 1].passes(part_after(cuts, n - 1)))
}

/// What is left after the first `n` planes; those that follow one which leaves
/// nothing are not looked at.
pub open spec fn part_after(cuts: Seq<PlaneCut>, n: int) -> SegmentPart
    decreases n,
{
    if n <= 0 {
        whole()
    } else if left_after(cuts, n - 1) {
        cuts[n - 1].leaves(part_after(cuts, n - 1))
    } else {
        part_after(cuts, n - 1)
    }
}

/// A segment on the screen.
#[derive(Debug, Clone, Copy, PartialEq, Eq, Structural)]
pub struct ProjectedSegment {
    /// Whether anything of it is on the screen.
    pub clipped: bool,
    pub part: SegmentPart,
}

/// Cuts a segment at the planes of the view.
pub fn clip_segment(cuts: &Vec<PlaneCut>) -> (segment: ProjectedSegment)
    ensures
        segment.clipped == left_after(cuts@, cuts@.len() as int),
        segment.part == part_after(cuts@, cuts@.len() as int),
{
    let mut part = SegmentPart { t0: 0, t1: 0x3f80_0000 };
    let mut clipped = true;
    let count: usize = cuts.len();
    let mut i: usize = 0;
    while i < count
        invariant
            i <= count,
            count == cuts@.len(),
            clipped == left_after(cuts@, i as int),
            part == part_after(cuts@, i as int),
        decreases count - i,
    {
        if clipped {
            clipped = clip_plane(cuts[i], &mut part);
        }
        i = i + 1;
    }
    ProjectedSegment { clipped, part }
}

/// Whether a segment can be followed on the screen: something of it is left, and
/// its ends have finite coordinates there.
pub fn project_segment(segment: ProjectedSegment, start: [u32; 3], end: [u32; 3]) -> (projected: bool)
    ensures
        projected == (segment.clipped && (forall|i: int|
            0 <= i < 3 ==> float_bits::magnitude(#[trigger] start@[i]) < 0x7f80_0000) && (forall|i: int|
            0 <= i < 3 ==> float_bits::magnitude(#[trigger] end@[i]) < 0x7f80_0000)),
{
    let start_finite = float_bits::is_finite(start[0]) && float_bits::is_finite(start[1])
        && float_bits::is_finite(start[2]);
    let end_finite = float_bits::is_finite(end[0]) && float_bits::is_finite(end[1])
        && float_bits::is_finite(end[2]);
    segment.clipped && start_finite && end_finite
}

/// Where the crossings are numbers, each plane only takes away: what is left
/// after more planes lies within what was left after fewer, and it lies behind
/// every crossing at which the segment comes in and before every one at which it
/// goes out.
pub proof fn law_planes_only_take_away(cuts: Seq<PlaneCut>, fewer: int, more: int)
    requires
        0 <= fewer <= more <= cuts.len(),
        left_after(cuts, more),
        forall|i: int| 0 <= i < more ==> !float_bits::is_nan((#[trigger] cuts[i]).crossing),
    ensures
        left_after(cuts, fewer),
        float_bits::at_most(part_after(cuts, fewer).t0, part_after(cuts, more).t0),
        float_bits::at_most(part_after(cuts, more).t1, part_after(cuts, fewer).t1),
        float_bits::at_most(part_after(cuts, more).t0, part_after(cuts, more).t1),
        forall|i: int|
            fewer <= i < more && (#[trigger] cuts[i]).starts_outside() ==> float_bits::at_most(
                cuts[i].crossing,
                part_after(cuts, more).t0,
            ),
        forall|i: int|
            fewer <= i < more && (#[trigger] cuts[i]).ends_outside() ==> float_bits::at_most(
                part_after(cuts, more).t1,
                cuts[i].crossing,
            ),
    decreases more,
{
    lemma_parts_are_numbers(cuts, more);
    if fewer < more {
        law_planes_only_take_away(cuts, fewer, more - 1);
        lemma_parts_are_numbers(cuts, more - 1);
    }
}

proof fn lemma_parts_are_numbers(cuts: Seq<PlaneCut>, n: int)
    requires
        0 <= n <= cuts.len(),
        left_after(cuts, n),
        forall|i: int| 0 <= i < n ==> !float_bits::is_nan((#[trigger] cuts[i]).crossing),
    ensures
        !float_bits::is_nan(part_after(cuts, n).t0),
        !float_bits::is_nan(part_after(cuts, n).t1),
        float_bits::at_most(part_after(cuts, n).t0, part_after(cuts, n).t1),
    decreases n,
{
    if n > 0 {
        lemma_parts_are_numbers(cuts, n - 1);
    }
}

} // verus!
