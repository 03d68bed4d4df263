//! Gradient segments, kept inline as long as there are few.

use smallvec::SmallVec;
use vstd::prelude::*;

use crate::abi::{CornerValues, Quadruple};

verus! {

/// The stretch between two adjacent gradient stops.
#[derive(Debug, Clone, Copy, PartialEq, Eq, Structural)]
pub struct GradientSegment {
    pub start_color: Quadruple,
    pub end_color: Quadruple,
    pub start_len: u32,
    pub end_len: u32,
    pub hsla: bool,
    /// Gradient parameter at each corner of the quad.
    pub t: CornerValues,
}

/// The segments of one gradient, in order; up to four of them are kept inline.
#[verifier::external_body]
pub struct GradientSegments {
    inner: SmallVec<[GradientSegment; 4]>,
}

/// What a list of segments holds.
pub uninterp spec fn segments_held(segments: GradientSegments) -> Seq<GradientSegment>;

impl View for GradientSegments {
    type V = Seq<GradientSegment>;

    open spec fn view(&self) -> Seq<GradientSegment> {
        segments_held(*self)
    }
}

impl GradientSegments {
    /// An empty list.
    ///
    /// Trusted: `SmallVec::new` returns a vector that holds nothing.
    #[verifier::external_body]
    pub(crate) fn new() -> (segments: GradientSegments)
        ensures
            segments_held(segments) == Seq::<GradientSegment>::empty(),
    {
        GradientSegments { inner: SmallVec::new() }
    }

    /// Appends a segment.
    ///
    /// Trusted: `SmallVec::push` puts the item behind those already held,
    /// whether they still fit inline or not.
    #[verifier::external_body]
    pub(crate) fn push(&mut self, segment: GradientSegment)
        ensures
            segments_held(*final(self)) == segments_held(*old(self)).push(segment),
    {
        self.inner.push(segment)
    }

    /// How many segments there are.
    ///
    /// Trusted: `SmallVec::len` counts the items held.
    #[verifier::external_body]
    pub(crate) fn len(&self) -> (count: usize)
        ensures
            count == segments_held(*self).len(),
    {
        self.inner.len()
    }

    /// The segment at an index.
    ///
    /// Trusted: indexing a `SmallVec`, which goes through its slice, gives the
    /// item at that place.
    #[verifier::external_body]
    pub(crate) fn at(&self, index: usize) -> (segment: GradientSegment)
        requires
            index < segments_held(*self).len(),
        ensures
            segment == segments_held(*self)[index as int],
    {
        self.inner[index]
    }
}

} // verus!
