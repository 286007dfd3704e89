//! Axis-aligned bounding boxes of input polygons.

use vstd::prelude::*;

verus! {

/// Axis-aligned bounds of a set of grid points.
#[derive(Debug, Clone, Copy, PartialEq, Eq, Structural)]
pub struct Bbox {
    pub top: i64,
    pub right: i64,
    pub bottom: i64,
    pub left: i64,
}

/// Two boxes overlap unless one is strictly outside the other on some axis.
pub open spec fn overlaps_spec(a: Bbox, b: Bbox) -> bool {
    !((b.left > a.right) || (b.right < a.left) || (b.top < a.bottom) || (b.bottom > a.top))
}

impl Bbox {
    /// Returns true if the two bounding boxes overlap.
    pub fn overlaps(&self, other: &Self) -> (r: bool)
        ensures
            r == overlaps_spec(*self, *other),
    {
        !((other.left > self.right) || (other.right < self.left) || (other.top < self.bottom) || (
        other.bottom > self.top))
    }
}

} // verus!
