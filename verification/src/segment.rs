//! Directed line segments handed from the sweep to the connector.

use vstd::prelude::*;
use crate::point::Point2D;

verus! {

/// A directed segment between two points.
#[derive(Debug, Clone, Copy)]
pub struct Segment {
    pub begin_pt: Point2D,
    pub end_pt: Point2D,
}

impl Segment {
    /// Swaps begin and end.
    pub fn change_orientation(&mut self)
        ensures
            final(self).begin_pt == old(self).end_pt,
            final(self).end_pt == old(self).begin_pt,
    {
        let tmp = self.begin_pt;
        self.begin_pt = self.end_pt;
        self.end_pt = tmp;
    }

    /// Replaces the begin point.
    pub fn set_begin(&mut self, begin: Point2D)
        ensures
            final(self).begin_pt == begin,
            final(self).end_pt == old(self).end_pt,
    {
        self.begin_pt = begin;
    }

    /// Replaces the end point.
    pub fn set_end(&mut self, end: Point2D)
        ensures
            final(self).begin_pt == old(self).begin_pt,
            final(self).end_pt == end,
    {
        self.end_pt = end;
    }
}

} // verus!
