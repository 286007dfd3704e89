//! Chains of points grown at either end while the connector links emitted
//! segments back into closed loops.

use vstd::prelude::*;
use crate::point::{Point2D, in_range, pt_eq, same_point};
use crate::segment::Segment;

verus! {

/// A double-ended ordered sequence of points plus a closed flag.
#[derive(Debug)]
pub struct PointChain {
    nodes: Vec<Point2D>,
    closed: bool,
}

/// Every node of the chain satisfies the representation bounds and the chain
/// is never empty.
pub open spec fn wf_chain(c: PointChain) -> bool {
    &&& c@.len() >= 1
    &&& forall|i: int| 0 <= i < c@.len() ==> in_range(#[trigger] c@[i])
}

/// The sequence reversed.
pub open spec fn seq_rev(s: Seq<Point2D>) -> Seq<Point2D> {
    Seq::new(s.len(), |i: int| s[s.len() - 1 - i])
}

/// What attaching a segment to a chain yields: the new node sequence, the
/// new closed flag, and whether the segment attached at all.  The segment
/// attaches when one of its endpoints equals the first or last node in
/// value: the chain grows at that end by the segment's other endpoint, or
/// closes when the segment bridges the chain's two ends.
pub open spec fn link_seg_result(nodes: Seq<Point2D>, closed: bool, s: Segment) -> (
    Seq<Point2D>,
    bool,
    bool,
) {
    let sb = s.begin_pt;
    let se = s.end_pt;
    let first = nodes[0];
    let last = nodes.last();
    if pt_eq(sb, first) {
        if pt_eq(se, last) {
            (nodes, true, true)
        } else {
            (seq![se] + nodes, closed, true)
        }
    } else if pt_eq(se, last) {
        (nodes.push(sb), closed, true)
    } else if pt_eq(se, first) {
        if pt_eq(sb, last) {
            (nodes, true, true)
        } else {
            (seq![sb] + nodes, closed, true)
        }
    } else if pt_eq(sb, last) {
        (nodes.push(se), closed, true)
    } else {
        (nodes, closed, false)
    }
}

/// Can chain `b` be welded onto chain `a`: do they share an end in value?
pub open spec fn chains_match_nodes(a: Seq<Point2D>, b: Seq<Point2D>) -> bool {
    ||| pt_eq(b[0], a.last())
    ||| pt_eq(b.last(), a[0])
    ||| pt_eq(b[0], a[0])
    ||| pt_eq(b.last(), a.last())
}

/// What welding chain `b` onto chain `a` yields when their ends match: the
/// other chain's nodes are appended at the matching end, reversed when the
/// matching ends face the same way, with one copy of the shared node
/// dropped.
pub open spec fn link_chain_nodes(a: Seq<Point2D>, b: Seq<Point2D>) -> Seq<Point2D> {
    if pt_eq(b[0], a.last()) {
        a + b.drop_first()
    } else if pt_eq(b.last(), a[0]) {
        b + a.drop_first()
    } else if pt_eq(b[0], a[0]) {
        seq_rev(b) + a.drop_first()
    } else if pt_eq(b.last(), a.last()) {
        a.drop_last() + seq_rev(b)
    } else {
        a
    }
}

impl PointChain {
    /// The chain's nodes.
    pub closed spec fn view(&self) -> Seq<Point2D> {
        self.nodes@
    }

    /// The chain's closed flag.
    pub closed spec fn closed_spec(&self) -> bool {
        self.closed
    }

    /// Starts a new open chain from a segment's two endpoints.
    pub fn init(initial_segment: Segment) -> (r: PointChain)
        requires
            in_range(initial_segment.begin_pt),
            in_range(initial_segment.end_pt),
        ensures
            wf_chain(r),
            r@ == seq![initial_segment.begin_pt, initial_segment.end_pt],
            !r.closed_spec(),
    {
        let mut nodes: Vec<Point2D> = Vec::new();
        nodes.push(initial_segment.begin_pt);
        nodes.push(initial_segment.end_pt);
        PointChain { nodes, closed: false }
    }

    /// Provides read-only access to the closed flag.
    pub fn is_closed(&self) -> (r: bool)
        ensures
            r == self.closed_spec(),
    {
        self.closed
    }

    /// Provides read-only access to the nodes.
    pub fn nodes_ref(&self) -> (r: &Vec<Point2D>)
        ensures
            r@ == self@,
    {
        &self.nodes
    }

    /// Consumes the chain; returns the nodes and the closed flag.
    pub fn into_contents(self) -> (r: (Vec<Point2D>, bool))
        ensures
            r.0@ == self@,
            r.1 == self.closed_spec(),
    {
        let PointChain { nodes, closed } = self;
        (nodes, closed)
    }

    /// Tries to attach a segment to this chain.  The segment attaches when
    /// one of its endpoints equals the first or last node in value: the chain
    /// grows at that end by the segment's other endpoint, or closes when the
    /// segment bridges the chain's two ends.  Returns false, leaving the
    /// chain unchanged, when neither endpoint matches.
    pub fn link_segment(&mut self, segment: Segment) -> (r: bool)
        requires
            wf_chain(*old(self)),
            in_range(segment.begin_pt),
            in_range(segment.end_pt),
        ensures
            wf_chain(*final(self)),
            final(self)@ == link_seg_result(old(self)@, old(self).closed_spec(), segment).0,
            final(self).closed_spec() == link_seg_result(
                old(self)@,
                old(self).closed_spec(),
                segment,
            ).1,
            r == link_seg_result(old(self)@, old(self).closed_spec(), segment).2,
    {
        let first_elem = self.nodes[0];
        let last_elem = self.nodes[self.nodes.len() - 1];

        if same_point(&segment.begin_pt, &first_elem) {
            if same_point(&segment.end_pt, &last_elem) {
                self.closed = true;
            } else {
                self.nodes.insert(0, segment.end_pt);
                assert(self.nodes@ =~= seq![segment.end_pt] + old(self)@);
            }
            return true;
        }
        if same_point(&segment.end_pt, &last_elem) {
            self.nodes.push(segment.begin_pt);
            return true;
        }
        if same_point(&segment.end_pt, &first_elem) {
            if same_point(&segment.begin_pt, &last_elem) {
                self.closed = true;
            } else {
                self.nodes.insert(0, segment.begin_pt);
                assert(self.nodes@ =~= seq![segment.begin_pt] + old(self)@);
            }
            return true;
        }
        if same_point(&segment.begin_pt, &last_elem) {
            self.nodes.push(segment.end_pt);
            return true;
        }
        false
    }

    /// Tries to weld another chain onto this one.  The chains weld when an
    /// end of `chain` equals an end of this chain in value; the other chain's
    /// nodes are appended at the matching end, reversed when the matching
    /// ends face the same way, with one copy of the shared node dropped.
    /// Returns false, leaving this chain unchanged, when no ends match.
    pub fn link_point_chain(&mut self, chain: PointChain) -> (r: bool)
        requires
            wf_chain(*old(self)),
            wf_chain(chain),
        ensures
            wf_chain(*final(self)),
            final(self).closed_spec() == old(self).closed_spec(),
            r == chains_match_nodes(old(self)@, chain@),
            r ==> final(self)@ == link_chain_nodes(old(self)@, chain@),
            !r ==> final(self)@ == old(self)@,
    {
        let chain_first = chain.nodes[0];
        let chain_last = chain.nodes[chain.nodes.len() - 1];
        let self_first = self.nodes[0];
        let self_last = self.nodes[self.nodes.len() - 1];

        if same_point(&chain_first, &self_last) {
            let mut i: usize = 1;
            while i < chain.nodes.len()
                invariant
                    1 <= i <= chain.nodes@.len(),
                    wf_chain(chain),
                    self.nodes@ == old(self)@ + chain.nodes@.subrange(1, i as int),
                    self.closed == old(self).closed_spec(),
                    wf_chain(*self),
                decreases chain.nodes@.len() - i,
            {
                self.nodes.push(chain.nodes[i]);
                assert(self.nodes@ =~= old(self)@ + chain.nodes@.subrange(1, i + 1 as int));
                i = i + 1;
            }
            assert(chain.nodes@.subrange(1, chain.nodes@.len() as int) =~= chain@.drop_first());
            return true;
        }
        if same_point(&chain_last, &self_first) {
            let mut merged: Vec<Point2D> = Vec::new();
            let mut i: usize = 0;
            while i < chain.nodes.len()
                invariant
                    i <= chain.nodes@.len(),
                    wf_chain(chain),
                    merged@ == chain.nodes@.subrange(0, i as int),
                decreases chain.nodes@.len() - i,
            {
                merged.push(chain.nodes[i]);
                i = i + 1;
            }
            assert(merged@ =~= chain@);
            let mut j: usize = 1;
            while j < self.nodes.len()
                invariant
                    1 <= j <= self.nodes@.len(),
                    self.nodes@ == old(self)@,
                    self.closed == old(self).closed_spec(),
                    wf_chain(*self),
                    merged@ == chain@ + old(self)@.subrange(1, j as int),
                decreases self.nodes@.len() - j,
            {
                merged.push(self.nodes[j]);
                assert(merged@ =~= chain@ + old(self)@.subrange(1, j + 1 as int));
                j = j + 1;
            }
            assert(old(self)@.subrange(1, old(self)@.len() as int) =~= old(self)@.drop_first());
            self.nodes = merged;
            return true;
        }
        if same_point(&chain_first, &self_first) {
            let mut merged: Vec<Point2D> = Vec::new();
            let mut i: usize = chain.nodes.len();
            while i > 0
                invariant
                    i <= chain.nodes@.len(),
                    wf_chain(chain),
                    merged@.len() == chain.nodes@.len() - i,
                    forall|k: int|
                        0 <= k < merged@.len() ==> #[trigger] merged@[k] == chain.nodes@[chain.nodes@.len()
                            - 1 - k],
                decreases i,
            {
                i = i - 1;
                merged.push(chain.nodes[i]);
            }
            assert(merged@ =~= seq_rev(chain@));
            let mut j: usize = 1;
            while j < self.nodes.len()
                invariant
                    1 <= j <= self.nodes@.len(),
                    self.nodes@ == old(self)@,
                    self.closed == old(self).closed_spec(),
                    wf_chain(*self),
                    merged@ == seq_rev(chain@) + old(self)@.subrange(1, j as int),
                decreases self.nodes@.len() - j,
            {
                merged.push(self.nodes[j]);
                assert(merged@ =~= seq_rev(chain@) + old(self)@.subrange(1, j + 1 as int));
                j = j + 1;
            }
            assert(old(self)@.subrange(1, old(self)@.len() as int) =~= old(self)@.drop_first());
            self.nodes = merged;
            return true;
        }
        if same_point(&chain_last, &self_last) {
            let mut merged: Vec<Point2D> = Vec::new();
            let mut j: usize = 0;
            while j < self.nodes.len() - 1
                invariant
                    self.nodes@ == old(self)@,
                    self.closed == old(self).closed_spec(),
                    wf_chain(*self),
                    j + 1 <= self.nodes@.len(),
                    merged@ == old(self)@.subrange(0, j as int),
                decreases self.nodes@.len() - j,
            {
                merged.push(self.nodes[j]);
                j = j + 1;
            }
            assert(merged@ =~= old(self)@.drop_last());
            let mut i: usize = chain.nodes.len();
            while i > 0
                invariant
                    i <= chain.nodes@.len(),
                    wf_chain(chain),
                    self.nodes@ == old(self)@,
                    self.closed == old(self).closed_spec(),
                    wf_chain(*self),
                    merged@.len() == old(self)@.len() - 1 + (chain.nodes@.len() - i),
                    merged@.subrange(0, old(self)@.len() - 1) == old(self)@.drop_last(),
                    forall|k: int|
                        0 <= k < chain.nodes@.len() - i ==> #[trigger] merged@[old(self)@.len() - 1
                            + k] == chain.nodes@[chain.nodes@.len() - 1 - k],
                decreases i,
            {
                i = i - 1;
                merged.push(chain.nodes[i]);
                assert(merged@.subrange(0, old(self)@.len() - 1) =~= old(self)@.drop_last());
            }
            assert forall|k: int| 0 <= k < merged@.len() implies merged@[k] == (old(
                self,
            )@.drop_last() + seq_rev(chain@))[k] by {
                let m = old(self)@.len() - 1;
                if k < m {
                    assert(merged@[k] == merged@.subrange(0, m)[k]);
                } else {
                    assert(merged@[m + (k - m)] == chain.nodes@[chain.nodes@.len() - 1 - (k - m)]);
                }
            }
            assert(merged@ =~= old(self)@.drop_last() + seq_rev(chain@));
            self.nodes = merged;
            return true;
        }
        false
    }
}

} // verus!
