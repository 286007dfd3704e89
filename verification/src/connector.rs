//! Reassembles the segments emitted by the sweep into closed polygons.

use vstd::prelude::*;
use crate::point::{Point2D, in_range, pt_eq};
use crate::point_chain::{PointChain, wf_chain};
use crate::polygon::{Polygon, BoolOpError};
use crate::segment::Segment;

verus! {

/// A collection of open chains still being grown and finished closed chains.
pub struct Connector {
    open_polygons: Vec<PointChain>,
    closed_polygons: Vec<PointChain>,
}

/// Can this segment attach to an end of this chain?
pub open spec fn seg_matches(c: PointChain, s: Segment) -> bool {
    ||| pt_eq(s.begin_pt, c@[0])
    ||| pt_eq(s.end_pt, c@.last())
    ||| pt_eq(s.end_pt, c@[0])
    ||| pt_eq(s.begin_pt, c@.last())
}

/// Can these two chains be welded end to end?
pub open spec fn chains_match_spec(a: PointChain, b: PointChain) -> bool {
    crate::point_chain::chains_match_nodes(a@, b@)
}

/// What the matching case of `add_segment` leaves behind, for the first
/// matching open chain `j`: the segment is attached to that chain; a chain
/// that closes moves, in order, to the closed list; an open result is
/// welded with the first later chain it now matches, if any, which is
/// removed; all other chains keep their relative order.
pub open spec fn add_match_post(
    pre_open: Seq<PointChain>,
    pre_closed: Seq<PointChain>,
    post_open: Seq<PointChain>,
    post_closed: Seq<PointChain>,
    j: int,
    segment: Segment,
) -> bool {
    let c0 = pre_open[j];
    let merged = crate::point_chain::link_seg_result(c0@, c0.closed_spec(), segment);
    if merged.1 {
        &&& post_open == pre_open.remove(j)
        &&& post_closed.len() == pre_closed.len() + 1
        &&& post_closed.subrange(0, pre_closed.len() as int) == pre_closed
        &&& post_closed.last()@ == merged.0
        &&& post_closed.last().closed_spec()
    } else {
        &&& post_closed == pre_closed
        &&& if exists|k: int|
            j < k < pre_open.len() && crate::point_chain::chains_match_nodes(
                merged.0,
                (#[trigger] pre_open[k])@,
            ) {
            exists|k: int|
                {
                    &&& j < k < pre_open.len()
                    &&& crate::point_chain::chains_match_nodes(merged.0, (#[trigger] pre_open[k])@)
                    &&& forall|m: int|
                        j < m < k ==> !crate::point_chain::chains_match_nodes(
                            merged.0,
                            (#[trigger] pre_open[m])@,
                        )
                    &&& post_open.len() == pre_open.len() - 1
                    &&& post_open[j]@ == crate::point_chain::link_chain_nodes(
                        merged.0,
                        pre_open[k]@,
                    )
                    &&& !post_open[j].closed_spec()
                    &&& (forall|m: int| 0 <= m < j ==> (#[trigger] post_open[m]) == pre_open[m])
                    &&& (forall|m: int| j < m < k ==> (#[trigger] post_open[m]) == pre_open[m])
                    &&& (forall|m: int|
                        k <= m < pre_open.len() - 1 ==> (#[trigger] post_open[m]) == pre_open[m
                            + 1])
                }
        } else {
            &&& post_open.len() == pre_open.len()
            &&& post_open[j]@ == merged.0
            &&& !post_open[j].closed_spec()
            &&& (forall|m: int|
                0 <= m < pre_open.len() && m != j ==> (#[trigger] post_open[m]) == pre_open[m])
        }
    }
}

impl Connector {
    /// The open chains.
    pub closed spec fn open_view(&self) -> Seq<PointChain> {
        self.open_polygons@
    }

    /// The closed chains.
    pub closed spec fn closed_view(&self) -> Seq<PointChain> {
        self.closed_polygons@
    }

    /// Every stored chain is well-formed with at least the two nodes of the
    /// segment it grew from; open chains are open and closed chains are
    /// closed.
    pub open spec fn wf(&self) -> bool {
        &&& forall|i: int|
            0 <= i < self.open_view().len() ==> wf_chain(#[trigger] self.open_view()[i])
                && !self.open_view()[i].closed_spec() && self.open_view()[i]@.len() >= 2
        &&& forall|i: int|
            0 <= i < self.closed_view().len() ==> wf_chain(#[trigger] self.closed_view()[i])
                && self.closed_view()[i].closed_spec() && self.closed_view()[i]@.len() >= 2
    }

    /// An empty connector.
    pub fn new() -> (r: Self)
        ensures
            r.wf(),
            r.open_view().len() == 0,
            r.closed_view().len() == 0,
    {
        Connector { open_polygons: Vec::new(), closed_polygons: Vec::new() }
    }

    /// Adds one emitted segment.  The segment is attached to the first open
    /// chain it can extend; if the chain closes it is promoted, otherwise one
    /// later chain that now fits is welded on.  A segment no chain can take
    /// starts a new open chain.
    pub fn add_segment(&mut self, segment: Segment)
        requires
            old(self).wf(),
            in_range(segment.begin_pt),
            in_range(segment.end_pt),
        ensures
            final(self).wf(),
            (forall|j: int|
                0 <= j < old(self).open_view().len() ==> !seg_matches(
                    #[trigger] old(self).open_view()[j],
                    segment,
                )) ==> {
                &&& final(self).closed_view() == old(self).closed_view()
                &&& final(self).open_view().len() == old(self).open_view().len() + 1
                &&& final(self).open_view().subrange(0, old(self).open_view().len() as int) == old(
                    self,
                ).open_view()
                &&& final(self).open_view().last()@ == seq![segment.begin_pt, segment.end_pt]
            },
            old(self).closed_view().is_prefix_of(final(self).closed_view()),
            (exists|j: int|
                0 <= j < old(self).open_view().len() && seg_matches(
                    #[trigger] old(self).open_view()[j],
                    segment,
                )) ==> (exists|j: int|
                {
                    &&& 0 <= j < old(self).open_view().len()
                    &&& seg_matches(#[trigger] old(self).open_view()[j], segment)
                    &&& forall|jj: int|
                        0 <= jj < j ==> !seg_matches(old(self).open_view()[jj], segment)
                    &&& add_match_post(
                        old(self).open_view(),
                        old(self).closed_view(),
                        final(self).open_view(),
                        final(self).closed_view(),
                        j,
                        segment,
                    )
                }),
    {
        let mut j: usize = 0;
        let mut found = false;
        let n = self.open_polygons.len();
        while j < n && !found
            invariant
                self == old(self),
                n == self.open_polygons@.len(),
                j <= n,
                found ==> j < n && seg_matches(self.open_polygons@[j as int], segment),
                forall|jj: int|
                    0 <= jj < j ==> !seg_matches(#[trigger] self.open_polygons@[jj], segment),
                old(self).wf(),
                in_range(segment.begin_pt),
                in_range(segment.end_pt),
            decreases n - j, (if found { 0int } else { 1int }),
        {
            proof {
                assert(wf_chain(self.open_view()[j as int]));
            }
            if seg_match_exec(&self.open_polygons[j], &segment) {
                found = true;
            } else {
                j = j + 1;
            }
        }
        if !found {
            let fresh = PointChain::init(segment);
            self.open_polygons.push(fresh);
            assert(final(self).open_view().subrange(0, old(self).open_view().len() as int) =~= old(
                self,
            ).open_view());
            assert forall|i: int| 0 <= i < self.open_view().len() implies wf_chain(
                #[trigger] self.open_view()[i],
            ) && !self.open_view()[i].closed_spec() by {
                if i < old(self).open_view().len() {
                    assert(wf_chain(old(self).open_view()[i]));
                }
            }
            assert forall|i: int| 0 <= i < self.closed_view().len() implies wf_chain(
                #[trigger] self.closed_view()[i],
            ) && self.closed_view()[i].closed_spec() by {
                assert(wf_chain(old(self).closed_view()[i]));
            }
            return ;
        }
        proof {
            assert(wf_chain(self.open_view()[j as int]));
            assert forall|i: int| 0 <= i < self.open_view().len() implies wf_chain(
                #[trigger] self.open_view()[i],
            ) && !self.open_view()[i].closed_spec() by {}
        }
        let ghost pre_open = self.open_polygons@;
        let mut ch = self.open_polygons.remove(j);
        ch.link_segment(segment);
        if ch.is_closed() {
            self.closed_polygons.push(ch);
            proof {
                assert(self.closed_polygons@.subrange(0, old(self).closed_view().len() as int)
                    =~= old(self).closed_view());
                assert(add_match_post(
                    pre_open,
                    old(self).closed_view(),
                    self.open_polygons@,
                    self.closed_polygons@,
                    j as int,
                    segment,
                ));
            }
        } else {
            // Look for the first later chain the grown chain now welds to.
            let mut k: usize = j;
            let mut weld_found = false;
            let post_len = self.open_polygons.len();
            while k < post_len && !weld_found
                invariant
                    wf_chain(ch),
                    self.open_polygons@ == pre_open.remove(j as int),
                    self.closed_polygons@ == old(self).closed_view(),
                    post_len == self.open_polygons@.len(),
                    j <= k <= post_len,
                    weld_found ==> k < post_len && crate::point_chain::chains_match_nodes(
                        ch@,
                        self.open_polygons@[k as int]@,
                    ),
                    forall|m: int|
                        j <= m < k ==> !crate::point_chain::chains_match_nodes(
                            ch@,
                            (#[trigger] self.open_polygons@[m])@,
                        ),
                    forall|i: int|
                        0 <= i < self.open_polygons@.len() ==> wf_chain(
                            #[trigger] self.open_polygons@[i],
                        ) && !self.open_polygons@[i].closed_spec(),
                decreases post_len - k, (if weld_found { 0int } else { 1int }),
            {
                proof {
                    assert(wf_chain(self.open_view()[k as int]));
                }
                if chains_match_exec(&ch, &self.open_polygons[k]) {
                    weld_found = true;
                } else {
                    k = k + 1;
                }
            }
            if weld_found {
                let other = self.open_polygons.remove(k);
                ch.link_point_chain(other);
                self.open_polygons.insert(j, ch);
                proof {
                    assert(add_match_post(
                        pre_open,
                        old(self).closed_view(),
                        self.open_polygons@,
                        self.closed_polygons@,
                        j as int,
                        segment,
                    )) by {
                        let merged = crate::point_chain::link_seg_result(
                            pre_open[j as int]@,
                            pre_open[j as int].closed_spec(),
                            segment,
                        );
                        let kk = k as int + 1;
                        let jx = j as int;
                        assert(pre_open[kk] == old(self).open_view().remove(j as int)[k as int]);
                        assert(crate::point_chain::chains_match_nodes(merged.0, pre_open[kk]@));
                        assert forall|m: int| jx < m < kk implies !crate::point_chain::chains_match_nodes(
                            merged.0,
                            pre_open[m]@,
                        ) by {
                            assert(pre_open[m] == pre_open.remove(jx)[m - 1]);
                        }
                        assert forall|m: int| 0 <= m < j implies self.open_polygons@[m]
                            == pre_open[m] by {}
                        assert forall|m: int| jx < m < kk implies self.open_polygons@[m]
                            == pre_open[m] by {}
                        assert forall|m: int| kk <= m < pre_open.len() - 1 implies self.open_polygons@[m]
                            == pre_open[m + 1] by {}
                    }
                }
            } else {
                self.open_polygons.insert(j, ch);
                proof {
                    assert(add_match_post(
                        pre_open,
                        old(self).closed_view(),
                        self.open_polygons@,
                        self.closed_polygons@,
                        j as int,
                        segment,
                    )) by {
                        let merged = crate::point_chain::link_seg_result(
                            pre_open[j as int]@,
                            pre_open[j as int].closed_spec(),
                            segment,
                        );
                        let jx = j as int;
                        assert forall|kx: int| jx < kx < pre_open.len() implies !crate::point_chain::chains_match_nodes(
                            merged.0,
                            pre_open[kx]@,
                        ) by {
                            assert(pre_open[kx] == pre_open.remove(jx)[kx - 1]);
                        }
                        assert forall|m: int| 0 <= m < pre_open.len() && m != j implies self.open_polygons@[m]
                            == pre_open[m] by {}
                    }
                }
            }
        }
        proof {
            assert forall|i: int| 0 <= i < self.open_view().len() implies wf_chain(
                #[trigger] self.open_view()[i],
            ) && !self.open_view()[i].closed_spec() by {}
            assert forall|i: int| 0 <= i < self.closed_view().len() implies wf_chain(
                #[trigger] self.closed_view()[i],
            ) && self.closed_view()[i].closed_spec() by {}
            let jw = j as int;
            assert(0 <= jw < old(self).open_view().len() && seg_matches(
                old(self).open_view()[jw],
                segment,
            ) && (forall|jj: int|
                0 <= jj < jw ==> !seg_matches(old(self).open_view()[jj], segment))
                && add_match_post(
                old(self).open_view(),
                old(self).closed_view(),
                self.open_polygons@,
                self.closed_polygons@,
                jw,
                segment,
            ));
        }
    }

    /// Turns the assembled chains into polygons.  Any remaining open chain
    /// means the emitted segments were inconsistent: the whole operation
    /// fails with `MalformedResult`.  Otherwise each closed chain becomes one
    /// closed output polygon, in order.
    pub fn to_polygons(self) -> (r: Result<Vec<Polygon>, BoolOpError>)
        requires
            self.wf(),
        ensures
            self.open_view().len() > 0 <==> r == Err::<Vec<Polygon>, BoolOpError>(
                BoolOpError::MalformedResult,
            ),
            r is Err ==> r == Err::<Vec<Polygon>, BoolOpError>(BoolOpError::MalformedResult),
            r matches Ok(v) ==> {
                &&& v@.len() == self.closed_view().len()
                &&& forall|k: int|
                    0 <= k < v@.len() ==> {
                        &&& (#[trigger] v@[k]).nodes@ == self.closed_view()[k]@
                        &&& v@[k].is_closed
                        &&& !v@[k].is_hole
                        &&& v@[k].winding is None
                        &&& v@[k].nodes@.len() >= 2
                        &&& forall|m: int| 0 <= m < v@[k].nodes@.len() ==> in_range(#[trigger] v@[k].nodes@[m])
                    }
            },
    {
        let Connector { open_polygons, closed_polygons } = self;
        if open_polygons.len() > 0 {
            return Err(BoolOpError::MalformedResult);
        }
        let mut remaining = closed_polygons;
        let mut out: Vec<Polygon> = Vec::new();
        let ghost all = remaining@;
        let total: usize = remaining.len();
        assert(all.len() == total as int);
        let mut idx: usize = 0;
        while remaining.len() > 0
            invariant
                all == self.closed_view(),
                all.len() <= usize::MAX,
                idx + remaining@.len() == all.len(),
                remaining@ == all.subrange(idx as int, all.len() as int),
                self.wf(),
                out@.len() == idx,
                forall|k: int|
                    0 <= k < out@.len() ==> {
                        &&& (#[trigger] out@[k]).nodes@ == all[k]@
                        &&& out@[k].is_closed
                        &&& !out@[k].is_hole
                        &&& out@[k].winding is None
                    },
            decreases remaining@.len(),
        {
            let ch = remaining.remove(0);
            assert(ch == all[idx as int]);
            let (nodes, closed) = ch.into_contents();
            out.push(Polygon { nodes, is_hole: false, is_closed: closed, winding: None });
            idx = idx + 1;
            assert(remaining@ =~= all.subrange(idx as int, all.len() as int));
        }
        Ok(out)
    }
}

/// Does the segment attach to an end of the chain?
fn seg_match_exec(c: &PointChain, s: &Segment) -> (r: bool)
    requires
        wf_chain(*c),
        in_range(s.begin_pt),
        in_range(s.end_pt),
    ensures
        r == seg_matches(*c, *s),
{
    let nodes = c.nodes_ref();
    let first = nodes[0];
    let last = nodes[nodes.len() - 1];
    crate::point::same_point(&s.begin_pt, &first) || crate::point::same_point(&s.end_pt, &last)
        || crate::point::same_point(&s.end_pt, &first) || crate::point::same_point(
        &s.begin_pt,
        &last,
    )
}

/// Can chain `b` be welded onto chain `a`?
fn chains_match_exec(a: &PointChain, b: &PointChain) -> (r: bool)
    requires
        wf_chain(*a),
        wf_chain(*b),
    ensures
        r == chains_match_spec(*a, *b),
{
    let an = a.nodes_ref();
    let bn = b.nodes_ref();
    let afirst = an[0];
    let alast = an[an.len() - 1];
    let bfirst = bn[0];
    let blast = bn[bn.len() - 1];
    crate::point::same_point(&bfirst, &alast) || crate::point::same_point(&blast, &afirst)
        || crate::point::same_point(&bfirst, &afirst) || crate::point::same_point(&blast, &alast)
}

} // verus!
