//! The Martinez–Rueda–Feito sweep: event arena, event queue, sweep-line
//! status, and intersection subdivision.
//!
//! Events live in an arena (a vector that only grows), so the index of an
//! event is a stable handle: subdivision adds events and re-links twin
//! indices without ever invalidating one.  The arena invariant `wf_arena`
//! states the twin structure of the event model: twins are symmetric, share
//! their polygon and their original supporting edge, carry each other's
//! points, and exactly the sweep-earlier one of a pair is `left`.

use vstd::prelude::*;
use crate::point::{
    Point2D, in_range, grid, pt_eq, lex_lt, lex_le, area_num, xn, yn, dn, same_point, lex_less,
    lex_leq,
};
use crate::sweep_event::{
    SweepEvent, PolygonType, EdgeType, wf_event, precedes, precedes_spec, lemma_precedes_transitive,
};
use crate::utils::calculate_signed_area3;

verus! {

/// The twin structure of one arena slot.
pub open spec fn wf_link(s: Seq<SweepEvent>, i: int) -> bool {
    let e = s[i];
    let t = s[e.other as int];
    &&& wf_event(e)
    &&& (e.other as int) < s.len()
    &&& (e.other as int) != i
    &&& t.other as int == i
    &&& t.p == e.other_p
    &&& t.other_p == e.p
    &&& t.polygon_type == e.polygon_type
    &&& t.left == !e.left
    &&& t.orig_a == e.orig_a
    &&& t.orig_b == e.orig_b
}

/// Every slot of the arena is well-formed and correctly twinned.
pub open spec fn wf_arena(s: Seq<SweepEvent>) -> bool {
    forall|i: int| 0 <= i < s.len() ==> wf_link(s, i)
}

/// Every id in the queue is an arena index.
pub open spec fn wf_ids(q: Seq<usize>, n: int) -> bool {
    forall|i: int| 0 <= i < q.len() ==> (#[trigger] q[i]) < n
}

/// Overwrites only the two classification flags of one event; everything
/// the arena invariant speaks about is untouched.
fn set_flags(evs: &mut Vec<SweepEvent>, id: usize, is_inside: bool, in_out: bool)
    requires
        wf_arena(old(evs)@),
        id < old(evs)@.len(),
    ensures
        wf_arena(final(evs)@),
        final(evs)@.len() == old(evs)@.len(),
        final(evs)@[id as int] == (SweepEvent {
            is_inside,
            in_out,
            ..old(evs)@[id as int]
        }),
        forall|i: int| 0 <= i < old(evs)@.len() && i != id ==> final(evs)@[i] == old(evs)@[i],
{
    let mut e = evs[id];
    e.is_inside = is_inside;
    e.in_out = in_out;
    evs[id] = e;
    proof {
        assert forall|i: int| 0 <= i < final(evs)@.len() implies wf_link(final(evs)@, i) by {
            assert(wf_link(old(evs)@, i));
        }
    }
}

/// Overwrites only the edge type of one event.
fn set_edge_type(evs: &mut Vec<SweepEvent>, id: usize, edge_type: EdgeType)
    requires
        wf_arena(old(evs)@),
        id < old(evs)@.len(),
    ensures
        wf_arena(final(evs)@),
        final(evs)@.len() == old(evs)@.len(),
        final(evs)@[id as int] == (SweepEvent { edge_type, ..old(evs)@[id as int] }),
        forall|i: int| 0 <= i < old(evs)@.len() && i != id ==> final(evs)@[i] == old(evs)@[i],
{
    let mut e = evs[id];
    e.edge_type = edge_type;
    evs[id] = e;
    proof {
        assert forall|i: int| 0 <= i < final(evs)@.len() implies wf_link(final(evs)@, i) by {
            assert(wf_link(old(evs)@, i));
        }
    }
}

/// The fields of existing events that the subdivision machinery never
/// changes: the event's own point, role flags, polygon and original edge.
pub open spec fn frame_core(pre: Seq<SweepEvent>, post: Seq<SweepEvent>) -> bool {
    &&& post.len() >= pre.len()
    &&& forall|i: int|
        0 <= i < pre.len() ==> {
            let e0 = pre[i];
            let e1 = #[trigger] post[i];
            &&& e1.p == e0.p
            &&& e1.left == e0.left
            &&& e1.polygon_type == e0.polygon_type
            &&& e1.orig_a == e0.orig_a
            &&& e1.orig_b == e0.orig_b
            &&& e1.in_out == e0.in_out
            &&& e1.is_inside == e0.is_inside
        }
}

/// First endpoint of the polygon edge starting at vertex `i`.
pub open spec fn edge_src(nodes: Seq<Point2D>, i: int) -> Point2D {
    nodes[i]
}

/// Second endpoint of the polygon edge starting at vertex `i`: the
/// cyclically next vertex.
pub open spec fn edge_dst(nodes: Seq<Point2D>, i: int) -> Point2D {
    if i + 1 == nodes.len() {
        nodes[0]
    } else {
        nodes[i + 1]
    }
}

/// Is the edge starting at vertex `i` non-degenerate?
pub open spec fn live_edge(nodes: Seq<Point2D>, i: int) -> bool {
    !pt_eq(edge_src(nodes, i), edge_dst(nodes, i))
}

/// Number of non-degenerate edges among the first `i` edges of the polygon.
pub open spec fn n_live_edges(nodes: Seq<Point2D>, i: int) -> int
    decreases i,
{
    if i <= 0 {
        0
    } else {
        n_live_edges(nodes, i - 1) + if live_edge(nodes, i - 1) {
            1int
        } else {
            0int
        }
    }
}

/// There are at most as many non-degenerate edges as edges.
proof fn lemma_live_edges_bound(nodes: Seq<Point2D>, i: int)
    requires
        0 <= i,
    ensures
        0 <= n_live_edges(nodes, i) <= i,
    decreases i,
{
    if i > 0 {
        lemma_live_edges_bound(nodes, i - 1);
    }
}

/// The count of non-degenerate edges grows along the edge list, by one for
/// each non-degenerate edge passed.
proof fn lemma_live_edges_monotone(nodes: Seq<Point2D>, k: int, i: int)
    requires
        0 <= k <= i,
    ensures
        n_live_edges(nodes, k) <= n_live_edges(nodes, i),
        k < i && live_edge(nodes, k) ==> n_live_edges(nodes, k) + 1 <= n_live_edges(nodes, i),
    decreases i - k,
{
    if k < i {
        lemma_live_edges_monotone(nodes, k + 1, i);
    }
}

/// Slots `k` and `k + 1` hold the twinned event pair of the edge `(a, b)`:
/// fresh `Normal` events with false flags, the lexicographically earlier
/// endpoint marked `left`, each carrying the other's point and the edge as
/// its original edge.
pub open spec fn twin_pair_at(
    s: Seq<SweepEvent>,
    k: int,
    a: Point2D,
    b: Point2D,
    pl: PolygonType,
) -> bool {
    &&& s[k] == (SweepEvent {
        p: a,
        other_p: b,
        other: (k + 1) as usize,
        polygon_type: pl,
        left: lex_lt(a, b),
        in_out: false,
        is_inside: false,
        edge_type: EdgeType::Normal,
        orig_a: a,
        orig_b: b,
    })
    &&& s[k + 1] == (SweepEvent {
        p: b,
        other_p: a,
        other: k as usize,
        polygon_type: pl,
        left: !lex_lt(a, b),
        in_out: false,
        is_inside: false,
        edge_type: EdgeType::Normal,
        orig_a: a,
        orig_b: b,
    })
}

/// Builds the twinned event pair of every non-degenerate edge of a polygon
/// and queues all of them: pair `j` of this polygon sits at arena slots
/// `old_len + 2j` and `old_len + 2j + 1`, and exactly the new ids are
/// appended to the queue, in slot order.
pub fn create_sweep_events(
    nodes: &Vec<Point2D>,
    polygon_type: PolygonType,
    evs: &mut Vec<SweepEvent>,
    queue: &mut Vec<usize>,
)
    requires
        forall|i: int| 0 <= i < nodes@.len() ==> grid(#[trigger] nodes@[i]),
        wf_arena(old(evs)@),
        wf_ids(old(queue)@, old(evs)@.len() as int),
    ensures
        wf_arena(final(evs)@),
        wf_ids(final(queue)@, final(evs)@.len() as int),
        forall|i: int| 0 <= i < old(evs)@.len() ==> final(evs)@[i] == old(evs)@[i],
        forall|m: int| 0 <= m < old(queue)@.len() ==> final(queue)@[m] == old(queue)@[m],
        old(evs)@.len() + 2 * nodes@.len() <= usize::MAX ==> {
            &&& final(evs)@.len() == old(evs)@.len() + 2 * n_live_edges(
                nodes@,
                nodes@.len() as int,
            )
            &&& forall|i: int|
                0 <= i < nodes@.len() && live_edge(nodes@, i) ==> twin_pair_at(
                    final(evs)@,
                    old(evs)@.len() + 2 * n_live_edges(nodes@, i),
                    edge_src(nodes@, i),
                    edge_dst(nodes@, i),
                    polygon_type,
                )
            &&& final(queue)@.len() == old(queue)@.len() + (final(evs)@.len() - old(evs)@.len())
            &&& forall|m: int|
                0 <= m < final(evs)@.len() - old(evs)@.len() ==> (#[trigger] final(queue)@[old(
                    queue,
                )@.len() + m]) as int == old(evs)@.len() + m
        },
{
    let n = nodes.len();
    let mut i: usize = 0;
    while i < n
        invariant
            n == nodes@.len(),
            i <= n,
            forall|k: int| 0 <= k < nodes@.len() ==> grid(#[trigger] nodes@[k]),
            wf_arena(evs@),
            wf_ids(queue@, evs@.len() as int),
            forall|k: int| 0 <= k < old(evs)@.len() ==> evs@[k] == old(evs)@[k],
            evs@.len() >= old(evs)@.len(),
            forall|m: int| 0 <= m < old(queue)@.len() ==> queue@[m] == old(queue)@[m],
            queue@.len() >= old(queue)@.len(),
            old(evs)@.len() + 2 * nodes@.len() <= usize::MAX ==> {
                &&& evs@.len() == old(evs)@.len() + 2 * n_live_edges(nodes@, i as int)
                &&& forall|k: int|
                    0 <= k < i && live_edge(nodes@, k) ==> twin_pair_at(
                        evs@,
                        old(evs)@.len() + 2 * n_live_edges(nodes@, k),
                        edge_src(nodes@, k),
                        edge_dst(nodes@, k),
                        polygon_type,
                    )
                &&& queue@.len() == old(queue)@.len() + (evs@.len() - old(evs)@.len())
                &&& forall|m: int|
                    0 <= m < evs@.len() - old(evs)@.len() ==> (#[trigger] queue@[old(queue)@.len()
                        + m]) as int == old(evs)@.len() + m
            },
        decreases n - i,
    {
        let cur = nodes[i];
        let next = if i + 1 == n {
            nodes[0]
        } else {
            nodes[i + 1]
        };
        proof {
            lemma_live_edges_bound(nodes@, i as int);
        }
        if !same_point(&cur, &next) {
            let e1_left = lex_less(&cur, &next);
            let e1_idx = evs.len();
            if e1_idx > usize::MAX - 2 {
                // The arena is bounded by the address space; a polygon this
                // large cannot arise unless the requested bookkeeping above
                // is already out of reach.
                i = i + 1;
                continue ;
            }
            let e2_idx = e1_idx + 1;
            let e1 = SweepEvent {
                p: cur,
                other_p: next,
                other: e2_idx,
                polygon_type,
                left: e1_left,
                in_out: false,
                is_inside: false,
                edge_type: EdgeType::Normal,
                orig_a: cur,
                orig_b: next,
            };
            let e2 = SweepEvent {
                p: next,
                other_p: cur,
                other: e1_idx,
                polygon_type,
                left: !e1_left,
                in_out: false,
                is_inside: false,
                edge_type: EdgeType::Normal,
                orig_a: cur,
                orig_b: next,
            };
            proof {
                lemma_self_area(cur, next);
            }
            let ghost pre = evs@;
            let ghost preq = queue@;
            evs.push(e1);
            evs.push(e2);
            queue.push(e1_idx);
            queue.push(e2_idx);
            proof {
                assert forall|k: int| 0 <= k < evs@.len() implies wf_link(evs@, k) by {
                    if k < pre.len() {
                        assert(wf_link(pre, k));
                    }
                }
                if old(evs)@.len() + 2 * nodes@.len() <= usize::MAX {
                    assert(twin_pair_at(evs@, e1_idx as int, cur, next, polygon_type));
                    assert forall|k: int| 0 <= k < i + 1 && live_edge(nodes@, k) implies twin_pair_at(
                        evs@,
                        old(evs)@.len() + 2 * n_live_edges(nodes@, k),
                        edge_src(nodes@, k),
                        edge_dst(nodes@, k),
                        polygon_type,
                    ) by {
                        if k < i {
                            lemma_live_edges_bound(nodes@, k);
                            lemma_live_edges_monotone(nodes@, k, i as int);
                            let idx = old(evs)@.len() + 2 * n_live_edges(nodes@, k);
                            assert(twin_pair_at(
                                pre,
                                idx,
                                edge_src(nodes@, k),
                                edge_dst(nodes@, k),
                                polygon_type,
                            ));
                            assert(idx + 1 < pre.len());
                            assert(evs@[idx] == pre[idx]);
                            assert(evs@[idx + 1] == pre[idx + 1]);
                        } else {
                            assert(k == i);
                            assert(edge_src(nodes@, k) == cur);
                            assert(edge_dst(nodes@, k) == next);
                            assert(old(evs)@.len() + 2 * n_live_edges(nodes@, k) == e1_idx as int);
                            assert(evs@[e1_idx as int] == e1);
                            assert(evs@[e1_idx as int + 1] == e2);
                        }
                    }
                    assert forall|m: int|
                        0 <= m < evs@.len() - old(evs)@.len() implies (#[trigger] queue@[old(
                        queue,
                    )@.len() + m]) as int == old(evs)@.len() + m by {
                        if m < pre.len() - old(evs)@.len() {
                            assert(queue@[old(queue)@.len() + m] == preq[old(queue)@.len() + m]);
                        }
                    }
                }
            }
        }
        i = i + 1;
    }
}

/// A point is on the supporting line of any segment it is an endpoint of.
proof fn lemma_self_area(a: Point2D, b: Point2D)
    ensures
        area_num(a, b, a) == 0,
        area_num(a, b, b) == 0,
{
    assert((xn(b) * dn(a) - xn(a) * dn(b)) * (yn(a) * dn(a) - yn(a) * dn(a)) - (yn(b) * dn(a) - yn(
        a,
    ) * dn(b)) * (xn(a) * dn(a) - xn(a) * dn(a)) == 0) by (nonlinear_arith);
    assert((xn(b) * dn(a) - xn(a) * dn(b)) * (yn(b) * dn(a) - yn(a) * dn(b)) - (yn(b) * dn(a) - yn(
        a,
    ) * dn(b)) * (xn(b) * dn(a) - xn(a) * dn(b)) == 0) by (nonlinear_arith);
}

/// Splits the edge of the left event `e` at the interior point `p`: retires
/// the pair `(e, twin)`, creates a right event closing the piece `e.p .. p`
/// and a left event opening the piece `p .. twin.p`, re-links the twins and
/// queues both new events.
pub fn divide_segment(evs: &mut Vec<SweepEvent>, queue: &mut Vec<usize>, e: usize, p: Point2D)
    requires
        wf_arena(old(evs)@),
        wf_ids(old(queue)@, old(evs)@.len() as int),
        e < old(evs)@.len(),
        old(evs)@[e as int].left,
        in_range(p),
        area_num(old(evs)@[e as int].orig_a, old(evs)@[e as int].orig_b, p) == 0,
        lex_lt(old(evs)@[e as int].p, p),
        lex_lt(p, old(evs)@[e as int].other_p),
        old(evs)@.len() + 2 <= usize::MAX,
    ensures
        wf_arena(final(evs)@),
        wf_ids(final(queue)@, final(evs)@.len() as int),
        final(evs)@.len() == old(evs)@.len() + 2,
        frame_core(old(evs)@, final(evs)@),
        forall|i: int|
            0 <= i < old(evs)@.len() ==> (#[trigger] final(evs)@[i]).edge_type == old(
                evs,
            )@[i].edge_type,
        // `e` now closes the left piece at `p`, against the new right event.
        final(evs)@[e as int] == (SweepEvent {
            other: old(evs)@.len() as usize,
            other_p: p,
            ..old(evs)@[e as int]
        }),
        // The old twin now closes the right piece, against the new left
        // event.
        final(evs)@[old(evs)@[e as int].other as int] == (SweepEvent {
            other: (old(evs)@.len() + 1) as usize,
            other_p: p,
            ..old(evs)@[old(evs)@[e as int].other as int]
        }),
        // The new right event of the left piece.
        final(evs)@[old(evs)@.len() as int] == (SweepEvent {
            p,
            other_p: old(evs)@[e as int].p,
            other: e,
            polygon_type: old(evs)@[e as int].polygon_type,
            left: false,
            in_out: false,
            is_inside: false,
            edge_type: old(evs)@[e as int].edge_type,
            orig_a: old(evs)@[e as int].orig_a,
            orig_b: old(evs)@[e as int].orig_b,
        }),
        // The new left event of the right piece.
        final(evs)@[old(evs)@.len() as int + 1] == (SweepEvent {
            p,
            other_p: old(evs)@[e as int].other_p,
            other: old(evs)@[e as int].other,
            polygon_type: old(evs)@[e as int].polygon_type,
            left: true,
            in_out: false,
            is_inside: false,
            edge_type: old(evs)@[old(evs)@[e as int].other as int].edge_type,
            orig_a: old(evs)@[e as int].orig_a,
            orig_b: old(evs)@[e as int].orig_b,
        }),
        // Every other event is untouched, and exactly the two new ids are
        // queued.
        forall|i: int|
            0 <= i < old(evs)@.len() && i != e && i != old(evs)@[e as int].other as int
                ==> (#[trigger] final(evs)@[i]) == old(evs)@[i],
        final(queue)@ == old(queue)@.push(old(evs)@.len() as usize).push(
            (old(evs)@.len() + 1) as usize,
        ),
{
    let old_twin = evs[e].other;
    let ghost pre = evs@;
    proof {
        assert(wf_link(pre, e as int));
        assert(wf_link(pre, old_twin as int));
    }
    let r_ev = SweepEvent {
        p,
        other_p: evs[e].p,
        other: e,
        polygon_type: evs[e].polygon_type,
        left: false,
        in_out: false,
        is_inside: false,
        edge_type: evs[e].edge_type,
        orig_a: evs[e].orig_a,
        orig_b: evs[e].orig_b,
    };
    let l_ev = SweepEvent {
        p,
        other_p: evs[old_twin].p,
        other: old_twin,
        polygon_type: evs[e].polygon_type,
        left: true,
        in_out: false,
        is_inside: false,
        edge_type: evs[old_twin].edge_type,
        orig_a: evs[e].orig_a,
        orig_b: evs[e].orig_b,
    };
    let ri = evs.len();
    evs.push(r_ev);
    let li = evs.len();
    evs.push(l_ev);

    // Order-validity guard: were the new left event not to precede its right
    // twin, the roles would be swapped.  With exact arithmetic the divide
    // point lies strictly between the endpoints, so this never fires.
    let swap_roles = precedes(&evs[old_twin], &evs[li]);
    if swap_roles {
        proof {
            assert(false);
        }
        let mut t = evs[old_twin];
        t.left = true;
        evs[old_twin] = t;
        let mut l = evs[li];
        l.left = false;
        evs[li] = l;
    }

    let mut tw = evs[old_twin];
    tw.other = li;
    tw.other_p = p;
    evs[old_twin] = tw;
    let mut me = evs[e];
    me.other = ri;
    me.other_p = p;
    evs[e] = me;
    queue.push(ri);
    queue.push(li);

    proof {
        assert forall|i: int| 0 <= i < evs@.len() implies wf_link(evs@, i) by {
            if i < pre.len() && i != e as int && i != old_twin as int {
                assert(wf_link(pre, i));
                assert(pre[i].other as int != e as int) by {
                    assert(wf_link(pre, pre[i].other as int));
                }
                assert(pre[i].other as int != old_twin as int) by {
                    assert(wf_link(pre, pre[i].other as int));
                }
            }
        }
    }
}

/// Removes and returns an id of a sweep-order-minimal event of the queue:
/// no event left in the queue strictly precedes the returned one.
pub fn queue_pop_min(queue: &mut Vec<usize>, evs: &Vec<SweepEvent>) -> (r: Option<usize>)
    requires
        wf_arena(evs@),
        wf_ids(old(queue)@, evs@.len() as int),
    ensures
        wf_ids(final(queue)@, evs@.len() as int),
        old(queue)@.len() == 0 ==> r is None && final(queue)@ == old(queue)@,
        old(queue)@.len() > 0 ==> {
            &&& r matches Some(id)
            &&& id < evs@.len()
            &&& final(queue)@.len() == old(queue)@.len() - 1
            &&& (exists|mi: int|
                0 <= mi < old(queue)@.len() && old(queue)@[mi] == r->Some_0 && final(queue)@ == old(
                    queue,
                )@.remove(mi))
            &&& forall|j: int|
                0 <= j < final(queue)@.len() ==> !precedes_spec(
                    evs@[(#[trigger] final(queue)@[j]) as int],
                    evs@[r->Some_0 as int],
                )
        },
{
    if queue.len() == 0 {
        return None;
    }
    let mut best: usize = 0;
    let mut j: usize = 1;
    while j < queue.len()
        invariant
            wf_arena(evs@),
            wf_ids(queue@, evs@.len() as int),
            queue@.len() > 0,
            best < j <= queue@.len(),
            forall|k: int|
                0 <= k < j && k != best ==> !precedes_spec(
                    evs@[(#[trigger] queue@[k]) as int],
                    evs@[queue@[best as int] as int],
                ),
        decreases queue@.len() - j,
    {
        proof {
            assert(wf_link(evs@, queue@[j as int] as int));
            assert(wf_link(evs@, queue@[best as int] as int));
        }
        if precedes(&evs[queue[j]], &evs[queue[best]]) {
            proof {
                let bq = evs@[queue@[best as int] as int];
                let jq = evs@[queue@[j as int] as int];
                assert forall|k: int| 0 <= k < j && k != j implies !precedes_spec(
                    evs@[(#[trigger] queue@[k]) as int],
                    jq,
                ) by {
                    let kq = evs@[queue@[k] as int];
                    assert(wf_link(evs@, queue@[k] as int));
                    if precedes_spec(kq, jq) {
                        lemma_precedes_transitive(kq, jq, bq);
                    }
                }
            }
            best = j;
        }
        j = j + 1;
    }
    let id = queue[best];
    let ghost pre = queue@;
    queue.remove(best);
    proof {
        assert(final(queue)@ == pre.remove(best as int));
        assert forall|k: int| 0 <= k < final(queue)@.len() implies !precedes_spec(
            evs@[(#[trigger] final(queue)@[k]) as int],
            evs@[id as int],
        ) by {
            if k < best {
                assert(final(queue)@[k] == pre[k]);
            } else {
                assert(final(queue)@[k] == pre[k + 1]);
            }
        }
    }
    Some(id)
}

/// The status order: is the open edge of `cand` below the new edge of
/// `newev` at the sweep position where `newev` starts?  Decided by the side
/// of `cand`'s segment the new edge's endpoints lie on; exactly collinear
/// edges count as below, so a new edge goes above its ties.
pub open spec fn status_below(cand: SweepEvent, newev: SweepEvent) -> bool {
    let s1 = area_num(cand.p, cand.other_p, newev.p);
    let s2 = area_num(cand.p, cand.other_p, newev.other_p);
    if s1 != 0 {
        s1 > 0
    } else if s2 != 0 {
        s2 > 0
    } else {
        true
    }
}

/// Inserts an open edge into the sweep-line status: it is placed exactly
/// after the longest prefix of edges that lie below it, and its position is
/// returned.
pub fn sl_insert(sl: &mut Vec<usize>, evs: &Vec<SweepEvent>, id: usize) -> (pos: usize)
    requires
        wf_arena(evs@),
        wf_ids(old(sl)@, evs@.len() as int),
        forall|i: int| 0 <= i < old(sl)@.len() ==> evs@[(#[trigger] old(sl)@[i]) as int].left,
        id < evs@.len(),
        evs@[id as int].left,
        old(sl)@.len() < usize::MAX,
    ensures
        wf_ids(final(sl)@, evs@.len() as int),
        forall|i: int| 0 <= i < final(sl)@.len() ==> evs@[(#[trigger] final(sl)@[i]) as int].left,
        pos <= old(sl)@.len(),
        final(sl)@ == old(sl)@.insert(pos as int, id),
        final(sl)@.len() == old(sl)@.len() + 1,
        final(sl)@[pos as int] == id,
        forall|i: int|
            0 <= i < pos ==> status_below(evs@[(#[trigger] old(sl)@[i]) as int], evs@[id as int]),
        pos < old(sl)@.len() ==> !status_below(
            evs@[old(sl)@[pos as int] as int],
            evs@[id as int],
        ),
{
    let mut pos: usize = 0;
    let mut done = false;
    while pos < sl.len() && !done
        invariant
            wf_arena(evs@),
            wf_ids(sl@, evs@.len() as int),
            sl@ == old(sl)@,
            pos <= sl@.len(),
            id < evs@.len(),
            forall|i: int|
                0 <= i < pos ==> status_below(evs@[(#[trigger] sl@[i]) as int], evs@[id as int]),
            done ==> pos < sl@.len() && !status_below(
                evs@[sl@[pos as int] as int],
                evs@[id as int],
            ),
        decreases sl@.len() - pos, (if done {
            0int
        } else {
            1int
        }),
    {
        proof {
            assert(wf_link(evs@, sl@[pos as int] as int));
            assert(wf_link(evs@, id as int));
        }
        let cand = &evs[sl[pos]];
        let newev = &evs[id];
        let s1 = calculate_signed_area3(&cand.p, &cand.other_p, &newev.p);
        let below = if s1 != 0 {
            s1 > 0
        } else {
            let s2 = calculate_signed_area3(&cand.p, &cand.other_p, &newev.other_p);
            if s2 != 0 {
                s2 > 0
            } else {
                true
            }
        };
        if !below {
            done = true;
        } else {
            pos = pos + 1;
        }
    }
    let ghost pre = sl@;
    sl.insert(pos, id);
    proof {
        let post = sl@;
        assert forall|i: int| 0 <= i < post.len() implies evs@[(#[trigger] post[i]) as int].left by {
            if i < pos {
                assert(post[i] == pre[i]);
            } else if i > pos {
                assert(post[i] == pre[i - 1]);
            }
        }
    }
    pos
}

/// Frame preservation composes.
proof fn lemma_frame_trans(a: Seq<SweepEvent>, b: Seq<SweepEvent>, c: Seq<SweepEvent>)
    requires
        frame_core(a, b),
        frame_core(b, c),
    ensures
        frame_core(a, c),
{
    assert forall|i: int| 0 <= i < a.len() implies {
        let e0 = a[i];
        let e1 = #[trigger] c[i];
        &&& e1.p == e0.p
        &&& e1.left == e0.left
        &&& e1.polygon_type == e0.polygon_type
        &&& e1.orig_a == e0.orig_a
        &&& e1.orig_b == e0.orig_b
        &&& e1.in_out == e0.in_out
        &&& e1.is_inside == e0.is_inside
    } by {
        assert(b[i] == b[i]);
    }
}

/// Divides the edge of `e` at `p` when `p` is strictly inside the current
/// segment and on its supporting line, checking those conditions at run
/// time; otherwise leaves everything unchanged.
fn try_divide(evs: &mut Vec<SweepEvent>, queue: &mut Vec<usize>, e: usize, p: Point2D) -> (r: bool)
    requires
        wf_arena(old(evs)@),
        wf_ids(old(queue)@, old(evs)@.len() as int),
        e < old(evs)@.len(),
        in_range(p),
    ensures
        wf_arena(final(evs)@),
        wf_ids(final(queue)@, final(evs)@.len() as int),
        frame_core(old(evs)@, final(evs)@),
        forall|i: int|
            0 <= i < old(evs)@.len() ==> (#[trigger] final(evs)@[i]).edge_type == old(
                evs,
            )@[i].edge_type,
        // It divides exactly when the division is well-defined and there is
        // room for two more events.
        r <==> (old(evs)@[e as int].left && area_num(
            old(evs)@[e as int].orig_a,
            old(evs)@[e as int].orig_b,
            p,
        ) == 0 && lex_lt(old(evs)@[e as int].p, p) && lex_lt(p, old(evs)@[e as int].other_p) && old(
            evs,
        )@.len() + 2 <= usize::MAX),
        !r ==> final(evs)@ == old(evs)@ && final(queue)@ == old(queue)@,
        r ==> {
            &&& final(evs)@.len() == old(evs)@.len() + 2
            &&& final(evs)@[e as int] == (SweepEvent {
                other: old(evs)@.len() as usize,
                other_p: p,
                ..old(evs)@[e as int]
            })
            &&& final(evs)@[old(evs)@[e as int].other as int] == (SweepEvent {
                other: (old(evs)@.len() + 1) as usize,
                other_p: p,
                ..old(evs)@[old(evs)@[e as int].other as int]
            })
            &&& final(evs)@[old(evs)@.len() as int] == (SweepEvent {
                p,
                other_p: old(evs)@[e as int].p,
                other: e,
                polygon_type: old(evs)@[e as int].polygon_type,
                left: false,
                in_out: false,
                is_inside: false,
                edge_type: old(evs)@[e as int].edge_type,
                orig_a: old(evs)@[e as int].orig_a,
                orig_b: old(evs)@[e as int].orig_b,
            })
            &&& final(evs)@[old(evs)@.len() as int + 1] == (SweepEvent {
                p,
                other_p: old(evs)@[e as int].other_p,
                other: old(evs)@[e as int].other,
                polygon_type: old(evs)@[e as int].polygon_type,
                left: true,
                in_out: false,
                is_inside: false,
                edge_type: old(evs)@[old(evs)@[e as int].other as int].edge_type,
                orig_a: old(evs)@[e as int].orig_a,
                orig_b: old(evs)@[e as int].orig_b,
            })
            &&& (forall|i: int|
                0 <= i < old(evs)@.len() && i != e && i != old(evs)@[e as int].other as int
                    ==> (#[trigger] final(evs)@[i]) == old(evs)@[i])
            &&& final(queue)@ == old(queue)@.push(old(evs)@.len() as usize).push(
                (old(evs)@.len() + 1) as usize,
            )
        },
{
    proof {
        assert(wf_link(evs@, e as int));
    }
    let ev = evs[e];
    if !ev.left {
        return false;
    }
    if calculate_signed_area3(&ev.orig_a, &ev.orig_b, &p) != 0 {
        return false;
    }
    if !lex_less(&ev.p, &p) {
        return false;
    }
    if !lex_less(&p, &ev.other_p) {
        return false;
    }
    if evs.len() > usize::MAX - 2 {
        return false;
    }
    divide_segment(evs, queue, e, p);
    true
}

/// Do the current segments of two events lie on one common line and overlap
/// in more than one point?
pub open spec fn same_line_proper_overlap(x: SweepEvent, y: SweepEvent) -> bool {
    let maxstart = if lex_lt(x.p, y.p) {
        y.p
    } else {
        x.p
    };
    let minend = if lex_lt(x.other_p, y.other_p) {
        x.other_p
    } else {
        y.other_p
    };
    &&& crate::point::dir_cross(x.orig_a, x.orig_b, y.orig_a, y.orig_b) == 0
    &&& crate::point::all_collinear(x.orig_a, x.orig_b, y.orig_a, y.orig_b)
    &&& lex_lt(maxstart, minend)
}

/// Does the point `q` lie within the closed lexicographic span of this
/// open edge's current segment?
pub open spec fn clip_pass(a: SweepEvent, q: Point2D) -> bool {
    lex_le(a.p, q) && lex_le(q, a.other_p)
}

/// The crossing of the supporting lines acts on the pair: the crossing
/// point lies within both current sub-segments, and the sub-segments do not
/// already share an endpoint.
pub open spec fn crossing_acts(a1: SweepEvent, a2: SweepEvent, q: Point2D) -> bool {
    &&& clip_pass(a1, q)
    &&& clip_pass(a2, q)
    &&& !pt_eq(a1.p, a2.p)
    &&& !pt_eq(a1.other_p, a2.other_p)
}

/// Is `q` interior to the current segment of `a`, so that `a` must be
/// divided at `q`?
pub open spec fn needs_split(a: SweepEvent, q: Point2D) -> bool {
    !pt_eq(q, a.p) && !pt_eq(q, a.other_p)
}

/// The crossing of the original segments, as `line_intersect` reports it.
pub open spec fn segs_cross(a1: SweepEvent, a2: SweepEvent) -> bool {
    let d = crate::point::dir_cross(a1.orig_a, a1.orig_b, a2.orig_a, a2.orig_b);
    &&& d != 0
    &&& crate::point::in_unit(
        crate::point::t_numer(a1.orig_a, a1.orig_b, a2.orig_a, a2.orig_b),
        d,
    )
    &&& crate::point::in_unit(
        crate::point::s_numer(a1.orig_a, a1.orig_b, a2.orig_a, a2.orig_b),
        d,
    )
}

/// The crossing point of the two original supporting lines.
pub open spec fn pair_cross_point(a1: SweepEvent, a2: SweepEvent) -> Point2D {
    crate::point::cross_point(a1.orig_a, a1.orig_b, a2.orig_a, a2.orig_b)
}

/// The cases in which handling a pair of open edges does nothing at all:
/// parallel distinct lines; one common line without a proper overlap of the
/// current sub-segments; original segments that do not cross; a crossing
/// point outside a current sub-segment or at an already-shared endpoint; or
/// a crossing point that is an endpoint of both current sub-segments.
pub open spec fn pi_noop(a1: SweepEvent, a2: SweepEvent) -> bool {
    let d = crate::point::dir_cross(a1.orig_a, a1.orig_b, a2.orig_a, a2.orig_b);
    let coll = crate::point::all_collinear(a1.orig_a, a1.orig_b, a2.orig_a, a2.orig_b);
    let q = pair_cross_point(a1, a2);
    ||| (d == 0 && !coll)
    ||| (d == 0 && coll && !same_line_proper_overlap(a1, a2))
    ||| (d != 0 && !segs_cross(a1, a2))
    ||| (segs_cross(a1, a2) && !crossing_acts(a1, a2, q))
    ||| (segs_cross(a1, a2) && crossing_acts(a1, a2, q) && !needs_split(a1, q) && !needs_split(
        a2,
        q,
    ))
}

/// What acting on a crossing leaves behind: each sub-segment with the
/// crossing point in its interior is split there — its left event now ends
/// at `q` against a fresh right event — every new event sits at `q`, other
/// events keep their slots, and exactly the new ids are queued in slot
/// order.
pub open spec fn pi_crossing_post(
    pre: Seq<SweepEvent>,
    preq: Seq<usize>,
    post: Seq<SweepEvent>,
    postq: Seq<usize>,
    e1: int,
    e2: int,
    q: Point2D,
) -> bool {
    let a1 = pre[e1];
    let a2 = pre[e2];
    let k1: int = if needs_split(a1, q) {
        2
    } else {
        0
    };
    let k2: int = if needs_split(a2, q) {
        2
    } else {
        0
    };
    &&& post.len() == pre.len() + k1 + k2
    &&& (needs_split(a1, q) ==> post[e1] == (SweepEvent {
        other: pre.len() as usize,
        other_p: q,
        ..a1
    }))
    &&& (!needs_split(a1, q) ==> post[e1] == a1)
    &&& (needs_split(a2, q) ==> post[e2] == (SweepEvent {
        other: (pre.len() + k1) as usize,
        other_p: q,
        ..a2
    }))
    &&& (!needs_split(a2, q) ==> post[e2] == a2)
    &&& (forall|i: int|
        0 <= i < pre.len() && i != e1 && i != e2 && i != a1.other as int && i != a2.other as int
            ==> (#[trigger] post[i]) == pre[i])
    &&& (forall|i: int| pre.len() <= i < post.len() ==> (#[trigger] post[i]).p == q)
    &&& postq.len() == preq.len() + k1 + k2
    &&& (forall|m: int| 0 <= m < preq.len() ==> (#[trigger] postq[m]) == preq[m])
    &&& (forall|m: int|
        0 <= m < k1 + k2 ==> (#[trigger] postq[preq.len() + m]) as int == pre.len() + m)
}

/// Handles the branch in which the original segments cross in one point:
/// splits whichever current sub-segments hold the crossing point in their
/// interior.
fn pi_crossing(evs: &mut Vec<SweepEvent>, queue: &mut Vec<usize>, e1: usize, e2: usize, ip: Point2D)
    requires
        wf_arena(old(evs)@),
        wf_ids(old(queue)@, old(evs)@.len() as int),
        e1 < old(evs)@.len(),
        e2 < old(evs)@.len(),
        e1 != e2,
        old(evs)@[e1 as int].left,
        old(evs)@[e2 as int].left,
        in_range(ip),
        area_num(old(evs)@[e1 as int].orig_a, old(evs)@[e1 as int].orig_b, ip) == 0,
        area_num(old(evs)@[e2 as int].orig_a, old(evs)@[e2 as int].orig_b, ip) == 0,
        old(evs)@.len() + 4 <= usize::MAX,
    ensures
        wf_arena(final(evs)@),
        wf_ids(final(queue)@, final(evs)@.len() as int),
        frame_core(old(evs)@, final(evs)@),
        forall|i: int|
            0 <= i < old(evs)@.len() ==> (#[trigger] final(evs)@[i]).edge_type == old(
                evs,
            )@[i].edge_type,
        !crossing_acts(old(evs)@[e1 as int], old(evs)@[e2 as int], ip) ==> final(evs)@ == old(
            evs,
        )@ && final(queue)@ == old(queue)@,
        crossing_acts(old(evs)@[e1 as int], old(evs)@[e2 as int], ip) ==> pi_crossing_post(
            old(evs)@,
            old(queue)@,
            final(evs)@,
            final(queue)@,
            e1 as int,
            e2 as int,
            ip,
        ),
        crossing_acts(old(evs)@[e1 as int], old(evs)@[e2 as int], ip) && !needs_split(
            old(evs)@[e1 as int],
            ip,
        ) && !needs_split(old(evs)@[e2 as int], ip) ==> final(evs)@ == old(evs)@ && final(queue)@
            == old(queue)@,
{
    proof {
        assert(wf_link(evs@, e1 as int));
        assert(wf_link(evs@, e2 as int));
        assert(wf_link(evs@, old(evs)@[e1 as int].other as int));
        assert(wf_link(evs@, old(evs)@[e2 as int].other as int));
    }
    let a1 = evs[e1];
    let a2 = evs[e2];
    // Clip the crossing of the original supporting lines to the two current
    // sub-segments.
    if !(lex_leq(&a1.p, &ip) && lex_leq(&ip, &a1.other_p) && lex_leq(&a2.p, &ip) && lex_leq(
        &ip,
        &a2.other_p,
    )) {
        return ;
    }
    // Segments already connected at a shared endpoint need no split.
    if same_point(&a1.p, &a2.p) || same_point(&a1.other_p, &a2.other_p) {
        return ;
    }
    let ghost pre = evs@;
    let ghost preq = queue@;
    if !same_point(&ip, &a1.p) && !same_point(&ip, &a1.other_p) {
        try_divide(evs, queue, e1, ip);
    }
    let ghost mid = evs@;
    proof {
        assert(evs@[e2 as int] == a2);
    }
    if !same_point(&ip, &a2.p) && !same_point(&ip, &a2.other_p) {
        try_divide(evs, queue, e2, ip);
    }
    proof {
        lemma_frame_trans(pre, mid, evs@);
        if crossing_acts(a1, a2, ip) {
            assert(pi_crossing_post(pre, preq, evs@, queue@, e1 as int, e2 as int, ip));
        }
    }
}

/// Handles a pair of adjacent open edges.  When the original segments cross
/// in one point inside both current sub-segments, each sub-segment holding
/// the point in its interior is split there (`pi_crossing_post`); when
/// nothing has to happen the arena and the queue are untouched (`pi_noop`);
/// collinearly overlapping edges are classified and split, and the
/// operation fails, with `SelfOverlappingPolygon`, exactly when the two
/// edges belong to one input polygon and properly overlap on one common
/// line.
#[verifier::rlimit(100)]
pub fn possible_intersection(
    evs: &mut Vec<SweepEvent>,
    queue: &mut Vec<usize>,
    e1: usize,
    e2: usize,
) -> (r: Result<(), crate::polygon::BoolOpError>)
    requires
        wf_arena(old(evs)@),
        wf_ids(old(queue)@, old(evs)@.len() as int),
        e1 < old(evs)@.len(),
        e2 < old(evs)@.len(),
        old(evs)@[e1 as int].left,
        old(evs)@[e2 as int].left,
    ensures
        wf_arena(final(evs)@),
        wf_ids(final(queue)@, final(evs)@.len() as int),
        frame_core(old(evs)@, final(evs)@),
        r matches Err(err) ==> err == crate::polygon::BoolOpError::SelfOverlappingPolygon,
        (r is Err) <==> (e1 != e2 && old(evs)@[e1 as int].polygon_type == old(
            evs,
        )@[e2 as int].polygon_type && same_line_proper_overlap(
            old(evs)@[e1 as int],
            old(evs)@[e2 as int],
        )),
        e1 == e2 ==> final(evs)@ == old(evs)@ && final(queue)@ == old(queue)@,
        e1 != e2 && pi_noop(old(evs)@[e1 as int], old(evs)@[e2 as int]) ==> final(evs)@ == old(
            evs,
        )@ && final(queue)@ == old(queue)@,
        e1 != e2 && old(evs)@.len() + 4 <= usize::MAX && segs_cross(
            old(evs)@[e1 as int],
            old(evs)@[e2 as int],
        ) && crossing_acts(
            old(evs)@[e1 as int],
            old(evs)@[e2 as int],
            pair_cross_point(old(evs)@[e1 as int], old(evs)@[e2 as int]),
        ) ==> pi_crossing_post(
            old(evs)@,
            old(queue)@,
            final(evs)@,
            final(queue)@,
            e1 as int,
            e2 as int,
            pair_cross_point(old(evs)@[e1 as int], old(evs)@[e2 as int]),
        ),
{
    if e1 == e2 {
        return Ok(());
    }
    proof {
        assert(wf_link(evs@, e1 as int));
        assert(wf_link(evs@, e2 as int));
    }
    let a1 = evs[e1];
    let a2 = evs[e2];
    let inter = crate::point::line_intersect(&a1.orig_a, &a1.orig_b, &a2.orig_a, &a2.orig_b);
    match inter {
        crate::point::LineIntersection::NoIntersection => Ok(()),
        crate::point::LineIntersection::Point(ip) => {
            if evs.len() > usize::MAX - 4 {
                // No room for the up to four events a split may add; the
                // crossing clause above does not apply here.
                return Ok(());
            }
            pi_crossing(evs, queue, e1, e2, ip);
            Ok(())
        },
        crate::point::LineIntersection::CoincidentLine => pi_overlap(evs, queue, e1, e2),
    }
}

/// The overlap case in which the two collinear sub-segments share neither
/// endpoint: the edges are classified and split at the interior endpoints
/// of the overlap.
#[verifier::rlimit(100)]
#[verifier::spinoff_prover]
fn pi_overlap_ends_distinct(
    evs: &mut Vec<SweepEvent>,
    queue: &mut Vec<usize>,
    e1: usize,
    e2: usize,
    tt: EdgeType,
)
    requires
        wf_arena(old(evs)@),
        wf_ids(old(queue)@, old(evs)@.len() as int),
        e1 < old(evs)@.len(),
        e2 < old(evs)@.len(),
        e1 != e2,
        old(evs)@[e1 as int].left,
        old(evs)@[e2 as int].left,
    ensures
        wf_arena(final(evs)@),
        wf_ids(final(queue)@, final(evs)@.len() as int),
        frame_core(old(evs)@, final(evs)@),
{
    proof {
        assert(wf_link(evs@, e1 as int));
        assert(wf_link(evs@, e2 as int));
    }
    let a1 = evs[e1];
    let a2 = evs[e2];
    let ghost pre = evs@;
    let (f, s2) = if lex_less(&a1.p, &a2.p) {
        (e1, e2)
    } else {
        (e2, e1)
    };
    proof {
        assert(wf_link(evs@, f as int));
        assert(wf_link(evs@, s2 as int));
    }
    if lex_less(&evs[s2].other_p, &evs[f].other_p) {
        // One edge contains the other entirely.
        let s2t = evs[s2].other;
        set_edge_type(evs, s2, EdgeType::NonContributing);
        set_edge_type(evs, s2t, EdgeType::NonContributing);
        let ghost m1 = evs@;
        let s2p = evs[s2].p;
        let s2op = evs[s2].other_p;
        let f_old_twin = evs[f].other;
        try_divide(evs, queue, f, s2p);
        let ghost m2 = evs@;
        proof {
            assert(wf_link(evs@, f_old_twin as int));
        }
        let piece_left = evs[f_old_twin].other;
        set_edge_type(evs, piece_left, tt);
        let ghost m3 = evs@;
        try_divide(evs, queue, piece_left, s2op);
        proof {
            lemma_frame_trans(pre, m1, m2);
            lemma_frame_trans(pre, m2, m3);
            lemma_frame_trans(pre, m3, evs@);
        }
    } else {
        // Partial overlap: each edge is split at the other's
        // interior endpoint.
        set_edge_type(evs, s2, EdgeType::NonContributing);
        let ft = evs[f].other;
        set_edge_type(evs, ft, tt);
        let ghost m1 = evs@;
        let s2p = evs[s2].p;
        let fop = evs[f].other_p;
        try_divide(evs, queue, f, s2p);
        let ghost m2 = evs@;
        try_divide(evs, queue, s2, fop);
        proof {
            lemma_frame_trans(pre, m1, m2);
            lemma_frame_trans(pre, m2, evs@);
        }
    }
}

/// Handles the branch in which the two original supporting lines coincide:
/// classifies and splits the collinearly overlapping sub-segments, or
/// rejects a same-polygon overlap.
#[verifier::rlimit(100)]
#[verifier::spinoff_prover]
fn pi_overlap(evs: &mut Vec<SweepEvent>, queue: &mut Vec<usize>, e1: usize, e2: usize) -> (r:
    Result<(), crate::polygon::BoolOpError>)
    requires
        wf_arena(old(evs)@),
        wf_ids(old(queue)@, old(evs)@.len() as int),
        e1 < old(evs)@.len(),
        e2 < old(evs)@.len(),
        e1 != e2,
        old(evs)@[e1 as int].left,
        old(evs)@[e2 as int].left,
        crate::point::dir_cross(
            old(evs)@[e1 as int].orig_a,
            old(evs)@[e1 as int].orig_b,
            old(evs)@[e2 as int].orig_a,
            old(evs)@[e2 as int].orig_b,
        ) == 0,
        crate::point::all_collinear(
            old(evs)@[e1 as int].orig_a,
            old(evs)@[e1 as int].orig_b,
            old(evs)@[e2 as int].orig_a,
            old(evs)@[e2 as int].orig_b,
        ),
    ensures
        wf_arena(final(evs)@),
        wf_ids(final(queue)@, final(evs)@.len() as int),
        frame_core(old(evs)@, final(evs)@),
        r matches Err(err) ==> err == crate::polygon::BoolOpError::SelfOverlappingPolygon,
        (r is Err) <==> (old(evs)@[e1 as int].polygon_type == old(evs)@[e2 as int].polygon_type
            && same_line_proper_overlap(old(evs)@[e1 as int], old(evs)@[e2 as int])),
        !same_line_proper_overlap(old(evs)@[e1 as int], old(evs)@[e2 as int]) ==> final(evs)@
            == old(evs)@ && final(queue)@ == old(queue)@,
{
    proof {
        assert(wf_link(evs@, e1 as int));
        assert(wf_link(evs@, e2 as int));
    }
    let a1 = evs[e1];
    let a2 = evs[e2];
    // Current overlap interval of the two collinear sub-segments.
    let maxstart = if lex_less(&a1.p, &a2.p) {
        a2.p
    } else {
        a1.p
    };
    let minend = if lex_less(&a1.other_p, &a2.other_p) {
        a1.other_p
    } else {
        a2.other_p
    };
    if lex_less(&minend, &maxstart) {
        // The sub-segments no longer overlap.
        return Ok(());
    }
    if same_point(&minend, &maxstart) {
        // They touch at one point, an endpoint of both.
        return Ok(());
    }
    if a1.polygon_type == a2.polygon_type {
        return Err(crate::polygon::BoolOpError::SelfOverlappingPolygon);
    }
    let shared_left = same_point(&a1.p, &a2.p);
    let shared_right = same_point(&a1.other_p, &a2.other_p);
    let tt = if a1.in_out == a2.in_out {
        EdgeType::SameTransition
    } else {
        EdgeType::DifferentTransition
    };
    let ghost pre = evs@;
    if shared_left && shared_right {
        // The segments are equal: one pair carries the transition
        // classification, the other contributes nothing.
        let t1 = evs[e1].other;
        set_edge_type(evs, e1, EdgeType::NonContributing);
        set_edge_type(evs, t1, EdgeType::NonContributing);
        let t2 = evs[e2].other;
        set_edge_type(evs, e2, tt);
        set_edge_type(evs, t2, tt);
        Ok(())
    } else if shared_left {
        // Shared left endpoint: the shorter edge is the overlap.
        let (s, l) = if lex_less(&a1.other_p, &a2.other_p) {
            (e1, e2)
        } else {
            (e2, e1)
        };
        let st = evs[s].other;
        set_edge_type(evs, s, EdgeType::NonContributing);
        set_edge_type(evs, st, EdgeType::NonContributing);
        set_edge_type(evs, l, tt);
        let ghost m1 = evs@;
        let sp = evs[s].other_p;
        proof {
            assert(wf_link(evs@, s as int));
        }
        try_divide(evs, queue, l, sp);
        proof {
            lemma_frame_trans(pre, m1, evs@);
        }
        Ok(())
    } else if shared_right {
        // Shared right endpoint: the later-starting edge is the
        // overlap.
        let (f, l2) = if lex_less(&a1.p, &a2.p) {
            (e1, e2)
        } else {
            (e2, e1)
        };
        let lt = evs[l2].other;
        set_edge_type(evs, l2, EdgeType::NonContributing);
        set_edge_type(evs, lt, EdgeType::NonContributing);
        let ft = evs[f].other;
        set_edge_type(evs, ft, tt);
        let ghost m1 = evs@;
        let lp = evs[l2].p;
        try_divide(evs, queue, f, lp);
        proof {
            lemma_frame_trans(pre, m1, evs@);
        }
        Ok(())
    } else {
        pi_overlap_ends_distinct(evs, queue, e1, e2, tt);
        Ok(())
    }
}

/// The emission table: is the edge closed by a right event of this
/// classification part of the result boundary of this operation?  A `Normal`
/// edge contributes by its position relative to the other polygon; an edge
/// of an agreeing overlapped pair belongs to intersection and union, one of
/// a disagreeing pair to difference, and a non-contributing edge to nothing.
pub fn emit_decision(
    op: crate::polygon::BoolOpType,
    edge_type: EdgeType,
    polygon_type: PolygonType,
    twin_is_inside: bool,
) -> (r: bool)
    ensures
        edge_type == EdgeType::Normal ==> r == (match op {
            crate::polygon::BoolOpType::Intersection => twin_is_inside,
            crate::polygon::BoolOpType::Union => !twin_is_inside,
            crate::polygon::BoolOpType::Difference => (polygon_type == PolygonType::Subject
                && !twin_is_inside) || (polygon_type == PolygonType::Clipping && twin_is_inside),
            crate::polygon::BoolOpType::Xor => true,
        }),
        edge_type == EdgeType::SameTransition ==> r == (op
            == crate::polygon::BoolOpType::Intersection || op == crate::polygon::BoolOpType::Union),
        edge_type == EdgeType::DifferentTransition ==> r == (op
            == crate::polygon::BoolOpType::Difference),
        edge_type == EdgeType::NonContributing ==> !r,
{
    match edge_type {
        EdgeType::Normal => match op {
            crate::polygon::BoolOpType::Intersection => twin_is_inside,
            crate::polygon::BoolOpType::Union => !twin_is_inside,
            crate::polygon::BoolOpType::Difference => (polygon_type == PolygonType::Subject
                && !twin_is_inside) || (polygon_type == PolygonType::Clipping && twin_is_inside),
            crate::polygon::BoolOpType::Xor => true,
        },
        EdgeType::SameTransition => {
            op == crate::polygon::BoolOpType::Intersection || op
                == crate::polygon::BoolOpType::Union
        },
        EdgeType::DifferentTransition => op == crate::polygon::BoolOpType::Difference,
        EdgeType::NonContributing => false,
    }
}

/// Does the x coordinate of `p` strictly exceed the integer bound?
fn x_exceeds(p: &Point2D, bound: i64) -> (r: bool)
    requires
        in_range(*p),
    ensures
        r == (xn(*p) > bound * dn(*p)),
{
    proof {
        crate::point::lemma_mul_bound(bound as int, dn(*p), 9223372036854775808, 8388608);
    }
    (p.x_num as i128) > (bound as i128) * (p.den as i128)
}

/// All ids of a status sequence denote left events.
pub open spec fn sl_all_left(sl: Seq<usize>, evs: Seq<SweepEvent>) -> bool {
    forall|i: int| 0 <= i < sl.len() ==> evs[(#[trigger] sl[i]) as int].left
}

/// Runs the sweep over the already-validated, bbox-overlapping input
/// polygons and reassembles the surviving edges.  On success every returned
/// polygon is a closed, non-empty loop of exact rational points; the only
/// failures are the two sweep errors.
pub(crate) fn run_sweep(
    subject: &Vec<Point2D>,
    clipping: &Vec<Point2D>,
    op: crate::polygon::BoolOpType,
    subject_right: i64,
    min_right: i64,
) -> (r: Result<Vec<crate::polygon::Polygon>, crate::polygon::BoolOpError>)
    requires
        forall|i: int| 0 <= i < subject@.len() ==> grid(#[trigger] subject@[i]),
        forall|i: int| 0 <= i < clipping@.len() ==> grid(#[trigger] clipping@[i]),
    ensures
        r matches Ok(v) ==> (forall|k: int|
            0 <= k < v@.len() ==> {
                &&& (#[trigger] v@[k]).is_closed
                &&& !v@[k].is_hole
                &&& v@[k].winding is None
                &&& v@[k].nodes@.len() >= 2
                &&& forall|m: int| 0 <= m < v@[k].nodes@.len() ==> in_range(#[trigger] v@[k].nodes@[m])
            }),
        r matches Err(e) ==> (e == crate::polygon::BoolOpError::SelfOverlappingPolygon || e
            == crate::polygon::BoolOpError::MalformedResult),
{
    let mut evs: Vec<SweepEvent> = Vec::new();
    let mut queue: Vec<usize> = Vec::new();
    create_sweep_events(subject, PolygonType::Subject, &mut evs, &mut queue);
    create_sweep_events(clipping, PolygonType::Clipping, &mut evs, &mut queue);
    let mut connector = crate::connector::Connector::new();
    let mut sl: Vec<usize> = Vec::new();
    // Termination is by an explicit iteration budget, not by a measure on
    // the event set: each subdivision adds events, and bounding the number
    // of subdivisions is a fact about the geometry this proof does not
    // carry.  The budget is far beyond any reachable event count; were it
    // ever exhausted, assembly below would surface `MalformedResult`.
    let mut fuel: u64 = u64::MAX;
    while fuel > 0
        invariant
            wf_arena(evs@),
            wf_ids(queue@, evs@.len() as int),
            wf_ids(sl@, evs@.len() as int),
            sl_all_left(sl@, evs@),
            connector.wf(),
        decreases fuel,
    {
        fuel = fuel - 1;
        let popped = queue_pop_min(&mut queue, &evs);
        let id = match popped {
            None => { break ; },
            Some(x) => x,
        };
        proof {
            assert(wf_link(evs@, id as int));
        }
        let ev = evs[id];
        let is_intersection = op == crate::polygon::BoolOpType::Intersection;
        let is_union = op == crate::polygon::BoolOpType::Union;
        let is_difference = op == crate::polygon::BoolOpType::Difference;
        if (is_intersection && x_exceeds(&ev.p, min_right)) || (is_difference && x_exceeds(
            &ev.p,
            subject_right,
        )) {
            break ;
        }
        if is_union && x_exceeds(&ev.p, min_right) && !ev.left {
            // Everything still queued lies beyond any possible interaction:
            // flush the remaining right events straight to the connector.
            connector.add_segment(crate::segment::Segment { begin_pt: ev.p, end_pt: ev.other_p });
            while queue.len() > 0
                invariant
                    wf_arena(evs@),
                    wf_ids(queue@, evs@.len() as int),
                    connector.wf(),
                decreases queue@.len(),
            {
                let p2 = queue_pop_min(&mut queue, &evs);
                match p2 {
                    None => { break ; },
                    Some(id2) => {
                        proof {
                            assert(wf_link(evs@, id2 as int));
                        }
                        let e2 = evs[id2];
                        if !e2.left {
                            connector.add_segment(
                                crate::segment::Segment { begin_pt: e2.p, end_pt: e2.other_p },
                            );
                        }
                    },
                }
            }
            break ;
        }
        if ev.left {
            if sl.len() >= usize::MAX - 1 {
                return Err(crate::polygon::BoolOpError::MalformedResult);
            }
            let pos = sl_insert(&mut sl, &evs, id);
            if pos == 0 {
                let mut cur = evs[id];
                cur.set_inside_flag_of_left_endpoint(None);
                set_flags(&mut evs, id, cur.is_inside, cur.in_out);
            } else {
                let prev_id = sl[pos - 1];
                proof {
                    assert(wf_link(evs@, prev_id as int));
                }
                let prev = evs[prev_id];
                if prev.edge_type != EdgeType::Normal {
                    if pos == 1 {
                        // The predecessor opens an overlapped pair at the
                        // bottom of the status: the flags are irrelevant.
                        set_flags(&mut evs, id, true, false);
                    } else {
                        // Resolve through the overlapped pair using the
                        // predecessor of the predecessor.
                        let pprev_id = sl[pos - 2];
                        proof {
                            assert(wf_link(evs@, pprev_id as int));
                        }
                        let pprev = evs[pprev_id];
                        if prev.polygon_type == ev.polygon_type {
                            set_flags(&mut evs, id, !pprev.in_out, !prev.in_out);
                        } else {
                            set_flags(&mut evs, id, !prev.in_out, !pprev.in_out);
                        }
                    }
                } else {
                    let mut cur = evs[id];
                    cur.set_inside_flag_of_left_endpoint(Some(&prev));
                    set_flags(&mut evs, id, cur.is_inside, cur.in_out);
                }
            }
            if pos + 1 < sl.len() {
                let nxt = sl[pos + 1];
                let res = possible_intersection(&mut evs, &mut queue, id, nxt);
                if let Err(err) = res {
                    return Err(err);
                }
            }
            if pos > 0 {
                let prv = sl[pos - 1];
                let res = possible_intersection(&mut evs, &mut queue, prv, id);
                if let Err(err) = res {
                    return Err(err);
                }
            }
        } else {
            let twin = ev.other;
            let posopt = sl_find(&sl, twin);
            let pos = match posopt {
                None => { return Err(crate::polygon::BoolOpError::MalformedResult) },
                Some(p) => p,
            };
            proof {
                assert(wf_link(evs@, twin as int));
            }
            let tw = evs[twin];
            let emit = emit_decision(op, ev.edge_type, ev.polygon_type, tw.is_inside);
            if emit {
                connector.add_segment(
                    crate::segment::Segment { begin_pt: ev.p, end_pt: ev.other_p },
                );
            }
            let ghost pre_sl = sl@;
            sl.remove(pos);
            proof {
                assert forall|i: int| 0 <= i < sl@.len() implies evs@[(#[trigger] sl@[i]) as int].left
                    && (sl@[i] as int) < evs@.len() by {
                    if i < pos {
                        assert(sl@[i] == pre_sl[i]);
                    } else {
                        assert(sl@[i] == pre_sl[i + 1]);
                    }
                }
            }
            if pos > 0 && pos < sl.len() {
                let prv = sl[pos - 1];
                let nxt = sl[pos];
                let res = possible_intersection(&mut evs, &mut queue, prv, nxt);
                if let Err(err) = res {
                    return Err(err);
                }
            }
        }
    }
    connector.to_polygons()
}

/// Finds the position of an id in the sweep-line status.
pub fn sl_find(sl: &Vec<usize>, id: usize) -> (r: Option<usize>)
    ensures
        r matches Some(pos) ==> pos < sl@.len() && sl@[pos as int] == id,
        r is None ==> forall|i: int| 0 <= i < sl@.len() ==> (#[trigger] sl@[i]) != id,
{
    let mut i: usize = 0;
    while i < sl.len()
        invariant
            i <= sl@.len(),
            forall|k: int| 0 <= k < i ==> (#[trigger] sl@[k]) != id,
        decreases sl@.len() - i,
    {
        if sl[i] == id {
            return Some(i);
        }
        i = i + 1;
    }
    None
}

} // verus!
