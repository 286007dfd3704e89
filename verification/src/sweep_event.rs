//! Sweep events and the total order in which the sweep processes them.
//!
//! Each polygon edge becomes a twinned pair of events, one per endpoint.  The
//! twin is held as an index into the event arena; each event also carries a
//! copy of its twin's point, so the comparator and the below/above tests are
//! functions of a single event value.  Events additionally remember the grid
//! endpoints of the original input edge they were cut from: every point of a
//! subdivided edge stays on that original supporting line.

use vstd::prelude::*;
use crate::point::{
    Point2D, xn, yn, dn, in_range, grid, area_num, pt_eq, x_eq, x_lt, y_eq, y_lt, lex_lt,
    same_point, x_same, x_less, y_less, lex_less,
};
use crate::utils::calculate_signed_area3;

verus! {

/// Which input polygon an event's edge belongs to.
#[derive(Debug, PartialEq, Eq, Structural, Copy, Clone)]
pub enum PolygonType {
    Subject,
    Clipping,
}

/// Classification of an edge after overlap resolution.
#[derive(Debug, PartialEq, Eq, Structural, Copy, Clone)]
pub enum EdgeType {
    Normal,
    NonContributing,
    SameTransition,
    DifferentTransition,
}

/// One endpoint of a (possibly subdivided) polygon edge.
#[derive(Debug, Copy, Clone)]
pub struct SweepEvent {
    /// Point of this endpoint.
    pub p: Point2D,
    /// Point of the edge's other endpoint (the twin's point).
    pub other_p: Point2D,
    /// Arena index of the twin event.
    pub other: usize,
    /// Polygon the edge belongs to.
    pub polygon_type: PolygonType,
    /// Is `p` the sweep-order-earlier endpoint of the edge?
    pub left: bool,
    /// Does a vertical upward probe line crossing the edge leave the edge's
    /// own polygon here?
    pub in_out: bool,
    /// Is the edge inside the other polygon?
    pub is_inside: bool,
    /// Classification used for overlapping edges.
    pub edge_type: EdgeType,
    /// First grid endpoint of the original input edge.
    pub orig_a: Point2D,
    /// Second grid endpoint of the original input edge.
    pub orig_b: Point2D,
}

/// Geometric well-formedness of a single event: bounded representations, a
/// non-degenerate original grid edge whose supporting line carries both
/// endpoints, and a `left` flag that agrees with the lexicographic order of
/// the two endpoints.
pub open spec fn wf_event(e: SweepEvent) -> bool {
    &&& in_range(e.p)
    &&& in_range(e.other_p)
    &&& grid(e.orig_a)
    &&& grid(e.orig_b)
    &&& !pt_eq(e.orig_a, e.orig_b)
    &&& area_num(e.orig_a, e.orig_b, e.p) == 0
    &&& area_num(e.orig_a, e.orig_b, e.other_p) == 0
    &&& e.left ==> lex_lt(e.p, e.other_p)
    &&& !e.left ==> lex_lt(e.other_p, e.p)
}

/// Is the edge of `e` strictly below the point `x`, taking the edge in its
/// left-aware direction?
pub open spec fn below_spec(e: SweepEvent, x: Point2D) -> bool {
    if e.left {
        area_num(e.p, e.other_p, x) > 0
    } else {
        area_num(e.other_p, e.p, x) > 0
    }
}

/// Rank used to break remaining ties between events of the two polygons.
pub open spec fn rank_pl(t: PolygonType) -> int {
    if t == PolygonType::Subject {
        0
    } else {
        1
    }
}

/// The strict total sweep order: `a` is dequeued before `b`.
///
/// Events are ordered by x, then y of their point; at a common point right
/// events come before left events; among events of one kind the one whose
/// edge is below the other's twin point comes first; exactly collinear edges
/// are ordered by their twin points, and finally by polygon.
pub open spec fn precedes_spec(a: SweepEvent, b: SweepEvent) -> bool {
    if !x_eq(a.p, b.p) {
        x_lt(a.p, b.p)
    } else if !y_eq(a.p, b.p) {
        y_lt(a.p, b.p)
    } else if a.left != b.left {
        !a.left
    } else if area_num(a.p, a.other_p, b.other_p) != 0 {
        if a.left {
            area_num(a.p, a.other_p, b.other_p) > 0
        } else {
            area_num(a.p, a.other_p, b.other_p) < 0
        }
    } else if !pt_eq(a.other_p, b.other_p) {
        lex_lt(a.other_p, b.other_p)
    } else {
        rank_pl(a.polygon_type) < rank_pl(b.polygon_type)
    }
}

/// The fields the sweep order looks at are pairwise equal in value.
pub open spec fn key_eq(a: SweepEvent, b: SweepEvent) -> bool {
    &&& pt_eq(a.p, b.p)
    &&& a.left == b.left
    &&& pt_eq(a.other_p, b.other_p)
    &&& a.polygon_type == b.polygon_type
}

impl SweepEvent {
    /// Is the line segment `(p, other_p)` below the point `other`?
    pub fn below(&self, other: &Point2D) -> (r: bool)
        requires
            in_range(self.p),
            in_range(self.other_p),
            in_range(*other),
        ensures
            r == below_spec(*self, *other),
    {
        if self.left {
            calculate_signed_area3(&self.p, &self.other_p, other) > 0
        } else {
            calculate_signed_area3(&self.other_p, &self.p, other) > 0
        }
    }

    /// Is the line segment `(p, other_p)` above or through the point `other`?
    pub fn above(&self, other: &Point2D) -> (r: bool)
        requires
            in_range(self.p),
            in_range(self.other_p),
            in_range(*other),
        ensures
            r == !below_spec(*self, *other),
    {
        !self.below(other)
    }

    /// Sets the `is_inside` and `in_out` flags of a left event from its
    /// immediate predecessor in the sweep status, or to the defaults when
    /// there is no predecessor.  The predecessor is assumed to be a `Normal`
    /// edge; overlapped predecessors are resolved by the sweep loop itself.
    pub fn set_inside_flag_of_left_endpoint(&mut self, previous: Option<&SweepEvent>)
        ensures
            *final(self) == (match previous {
                None => SweepEvent { is_inside: false, in_out: false, ..*old(self) },
                Some(prev) => {
                    if prev.polygon_type == old(self).polygon_type {
                        SweepEvent { is_inside: prev.is_inside, in_out: !prev.in_out, ..*old(self) }
                    } else {
                        SweepEvent { is_inside: !prev.in_out, in_out: prev.is_inside, ..*old(self) }
                    }
                },
            }),
    {
        match previous {
            None => {
                self.is_inside = false;
                self.in_out = false;
            },
            Some(prev) => {
                if prev.polygon_type == self.polygon_type {
                    self.is_inside = prev.is_inside;
                    self.in_out = !prev.in_out;
                } else {
                    self.is_inside = !prev.in_out;
                    self.in_out = prev.is_inside;
                }
            },
        }
    }
}

/// Decides whether `a` is processed strictly before `b` in sweep order.
pub fn precedes(a: &SweepEvent, b: &SweepEvent) -> (r: bool)
    requires
        in_range(a.p),
        in_range(a.other_p),
        in_range(b.p),
        in_range(b.other_p),
    ensures
        r == precedes_spec(*a, *b),
{
    if !x_same(&a.p, &b.p) {
        x_less(&a.p, &b.p)
    } else if !y_same_exec(&a.p, &b.p) {
        y_less(&a.p, &b.p)
    } else if a.left != b.left {
        !a.left
    } else {
        let cr = calculate_signed_area3(&a.p, &a.other_p, &b.other_p);
        if cr != 0 {
            if a.left {
                cr > 0
            } else {
                cr < 0
            }
        } else if !same_point(&a.other_p, &b.other_p) {
            lex_less(&a.other_p, &b.other_p)
        } else {
            a.polygon_type == PolygonType::Subject && b.polygon_type == PolygonType::Clipping
        }
    }
}

// ---------------------------------------------------------------------------
// The sweep order is a strict total order.  The proofs below work with the
// scaled difference vectors of rational points: for an anchor `a` and a point
// `b`, `(scx(a,b), scy(a,b))` is `b - a` multiplied by the positive factor
// `dn(a) * dn(b)`, so all sign questions about directions become questions
// about integer cross products.
// ---------------------------------------------------------------------------

/// Scaled x component of `b - a`.
pub open spec fn scx(a: Point2D, b: Point2D) -> int {
    xn(b) * dn(a) - xn(a) * dn(b)
}

/// Scaled y component of `b - a`.
pub open spec fn scy(a: Point2D, b: Point2D) -> int {
    yn(b) * dn(a) - yn(a) * dn(b)
}

/// Integer cross product of two vectors.
pub open spec fn crs(ux: int, uy: int, vx: int, vy: int) -> int {
    ux * vy - uy * vx
}

/// The vector points strictly into the right half-plane, or straight up:
/// the direction of the edge of a well-formed left event.
pub open spec fn hp(x: int, y: int) -> bool {
    x > 0 || (x == 0 && y > 0)
}

/// The three-vector cross product identity every transitivity argument
/// rests on.
proof fn lemma_cross_identity(ux: int, uy: int, vx: int, vy: int, wx: int, wy: int)
    ensures
        crs(ux, uy, vx, vy) * wx + crs(vx, vy, wx, wy) * ux == vx * crs(ux, uy, wx, wy),
{
    assert((ux * vy - uy * vx) * wx + (vx * wy - vy * wx) * ux == vx * (ux * wy - uy * wx))
        by (nonlinear_arith);
}

/// Products of a positive and a non-negative factor, as needed below.
proof fn lemma_sign_facts(x: int, y: int)
    ensures
        x > 0 && y > 0 ==> x * y > 0,
        x > 0 && y >= 0 ==> x * y >= 0,
        x > 0 && y < 0 ==> x * y < 0,
        x > 0 && y == 0 ==> x * y == 0,
{
    assert(x > 0 && y > 0 ==> x * y > 0) by (nonlinear_arith);
    assert(x > 0 && y >= 0 ==> x * y >= 0) by (nonlinear_arith);
    assert(x > 0 && y < 0 ==> x * y < 0) by (nonlinear_arith);
    assert(x > 0 && y == 0 ==> x * y == 0) by (nonlinear_arith);
}

/// Transitivity of the strict below-order on half-plane vectors.
proof fn lemma_hp_trans_strict(ux: int, uy: int, vx: int, vy: int, wx: int, wy: int)
    requires
        hp(ux, uy),
        hp(vx, vy),
        hp(wx, wy),
        crs(ux, uy, vx, vy) > 0,
        crs(vx, vy, wx, wy) > 0,
    ensures
        crs(ux, uy, wx, wy) > 0,
{
    lemma_cross_identity(ux, uy, vx, vy, wx, wy);
    // A vertical middle vector is above everything, contradicting the second
    // strict relation.
    if vx == 0 {
        assert(vy > 0);
        assert(vx * wy - vy * wx <= 0) by (nonlinear_arith)
            requires
                vx == 0 && vy > 0 && wx >= 0,
        ;
    }
    assert(vx > 0);
    // Both outer vectors vertical would force the first cross non-positive.
    if ux == 0 && wx == 0 {
        assert(uy > 0);
        assert(ux * vy - uy * vx < 0) by (nonlinear_arith)
            requires
                ux == 0 && uy > 0 && vx > 0,
        ;
    }
    lemma_sign_facts(crs(ux, uy, vx, vy), wx);
    lemma_sign_facts(crs(vx, vy, wx, wy), ux);
    assert(crs(ux, uy, vx, vy) * wx + crs(vx, vy, wx, wy) * ux > 0);
    assert(vx * crs(ux, uy, wx, wy) > 0);
    assert(crs(ux, uy, wx, wy) > 0) by (nonlinear_arith)
        requires
            vx > 0 && vx * crs(ux, uy, wx, wy) > 0,
    ;
}

/// A collinear pair followed by a strict step stays strict.
proof fn lemma_hp_tie_then_strict(ux: int, uy: int, vx: int, vy: int, wx: int, wy: int)
    requires
        hp(ux, uy),
        hp(vx, vy),
        hp(wx, wy),
        crs(ux, uy, vx, vy) == 0,
        crs(vx, vy, wx, wy) > 0,
    ensures
        crs(ux, uy, wx, wy) > 0,
{
    lemma_cross_identity(ux, uy, vx, vy, wx, wy);
    if vx == 0 {
        assert(vy > 0);
        assert(vx * wy - vy * wx <= 0) by (nonlinear_arith)
            requires
                vx == 0 && vy > 0 && wx >= 0,
        ;
    }
    assert(vx > 0);
    if ux == 0 {
        assert(uy > 0);
        assert(ux * vy - uy * vx < 0) by (nonlinear_arith)
            requires
                ux == 0 && uy > 0 && vx > 0,
        ;
    }
    assert(ux > 0);
    assert(crs(vx, vy, wx, wy) * ux > 0) by (nonlinear_arith)
        requires
            crs(vx, vy, wx, wy) > 0 && ux > 0,
    ;
    assert(vx * crs(ux, uy, wx, wy) > 0);
    assert(crs(ux, uy, wx, wy) > 0) by (nonlinear_arith)
        requires
            vx > 0 && vx * crs(ux, uy, wx, wy) > 0,
    ;
}

/// A strict step followed by a collinear pair stays strict.
proof fn lemma_hp_strict_then_tie(ux: int, uy: int, vx: int, vy: int, wx: int, wy: int)
    requires
        hp(ux, uy),
        hp(vx, vy),
        hp(wx, wy),
        crs(ux, uy, vx, vy) > 0,
        crs(vx, vy, wx, wy) == 0,
    ensures
        crs(ux, uy, wx, wy) > 0,
{
    lemma_cross_identity(ux, uy, vx, vy, wx, wy);
    if wx == 0 {
        assert(wy > 0);
        if vx > 0 {
            assert(vx * wy - vy * wx > 0) by (nonlinear_arith)
                requires
                    wx == 0 && wy > 0 && vx > 0,
            ;
        }
        assert(vx == 0);
        assert(vy > 0);
        assert(ux * vy - uy * vx == ux * vy) by (nonlinear_arith)
            requires
                vx == 0,
        ;
        assert(ux * vy > 0);
        assert(ux > 0) by (nonlinear_arith)
            requires
                ux * vy > 0 && vy > 0 && ux >= 0,
        ;
        assert(ux * wy - uy * wx == ux * wy) by (nonlinear_arith)
            requires
                wx == 0,
        ;
        assert(ux * wy > 0) by (nonlinear_arith)
            requires
                ux > 0 && wy > 0,
        ;
    } else {
        assert(wx > 0);
        if vx == 0 {
            assert(vy > 0);
            assert(vx * wy - vy * wx < 0) by (nonlinear_arith)
                requires
                    vx == 0 && vy > 0 && wx > 0,
            ;
        }
        assert(vx > 0);
        assert(crs(ux, uy, vx, vy) * wx > 0) by (nonlinear_arith)
            requires
                crs(ux, uy, vx, vy) > 0 && wx > 0,
        ;
        assert(vx * crs(ux, uy, wx, wy) > 0);
        assert(crs(ux, uy, wx, wy) > 0) by (nonlinear_arith)
            requires
                vx > 0 && vx * crs(ux, uy, wx, wy) > 0,
        ;
    }
}

/// Collinearity with a fixed non-zero middle vector is transitive.
proof fn lemma_hp_tie_both(ux: int, uy: int, vx: int, vy: int, wx: int, wy: int)
    requires
        hp(ux, uy),
        hp(vx, vy),
        hp(wx, wy),
        crs(ux, uy, vx, vy) == 0,
        crs(vx, vy, wx, wy) == 0,
    ensures
        crs(ux, uy, wx, wy) == 0,
{
    lemma_cross_identity(ux, uy, vx, vy, wx, wy);
    if vx > 0 {
        assert(vx * crs(ux, uy, wx, wy) == 0);
        assert(crs(ux, uy, wx, wy) == 0) by (nonlinear_arith)
            requires
                vx > 0 && vx * crs(ux, uy, wx, wy) == 0,
        ;
    } else {
        assert(vx == 0 && vy > 0);
        assert(ux == 0) by (nonlinear_arith)
            requires
                ux * vy - uy * vx == 0 && vx == 0 && vy > 0,
        ;
        assert(wx == 0) by (nonlinear_arith)
            requires
                vx * wy - vy * wx == 0 && vx == 0 && vy > 0,
        ;
        assert(ux * wy - uy * wx == 0) by (nonlinear_arith)
            requires
                ux == 0 && wx == 0,
        ;
    }
}

/// Transitivity of the order on rationals `n1/d1 < n2/d2 < n3/d3`, written
/// with cross-multiplied comparisons, in all strict and equal combinations.
proof fn lemma_rat_trans(n1: int, d1: int, n2: int, d2: int, n3: int, d3: int)
    by (nonlinear_arith)
    requires
        d1 >= 1,
        d2 >= 1,
        d3 >= 1,
    ensures
        n1 * d2 < n2 * d1 && n2 * d3 < n3 * d2 ==> n1 * d3 < n3 * d1,
        n1 * d2 == n2 * d1 && n2 * d3 < n3 * d2 ==> n1 * d3 < n3 * d1,
        n1 * d2 < n2 * d1 && n2 * d3 == n3 * d2 ==> n1 * d3 < n3 * d1,
        n1 * d2 == n2 * d1 && n2 * d3 == n3 * d2 ==> n1 * d3 == n3 * d1,
{
}

/// Transitivity of the lexicographic order on point values, in the strict
/// and equal combinations the comparator proofs need.
proof fn lemma_lex_trans(a: Point2D, b: Point2D, c: Point2D)
    requires
        dn(a) >= 1,
        dn(b) >= 1,
        dn(c) >= 1,
    ensures
        lex_lt(a, b) && lex_lt(b, c) ==> lex_lt(a, c),
        lex_lt(a, b) && pt_eq(b, c) ==> lex_lt(a, c),
        pt_eq(a, b) && lex_lt(b, c) ==> lex_lt(a, c),
        pt_eq(a, b) && pt_eq(b, c) ==> pt_eq(a, c),
        lex_lt(a, b) ==> !pt_eq(a, b),
{
    lemma_rat_trans(xn(a), dn(a), xn(b), dn(b), xn(c), dn(c));
    lemma_rat_trans(yn(a), dn(a), yn(b), dn(b), yn(c), dn(c));
}

/// Two equal scaled quantities with positive scale factors have the same
/// sign.
proof fn lemma_scaled_sign(a: int, b: int, m: int, k: int)
    by (nonlinear_arith)
    requires
        m >= 1,
        k >= 1,
        a * m == b * k,
    ensures
        a > 0 <==> b > 0,
        a == 0 <==> b == 0,
        a < 0 <==> b < 0,
{
}

/// Moving the anchor of a scaled difference vector to an equal-valued point
/// rescales the vector by a positive factor.
proof fn lemma_sc_anchor(p: Point2D, q: Point2D, x: Point2D)
    requires
        dn(p) >= 1,
        dn(q) >= 1,
        dn(x) >= 1,
        pt_eq(p, q),
    ensures
        scx(p, x) * dn(q) == scx(q, x) * dn(p),
        scy(p, x) * dn(q) == scy(q, x) * dn(p),
{
    assert((xn(x) * dn(p) - xn(p) * dn(x)) * dn(q) == (xn(x) * dn(q) - xn(q) * dn(x)) * dn(p))
        by (nonlinear_arith)
        requires
            xn(p) * dn(q) == xn(q) * dn(p),
    ;
    assert((yn(x) * dn(p) - yn(p) * dn(x)) * dn(q) == (yn(x) * dn(q) - yn(q) * dn(x)) * dn(p))
        by (nonlinear_arith)
        requires
            yn(p) * dn(q) == yn(q) * dn(p),
    ;
}

/// Rescaling the first vector of a cross product by a positive factor
/// rescales the cross product by the same factor.
proof fn lemma_cross_scale_first(
    ux: int,
    uy: int,
    ux2: int,
    uy2: int,
    vx: int,
    vy: int,
    m: int,
    k: int,
)
    requires
        m >= 1,
        k >= 1,
        ux * m == ux2 * k,
        uy * m == uy2 * k,
    ensures
        crs(ux, uy, vx, vy) * m == crs(ux2, uy2, vx, vy) * k,
{
    assert((ux * vy) * m == (ux2 * vy) * k) by (nonlinear_arith)
        requires
            ux * m == ux2 * k,
    ;
    assert((uy * vx) * m == (uy2 * vx) * k) by (nonlinear_arith)
        requires
            uy * m == uy2 * k,
    ;
    vstd::arithmetic::mul::lemma_mul_is_distributive_sub_other_way(m, ux * vy, uy * vx);
    vstd::arithmetic::mul::lemma_mul_is_distributive_sub_other_way(k, ux2 * vy, uy2 * vx);
}

/// Rescaling the second vector of a cross product by a positive factor
/// rescales the cross product by the same factor.
proof fn lemma_cross_scale_second(
    ux: int,
    uy: int,
    vx: int,
    vy: int,
    vx2: int,
    vy2: int,
    m: int,
    k: int,
)
    requires
        m >= 1,
        k >= 1,
        vx * m == vx2 * k,
        vy * m == vy2 * k,
    ensures
        crs(ux, uy, vx, vy) * m == crs(ux, uy, vx2, vy2) * k,
{
    assert((ux * vy) * m == (ux * vy2) * k) by (nonlinear_arith)
        requires
            vy * m == vy2 * k,
    ;
    assert((uy * vx) * m == (uy * vx2) * k) by (nonlinear_arith)
        requires
            vx * m == vx2 * k,
    ;
    vstd::arithmetic::mul::lemma_mul_is_distributive_sub_other_way(m, ux * vy, uy * vx);
    vstd::arithmetic::mul::lemma_mul_is_distributive_sub_other_way(k, ux * vy2, uy * vx2);
}

/// `area_num` written as the cross product of scaled difference vectors.
proof fn lemma_area_as_cross(a: Point2D, b: Point2D, c: Point2D)
    ensures
        area_num(a, b, c) == crs(scx(a, b), scy(a, b), scx(a, c), scy(a, c)),
{
}

/// Swapping the last two arguments of `area_num` flips its sign exactly.
proof fn lemma_area_swap(a: Point2D, b: Point2D, c: Point2D)
    ensures
        area_num(a, c, b) == -area_num(a, b, c),
{
    lemma_area_as_cross(a, b, c);
    lemma_area_as_cross(a, c, b);
    assert(crs(scx(a, c), scy(a, c), scx(a, b), scy(a, b)) == -crs(
        scx(a, b),
        scy(a, b),
        scx(a, c),
        scy(a, c),
    )) by (nonlinear_arith);
}

/// Moving the anchor of `area_num` to an equal-valued point keeps its sign.
proof fn lemma_area_sign_anchor(p: Point2D, q: Point2D, x: Point2D, y: Point2D)
    requires
        dn(p) >= 1,
        dn(q) >= 1,
        dn(x) >= 1,
        dn(y) >= 1,
        pt_eq(p, q),
    ensures
        area_num(p, x, y) > 0 <==> area_num(q, x, y) > 0,
        area_num(p, x, y) == 0 <==> area_num(q, x, y) == 0,
        area_num(p, x, y) < 0 <==> area_num(q, x, y) < 0,
{
    lemma_sc_anchor(p, q, x);
    lemma_sc_anchor(p, q, y);
    lemma_area_as_cross(p, x, y);
    lemma_area_as_cross(q, x, y);
    lemma_cross_scale_first(
        scx(p, x),
        scy(p, x),
        scx(q, x),
        scy(q, x),
        scx(p, y),
        scy(p, y),
        dn(q),
        dn(p),
    );
    lemma_cross_scale_second(
        scx(q, x),
        scy(q, x),
        scx(p, y),
        scy(p, y),
        scx(q, y),
        scy(q, y),
        dn(q),
        dn(p),
    );
    lemma_scaled_sign(
        crs(scx(p, x), scy(p, x), scx(p, y), scy(p, y)),
        crs(scx(q, x), scy(q, x), scx(p, y), scy(p, y)),
        dn(q),
        dn(p),
    );
    lemma_scaled_sign(
        crs(scx(q, x), scy(q, x), scx(p, y), scy(p, y)),
        crs(scx(q, x), scy(q, x), scx(q, y), scy(q, y)),
        dn(q),
        dn(p),
    );
}

/// The signed area used by the tie-break of `precedes_spec` is antisymmetric
/// in the two events: evaluated from `b`'s side it has the opposite sign.
proof fn lemma_rule4_antisym(a: SweepEvent, b: SweepEvent)
    requires
        in_range(a.p),
        in_range(a.other_p),
        in_range(b.p),
        in_range(b.other_p),
        pt_eq(a.p, b.p),
    ensures
        area_num(b.p, b.other_p, a.other_p) > 0 <==> area_num(a.p, a.other_p, b.other_p) < 0,
        area_num(b.p, b.other_p, a.other_p) == 0 <==> area_num(a.p, a.other_p, b.other_p) == 0,
{
    lemma_area_sign_anchor(b.p, a.p, b.other_p, a.other_p);
    lemma_area_swap(a.p, a.other_p, b.other_p);
}

/// The sweep order never places an event before itself.
pub proof fn lemma_precedes_irreflexive(a: SweepEvent)
    requires
        wf_event(a),
    ensures
        !precedes_spec(a, a),
{
    lemma_area_swap(a.p, a.other_p, a.other_p);
}

/// The sweep order is antisymmetric: two events are never each before the
/// other.
pub proof fn lemma_precedes_antisymmetric(a: SweepEvent, b: SweepEvent)
    requires
        wf_event(a),
        wf_event(b),
    ensures
        !(precedes_spec(a, b) && precedes_spec(b, a)),
{
    if precedes_spec(a, b) && precedes_spec(b, a) {
        assert(pt_eq(a.p, b.p) && a.left == b.left);
        lemma_rule4_antisym(a, b);
    }
}

/// The sweep order is total: of two events one precedes the other, unless
/// every field the order looks at is equal in value.
pub proof fn lemma_precedes_total(a: SweepEvent, b: SweepEvent)
    requires
        wf_event(a),
        wf_event(b),
    ensures
        precedes_spec(a, b) || precedes_spec(b, a) || key_eq(a, b),
{
    if !precedes_spec(a, b) && !precedes_spec(b, a) {
        assert(x_eq(a.p, b.p) && y_eq(a.p, b.p));
        assert(a.left == b.left);
        lemma_rule4_antisym(a, b);
        assert(area_num(a.p, a.other_p, b.other_p) == 0);
        assert(pt_eq(a.other_p, b.other_p));
        assert(a.polygon_type == b.polygon_type);
    }
}

/// Transfers the half-plane property of an event's edge direction to the
/// scaled difference vector anchored at an equal-valued point.
proof fn lemma_direction_halfplane(anchor: Point2D, e: SweepEvent)
    requires
        wf_event(e),
        in_range(anchor),
        pt_eq(anchor, e.p),
    ensures
        e.left ==> hp(scx(anchor, e.other_p), scy(anchor, e.other_p)),
        !e.left ==> hp(-scx(anchor, e.other_p), -scy(anchor, e.other_p)),
{
    lemma_sc_anchor(anchor, e.p, e.other_p);
    lemma_scaled_sign(scx(anchor, e.other_p), scx(e.p, e.other_p), dn(e.p), dn(anchor));
    lemma_scaled_sign(scy(anchor, e.other_p), scy(e.p, e.other_p), dn(e.p), dn(anchor));
}

/// The sweep order is transitive.
pub proof fn lemma_precedes_transitive(a: SweepEvent, b: SweepEvent, c: SweepEvent)
    requires
        wf_event(a),
        wf_event(b),
        wf_event(c),
        precedes_spec(a, b),
        precedes_spec(b, c),
    ensures
        precedes_spec(a, c),
{
    lemma_rat_trans(xn(a.p), dn(a.p), xn(b.p), dn(b.p), xn(c.p), dn(c.p));
    lemma_rat_trans(yn(a.p), dn(a.p), yn(b.p), dn(b.p), yn(c.p), dn(c.p));
    if pt_eq(a.p, b.p) && pt_eq(b.p, c.p) && a.left == b.left && b.left == c.left {
        assert(pt_eq(a.p, c.p));
        let ap = a.p;
        let ux = scx(ap, a.other_p);
        let uy = scy(ap, a.other_p);
        let vx = scx(ap, b.other_p);
        let vy = scy(ap, b.other_p);
        let wx = scx(ap, c.other_p);
        let wy = scy(ap, c.other_p);
        lemma_area_as_cross(ap, a.other_p, b.other_p);
        lemma_area_as_cross(ap, b.other_p, c.other_p);
        lemma_area_as_cross(ap, a.other_p, c.other_p);
        assert(area_num(ap, a.other_p, b.other_p) == crs(ux, uy, vx, vy));
        assert(area_num(ap, a.other_p, c.other_p) == crs(ux, uy, wx, wy));
        // Re-anchor the middle comparison at a's point.
        lemma_area_sign_anchor(b.p, ap, b.other_p, c.other_p);
        assert(area_num(b.p, b.other_p, c.other_p) > 0 <==> crs(vx, vy, wx, wy) > 0);
        assert(area_num(b.p, b.other_p, c.other_p) == 0 <==> crs(vx, vy, wx, wy) == 0);
        lemma_direction_halfplane(ap, a);
        lemma_direction_halfplane(ap, b);
        lemma_direction_halfplane(ap, c);
        if a.left {
            if crs(ux, uy, vx, vy) > 0 && crs(vx, vy, wx, wy) > 0 {
                lemma_hp_trans_strict(ux, uy, vx, vy, wx, wy);
            } else if crs(ux, uy, vx, vy) > 0 && crs(vx, vy, wx, wy) == 0 {
                lemma_hp_strict_then_tie(ux, uy, vx, vy, wx, wy);
            } else if crs(ux, uy, vx, vy) == 0 && crs(vx, vy, wx, wy) > 0 {
                lemma_hp_tie_then_strict(ux, uy, vx, vy, wx, wy);
            } else {
                assert(crs(ux, uy, vx, vy) == 0 && crs(vx, vy, wx, wy) == 0);
                lemma_hp_tie_both(ux, uy, vx, vy, wx, wy);
                lemma_lex_trans(a.other_p, b.other_p, c.other_p);
            }
        } else {
            let nux = -ux;
            let nuy = -uy;
            let nvx = -vx;
            let nvy = -vy;
            let nwx = -wx;
            let nwy = -wy;
            assert(crs(ux, uy, vx, vy) == -crs(nvx, nvy, nux, nuy)) by (nonlinear_arith)
                requires
                    nux == -ux && nuy == -uy && nvx == -vx && nvy == -vy,
            ;
            assert(crs(vx, vy, wx, wy) == -crs(nwx, nwy, nvx, nvy)) by (nonlinear_arith)
                requires
                    nvx == -vx && nvy == -vy && nwx == -wx && nwy == -wy,
            ;
            assert(crs(ux, uy, wx, wy) == -crs(nwx, nwy, nux, nuy)) by (nonlinear_arith)
                requires
                    nux == -ux && nuy == -uy && nwx == -wx && nwy == -wy,
            ;
            if crs(nvx, nvy, nux, nuy) > 0 && crs(nwx, nwy, nvx, nvy) > 0 {
                lemma_hp_trans_strict(nwx, nwy, nvx, nvy, nux, nuy);
            } else if crs(nvx, nvy, nux, nuy) > 0 && crs(nwx, nwy, nvx, nvy) == 0 {
                lemma_hp_tie_then_strict(nwx, nwy, nvx, nvy, nux, nuy);
            } else if crs(nvx, nvy, nux, nuy) == 0 && crs(nwx, nwy, nvx, nvy) > 0 {
                lemma_hp_strict_then_tie(nwx, nwy, nvx, nvy, nux, nuy);
            } else {
                assert(crs(nvx, nvy, nux, nuy) == 0 && crs(nwx, nwy, nvx, nvy) == 0);
                lemma_hp_tie_both(nwx, nwy, nvx, nvy, nux, nuy);
                lemma_lex_trans(a.other_p, b.other_p, c.other_p);
            }
        }
    }
}

/// Do the y coordinates of `a` and `b` denote the same rational?
fn y_same_exec(a: &Point2D, b: &Point2D) -> (r: bool)
    requires
        in_range(*a),
        in_range(*b),
    ensures
        r == y_eq(*a, *b),
{
    !y_less(a, b) && !y_less(b, a)
}

} // verus!
