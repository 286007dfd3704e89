//! Orientation tests: exact signed-area numerators and their signs.

use vstd::prelude::*;
use crate::point::{Point2D, xn, yn, dn, in_range, grid, area_num, lemma_mul_bound, MAX_NUM, MAX_DEN};
use crate::polygon::WindingOrder;
use crate::bbox::Bbox;
use crate::segment::Segment;

verus! {

/// Numerator of the twice-signed area of the triangle `(p0, p1, p2)` over the
/// positive denominator `dn(p0)^2 * dn(p1) * dn(p2)`; its sign is the sign of
/// the exact signed area, so it is positive exactly when `p2` lies strictly to
/// the left of the directed line `p0 -> p1`.
pub fn calculate_signed_area3(p0: &Point2D, p1: &Point2D, p2: &Point2D) -> (r: i128)
    requires
        in_range(*p0),
        in_range(*p1),
        in_range(*p2),
    ensures
        r == area_num(*p0, *p1, *p2),
{
    proof {
        lemma_mul_bound(xn(*p1), dn(*p0), MAX_NUM as int, MAX_DEN as int);
        lemma_mul_bound(xn(*p0), dn(*p1), MAX_NUM as int, MAX_DEN as int);
        lemma_mul_bound(yn(*p2), dn(*p0), MAX_NUM as int, MAX_DEN as int);
        lemma_mul_bound(yn(*p0), dn(*p2), MAX_NUM as int, MAX_DEN as int);
        lemma_mul_bound(yn(*p1), dn(*p0), MAX_NUM as int, MAX_DEN as int);
        lemma_mul_bound(yn(*p0), dn(*p1), MAX_NUM as int, MAX_DEN as int);
        lemma_mul_bound(xn(*p2), dn(*p0), MAX_NUM as int, MAX_DEN as int);
        lemma_mul_bound(xn(*p0), dn(*p2), MAX_NUM as int, MAX_DEN as int);
    }
    let f1: i128 = (p1.x_num as i128) * (p0.den as i128) - (p0.x_num as i128) * (p1.den as i128);
    let f2: i128 = (p2.y_num as i128) * (p0.den as i128) - (p0.y_num as i128) * (p2.den as i128);
    let f3: i128 = (p1.y_num as i128) * (p0.den as i128) - (p0.y_num as i128) * (p1.den as i128);
    let f4: i128 = (p2.x_num as i128) * (p0.den as i128) - (p0.x_num as i128) * (p2.den as i128);
    proof {
        lemma_mul_bound(f1 as int, f2 as int, 432345564227567616, 432345564227567616);
        lemma_mul_bound(f3 as int, f4 as int, 432345564227567616, 432345564227567616);
    }
    f1 * f2 - f3 * f4
}

/// Numerator of the twice-signed area of the triangle `((0,0), p0, p1)` over
/// the positive denominator `dn(p0) * dn(p1)`; its sign is the sign of the
/// exact signed area of that triangle.
pub fn calculate_signed_area2(p0: &Point2D, p1: &Point2D) -> (r: i128)
    requires
        in_range(*p0),
        in_range(*p1),
    ensures
        r == xn(*p0) * yn(*p1) - xn(*p1) * yn(*p0),
{
    proof {
        lemma_mul_bound(xn(*p0), yn(*p1), MAX_NUM as int, MAX_NUM as int);
        lemma_mul_bound(xn(*p1), yn(*p0), MAX_NUM as int, MAX_NUM as int);
    }
    (p0.x_num as i128) * (p1.y_num as i128) - (p1.x_num as i128) * (p0.y_num as i128)
}

/// Sign of a triangle's signed area.
#[derive(Debug, Clone, Copy, PartialEq, Eq, Structural)]
pub enum Sign {
    Positive,
    Negative,
    Equal,
}

/// Sign of the twice-signed area of the triangle `(p0, p1, o)`.
pub fn calculate_sign(p0: &Point2D, p1: &Point2D, o: &Point2D) -> (r: Sign)
    requires
        in_range(*p0),
        in_range(*p1),
        in_range(*o),
    ensures
        r == Sign::Positive <==> area_num(*p0, *p1, *o) > 0,
        r == Sign::Negative <==> area_num(*p0, *p1, *o) < 0,
        r == Sign::Equal <==> area_num(*p0, *p1, *o) == 0,
{
    let det = calculate_signed_area3(p0, p1, o);
    if det < 0 {
        Sign::Negative
    } else if det > 0 {
        Sign::Positive
    } else {
        Sign::Equal
    }
}

/// Does `p` lie inside or on the triangle spanned by the segment `s` and the
/// point `o`?  True exactly when `p` is on the same side (or on the line) of
/// all three directed edges of that triangle.
pub fn is_point_in_triangle(s: &Segment, o: &Point2D, p: &Point2D) -> (r: bool)
    requires
        in_range(s.begin_pt),
        in_range(s.end_pt),
        in_range(*o),
        in_range(*p),
    ensures
        r == {
            let a = area_num(s.begin_pt, s.end_pt, *p);
            let b = area_num(s.end_pt, *o, *p);
            let c = area_num(*o, s.begin_pt, *p);
            &&& (a > 0 <==> b > 0)
            &&& (a > 0 <==> c > 0)
            &&& (a < 0 <==> b < 0)
            &&& (a < 0 <==> c < 0)
        },
{
    let sign_first = calculate_sign(&s.begin_pt, &s.end_pt, p);
    sign_first == calculate_sign(&s.end_pt, o, p) && sign_first == calculate_sign(o, &s.begin_pt, p)
}

/// One term of the shoelace sum: the contribution of the edge from vertex
/// `i` to the cyclically next vertex.
pub open spec fn shoelace_term(s: Seq<Point2D>, i: int) -> int {
    let j = if i + 1 == s.len() {
        0
    } else {
        i + 1
    };
    (xn(s[j]) - xn(s[i])) * (yn(s[j]) + yn(s[i]))
}

/// Sum of the first `n` shoelace terms.
pub open spec fn shoelace_sum(s: Seq<Point2D>, n: int) -> int
    decreases n,
{
    if n <= 0 {
        0
    } else {
        shoelace_sum(s, n - 1) + shoelace_term(s, n - 1)
    }
}

/// Winding order of a polygon by the shoelace formula: clockwise exactly
/// when the full shoelace sum is positive.
pub fn calculate_winding_order(nodes: &Vec<Point2D>) -> (r: WindingOrder)
    requires
        nodes@.len() >= 3,
        forall|i: int| 0 <= i < nodes@.len() ==> grid(#[trigger] nodes@[i]),
    ensures
        r == (if shoelace_sum(nodes@, nodes@.len() as int) > 0 {
            WindingOrder::Clockwise
        } else {
            WindingOrder::CounterClockwise
        }),
{
    let n = nodes.len();
    let mut sum: i128 = 0;
    let mut i: usize = 0;
    while i < n
        invariant
            n == nodes@.len(),
            n >= 3,
            forall|k: int| 0 <= k < nodes@.len() ==> grid(#[trigger] nodes@[k]),
            i <= n,
            sum == shoelace_sum(nodes@, i as int),
            -4194304 * (i as int) <= sum <= 4194304 * (i as int),
        decreases n - i,
    {
        let j = if i + 1 == n {
            0
        } else {
            i + 1
        };
        proof {
            lemma_mul_bound(
                (nodes@[j as int].x_num - nodes@[i as int].x_num) as int,
                (nodes@[j as int].y_num + nodes@[i as int].y_num) as int,
                2048,
                2048,
            );
            lemma_mul_bound(4194304, i as int, 4194304, 0x1_0000_0000_0000_0000);
        }
        let term: i128 = ((nodes[j].x_num - nodes[i].x_num) as i128) * ((nodes[j].y_num
            + nodes[i].y_num) as i128);
        sum = sum + term;
        i = i + 1;
    }
    if sum > 0 {
        WindingOrder::Clockwise
    } else {
        WindingOrder::CounterClockwise
    }
}

/// Bounding box of a non-empty list of grid points: each bound is attained
/// and encloses every point.
pub fn calculate_bounding_box(nodes: &Vec<Point2D>) -> (r: Bbox)
    requires
        nodes@.len() >= 1,
        forall|i: int| 0 <= i < nodes@.len() ==> grid(#[trigger] nodes@[i]),
    ensures
        forall|i: int|
            0 <= i < nodes@.len() ==> r.left as int <= xn(#[trigger] nodes@[i]) <= r.right as int
                && r.bottom as int <= yn(nodes@[i]) <= r.top as int,
        exists|i: int| 0 <= i < nodes@.len() && xn(#[trigger] nodes@[i]) == r.left as int,
        exists|i: int| 0 <= i < nodes@.len() && xn(#[trigger] nodes@[i]) == r.right as int,
        exists|i: int| 0 <= i < nodes@.len() && yn(#[trigger] nodes@[i]) == r.bottom as int,
        exists|i: int| 0 <= i < nodes@.len() && yn(#[trigger] nodes@[i]) == r.top as int,
        -(1024 as int) <= r.left as int <= r.right as int <= 1024,
        -(1024 as int) <= r.bottom as int <= r.top as int <= 1024,
    {
    let mut min_x: i64 = nodes[0].x_num;
    let mut max_x: i64 = nodes[0].x_num;
    let mut min_y: i64 = nodes[0].y_num;
    let mut max_y: i64 = nodes[0].y_num;
    let mut i: usize = 1;
    while i < nodes.len()
        invariant
            nodes@.len() >= 1,
            forall|k: int| 0 <= k < nodes@.len() ==> grid(#[trigger] nodes@[k]),
            1 <= i <= nodes@.len(),
            forall|k: int|
                0 <= k < i ==> min_x as int <= xn(#[trigger] nodes@[k]) <= max_x as int
                    && min_y as int <= yn(nodes@[k]) <= max_y as int,
            exists|k: int| 0 <= k < i && xn(#[trigger] nodes@[k]) == min_x as int,
            exists|k: int| 0 <= k < i && xn(#[trigger] nodes@[k]) == max_x as int,
            exists|k: int| 0 <= k < i && yn(#[trigger] nodes@[k]) == min_y as int,
            exists|k: int| 0 <= k < i && yn(#[trigger] nodes@[k]) == max_y as int,
            -1024 <= min_x <= max_x <= 1024,
            -1024 <= min_y <= max_y <= 1024,
        decreases nodes@.len() - i,
    {
        let node = nodes[i];
        if node.x_num > max_x {
            max_x = node.x_num;
        }
        if node.x_num < min_x {
            min_x = node.x_num;
        }
        if node.y_num > max_y {
            max_y = node.y_num;
        }
        if node.y_num < min_y {
            min_y = node.y_num;
        }
        i = i + 1;
    }
    Bbox { top: max_y, right: max_x, bottom: min_y, left: min_x }
}

} // verus!
