//! The exact rational point type and the primitive geometric predicates on it.
//!
//! A `Point2D` stores the pair of rationals `(x_num / den, y_num / den)` with a
//! single shared positive denominator.  Input polygon vertices are grid points
//! (`den == 1`, coordinates within `MAX_COORD`); points produced by segment
//! intersection carry denominators up to `MAX_DEN` and numerators up to
//! `MAX_NUM`, which keeps every product formed by the predicates below well
//! inside `i128`.

use vstd::prelude::*;

verus! {

/// Largest magnitude of an input grid coordinate.
pub const MAX_COORD: i64 = 1024;

/// Largest denominator of any point the library produces: 8 * MAX_COORD^2.
pub const MAX_DEN: i64 = 8388608;

/// Largest numerator magnitude of any point the library produces:
/// 24 * MAX_COORD^3.
pub const MAX_NUM: i64 = 25769803776;

/// A 2D point with exact rational coordinates `(x_num / den, y_num / den)`.
#[derive(Clone, Copy, Debug, PartialEq, Eq, Structural)]
pub struct Point2D {
    pub x_num: i64,
    pub y_num: i64,
    pub den: i64,
}

/// Numerator of the x coordinate, as a mathematical integer.
pub open spec fn xn(p: Point2D) -> int {
    p.x_num as int
}

/// Numerator of the y coordinate, as a mathematical integer.
pub open spec fn yn(p: Point2D) -> int {
    p.y_num as int
}

/// Denominator, as a mathematical integer.
pub open spec fn dn(p: Point2D) -> int {
    p.den as int
}

/// The representation bounds every point handled by the library satisfies.
pub open spec fn in_range(p: Point2D) -> bool {
    &&& 1 <= dn(p) <= MAX_DEN as int
    &&& -(MAX_NUM as int) <= xn(p) <= MAX_NUM as int
    &&& -(MAX_NUM as int) <= yn(p) <= MAX_NUM as int
}

/// An input grid point: integral coordinates of magnitude at most `MAX_COORD`.
pub open spec fn grid(p: Point2D) -> bool {
    &&& dn(p) == 1
    &&& -(MAX_COORD as int) <= xn(p) <= MAX_COORD as int
    &&& -(MAX_COORD as int) <= yn(p) <= MAX_COORD as int
}

/// The x coordinates of `a` and `b` denote the same rational.
pub open spec fn x_eq(a: Point2D, b: Point2D) -> bool {
    xn(a) * dn(b) == xn(b) * dn(a)
}

/// The x coordinate of `a` is strictly less than that of `b`.
pub open spec fn x_lt(a: Point2D, b: Point2D) -> bool {
    xn(a) * dn(b) < xn(b) * dn(a)
}

/// The y coordinates of `a` and `b` denote the same rational.
pub open spec fn y_eq(a: Point2D, b: Point2D) -> bool {
    yn(a) * dn(b) == yn(b) * dn(a)
}

/// The y coordinate of `a` is strictly less than that of `b`.
pub open spec fn y_lt(a: Point2D, b: Point2D) -> bool {
    yn(a) * dn(b) < yn(b) * dn(a)
}

/// `a` and `b` denote the same point of the plane.
pub open spec fn pt_eq(a: Point2D, b: Point2D) -> bool {
    x_eq(a, b) && y_eq(a, b)
}

/// Strict lexicographic order on point values: first by x, ties by y.
pub open spec fn lex_lt(a: Point2D, b: Point2D) -> bool {
    x_lt(a, b) || (x_eq(a, b) && y_lt(a, b))
}

/// Non-strict lexicographic order on point values.
pub open spec fn lex_le(a: Point2D, b: Point2D) -> bool {
    lex_lt(a, b) || pt_eq(a, b)
}

/// Numerator of the twice-signed area of the triangle `(a, b, c)` over the
/// positive common denominator `dn(a) * dn(a) * dn(b) * dn(c)`.  Its sign is
/// the sign of the exact twice-signed area, so it is positive exactly when
/// `c` lies strictly to the left of the directed line `a -> b`.
pub open spec fn area_num(a: Point2D, b: Point2D, c: Point2D) -> int {
    (xn(b) * dn(a) - xn(a) * dn(b)) * (yn(c) * dn(a) - yn(a) * dn(c))
        - (yn(b) * dn(a) - yn(a) * dn(b)) * (xn(c) * dn(a) - xn(a) * dn(c))
}

/// A product of values within the given magnitude bounds stays within the
/// product of the bounds.
pub proof fn lemma_mul_bound(x: int, y: int, xb: int, yb: int)
    by (nonlinear_arith)
    requires
        -xb <= x <= xb,
        -yb <= y <= yb,
        0 <= xb,
        0 <= yb,
    ensures
        -(xb * yb) <= x * y <= xb * yb,
{
}

impl Point2D {
    /// Builds the grid point `(x, y)`.
    pub fn new(x: i64, y: i64) -> (r: Point2D)
        requires
            -(MAX_COORD as int) <= x <= MAX_COORD as int,
            -(MAX_COORD as int) <= y <= MAX_COORD as int,
        ensures
            grid(r),
            xn(r) == x,
            yn(r) == y,
            dn(r) == 1,
    {
        Point2D { x_num: x, y_num: y, den: 1 }
    }

    /// Does this point satisfy the representation bounds?
    pub fn check_in_range(&self) -> (r: bool)
        ensures
            r == in_range(*self),
    {
        1 <= self.den && self.den <= MAX_DEN && -MAX_NUM <= self.x_num && self.x_num <= MAX_NUM
            && -MAX_NUM <= self.y_num && self.y_num <= MAX_NUM
    }

    /// Is this point an input grid point?
    pub fn check_grid(&self) -> (r: bool)
        ensures
            r == grid(*self),
    {
        self.den == 1 && -MAX_COORD <= self.x_num && self.x_num <= MAX_COORD
            && -MAX_COORD <= self.y_num && self.y_num <= MAX_COORD
    }
}

/// Result of classifying two line segments against each other.
#[derive(Clone, Copy, Debug, PartialEq, Eq, Structural)]
pub enum LineIntersection {
    /// The segments do not meet in a point.
    NoIntersection,
    /// The segments meet in exactly this point.
    Point(Point2D),
    /// The segments lie on one common line.
    CoincidentLine,
}

/// Cross product of the direction vectors of `(p0,p1)` and `(p2,p3)`;
/// zero exactly when the segments are parallel.  Meaningful for grid points.
pub open spec fn dir_cross(p0: Point2D, p1: Point2D, p2: Point2D, p3: Point2D) -> int {
    (xn(p1) - xn(p0)) * (yn(p3) - yn(p2)) - (xn(p3) - xn(p2)) * (yn(p1) - yn(p0))
}

/// Numerator of the parameter of the intersection point along `(p0,p1)`,
/// over the denominator `dir_cross(p0, p1, p2, p3)`.
pub open spec fn t_numer(p0: Point2D, p1: Point2D, p2: Point2D, p3: Point2D) -> int {
    (xn(p3) - xn(p2)) * (yn(p0) - yn(p2)) - (yn(p3) - yn(p2)) * (xn(p0) - xn(p2))
}

/// Numerator of the parameter of the intersection point along `(p2,p3)`,
/// over the denominator `dir_cross(p0, p1, p2, p3)`.
pub open spec fn s_numer(p0: Point2D, p1: Point2D, p2: Point2D, p3: Point2D) -> int {
    (xn(p1) - xn(p0)) * (yn(p0) - yn(p2)) - (yn(p1) - yn(p0)) * (xn(p0) - xn(p2))
}

/// Does the rational `n / d` (with `d != 0`) lie in the closed unit interval?
pub open spec fn in_unit(n: int, d: int) -> bool {
    (d > 0 && 0 <= n && n <= d) || (d < 0 && d <= n && n <= 0)
}

/// The exact crossing point of the supporting lines of two non-parallel
/// grid segments, in the representation the library uses: numerators scaled
/// by the direction cross product, normalized to a positive denominator.
pub open spec fn cross_point(p0: Point2D, p1: Point2D, p2: Point2D, p3: Point2D) -> Point2D {
    let d = dir_cross(p0, p1, p2, p3);
    let t = t_numer(p0, p1, p2, p3);
    let rx = xn(p0) * d + t * (xn(p1) - xn(p0));
    let ry = yn(p0) * d + t * (yn(p1) - yn(p0));
    if d > 0 {
        Point2D { x_num: rx as i64, y_num: ry as i64, den: d as i64 }
    } else {
        Point2D { x_num: (-rx) as i64, y_num: (-ry) as i64, den: (-d) as i64 }
    }
}

/// Do the four points lie on one common line, each tested against the
/// segment of the other pair?
pub open spec fn all_collinear(p0: Point2D, p1: Point2D, p2: Point2D, p3: Point2D) -> bool {
    &&& area_num(p0, p1, p2) == 0
    &&& area_num(p0, p1, p3) == 0
    &&& area_num(p2, p3, p0) == 0
    &&& area_num(p2, p3, p1) == 0
}

/// Classifies the two segments `(p0,p1)` and `(p2,p3)` of grid points.
///
/// Parallel segments on one common line are reported as `CoincidentLine`,
/// parallel segments on distinct lines as `NoIntersection`.  Non-parallel
/// segments are solved parametrically: when both parameters lie in the unit
/// interval the unique intersection point is returned, exactly, as a rational
/// point lying on both supporting lines.
pub fn line_intersect(p0: &Point2D, p1: &Point2D, p2: &Point2D, p3: &Point2D) -> (r:
    LineIntersection)
    requires
        grid(*p0),
        grid(*p1),
        grid(*p2),
        grid(*p3),
    ensures
        dir_cross(*p0, *p1, *p2, *p3) == 0 ==> r == (if all_collinear(*p0, *p1, *p2, *p3) {
            LineIntersection::CoincidentLine
        } else {
            LineIntersection::NoIntersection
        }),
        dir_cross(*p0, *p1, *p2, *p3) != 0 ==> ((r is Point) <==> (in_unit(
            t_numer(*p0, *p1, *p2, *p3),
            dir_cross(*p0, *p1, *p2, *p3),
        ) && in_unit(s_numer(*p0, *p1, *p2, *p3), dir_cross(*p0, *p1, *p2, *p3)))),
        r is Point ==> r == LineIntersection::Point(cross_point(*p0, *p1, *p2, *p3)),
        dir_cross(*p0, *p1, *p2, *p3) != 0 && !(r is Point) ==> r
            == LineIntersection::NoIntersection,
        r matches LineIntersection::Point(pt) ==> {
            &&& in_range(pt)
            &&& area_num(*p0, *p1, pt) == 0
            &&& area_num(*p2, *p3, pt) == 0
            &&& dn(pt) == (if dir_cross(*p0, *p1, *p2, *p3) > 0 {
                dir_cross(*p0, *p1, *p2, *p3)
            } else {
                -dir_cross(*p0, *p1, *p2, *p3)
            })
        },
{
    let s1_x: i64 = p1.x_num - p0.x_num;
    let s1_y: i64 = p1.y_num - p0.y_num;
    let s2_x: i64 = p3.x_num - p2.x_num;
    let s2_y: i64 = p3.y_num - p2.y_num;

    proof {
        lemma_mul_bound(s1_x as int, s2_y as int, 2048, 2048);
        lemma_mul_bound(s2_x as int, s1_y as int, 2048, 2048);
        lemma_mul_bound(s2_x as int, (p0.y_num - p2.y_num) as int, 2048, 2048);
        lemma_mul_bound(s2_y as int, (p0.x_num - p2.x_num) as int, 2048, 2048);
        lemma_mul_bound(s1_x as int, (p0.y_num - p2.y_num) as int, 2048, 2048);
        lemma_mul_bound(s1_y as int, (p0.x_num - p2.x_num) as int, 2048, 2048);
    }
    let coef_div: i64 = s1_x * s2_y - s2_x * s1_y;

    if coef_div == 0 {
        // Parallel directions: either one common line or no intersection.
        let a1 = crate::utils::calculate_signed_area3(p0, p1, p2);
        let a2 = crate::utils::calculate_signed_area3(p0, p1, p3);
        let a3 = crate::utils::calculate_signed_area3(p2, p3, p0);
        let a4 = crate::utils::calculate_signed_area3(p2, p3, p1);
        if a1 == 0 && a2 == 0 && a3 == 0 && a4 == 0 {
            LineIntersection::CoincidentLine
        } else {
            LineIntersection::NoIntersection
        }
    } else {
        let t_num: i64 = s2_x * (p0.y_num - p2.y_num) - s2_y * (p0.x_num - p2.x_num);
        let s_num: i64 = s1_x * (p0.y_num - p2.y_num) - s1_y * (p0.x_num - p2.x_num);

        let t_ok = if coef_div > 0 {
            0 <= t_num && t_num <= coef_div
        } else {
            coef_div <= t_num && t_num <= 0
        };
        let s_ok = if coef_div > 0 {
            0 <= s_num && s_num <= coef_div
        } else {
            coef_div <= s_num && s_num <= 0
        };

        if t_ok && s_ok {
            proof {
                lemma_mul_bound(xn(*p0), coef_div as int, 1024, 8388608);
                lemma_mul_bound(yn(*p0), coef_div as int, 1024, 8388608);
                lemma_mul_bound(t_num as int, s1_x as int, 8388608, 2048);
                lemma_mul_bound(t_num as int, s1_y as int, 8388608, 2048);
            }
            let raw_x: i64 = p0.x_num * coef_div + t_num * s1_x;
            let raw_y: i64 = p0.y_num * coef_div + t_num * s1_y;
            let pt = if coef_div > 0 {
                Point2D { x_num: raw_x, y_num: raw_y, den: coef_div }
            } else {
                Point2D { x_num: -raw_x, y_num: -raw_y, den: -coef_div }
            };
            proof {
                lemma_intersection_on_lines(*p0, *p1, *p2, *p3, pt);
            }
            LineIntersection::Point(pt)
        } else {
            LineIntersection::NoIntersection
        }
    }
}

/// The point constructed by the parametric solve lies on both supporting
/// lines: substituting it into either line's orientation test gives zero.
proof fn lemma_intersection_on_lines(p0: Point2D, p1: Point2D, p2: Point2D, p3: Point2D, pt: Point2D)
    requires
        grid(p0),
        grid(p1),
        grid(p2),
        grid(p3),
        dir_cross(p0, p1, p2, p3) != 0,
        dn(pt) == (if dir_cross(p0, p1, p2, p3) > 0 {
            dir_cross(p0, p1, p2, p3)
        } else {
            -dir_cross(p0, p1, p2, p3)
        }),
        xn(pt) == (if dir_cross(p0, p1, p2, p3) > 0 {
            xn(p0) * dir_cross(p0, p1, p2, p3) + t_numer(p0, p1, p2, p3) * (xn(p1) - xn(p0))
        } else {
            -(xn(p0) * dir_cross(p0, p1, p2, p3) + t_numer(p0, p1, p2, p3) * (xn(p1) - xn(p0)))
        }),
        yn(pt) == (if dir_cross(p0, p1, p2, p3) > 0 {
            yn(p0) * dir_cross(p0, p1, p2, p3) + t_numer(p0, p1, p2, p3) * (yn(p1) - yn(p0))
        } else {
            -(yn(p0) * dir_cross(p0, p1, p2, p3) + t_numer(p0, p1, p2, p3) * (yn(p1) - yn(p0)))
        }),
    ensures
        area_num(p0, p1, pt) == 0,
        area_num(p2, p3, pt) == 0,
{
    let d = dir_cross(p0, p1, p2, p3);
    let t = t_numer(p0, p1, p2, p3);
    assert(area_num(p0, p1, pt) == 0) by (nonlinear_arith)
        requires
            dn(p0) == 1,
            dn(p1) == 1,
            d == (xn(p1) - xn(p0)) * (yn(p3) - yn(p2)) - (xn(p3) - xn(p2)) * (yn(p1) - yn(p0)),
            d != 0,
            dn(pt) == (if d > 0 { d } else { -d }),
            xn(pt) == (if d > 0 {
                xn(p0) * d + t * (xn(p1) - xn(p0))
            } else {
                -(xn(p0) * d + t * (xn(p1) - xn(p0)))
            }),
            yn(pt) == (if d > 0 {
                yn(p0) * d + t * (yn(p1) - yn(p0))
            } else {
                -(yn(p0) * d + t * (yn(p1) - yn(p0)))
            }),
            area_num(p0, p1, pt) == (xn(p1) * dn(p0) - xn(p0) * dn(p1)) * (yn(pt) * dn(p0) - yn(p0)
                * dn(pt)) - (yn(p1) * dn(p0) - yn(p0) * dn(p1)) * (xn(pt) * dn(p0) - xn(p0) * dn(
                pt,
            )),
    ;
    let sx = xn(p1) - xn(p0);
    let sy = yn(p1) - yn(p0);
    let qx = xn(p3) - xn(p2);
    let qy = yn(p3) - yn(p2);
    let ex = xn(p0) - xn(p2);
    let ey = yn(p0) - yn(p2);
    lemma_param_cancel(sx, sy, qx, qy, ex, ey, d, t);
    if d > 0 {
        assert(xn(pt) - xn(p2) * dn(pt) == ex * d + t * sx) by (nonlinear_arith)
            requires
                xn(pt) == xn(p0) * d + t * sx,
                dn(pt) == d,
                ex == xn(p0) - xn(p2),
        ;
        assert(yn(pt) - yn(p2) * dn(pt) == ey * d + t * sy) by (nonlinear_arith)
            requires
                yn(pt) == yn(p0) * d + t * sy,
                dn(pt) == d,
                ey == yn(p0) - yn(p2),
        ;
        assert(area_num(p2, p3, pt) == qx * (ey * d + t * sy) - qy * (ex * d + t * sx));
    } else {
        assert(xn(pt) - xn(p2) * dn(pt) == -(ex * d + t * sx)) by (nonlinear_arith)
            requires
                xn(pt) == -(xn(p0) * d + t * sx),
                dn(pt) == -d,
                ex == xn(p0) - xn(p2),
        ;
        assert(yn(pt) - yn(p2) * dn(pt) == -(ey * d + t * sy)) by (nonlinear_arith)
            requires
                yn(pt) == -(yn(p0) * d + t * sy),
                dn(pt) == -d,
                ey == yn(p0) - yn(p2),
        ;
        assert(area_num(p2, p3, pt) == qx * (-(ey * d + t * sy)) - qy * (-(ex * d + t * sx)));
        assert(qx * (-(ey * d + t * sy)) - qy * (-(ex * d + t * sx)) == -(qx * (ey * d + t * sy)
            - qy * (ex * d + t * sx))) by (nonlinear_arith);
    }
}

/// Substituting the parametric intersection point into the second line's
/// orientation test cancels exactly.
proof fn lemma_param_cancel(sx: int, sy: int, qx: int, qy: int, ex: int, ey: int, d: int, t: int)
    requires
        d == sx * qy - qx * sy,
        t == qx * ey - qy * ex,
    ensures
        qx * (ey * d + t * sy) - qy * (ex * d + t * sx) == 0,
{
    vstd::arithmetic::mul::lemma_mul_is_distributive_add(qx, ey * d, t * sy);
    vstd::arithmetic::mul::lemma_mul_is_distributive_add(qy, ex * d, t * sx);
    assert(qx * (ey * d) == d * (qx * ey)) by (nonlinear_arith);
    assert(qy * (ex * d) == d * (qy * ex)) by (nonlinear_arith);
    assert(qx * (t * sy) == t * (qx * sy)) by (nonlinear_arith);
    assert(qy * (t * sx) == t * (qy * sx)) by (nonlinear_arith);
    vstd::arithmetic::mul::lemma_mul_is_distributive_sub(d, qx * ey, qy * ex);
    vstd::arithmetic::mul::lemma_mul_is_distributive_sub(t, qx * sy, qy * sx);
    assert(qx * ey - qy * ex == t);
    assert(qx * sy - qy * sx == -d) by (nonlinear_arith)
        requires
            d == sx * qy - qx * sy,
    ;
    assert(d * t + t * (-d) == 0) by (nonlinear_arith);
}

/// Do `a` and `b` denote the same point of the plane?
pub fn same_point(a: &Point2D, b: &Point2D) -> (r: bool)
    requires
        in_range(*a),
        in_range(*b),
    ensures
        r == pt_eq(*a, *b),
{
    proof {
        lemma_mul_bound(xn(*a), dn(*b), MAX_NUM as int, MAX_DEN as int);
        lemma_mul_bound(xn(*b), dn(*a), MAX_NUM as int, MAX_DEN as int);
        lemma_mul_bound(yn(*a), dn(*b), MAX_NUM as int, MAX_DEN as int);
        lemma_mul_bound(yn(*b), dn(*a), MAX_NUM as int, MAX_DEN as int);
    }
    (a.x_num as i128) * (b.den as i128) == (b.x_num as i128) * (a.den as i128)
        && (a.y_num as i128) * (b.den as i128) == (b.y_num as i128) * (a.den as i128)
}

/// Is the x coordinate of `a` strictly less than that of `b`?
pub fn x_less(a: &Point2D, b: &Point2D) -> (r: bool)
    requires
        in_range(*a),
        in_range(*b),
    ensures
        r == x_lt(*a, *b),
{
    proof {
        lemma_mul_bound(xn(*a), dn(*b), MAX_NUM as int, MAX_DEN as int);
        lemma_mul_bound(xn(*b), dn(*a), MAX_NUM as int, MAX_DEN as int);
    }
    (a.x_num as i128) * (b.den as i128) < (b.x_num as i128) * (a.den as i128)
}

/// Do the x coordinates of `a` and `b` denote the same rational?
pub fn x_same(a: &Point2D, b: &Point2D) -> (r: bool)
    requires
        in_range(*a),
        in_range(*b),
    ensures
        r == x_eq(*a, *b),
{
    proof {
        lemma_mul_bound(xn(*a), dn(*b), MAX_NUM as int, MAX_DEN as int);
        lemma_mul_bound(xn(*b), dn(*a), MAX_NUM as int, MAX_DEN as int);
    }
    (a.x_num as i128) * (b.den as i128) == (b.x_num as i128) * (a.den as i128)
}

/// Is the y coordinate of `a` strictly less than that of `b`?
pub fn y_less(a: &Point2D, b: &Point2D) -> (r: bool)
    requires
        in_range(*a),
        in_range(*b),
    ensures
        r == y_lt(*a, *b),
{
    proof {
        lemma_mul_bound(yn(*a), dn(*b), MAX_NUM as int, MAX_DEN as int);
        lemma_mul_bound(yn(*b), dn(*a), MAX_NUM as int, MAX_DEN as int);
    }
    (a.y_num as i128) * (b.den as i128) < (b.y_num as i128) * (a.den as i128)
}

/// Is `a` strictly before `b` in lexicographic point order?
pub fn lex_less(a: &Point2D, b: &Point2D) -> (r: bool)
    requires
        in_range(*a),
        in_range(*b),
    ensures
        r == lex_lt(*a, *b),
{
    if x_less(a, b) {
        true
    } else if x_same(a, b) {
        y_less(a, b)
    } else {
        false
    }
}

/// Is `a` before `b` or equal to it in lexicographic point order?
pub fn lex_leq(a: &Point2D, b: &Point2D) -> (r: bool)
    requires
        in_range(*a),
        in_range(*b),
    ensures
        r == lex_le(*a, *b),
{
    if x_less(a, b) {
        true
    } else if x_same(a, b) {
        !y_less(b, a)
    } else {
        false
    }
}

} // verus!
