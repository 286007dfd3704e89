use polyclip::{same_point, BoolOpError, Point2D, Polygon};

fn pt(x: i64, y: i64) -> Point2D {
    Point2D { x_num: x, y_num: y, den: 1 }
}

fn poly(pts: &[(i64, i64)]) -> Polygon {
    Polygon {
        nodes: pts.iter().map(|&(x, y)| pt(x, y)).collect(),
        is_hole: false,
        is_closed: true,
        winding: None,
    }
}

fn empty() -> Polygon {
    Polygon { nodes: Vec::new(), is_hole: false, is_closed: true, winding: None }
}

/// Does the polygon, read as a cyclic sequence in either direction, equal
/// the expected loop by point value?
fn loop_matches(got: &Polygon, expected: &[(i64, i64)]) -> bool {
    let n = got.nodes.len();
    if n != expected.len() {
        return false;
    }
    let exp: Vec<Point2D> = expected.iter().map(|&(x, y)| pt(x, y)).collect();
    for start in 0..n {
        let forward = (0..n).all(|k| same_point(&got.nodes[(start + k) % n], &exp[k]));
        let backward = (0..n).all(|k| same_point(&got.nodes[(start + n - k) % n], &exp[k]));
        if forward || backward {
            return true;
        }
    }
    false
}

fn assert_single_loop(r: Result<Vec<Polygon>, BoolOpError>, expected: &[(i64, i64)]) {
    let v = r.expect("operation failed");
    assert!(v.len() == 1, "expected one polygon, got {:?}", v);
    assert!(v[0].is_closed);
    assert!(loop_matches(&v[0], expected), "loop mismatch, got {:?}", v[0].nodes);
}

fn subject_triangle() -> Polygon {
    poly(&[(5, 5), (10, 10), (10, 5)])
}

fn clip_triangle() -> Polygon {
    poly(&[(7, 5), (12, 10), (12, 5)])
}

#[test]
fn test_scenario_triangles_intersect() {
    // The overlapping lens of the two triangles.
    let r = subject_triangle().subtract(&clip_triangle());
    assert_single_loop(r, &[(7, 5), (10, 5), (10, 8)]);
}

#[test]
fn test_scenario_triangles_difference() {
    // The subject minus the lens.
    let r = subject_triangle().difference(&clip_triangle());
    assert_single_loop(r, &[(5, 5), (7, 5), (10, 8), (10, 10)]);
}

#[test]
fn test_scenario_triangles_union() {
    // One closed loop around both triangles; subdivision points on the
    // shared bottom line remain as vertices.
    let r = subject_triangle().union(&clip_triangle());
    assert_single_loop(r, &[(5, 5), (7, 5), (10, 5), (12, 5), (12, 10), (10, 8), (10, 10)]);
}

#[test]
fn test_scenario_triangles_commutative() {
    // Union and intersection do not depend on the argument order.
    let a = subject_triangle();
    let b = clip_triangle();
    let u1 = a.union(&b).expect("union a b");
    let u2 = b.union(&a).expect("union b a");
    assert_eq!(u1.len(), 1);
    assert_eq!(u2.len(), 1);
    assert!(loop_matches(&u2[0], &[(5, 5), (7, 5), (10, 5), (12, 5), (12, 10), (10, 8), (10, 10)]));
    let i1 = a.subtract(&b).expect("intersect a b");
    let i2 = b.subtract(&a).expect("intersect b a");
    assert_eq!(i1.len(), 1);
    assert_eq!(i2.len(), 1);
    assert!(loop_matches(&i2[0], &[(7, 5), (10, 5), (10, 8)]));
}

#[test]
fn test_scenario_disjoint_squares() {
    // Unit squares with disjoint bounding boxes follow the trivial table.
    let a = poly(&[(0, 0), (1, 0), (1, 1), (0, 1)]);
    let b = poly(&[(5, 5), (6, 5), (6, 6), (5, 6)]);
    let u = a.union(&b).expect("union");
    assert_eq!(u.len(), 2);
    assert!(loop_matches(&u[0], &[(0, 0), (1, 0), (1, 1), (0, 1)]));
    assert!(loop_matches(&u[1], &[(5, 5), (6, 5), (6, 6), (5, 6)]));
    let i = a.subtract(&b).expect("intersect");
    assert_eq!(i.len(), 0);
    let d = a.difference(&b).expect("difference");
    assert_eq!(d.len(), 1);
    assert!(loop_matches(&d[0], &[(0, 0), (1, 0), (1, 1), (0, 1)]));
}

#[test]
fn test_idempotence_square() {
    // union(A, A) and intersect(A, A) are A; difference and xor are empty.
    let a = poly(&[(0, 0), (4, 0), (4, 4), (0, 4)]);
    let u = a.union(&a).expect("union");
    assert_eq!(u.len(), 1);
    assert!(loop_matches(&u[0], &[(0, 0), (4, 0), (4, 4), (0, 4)]));
    let i = a.subtract(&a).expect("intersect");
    assert_eq!(i.len(), 1);
    assert!(loop_matches(&i[0], &[(0, 0), (4, 0), (4, 4), (0, 4)]));
    let d = a.difference(&a).expect("difference");
    assert_eq!(d.len(), 0);
    let x = a.xor(&a).expect("xor");
    assert_eq!(x.len(), 0);
}

#[test]
fn test_idempotence_triangle() {
    let a = subject_triangle();
    let u = a.union(&a).expect("union");
    assert_eq!(u.len(), 1);
    assert!(loop_matches(&u[0], &[(5, 5), (10, 10), (10, 5)]));
    let d = a.difference(&a).expect("difference");
    assert_eq!(d.len(), 0);
}

#[test]
fn test_degenerate_tables() {
    // The fixed answers for an empty operand.
    let b = poly(&[(0, 0), (3, 0), (0, 3)]);
    let e = empty();

    let u = e.union(&b).expect("empty union b");
    assert_eq!(u.len(), 1);
    assert!(loop_matches(&u[0], &[(0, 0), (3, 0), (0, 3)]));

    let u2 = b.union(&e).expect("b union empty");
    assert_eq!(u2.len(), 1);
    assert!(loop_matches(&u2[0], &[(0, 0), (3, 0), (0, 3)]));

    let i = e.subtract(&b).expect("empty intersect b");
    assert_eq!(i.len(), 0);
    let i2 = b.subtract(&e).expect("b intersect empty");
    assert_eq!(i2.len(), 0);

    // Difference leaves the subject unchanged.
    let d = b.difference(&e).expect("b difference empty");
    assert_eq!(d.len(), 1);
    assert!(loop_matches(&d[0], &[(0, 0), (3, 0), (0, 3)]));
    let d2 = e.difference(&b).expect("empty difference b");
    assert_eq!(d2.len(), 1);
    assert_eq!(d2[0].nodes.len(), 0);

    let x = e.xor(&b).expect("empty xor b");
    assert_eq!(x.len(), 1);
    assert!(loop_matches(&x[0], &[(0, 0), (3, 0), (0, 3)]));
}

#[test]
fn test_invalid_input() {
    // One or two vertices, with a non-empty other operand: rejected.
    let line = poly(&[(0, 0), (5, 5)]);
    let b = poly(&[(0, 0), (3, 0), (0, 3)]);
    assert!(matches!(line.union(&b), Err(BoolOpError::InvalidInput)));
    assert!(matches!(b.subtract(&line), Err(BoolOpError::InvalidInput)));
    assert!(matches!(line.difference(&b), Err(BoolOpError::InvalidInput)));
    assert!(matches!(b.xor(&line), Err(BoolOpError::InvalidInput)));
}

#[test]
fn test_self_overlapping_polygon() {
    // Two collinear overlapping edges of one input polygon abort the
    // operation.
    let bad = poly(&[(0, 0), (10, 0), (3, 0), (3, 5)]);
    let b = poly(&[(0, 2), (6, 2), (3, 8)]);
    assert!(matches!(bad.union(&b), Err(BoolOpError::SelfOverlappingPolygon)));
    assert!(matches!(bad.subtract(&b), Err(BoolOpError::SelfOverlappingPolygon)));
}

#[test]
fn test_overlapping_squares_union() {
    // Two squares sharing a 1x2 strip.
    let a = poly(&[(0, 0), (2, 0), (2, 2), (0, 2)]);
    let b = poly(&[(1, 0), (3, 0), (3, 2), (1, 2)]);
    let u = a.union(&b).expect("union");
    assert_eq!(u.len(), 1);
    assert!(
        loop_matches(&u[0], &[(0, 0), (1, 0), (2, 0), (3, 0), (3, 2), (2, 2), (1, 2), (0, 2)]),
        "got {:?}",
        u[0].nodes
    );
    let i = a.subtract(&b).expect("intersect");
    assert_eq!(i.len(), 1);
    assert!(loop_matches(&i[0], &[(1, 0), (2, 0), (2, 2), (1, 2)]), "got {:?}", i[0].nodes);
    let d = a.difference(&b).expect("difference");
    assert_eq!(d.len(), 1);
    assert!(loop_matches(&d[0], &[(0, 0), (1, 0), (1, 2), (0, 2)]), "got {:?}", d[0].nodes);
}

fn loop_matches_pts(got: &Polygon, expected: &[Point2D]) -> bool {
    let n = got.nodes.len();
    if n != expected.len() {
        return false;
    }
    for start in 0..n {
        let forward = (0..n).all(|k| same_point(&got.nodes[(start + k) % n], &expected[k]));
        let backward = (0..n).all(|k| same_point(&got.nodes[(start + n - k) % n], &expected[k]));
        if forward || backward {
            return true;
        }
    }
    false
}

#[test]
fn test_difference_splits_in_two() {
    // Cutting a horizontal strip out of a square leaves two rectangles.
    let a = poly(&[(0, 0), (10, 0), (10, 10), (0, 10)]);
    let strip = poly(&[(-20, 4), (20, 4), (20, 6), (-20, 6)]);
    let d = a.difference(&strip).expect("difference");
    assert_eq!(d.len(), 2, "got {:?}", d);
    let bottom = [(0, 0), (10, 0), (10, 4), (0, 4)];
    let top = [(0, 6), (10, 6), (10, 10), (0, 10)];
    assert!(
        (loop_matches(&d[0], &bottom) && loop_matches(&d[1], &top))
            || (loop_matches(&d[0], &top) && loop_matches(&d[1], &bottom)),
        "got {:?}",
        d
    );
}

#[test]
fn test_xor_overlapping_squares() {
    // The symmetric difference of two overlapping squares is two strips.
    let a = poly(&[(0, 0), (2, 0), (2, 2), (0, 2)]);
    let b = poly(&[(1, 0), (3, 0), (3, 2), (1, 2)]);
    let x = a.xor(&b).expect("xor");
    assert_eq!(x.len(), 2, "got {:?}", x);
    let left = [(0, 0), (1, 0), (1, 2), (0, 2)];
    let right = [(2, 0), (3, 0), (3, 2), (2, 2)];
    assert!(
        (loop_matches(&x[0], &left) && loop_matches(&x[1], &right))
            || (loop_matches(&x[0], &right) && loop_matches(&x[1], &left)),
        "got {:?}",
        x
    );
}

#[test]
fn test_extreme_coordinates() {
    // Inputs touching the limits of the coordinate grid.
    let a = poly(&[(-1024, -1024), (0, -1024), (0, 0), (-1024, 0)]);
    let b = poly(&[(-512, -512), (1024, -512), (1024, 1024), (-512, 1024)]);
    let i = a.subtract(&b).expect("intersect");
    assert_eq!(i.len(), 1);
    assert!(
        loop_matches(&i[0], &[(-512, -512), (0, -512), (0, 0), (-512, 0)]),
        "got {:?}",
        i[0].nodes
    );
}

#[test]
fn test_rational_intersection_vertex() {
    // A lens with a vertex off the integer grid: the hypotenuse x + 2y = 10
    // meets the line x = 3 at (3, 7/2), kept exactly.
    let tri = poly(&[(0, 0), (10, 0), (0, 5)]);
    let sq = poly(&[(3, 1), (9, 1), (9, 9), (3, 9)]);
    let i = tri.subtract(&sq).expect("intersect");
    assert_eq!(i.len(), 1, "got {:?}", i);
    let expected = [
        Point2D { x_num: 3, y_num: 1, den: 1 },
        Point2D { x_num: 8, y_num: 1, den: 1 },
        Point2D { x_num: 6, y_num: 7, den: 2 },
    ];
    assert!(loop_matches_pts(&i[0], &expected), "got {:?}", i[0].nodes);
}

#[test]
fn test_shared_vertex_squares() {
    // Two squares touching in exactly one corner.
    let a = poly(&[(0, 0), (2, 0), (2, 2), (0, 2)]);
    let b = poly(&[(2, 2), (4, 2), (4, 4), (2, 4)]);
    let i = a.subtract(&b).expect("intersect");
    assert_eq!(i.len(), 0, "got {:?}", i);
    let d = a.difference(&b).expect("difference");
    assert_eq!(d.len(), 1);
    assert!(loop_matches(&d[0], &[(0, 0), (2, 0), (2, 2), (0, 2)]), "got {:?}", d[0].nodes);
}

#[test]
fn test_union_creates_ring() {
    // A U-shaped polygon capped by a square: the union is a square ring,
    // one outer loop and one inner loop around the hole.
    let u_shape = poly(&[(0, 0), (9, 0), (9, 9), (6, 9), (6, 3), (3, 3), (3, 9), (0, 9)]);
    let cap = poly(&[(3, 6), (6, 6), (6, 9), (3, 9)]);
    let r = u_shape.union(&cap).expect("union");
    assert_eq!(r.len(), 2, "got {:?}", r);
    let outer = [(0, 0), (9, 0), (9, 9), (6, 9), (3, 9), (0, 9)];
    let hole = [(3, 3), (6, 3), (6, 6), (3, 6)];
    let outer_first = loop_matches(&r[0], &outer) && loop_matches(&r[1], &hole);
    let hole_first = loop_matches(&r[0], &hole) && loop_matches(&r[1], &outer);
    assert!(outer_first || hole_first, "got {:?}", r);
}
