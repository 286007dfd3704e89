use polyclip::{line_intersect, same_point, LineIntersection, Point2D};

fn pt(x: i64, y: i64) -> Point2D {
    Point2D { x_num: x, y_num: y, den: 1 }
}

fn is_none(r: LineIntersection) -> bool {
    r == LineIntersection::NoIntersection
}

fn is_some(r: LineIntersection) -> bool {
    r != LineIntersection::NoIntersection
}

#[test]
fn test_line_intersect_none() {
    // No Intersect
    let result1 = line_intersect(&pt(0, 0), &pt(2, 8), &pt(8, 0), &pt(0, 20));
    assert!(is_none(result1));
}

#[test]
fn test_line_intersect_intersect() {
    // Intersect
    let result1 = line_intersect(&pt(0, 10), &pt(2, 0), &pt(10, 0), &pt(0, 5));
    assert!(is_some(result1));
}

#[test]
fn test_line_intersect_parallel_vertical() {
    // Parallel, vertical
    let result = line_intersect(&pt(0, 0), &pt(0, 10), &pt(2, 0), &pt(2, 10));
    assert!(is_none(result));
}

#[test]
fn test_line_intersect_parallel_diagonal() {
    // Parallel, diagonal
    let result = line_intersect(&pt(0, 0), &pt(5, 5), &pt(2, 0), &pt(7, 5));
    assert!(is_none(result));
}

#[test]
fn test_line_intersect_colinear_overlap() {
    // Collinear, overlap
    let result = line_intersect(&pt(0, 0), &pt(5, 5), &pt(2, 2), &pt(7, 7));
    assert!(is_some(result));
}

#[test]
fn test_line_intersect_colinear_nooverlap() {
    // Collinear, no overlap
    let result = line_intersect(&pt(0, 0), &pt(5, 5), &pt(7, 7), &pt(10, 10));
    assert!(is_some(result));
}

#[test]
fn test_line_intersect_exact_point() {
    // The crossing of scenario C, computed exactly: (10/9, 40/9).
    let result = line_intersect(&pt(0, 10), &pt(2, 0), &pt(10, 0), &pt(0, 5));
    match result {
        LineIntersection::Point(p) => {
            assert!(same_point(&p, &Point2D { x_num: 10, y_num: 40, den: 9 }));
        }
        other => panic!("expected a point, got {:?}", other),
    }
}

#[test]
fn test_line_intersect_integer_point() {
    // Two diagonals of a square cross in its center.
    let result = line_intersect(&pt(0, 0), &pt(2, 2), &pt(0, 2), &pt(2, 0));
    match result {
        LineIntersection::Point(p) => {
            assert!(same_point(&p, &pt(1, 1)));
        }
        other => panic!("expected a point, got {:?}", other),
    }
}

#[test]
fn test_line_intersect_endpoint_touch() {
    // Segments sharing exactly one endpoint intersect in that point.
    let result = line_intersect(&pt(0, 0), &pt(4, 0), &pt(4, 0), &pt(4, 8));
    match result {
        LineIntersection::Point(p) => {
            assert!(same_point(&p, &pt(4, 0)));
        }
        other => panic!("expected a point, got {:?}", other),
    }
}
