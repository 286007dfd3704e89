use polyclip::{
    calculate_bounding_box, calculate_sign, calculate_signed_area2, calculate_signed_area3,
    calculate_winding_order, emit_decision, is_point_in_triangle, precedes, Bbox, BoolOpType,
    EdgeType, Point2D, PolygonType, Segment, Sign, SweepEvent, WindingOrder,
};

fn pt(x: i64, y: i64) -> Point2D {
    Point2D { x_num: x, y_num: y, den: 1 }
}

#[test]
fn test_signed_area3_values() {
    // Left turn, right turn, collinear: twice the triangle area, signed.
    assert_eq!(calculate_signed_area3(&pt(0, 0), &pt(2, 0), &pt(0, 2)), 4);
    assert_eq!(calculate_signed_area3(&pt(0, 0), &pt(0, 2), &pt(2, 0)), -4);
    assert_eq!(calculate_signed_area3(&pt(0, 0), &pt(1, 1), &pt(2, 2)), 0);
}

#[test]
fn test_signed_area2_values() {
    assert_eq!(calculate_signed_area2(&pt(1, 2), &pt(3, 4)), -2);
    assert_eq!(calculate_signed_area2(&pt(2, 0), &pt(0, 2)), 4);
}

#[test]
fn test_calculate_sign() {
    assert_eq!(calculate_sign(&pt(0, 0), &pt(2, 0), &pt(1, 5)), Sign::Positive);
    assert_eq!(calculate_sign(&pt(0, 0), &pt(2, 0), &pt(1, -5)), Sign::Negative);
    assert_eq!(calculate_sign(&pt(0, 0), &pt(2, 0), &pt(7, 0)), Sign::Equal);
}

#[test]
fn test_point_in_triangle() {
    let s = Segment { begin_pt: pt(0, 0), end_pt: pt(10, 0) };
    assert!(is_point_in_triangle(&s, &pt(0, 10), &pt(2, 2)));
    assert!(!is_point_in_triangle(&s, &pt(0, 10), &pt(20, 20)));
}

#[test]
fn test_winding_order() {
    let ccw = vec![pt(0, 0), pt(5, 0), pt(0, 5)];
    let cw = vec![pt(0, 5), pt(5, 0), pt(0, 0)];
    assert_eq!(calculate_winding_order(&ccw), WindingOrder::CounterClockwise);
    assert_eq!(calculate_winding_order(&cw), WindingOrder::Clockwise);
}

#[test]
fn test_bounding_box() {
    let nodes = vec![pt(1, 2), pt(-3, 7), pt(4, -1)];
    let bb = calculate_bounding_box(&nodes);
    assert_eq!(bb, Bbox { top: 7, right: 4, bottom: -1, left: -3 });
}

#[test]
fn test_bbox_overlaps() {
    let a = Bbox { top: 1, right: 1, bottom: 0, left: 0 };
    let b = Bbox { top: 6, right: 6, bottom: 5, left: 5 };
    let c = Bbox { top: 2, right: 2, bottom: 1, left: 1 };
    assert!(!a.overlaps(&b));
    assert!(a.overlaps(&c));
    // Touching boxes overlap: the test is strict.
    assert!(a.overlaps(&Bbox { top: 2, right: 2, bottom: 1, left: 1 }));
}

fn ev(p: Point2D, other_p: Point2D, left: bool, pl: PolygonType) -> SweepEvent {
    SweepEvent {
        p,
        other_p,
        other: 0,
        polygon_type: pl,
        left,
        in_out: false,
        is_inside: false,
        edge_type: EdgeType::Normal,
        orig_a: if left { p } else { other_p },
        orig_b: if left { other_p } else { p },
    }
}

fn sample_events() -> Vec<SweepEvent> {
    // A small mix of left and right events, several sharing a point.
    let mut v = Vec::new();
    let edges = [
        ((0, 0), (4, 1)),
        ((0, 0), (4, 4)),
        ((0, 0), (0, 3)),
        ((1, 1), (4, 0)),
        ((2, 2), (4, 2)),
        ((0, 1), (3, 3)),
    ];
    for &((ax, ay), (bx, by)) in edges.iter() {
        let a = pt(ax, ay);
        let b = pt(bx, by);
        v.push(ev(a, b, true, PolygonType::Subject));
        v.push(ev(b, a, false, PolygonType::Subject));
        v.push(ev(a, b, true, PolygonType::Clipping));
        v.push(ev(b, a, false, PolygonType::Clipping));
    }
    v
}

fn sort_events(mut v: Vec<SweepEvent>) -> Vec<SweepEvent> {
    // Insertion sort by the sweep comparator.
    let mut out: Vec<SweepEvent> = Vec::new();
    while let Some(e) = v.pop() {
        let mut i = 0;
        while i < out.len() && !precedes(&e, &out[i]) {
            i += 1;
        }
        out.insert(i, e);
    }
    out
}

fn key_of(e: &SweepEvent) -> (i64, i64, i64, bool, i64, i64, i64, bool) {
    (
        e.p.x_num,
        e.p.y_num,
        e.p.den,
        e.left,
        e.other_p.x_num,
        e.other_p.y_num,
        e.other_p.den,
        e.polygon_type == PolygonType::Subject,
    )
}

#[test]
fn test_precedes_sorting_is_stable_and_transitive() {
    // Sorting twice yields the same order, and no triple violates
    // transitivity.
    let sorted1 = sort_events(sample_events());
    let sorted2 = sort_events(sorted1.clone());
    let k1: Vec<_> = sorted1.iter().map(key_of).collect();
    let k2: Vec<_> = sorted2.iter().map(key_of).collect();
    assert_eq!(k1, k2);
    for i in 0..sorted1.len() {
        for j in 0..sorted1.len() {
            // Antisymmetry.
            assert!(!(precedes(&sorted1[i], &sorted1[j]) && precedes(&sorted1[j], &sorted1[i])));
            for k in 0..sorted1.len() {
                if precedes(&sorted1[i], &sorted1[j]) && precedes(&sorted1[j], &sorted1[k]) {
                    assert!(precedes(&sorted1[i], &sorted1[k]));
                }
            }
        }
    }
    // The sorted order is consistent: earlier elements never strictly follow
    // later ones.
    for i in 0..sorted1.len() {
        for j in (i + 1)..sorted1.len() {
            assert!(!precedes(&sorted1[j], &sorted1[i]));
        }
    }
}

#[test]
fn test_precedes_right_before_left() {
    // At one point a right event is processed before a left event.
    let r = ev(pt(2, 2), pt(0, 0), false, PolygonType::Subject);
    let l = ev(pt(2, 2), pt(4, 4), true, PolygonType::Subject);
    assert!(precedes(&r, &l));
    assert!(!precedes(&l, &r));
}

#[test]
fn test_precedes_lower_edge_first() {
    // Two left events at one point: the event of the lower edge precedes.
    let low = ev(pt(0, 0), pt(4, 1), true, PolygonType::Subject);
    let high = ev(pt(0, 0), pt(4, 4), true, PolygonType::Subject);
    assert!(precedes(&low, &high));
    assert!(!precedes(&high, &low));
}

#[test]
fn test_below_above() {
    let e = ev(pt(0, 0), pt(4, 0), true, PolygonType::Subject);
    assert!(e.below(&pt(2, 1)));
    assert!(!e.below(&pt(2, -1)));
    assert!(e.above(&pt(2, -1)));
    assert!(e.above(&pt(2, 0)));
}

#[test]
fn test_emission_table() {
    let n = EdgeType::Normal;
    let subj = PolygonType::Subject;
    let clip = PolygonType::Clipping;
    // Normal edges: inside goes to intersection, outside to union.
    assert!(emit_decision(BoolOpType::Intersection, n, subj, true));
    assert!(!emit_decision(BoolOpType::Intersection, n, subj, false));
    assert!(emit_decision(BoolOpType::Union, n, subj, false));
    assert!(!emit_decision(BoolOpType::Union, n, subj, true));
    // Difference keeps subject-outside and clipping-inside edges.
    assert!(emit_decision(BoolOpType::Difference, n, subj, false));
    assert!(!emit_decision(BoolOpType::Difference, n, subj, true));
    assert!(emit_decision(BoolOpType::Difference, n, clip, true));
    assert!(!emit_decision(BoolOpType::Difference, n, clip, false));
    // Xor always keeps a normal edge.
    assert!(emit_decision(BoolOpType::Xor, n, subj, true));
    assert!(emit_decision(BoolOpType::Xor, n, clip, false));
    // Overlapped edges follow their transition classification.
    for &pl in &[subj, clip] {
        for &ins in &[true, false] {
            assert!(emit_decision(BoolOpType::Intersection, EdgeType::SameTransition, pl, ins));
            assert!(emit_decision(BoolOpType::Union, EdgeType::SameTransition, pl, ins));
            assert!(!emit_decision(BoolOpType::Difference, EdgeType::SameTransition, pl, ins));
            assert!(!emit_decision(BoolOpType::Xor, EdgeType::SameTransition, pl, ins));
            assert!(emit_decision(BoolOpType::Difference, EdgeType::DifferentTransition, pl, ins));
            assert!(!emit_decision(BoolOpType::Union, EdgeType::DifferentTransition, pl, ins));
            assert!(!emit_decision(BoolOpType::Intersection, EdgeType::NonContributing, pl, ins));
            assert!(!emit_decision(BoolOpType::Xor, EdgeType::NonContributing, pl, ins));
        }
    }
}
