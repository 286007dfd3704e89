use polyclip::{Connector, Point2D, PointChain, Segment};

fn pt(x: i64, y: i64) -> Point2D {
    Point2D { x_num: x, y_num: y, den: 1 }
}

fn seg(a: (i64, i64), b: (i64, i64)) -> Segment {
    Segment { begin_pt: pt(a.0, a.1), end_pt: pt(b.0, b.1) }
}

#[test]
fn test_chain_init_and_link() {
    let mut c = PointChain::init(seg((0, 0), (1, 0)));
    assert!(!c.is_closed());
    assert_eq!(c.nodes_ref().len(), 2);

    // Extend at the back.
    assert!(c.link_segment(seg((1, 0), (1, 1))));
    assert_eq!(c.nodes_ref().len(), 3);
    assert!(!c.is_closed());

    // A segment that does not touch either end is refused.
    assert!(!c.link_segment(seg((5, 5), (6, 6))));
    assert_eq!(c.nodes_ref().len(), 3);

    // Closing the loop.
    assert!(c.link_segment(seg((1, 1), (0, 0))));
    assert!(c.is_closed());
}

#[test]
fn test_chain_is_closed_accessor() {
    let c = PointChain::init(seg((0, 0), (2, 0)));
    assert!(!c.is_closed());
}

#[test]
fn test_chain_link_front() {
    let mut c = PointChain::init(seg((1, 0), (2, 0)));
    // Matching the front extends at the front.
    assert!(c.link_segment(seg((0, 0), (1, 0))));
    let nodes = c.nodes_ref();
    assert_eq!(nodes[0].x_num, 0);
    assert_eq!(nodes[2].x_num, 2);
}

#[test]
fn test_chain_welding() {
    let mut a = PointChain::init(seg((0, 0), (1, 0)));
    let b = PointChain::init(seg((1, 0), (2, 0)));
    assert!(a.link_point_chain(b));
    assert_eq!(a.nodes_ref().len(), 3);
    assert_eq!(a.nodes_ref()[2].x_num, 2);
}

#[test]
fn test_connector_assembles_square() {
    // Four sides of a unit square, in scrambled order, become one closed
    // polygon.
    let mut c = Connector::new();
    c.add_segment(seg((0, 0), (1, 0)));
    c.add_segment(seg((1, 1), (0, 1)));
    c.add_segment(seg((1, 0), (1, 1)));
    c.add_segment(seg((0, 1), (0, 0)));
    let polys = c.to_polygons().expect("square should close");
    assert_eq!(polys.len(), 1);
    assert!(polys[0].is_closed);
    assert_eq!(polys[0].nodes.len(), 4);
}

#[test]
fn test_connector_open_chain_is_error() {
    // A dangling segment leaves an open chain: assembly must fail.
    let mut c = Connector::new();
    c.add_segment(seg((0, 0), (1, 0)));
    assert!(c.to_polygons().is_err());
}

#[test]
fn test_connector_empty_is_ok() {
    let c = Connector::new();
    let polys = c.to_polygons().expect("no chains is a valid empty result");
    assert_eq!(polys.len(), 0);
}

#[test]
fn test_segment_orientation() {
    let mut s = seg((0, 0), (3, 4));
    s.change_orientation();
    assert_eq!(s.begin_pt.x_num, 3);
    assert_eq!(s.end_pt.x_num, 0);
    s.set_begin(pt(7, 7));
    assert_eq!(s.begin_pt.x_num, 7);
    s.set_end(pt(8, 8));
    assert_eq!(s.end_pt.y_num, 8);
}
