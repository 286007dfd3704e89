//! `polyclip` is a library for boolean operations on simple 2D polygons:
//! union, intersection (`subtract` in the historical API), difference and
//! exclusive-or, computed with the Martinez–Rueda–Feito sweep-line algorithm.
//!
//! Coordinates are exact rationals: input polygon vertices lie on a bounded
//! integer grid, and every intersection point produced by the sweep is kept as
//! an exact rational with a shared denominator, so all comparisons and
//! orientation tests are exact.

mod algorithm;
mod bbox;
mod connector;
mod point;
mod point_chain;
mod polygon;
mod segment;
mod sweep_event;
mod utils;

pub use point::{
    Point2D, LineIntersection, line_intersect, same_point, lex_less, lex_leq, x_less, x_same,
    y_less, MAX_COORD, MAX_DEN, MAX_NUM, xn, yn, dn, in_range, grid, pt_eq, x_eq, x_lt, y_eq,
    y_lt, lex_lt, lex_le, area_num, dir_cross, t_numer, s_numer, in_unit, all_collinear,
    cross_point,
};
pub use utils::{
    calculate_signed_area2, calculate_signed_area3, Sign, calculate_sign, is_point_in_triangle,
    calculate_winding_order, calculate_bounding_box, shoelace_term, shoelace_sum,
};
pub use sweep_event::{
    SweepEvent, PolygonType, EdgeType, precedes, precedes_spec, key_eq, wf_event, below_spec,
    lemma_precedes_irreflexive, lemma_precedes_antisymmetric, lemma_precedes_total,
    lemma_precedes_transitive,
};
pub use algorithm::{
    emit_decision, wf_link, wf_arena, wf_ids, frame_core, edge_src, edge_dst, live_edge,
    n_live_edges, twin_pair_at, create_sweep_events, divide_segment, possible_intersection,
    queue_pop_min, sl_insert, sl_find, status_below, same_line_proper_overlap, clip_pass,
    crossing_acts, needs_split, segs_cross, pair_cross_point, pi_noop, pi_crossing_post,
    sl_all_left,
};
pub use bbox::{Bbox, overlaps_spec};
pub use segment::Segment;
pub use point_chain::{
    PointChain, wf_chain, seq_rev, link_seg_result, chains_match_nodes, link_chain_nodes,
};
pub use connector::{Connector, seg_matches, chains_match_spec, add_match_post};
pub use polygon::{
    Polygon, WindingOrder, BoolOpError, BoolOpType, poly_eq, poly_grid, poly_in_range, separated,
    sweep_output_ok, calc_post, lemma_separated_symmetric, lemma_separated_trivial_table,
    lemma_degenerate_trivial_table, lemma_commutative_separated,
};
