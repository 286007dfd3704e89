//! Polygons and the boolean operations on them.

use vstd::prelude::*;
use crate::point::{Point2D, in_range, grid, xn, yn};
use crate::bbox::{Bbox, overlaps_spec};
use crate::utils::calculate_bounding_box;

verus! {

/// Winding order of a polygon's vertex list.
#[derive(Debug, Copy, Clone, PartialEq, Eq, Structural)]
pub enum WindingOrder {
    Clockwise,
    CounterClockwise,
}

/// Typed failure of a boolean operation.
#[derive(Debug, Copy, Clone, PartialEq, Eq, Structural)]
pub enum BoolOpError {
    /// An operation that requires area was given a polygon with fewer than
    /// three vertices in a context where no trivial answer applies.
    InvalidInput,
    /// Two edges of one input polygon overlap collinearly.
    SelfOverlappingPolygon,
    /// An open chain remained after output assembly.
    MalformedResult,
}

/// The boolean operation a sweep computes.
#[derive(Debug, Copy, Clone, PartialEq, Eq, Structural)]
pub enum BoolOpType {
    Intersection,
    Union,
    Difference,
    Xor,
}

/// A polygon: an ordered list of vertices with bookkeeping flags.
#[derive(Debug, Clone)]
pub struct Polygon {
    /// The vertices.
    pub nodes: Vec<Point2D>,
    /// Is this polygon a hole?
    pub is_hole: bool,
    /// Is this polygon closed?
    pub is_closed: bool,
    /// Cached winding order, if it has been computed.
    pub winding: Option<WindingOrder>,
}

/// Every vertex is an input grid point.
pub open spec fn poly_grid(p: Polygon) -> bool {
    forall|i: int| 0 <= i < p.nodes@.len() ==> grid(#[trigger] p.nodes@[i])
}

/// Every vertex satisfies the representation bounds.
pub open spec fn poly_in_range(p: Polygon) -> bool {
    forall|i: int| 0 <= i < p.nodes@.len() ==> in_range(#[trigger] p.nodes@[i])
}

/// The two polygons are equal field by field.
pub open spec fn poly_eq(a: Polygon, b: Polygon) -> bool {
    &&& a.nodes@ == b.nodes@
    &&& a.is_hole == b.is_hole
    &&& a.is_closed == b.is_closed
    &&& a.winding == b.winding
}

impl Default for Polygon {
    /// The empty closed polygon.
    fn default() -> (r: Self)
        ensures
            r.nodes@.len() == 0,
            !r.is_hole,
            r.is_closed,
            r.winding is None,
    {
        Polygon { nodes: Vec::new(), is_hole: false, is_closed: true, winding: None }
    }
}

/// The two vertex sets are strictly apart on some axis, which is exactly
/// when their bounding boxes do not overlap.
pub open spec fn separated(a: Seq<Point2D>, b: Seq<Point2D>) -> bool {
    ||| (forall|i: int, j: int|
        #![trigger a[i], b[j]]
        0 <= i < a.len() && 0 <= j < b.len() ==> xn(a[i]) < xn(b[j]))
    ||| (forall|i: int, j: int|
        #![trigger a[i], b[j]]
        0 <= i < a.len() && 0 <= j < b.len() ==> xn(b[j]) < xn(a[i]))
    ||| (forall|i: int, j: int|
        #![trigger a[i], b[j]]
        0 <= i < a.len() && 0 <= j < b.len() ==> yn(a[i]) < yn(b[j]))
    ||| (forall|i: int, j: int|
        #![trigger a[i], b[j]]
        0 <= i < a.len() && 0 <= j < b.len() ==> yn(b[j]) < yn(a[i]))
}

/// What a successful sweep returns: closed, non-empty polygons of exact
/// rational points, with no hole flag and no cached winding order.
pub open spec fn sweep_output_ok(v: Seq<Polygon>) -> bool {
    forall|k: int|
        0 <= k < v.len() ==> {
            &&& (#[trigger] v[k]).is_closed
            &&& !v[k].is_hole
            &&& v[k].winding is None
            &&& v[k].nodes@.len() >= 2
            &&& forall|m: int| 0 <= m < v[k].nodes@.len() ==> in_range(#[trigger] v[k].nodes@[m])
        }
}

/// The full contract of one boolean operation: the trivial tables for
/// degenerate and for separated inputs are followed exactly, a polygon with
/// one or two vertices is rejected, and a run of the sweep either yields
/// well-formed closed polygons or one of the two sweep errors.
pub open spec fn calc_post(
    op: BoolOpType,
    a: Polygon,
    b: Polygon,
    r: Result<Vec<Polygon>, BoolOpError>,
) -> bool {
    if a.nodes@.len() == 0 || b.nodes@.len() == 0 {
        match op {
            BoolOpType::Difference => r matches Ok(v) && v@.len() == 1 && poly_eq(v@[0], a),
            BoolOpType::Intersection => r matches Ok(v) && v@.len() == 0,
            _ => r matches Ok(v) && v@.len() == 1 && poly_eq(
                v@[0],
                if a.nodes@.len() == 0 {
                    b
                } else {
                    a
                },
            ),
        }
    } else if a.nodes@.len() < 3 || b.nodes@.len() < 3 {
        r == Err::<Vec<Polygon>, BoolOpError>(BoolOpError::InvalidInput)
    } else if separated(a.nodes@, b.nodes@) {
        match op {
            BoolOpType::Difference => r matches Ok(v) && v@.len() == 1 && poly_eq(v@[0], a),
            BoolOpType::Intersection => r matches Ok(v) && v@.len() == 0,
            _ => r matches Ok(v) && v@.len() == 2 && poly_eq(v@[0], a) && poly_eq(v@[1], b),
        }
    } else {
        &&& (r matches Ok(v) ==> sweep_output_ok(v@))
        &&& (r matches Err(e) ==> e == BoolOpError::SelfOverlappingPolygon || e
            == BoolOpError::MalformedResult)
    }
}

impl Polygon {
    /// A field-by-field copy of this polygon.
    pub fn duplicate(&self) -> (r: Polygon)
        ensures
            poly_eq(r, *self),
    {
        let mut v: Vec<Point2D> = Vec::new();
        let mut i: usize = 0;
        while i < self.nodes.len()
            invariant
                i <= self.nodes@.len(),
                v@ == self.nodes@.subrange(0, i as int),
            decreases self.nodes@.len() - i,
        {
            v.push(self.nodes[i]);
            i = i + 1;
        }
        assert(v@ =~= self.nodes@);
        Polygon { nodes: v, is_hole: self.is_hole, is_closed: self.is_closed, winding: self.winding }
    }

    /// The shared implementation of the four boolean operations: the trivial
    /// tables, the vertex-count check, and otherwise the sweep.
    fn calculate(&self, other: &Self, operation_type: BoolOpType) -> (r: Result<
        Vec<Polygon>,
        BoolOpError,
    >)
        requires
            poly_grid(*self),
            poly_grid(*other),
        ensures
            calc_post(operation_type, *self, *other, r),
    {
        // Trivial result: one of the polygons is empty.
        if self.nodes.len() == 0 || other.nodes.len() == 0 {
            match operation_type {
                BoolOpType::Difference => {
                    let mut v: Vec<Polygon> = Vec::new();
                    v.push(self.duplicate());
                    return Ok(v);
                },
                BoolOpType::Intersection => {
                    return Ok(Vec::new());
                },
                _ => {
                    let mut v: Vec<Polygon> = Vec::new();
                    if self.nodes.len() == 0 {
                        v.push(other.duplicate());
                    } else {
                        v.push(self.duplicate());
                    }
                    return Ok(v);
                },
            }
        }
        // A polygon with one or two vertices has no area to operate on.
        if self.nodes.len() < 3 || other.nodes.len() < 3 {
            return Err(BoolOpError::InvalidInput);
        }
        let self_bbox = calculate_bounding_box(&self.nodes);
        let other_bbox = calculate_bounding_box(&other.nodes);
        let ghost a = self.nodes@;
        let ghost b = other.nodes@;
        proof {
            let ir = choose|i: int| 0 <= i < a.len() && xn(a[i]) == self_bbox.right as int;
            let il = choose|i: int| 0 <= i < a.len() && xn(a[i]) == self_bbox.left as int;
            let it = choose|i: int| 0 <= i < a.len() && yn(a[i]) == self_bbox.top as int;
            let ib = choose|i: int| 0 <= i < a.len() && yn(a[i]) == self_bbox.bottom as int;
            let jr = choose|j: int| 0 <= j < b.len() && xn(b[j]) == other_bbox.right as int;
            let jl = choose|j: int| 0 <= j < b.len() && xn(b[j]) == other_bbox.left as int;
            let jt = choose|j: int| 0 <= j < b.len() && yn(b[j]) == other_bbox.top as int;
            let jb = choose|j: int| 0 <= j < b.len() && yn(b[j]) == other_bbox.bottom as int;
            assert(0 <= ir < a.len() && xn(a[ir]) == self_bbox.right as int);
            assert(0 <= il < a.len() && xn(a[il]) == self_bbox.left as int);
            assert(0 <= it < a.len() && yn(a[it]) == self_bbox.top as int);
            assert(0 <= ib < a.len() && yn(a[ib]) == self_bbox.bottom as int);
            assert(0 <= jr < b.len() && xn(b[jr]) == other_bbox.right as int);
            assert(0 <= jl < b.len() && xn(b[jl]) == other_bbox.left as int);
            assert(0 <= jt < b.len() && yn(b[jt]) == other_bbox.top as int);
            assert(0 <= jb < b.len() && yn(b[jb]) == other_bbox.bottom as int);
            if overlaps_spec(self_bbox, other_bbox) {
                // Each of the four separation directions contradicts one of
                // the attained bounds.
                assert(!separated(a, b));
            } else {
                if other_bbox.left > self_bbox.right {
                    assert forall|i: int, j: int|
                        #![trigger a[i], b[j]]
                        0 <= i < a.len() && 0 <= j < b.len() implies xn(a[i]) < xn(b[j]) by {}
                } else if other_bbox.right < self_bbox.left {
                    assert forall|i: int, j: int|
                        #![trigger a[i], b[j]]
                        0 <= i < a.len() && 0 <= j < b.len() implies xn(b[j]) < xn(a[i]) by {}
                } else if other_bbox.top < self_bbox.bottom {
                    assert forall|i: int, j: int|
                        #![trigger a[i], b[j]]
                        0 <= i < a.len() && 0 <= j < b.len() implies yn(b[j]) < yn(a[i]) by {}
                } else {
                    assert forall|i: int, j: int|
                        #![trigger a[i], b[j]]
                        0 <= i < a.len() && 0 <= j < b.len() implies yn(a[i]) < yn(b[j]) by {}
                }
                assert(separated(a, b));
            }
        }
        // Trivial result: the bounding boxes do not overlap.
        if !self_bbox.overlaps(&other_bbox) {
            match operation_type {
                BoolOpType::Difference => {
                    let mut v: Vec<Polygon> = Vec::new();
                    v.push(self.duplicate());
                    return Ok(v);
                },
                BoolOpType::Intersection => {
                    return Ok(Vec::new());
                },
                _ => {
                    let mut v: Vec<Polygon> = Vec::new();
                    v.push(self.duplicate());
                    v.push(other.duplicate());
                    return Ok(v);
                },
            }
        }
        let min_right = if self_bbox.right < other_bbox.right {
            self_bbox.right
        } else {
            other_bbox.right
        };
        crate::algorithm::run_sweep(
            &self.nodes,
            &other.nodes,
            operation_type,
            self_bbox.right,
            min_right,
        )
    }

    /// Set intersection of the two polygons (the historical name of this
    /// operation in this library).
    pub fn subtract(&self, other: &Self) -> (r: Result<Vec<Polygon>, BoolOpError>)
        requires
            poly_grid(*self),
            poly_grid(*other),
        ensures
            calc_post(BoolOpType::Intersection, *self, *other, r),
    {
        self.calculate(other, BoolOpType::Intersection)
    }

    /// Set intersection of the two polygons.
    pub fn intersect(&self, other: &Self) -> (r: Result<Vec<Polygon>, BoolOpError>)
        requires
            poly_grid(*self),
            poly_grid(*other),
        ensures
            calc_post(BoolOpType::Intersection, *self, *other, r),
    {
        self.calculate(other, BoolOpType::Intersection)
    }

    /// Set union of the two polygons.
    pub fn union(&self, other: &Self) -> (r: Result<Vec<Polygon>, BoolOpError>)
        requires
            poly_grid(*self),
            poly_grid(*other),
        ensures
            calc_post(BoolOpType::Union, *self, *other, r),
    {
        self.calculate(other, BoolOpType::Union)
    }

    /// Set difference: this polygon minus the other.
    pub fn difference(&self, other: &Self) -> (r: Result<Vec<Polygon>, BoolOpError>)
        requires
            poly_grid(*self),
            poly_grid(*other),
        ensures
            calc_post(BoolOpType::Difference, *self, *other, r),
    {
        self.calculate(other, BoolOpType::Difference)
    }

    /// Symmetric difference of the two polygons.
    pub fn xor(&self, other: &Self) -> (r: Result<Vec<Polygon>, BoolOpError>)
        requires
            poly_grid(*self),
            poly_grid(*other),
        ensures
            calc_post(BoolOpType::Xor, *self, *other, r),
    {
        self.calculate(other, BoolOpType::Xor)
    }
}

/// Separation of vertex sets is symmetric.
pub proof fn lemma_separated_symmetric(a: Seq<Point2D>, b: Seq<Point2D>)
    requires
        separated(a, b),
    ensures
        separated(b, a),
{
}

/// When the bounding boxes of two valid polygons do not overlap, union
/// returns both inputs unchanged, intersection returns nothing, and
/// difference returns the subject unchanged.
pub proof fn lemma_separated_trivial_table(
    a: Polygon,
    b: Polygon,
    ru: Result<Vec<Polygon>, BoolOpError>,
    ri: Result<Vec<Polygon>, BoolOpError>,
    rd: Result<Vec<Polygon>, BoolOpError>,
)
    requires
        a.nodes@.len() >= 3,
        b.nodes@.len() >= 3,
        separated(a.nodes@, b.nodes@),
        calc_post(BoolOpType::Union, a, b, ru),
        calc_post(BoolOpType::Intersection, a, b, ri),
        calc_post(BoolOpType::Difference, a, b, rd),
    ensures
        ru matches Ok(v) && v@.len() == 2 && poly_eq(v@[0], a) && poly_eq(v@[1], b),
        ri matches Ok(v) && v@.len() == 0,
        rd matches Ok(v) && v@.len() == 1 && poly_eq(v@[0], a),
{
}

/// The degenerate table: an empty operand forces the fixed per-operation
/// answer.  The empty polygon is the unit of union and symmetric difference,
/// absorbs intersection, and subtracting it changes nothing.
pub proof fn lemma_degenerate_trivial_table(
    a: Polygon,
    b: Polygon,
    ru: Result<Vec<Polygon>, BoolOpError>,
    ri: Result<Vec<Polygon>, BoolOpError>,
    rd: Result<Vec<Polygon>, BoolOpError>,
    rx: Result<Vec<Polygon>, BoolOpError>,
)
    requires
        a.nodes@.len() == 0,
        calc_post(BoolOpType::Union, a, b, ru),
        calc_post(BoolOpType::Intersection, a, b, ri),
        calc_post(BoolOpType::Difference, b, a, rd),
        calc_post(BoolOpType::Xor, a, b, rx),
    ensures
        ru matches Ok(v) && v@.len() == 1 && poly_eq(v@[0], b),
        ri matches Ok(v) && v@.len() == 0,
        rd matches Ok(v) && v@.len() == 1 && poly_eq(v@[0], b),
        rx matches Ok(v) && v@.len() == 1 && poly_eq(v@[0], b),
{
}

/// Commutativity of union, intersection and symmetric difference on inputs
/// whose bounding boxes do not overlap: both argument orders return the same
/// polygons as a pair, only their order in the answer differs.
pub proof fn lemma_commutative_separated(
    a: Polygon,
    b: Polygon,
    ru1: Result<Vec<Polygon>, BoolOpError>,
    ru2: Result<Vec<Polygon>, BoolOpError>,
    ri1: Result<Vec<Polygon>, BoolOpError>,
    ri2: Result<Vec<Polygon>, BoolOpError>,
    rx1: Result<Vec<Polygon>, BoolOpError>,
    rx2: Result<Vec<Polygon>, BoolOpError>,
)
    requires
        a.nodes@.len() >= 3,
        b.nodes@.len() >= 3,
        separated(a.nodes@, b.nodes@),
        calc_post(BoolOpType::Union, a, b, ru1),
        calc_post(BoolOpType::Union, b, a, ru2),
        calc_post(BoolOpType::Intersection, a, b, ri1),
        calc_post(BoolOpType::Intersection, b, a, ri2),
        calc_post(BoolOpType::Xor, a, b, rx1),
        calc_post(BoolOpType::Xor, b, a, rx2),
    ensures
        ru1 matches Ok(v1) && ru2 matches Ok(v2) && v1@.len() == 2 && v2@.len() == 2 && poly_eq(
            v1@[0],
            v2@[1],
        ) && poly_eq(v1@[1], v2@[0]),
        ri1 matches Ok(v1) && ri2 matches Ok(v2) && v1@.len() == 0 && v2@.len() == 0,
        rx1 matches Ok(v1) && rx2 matches Ok(v2) && v1@.len() == 2 && v2@.len() == 2 && poly_eq(
            v1@[0],
            v2@[1],
        ) && poly_eq(v1@[1], v2@[0]),
{
    lemma_separated_symmetric(a.nodes@, b.nodes@);
}

} // verus!
