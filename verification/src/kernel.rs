//! Orientation kernels.
//!
//! A kernel answers the one numerically delicate question of this
//! crate: on which side of a directed edge a query point lies. The
//! [`DelaunayKernel`] trait is the contract a kernel must satisfy —
//! the sign of the returned magnitude equals the sign of the exact
//! orientation determinant [`side_det`]. Because coordinates are exact
//! rationals here, the direct determinant [`TrivialKernel`] already
//! meets the contract with no loss; the trait remains the extension
//! point for alternative strategies.

use vstd::prelude::*;
use crate::rational::{Rat, frac_eq, frac_sign, lemma_abs_mul};
use crate::point::{Point2, Pt, pt_cross, pt_in, pt_sub};
use crate::side_info::EdgeSideInfo;
use crate::edge::SimpleEdge;

verus! {

/// Coordinate magnitude accepted by the side and orientation queries.
pub open spec fn query_bound() -> int {
    0x4000_0000
}

/// The exact orientation determinant of the edge `from -> to` and the
/// query point `q`: the cross product of `to - from` and `q - from`.
/// Positive means `q` lies left of the edge.
pub open spec fn side_det(from: Pt, to: Pt, q: Pt) -> crate::rational::Frac {
    pt_cross(pt_sub(to, from), pt_sub(q, from))
}

/// Strategy supplying the orientation determinant sign.
pub trait DelaunayKernel: Sized {
    /// Classifies `q` against the directed edge: the sign of the
    /// returned magnitude is the sign of the exact determinant.
    fn side_query(edge: &SimpleEdge, q: &Point2) -> (r: EdgeSideInfo)
        requires
            edge.from.wf(),
            edge.to.wf(),
            q.wf(),
            pt_in(edge.from@, query_bound()),
            pt_in(edge.to@, query_bound()),
            pt_in(q@, query_bound()),
        ensures
            r.wf(),
            frac_eq(r@, side_det(edge.from@, edge.to@, q@)),
            frac_sign(r@) == frac_sign(side_det(edge.from@, edge.to@, q@)),
    ;

    /// True exactly when `a`, `b`, `c` are in counter-clockwise order.
    fn is_ordered_ccw(a: &Point2, b: &Point2, c: &Point2) -> (r: bool)
        requires
            a.wf(),
            b.wf(),
            c.wf(),
            pt_in(a@, query_bound()),
            pt_in(b@, query_bound()),
            pt_in(c@, query_bound()),
        ensures
            r == (frac_sign(side_det(a@, b@, c@)) == 1),
    ;
}

/// The direct determinant over exact rational coordinates.
pub struct TrivialKernel;

/// Computes the orientation determinant of `from -> to` and `q`
/// exactly; shared by both kernel entry points.
fn exact_side_det(from: &Point2, to: &Point2, q: &Point2) -> (r: Rat)
    requires
        from.wf(),
        to.wf(),
        q.wf(),
        pt_in(from@, query_bound()),
        pt_in(to@, query_bound()),
        pt_in(q@, query_bound()),
    ensures
        r.wf(),
        r@ == side_det(from@, to@, q@),
{
    proof {
        lemma_abs_mul(to@.x, from@.d, 0x4000_0000, 0x4000_0000);
        lemma_abs_mul(from@.x, to@.d, 0x4000_0000, 0x4000_0000);
        lemma_abs_mul(to@.y, from@.d, 0x4000_0000, 0x4000_0000);
        lemma_abs_mul(from@.y, to@.d, 0x4000_0000, 0x4000_0000);
        lemma_abs_mul(q@.x, from@.d, 0x4000_0000, 0x4000_0000);
        lemma_abs_mul(from@.x, q@.d, 0x4000_0000, 0x4000_0000);
        lemma_abs_mul(q@.y, from@.d, 0x4000_0000, 0x4000_0000);
        lemma_abs_mul(from@.y, q@.d, 0x4000_0000, 0x4000_0000);
    }
    let dir_x: i128 = to.nx * from.den - from.nx * to.den;
    let dir_y: i128 = to.ny * from.den - from.ny * to.den;
    let u_x: i128 = q.nx * from.den - from.nx * q.den;
    let u_y: i128 = q.ny * from.den - from.ny * q.den;
    proof {
        lemma_abs_mul(
            dir_x as int,
            u_y as int,
            0x2000_0000_0000_0000,
            0x2000_0000_0000_0000,
        );
        lemma_abs_mul(
            dir_y as int,
            u_x as int,
            0x2000_0000_0000_0000,
            0x2000_0000_0000_0000,
        );
        lemma_abs_mul(to@.d, from@.d, 0x4000_0000, 0x4000_0000);
        lemma_abs_mul(q@.d, from@.d, 0x4000_0000, 0x4000_0000);
        lemma_abs_mul(
            to@.d * from@.d,
            q@.d * from@.d,
            0x1000_0000_0000_0000,
            0x1000_0000_0000_0000,
        );
        assert(to@.d * from@.d > 0 && q@.d * from@.d > 0 && (to@.d * from@.d) * (q@.d * from@.d)
            > 0) by (nonlinear_arith)
            requires
                to@.d > 0,
                from@.d > 0,
                q@.d > 0,
        {}
    }
    let num: i128 = dir_x * u_y - dir_y * u_x;
    let den: i128 = (to.den * from.den) * (q.den * from.den);
    Rat { num, den }
}

impl DelaunayKernel for TrivialKernel {
    fn side_query(edge: &SimpleEdge, q: &Point2) -> (r: EdgeSideInfo) {
        let det = exact_side_det(&edge.from, &edge.to, q);
        EdgeSideInfo { signed_side: det }
    }

    fn is_ordered_ccw(a: &Point2, b: &Point2, c: &Point2) -> (r: bool) {
        let det = exact_side_det(a, b, c);
        det.num > 0
    }
}

} // verus!
