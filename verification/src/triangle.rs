//! Triangles.

use vstd::prelude::*;
use crate::rational::{
    Frac,
    Rat,
    frac_add,
    frac_div,
    frac_eq,
    frac_int,
    frac_le,
    frac_mul,
    frac_sign,
    frac_sub,
    frac_wf,
    lemma_abs_mul,
    lemma_frac_le_congruence,
    rat_reduced,
};
use crate::point::{Point2, Pt, point_reduced, pt_cross, pt_dot, pt_eq, pt_in, pt_sub, pt_x, pt_y};
use crate::kernel::{DelaunayKernel, TrivialKernel, query_bound, side_det};
use crate::edge::{
    SimpleEdge,
    dist_bound,
    lemma_seg_dist2_wf,
    nearest_pt_spec,
    seg_dist2,
    seg_dist2_core,
};
use crate::bounding_rect::{
    BoundingRect,
    frac_max,
    frac_min,
    lemma_frac_min_max_congruence,
    rect_wf,
};
use crate::rational::{
    lemma_frac_div_congruence,
    lemma_frac_eq_trans,
    lemma_frac_sign_congruence,
    lemma_frac_sub_congruence,
};

verus! {

/// The absolute value of a fraction with positive denominator.
pub open spec fn frac_abs(a: Frac) -> Frac {
    if a.n < 0 {
        Frac { n: -a.n, d: a.d }
    } else {
        a
    }
}

/// Twice the unsigned area of the triangle `t0 t1 t2`.
pub open spec fn tri_double_area(t0: Pt, t1: Pt, t2: Pt) -> Frac {
    frac_abs(pt_cross(pt_sub(t1, t0), pt_sub(t2, t0)))
}

/// `a` and `b` hold the same three vertices in the same cyclic order:
/// one is a rotation of the other. A reflected winding is not equal.
pub open spec fn tri_rot_eq(a: SimpleTriangle, b: SimpleTriangle) -> bool {
    (a.v0 == b.v0 && a.v1 == b.v1 && a.v2 == b.v2) || (a.v0 == b.v1 && a.v1 == b.v2 && a.v2
        == b.v0) || (a.v0 == b.v2 && a.v1 == b.v0 && a.v2 == b.v1)
}


/// The squared distance from `q` to the triangle `v0 v1 v2`: zero when
/// no boundary edge, taken in winding order, separates `q` from the
/// triangle's interior side; otherwise the squared segment distance to
/// the first separating edge.
pub open spec fn tri_dist2_spec(v0: Pt, v1: Pt, v2: Pt, q: Pt) -> Frac {
    let ccw = frac_sign(side_det(v0, v1, v2)) == 1;
    if (frac_sign(side_det(v0, v1, q)) == -1) == ccw {
        seg_dist2(v0, v1, q)
    } else if (frac_sign(side_det(v1, v2, q)) == -1) == ccw {
        seg_dist2(v1, v2, q)
    } else if (frac_sign(side_det(v2, v0, q)) == -1) == ccw {
        seg_dist2(v2, v0, q)
    } else {
        frac_int(0)
    }
}

/// The point on the triangle's boundary nearest to `q`: the minimum
/// over the three edges' nearest points by squared distance, ties
/// resolved in favour of the first edge in the fixed order
/// `v0 v1`, `v1 v2`, `v2 v0`.
pub open spec fn tri_nearest_spec(v0: Pt, v1: Pt, v2: Pt, q: Pt) -> Pt {
    let d0 = seg_dist2(v0, v1, q);
    let d1 = seg_dist2(v1, v2, q);
    let d2 = seg_dist2(v2, v0, q);
    if frac_le(d0, d1) && frac_le(d0, d2) {
        nearest_pt_spec(v0, v1, q)
    } else if frac_le(d1, d0) && frac_le(d1, d2) {
        nearest_pt_spec(v1, v2, q)
    } else {
        nearest_pt_spec(v2, v0, q)
    }
}


/// Twice the signed cross product of the two edge vectors out of `v0`:
/// the divisor of the circumcenter formula.
pub open spec fn circum_div(v0: Pt, v1: Pt, v2: Pt) -> Frac {
    frac_mul(frac_int(2), pt_cross(pt_sub(v1, v0), pt_sub(v2, v0)))
}

/// The first coordinate of the circumcenter of `v0 v1 v2`.
pub open spec fn circum_x(v0: Pt, v1: Pt, v2: Pt) -> Frac {
    let b = pt_sub(v1, v0);
    let c = pt_sub(v2, v0);
    frac_add(
        pt_x(v0),
        frac_div(
            frac_sub(frac_mul(pt_dot(b, b), pt_y(c)), frac_mul(pt_dot(c, c), pt_y(b))),
            circum_div(v0, v1, v2),
        ),
    )
}

/// The second coordinate of the circumcenter of `v0 v1 v2`.
pub open spec fn circum_y(v0: Pt, v1: Pt, v2: Pt) -> Frac {
    let b = pt_sub(v1, v0);
    let c = pt_sub(v2, v0);
    frac_add(
        pt_y(v0),
        frac_div(
            frac_sub(frac_mul(pt_dot(c, c), pt_x(b)), frac_mul(pt_dot(b, b), pt_x(c))),
            circum_div(v0, v1, v2),
        ),
    )
}


/// The determinant of the barycentric coordinate system of `v0 v1 v2`.
pub open spec fn bary_det(v0: Pt, v1: Pt, v2: Pt) -> Frac {
    frac_add(
        frac_mul(frac_sub(pt_y(v1), pt_y(v2)), frac_sub(pt_x(v0), pt_x(v2))),
        frac_mul(frac_sub(pt_x(v2), pt_x(v1)), frac_sub(pt_y(v0), pt_y(v2))),
    )
}

/// The first barycentric coordinate of `q` in `v0 v1 v2`.
pub open spec fn bary_l1(v0: Pt, v1: Pt, v2: Pt, q: Pt) -> Frac {
    frac_div(
        frac_add(
            frac_mul(frac_sub(pt_y(v1), pt_y(v2)), frac_sub(pt_x(q), pt_x(v2))),
            frac_mul(frac_sub(pt_x(v2), pt_x(v1)), frac_sub(pt_y(q), pt_y(v2))),
        ),
        bary_det(v0, v1, v2),
    )
}

/// The second barycentric coordinate of `q` in `v0 v1 v2`.
pub open spec fn bary_l2(v0: Pt, v1: Pt, v2: Pt, q: Pt) -> Frac {
    frac_div(
        frac_add(
            frac_mul(frac_sub(pt_y(v2), pt_y(v0)), frac_sub(pt_x(q), pt_x(v2))),
            frac_mul(frac_sub(pt_x(v0), pt_x(v2)), frac_sub(pt_y(q), pt_y(v2))),
        ),
        bary_det(v0, v1, v2),
    )
}

/// The third barycentric coordinate: one minus the other two, so the
/// three always sum to one.
pub open spec fn bary_l3(v0: Pt, v1: Pt, v2: Pt, q: Pt) -> Frac {
    frac_sub(frac_sub(frac_int(1), bary_l1(v0, v1, v2, q)), bary_l2(v0, v1, v2, q))
}

/// A total lexicographic order on stored point representations, used
/// to canonicalize a triangle's vertex multiset.
pub open spec fn pt_lex_le(a: Point2, b: Point2) -> bool {
    a.nx < b.nx || (a.nx == b.nx && (a.ny < b.ny || (a.ny == b.ny && a.den <= b.den)))
}

/// The three vertices sorted by [`pt_lex_le`].
pub open spec fn sorted3(a: Point2, b: Point2, c: Point2) -> Seq<Point2> {
    if pt_lex_le(a, b) {
        if pt_lex_le(b, c) {
            seq![a, b, c]
        } else if pt_lex_le(a, c) {
            seq![a, c, b]
        } else {
            seq![c, a, b]
        }
    } else {
        if pt_lex_le(a, c) {
            seq![b, a, c]
        } else if pt_lex_le(b, c) {
            seq![b, c, a]
        } else {
            seq![c, b, a]
        }
    }
}

/// Equal triangles have the same canonical vertex sequence: a hash of
/// the sorted vertices is consistent with rotation-invariant equality,
/// whatever rotation either triangle was built with.
pub proof fn lemma_canonical_consistent_with_eq(t1: SimpleTriangle, t2: SimpleTriangle)
    requires
        tri_rot_eq(t1, t2),
    ensures
        sorted3(t1.v0, t1.v1, t1.v2) == sorted3(t2.v0, t2.v1, t2.v2),
{
    assert(sorted3(t1.v0, t1.v1, t1.v2) =~= sorted3(t2.v0, t2.v1, t2.v2));
}

/// Triangle equality is invariant under cyclic rotation of the vertex
/// sequence.
pub proof fn lemma_triangle_eq_rotation(a: Point2, b: Point2, c: Point2)
    ensures
        tri_rot_eq(SimpleTriangle { v0: a, v1: b, v2: c }, SimpleTriangle { v0: b, v1: c, v2: a }),
        tri_rot_eq(SimpleTriangle { v0: a, v1: b, v2: c }, SimpleTriangle { v0: c, v1: a, v2: b }),
{
}

/// Triangle equality is not invariant under reflection: with three
/// pairwise distinct vertices, reversing the winding order gives an
/// unequal triangle.
pub proof fn lemma_triangle_reflection_unequal(a: Point2, b: Point2, c: Point2)
    requires
        a != b,
        b != c,
        a != c,
    ensures
        !tri_rot_eq(SimpleTriangle { v0: a, v1: b, v2: c }, SimpleTriangle {
            v0: a,
            v1: c,
            v2: b,
        }),
{
}

/// A triangle, defined by its three vertices.
///
/// Two triangles compare equal exactly when one vertex sequence is a
/// cyclic rotation of the other; a reflected winding compares unequal.
#[derive(Clone, Copy, Debug, Eq)]
pub struct SimpleTriangle {
    pub v0: Point2,
    pub v1: Point2,
    pub v2: Point2,
}

impl PartialEq for SimpleTriangle {
    fn eq(&self, other: &SimpleTriangle) -> (r: bool) {
        (self.v0 == other.v0 && self.v1 == other.v1 && self.v2 == other.v2) || (self.v0
            == other.v1 && self.v1 == other.v2 && self.v2 == other.v0) || (self.v0 == other.v2
            && self.v1 == other.v0 && self.v2 == other.v1)
    }
}

impl vstd::std_specs::cmp::PartialEqSpecImpl for SimpleTriangle {
    open spec fn obeys_eq_spec() -> bool {
        true
    }

    open spec fn eq_spec(&self, other: &SimpleTriangle) -> bool {
        tri_rot_eq(*self, *other)
    }
}

impl SimpleTriangle {
    /// All three vertices are well formed.
    pub open spec fn wf(self) -> bool {
        self.v0.wf() && self.v1.wf() && self.v2.wf()
    }

    /// All three vertices lie within the given coordinate magnitude.
    pub open spec fn in_range(self, bound: int) -> bool {
        pt_in(self.v0@, bound) && pt_in(self.v1@, bound) && pt_in(self.v2@, bound)
    }

    /// Creates a new triangle with the given vertex order.
    pub fn new(v0: Point2, v1: Point2, v2: Point2) -> (r: SimpleTriangle)
        ensures
            r.v0 == v0,
            r.v1 == v1,
            r.v2 == v2,
    {
        SimpleTriangle { v0, v1, v2 }
    }

    /// The triangle's vertices, in stored order.
    pub fn vertices(&self) -> (r: [Point2; 3])
        ensures
            r@ == seq![self.v0, self.v1, self.v2],
    {
        [self.v0, self.v1, self.v2]
    }

    /// The triangle's vertices sorted by a fixed total order on their
    /// stored representations: the canonical form from which a hash
    /// consistent with rotation-invariant equality is computed.
    pub fn canonical_vertices(&self) -> (r: [Point2; 3])
        ensures
            r@ == sorted3(self.v0, self.v1, self.v2),
    {
        let a = self.v0;
        let b = self.v1;
        let c = self.v2;
        if lex_le(&a, &b) {
            if lex_le(&b, &c) {
                [a, b, c]
            } else if lex_le(&a, &c) {
                [a, c, b]
            } else {
                [c, a, b]
            }
        } else {
            if lex_le(&a, &c) {
                [b, a, c]
            } else if lex_le(&b, &c) {
                [b, c, a]
            } else {
                [c, b, a]
            }
        }
    }


    /// The point on any of the triangle's edges nearest to `q`: the
    /// overall minimum by exact squared distance, first edge winning a
    /// tie, in the order `v0 v1`, `v1 v2`, `v2 v0`. No two adjacent
    /// vertices may coincide.
    pub fn nearest_point_on_edge(&self, pos: &Point2) -> (r: Point2)
        requires
            self.wf(),
            pos.wf(),
            self.in_range(dist_bound()),
            pt_in(pos@, dist_bound()),
            !pt_eq(self.v0@, self.v1@),
            !pt_eq(self.v1@, self.v2@),
            !pt_eq(self.v2@, self.v0@),
        ensures
            r.wf(),
            pt_eq(r@, tri_nearest_spec(self.v0@, self.v1@, self.v2@, pos@)),
    {
        let r0 = seg_dist2_core(&self.v0, &self.v1, pos);
        let r1 = seg_dist2_core(&self.v1, &self.v2, pos);
        let r2 = seg_dist2_core(&self.v2, &self.v0, pos);
        proof {
            lemma_seg_dist2_wf(self.v0@, self.v1@, pos@);
            lemma_seg_dist2_wf(self.v1@, self.v2@, pos@);
            lemma_seg_dist2_wf(self.v2@, self.v0@, pos@);
            lemma_frac_le_congruence(
                r0@,
                r1@,
                seg_dist2(self.v0@, self.v1@, pos@),
                seg_dist2(self.v1@, self.v2@, pos@),
            );
            lemma_frac_le_congruence(
                r0@,
                r2@,
                seg_dist2(self.v0@, self.v1@, pos@),
                seg_dist2(self.v2@, self.v0@, pos@),
            );
            lemma_frac_le_congruence(
                r1@,
                r0@,
                seg_dist2(self.v1@, self.v2@, pos@),
                seg_dist2(self.v0@, self.v1@, pos@),
            );
            lemma_frac_le_congruence(
                r1@,
                r2@,
                seg_dist2(self.v1@, self.v2@, pos@),
                seg_dist2(self.v2@, self.v0@, pos@),
            );
            lemma_abs_mul(r0@.n, r1@.d, 0x4000_0000_0000_0000, 0x800_0000_0000_0000);
            lemma_abs_mul(r1@.n, r0@.d, 0x4000_0000_0000_0000, 0x800_0000_0000_0000);
            lemma_abs_mul(r0@.n, r2@.d, 0x4000_0000_0000_0000, 0x800_0000_0000_0000);
            lemma_abs_mul(r2@.n, r0@.d, 0x4000_0000_0000_0000, 0x800_0000_0000_0000);
            lemma_abs_mul(r1@.n, r2@.d, 0x4000_0000_0000_0000, 0x800_0000_0000_0000);
            lemma_abs_mul(r2@.n, r1@.d, 0x4000_0000_0000_0000, 0x800_0000_0000_0000);
        }
        let le01 = r0.num * r1.den <= r1.num * r0.den;
        let le02 = r0.num * r2.den <= r2.num * r0.den;
        let le10 = r1.num * r0.den <= r0.num * r1.den;
        let le12 = r1.num * r2.den <= r2.num * r1.den;
        if le01 && le02 {
            SimpleEdge::new(self.v0, self.v1).nearest_point(pos)
        } else if le10 && le12 {
            SimpleEdge::new(self.v1, self.v2).nearest_point(pos)
        } else {
            SimpleEdge::new(self.v2, self.v0).nearest_point(pos)
        }
    }

    /// The squared distance from `q` to this triangle: zero when `q`
    /// lies inside it, and the exact squared distance to the first
    /// separating boundary edge in winding order otherwise. No two
    /// adjacent vertices may coincide.
    pub fn distance2(&self, q: &Point2) -> (r: Rat)
        requires
            self.wf(),
            q.wf(),
            self.in_range(dist_bound()),
            pt_in(q@, dist_bound()),
            !pt_eq(self.v0@, self.v1@),
            !pt_eq(self.v1@, self.v2@),
            !pt_eq(self.v2@, self.v0@),
        ensures
            r.wf(),
            frac_eq(r@, tri_dist2_spec(self.v0@, self.v1@, self.v2@, q@)),
    {
        let ccw = TrivialKernel::is_ordered_ccw(&self.v0, &self.v1, &self.v2);
        let e0 = SimpleEdge::new(self.v0, self.v1);
        if e0.side_query::<TrivialKernel>(q).is_on_right_side() == ccw {
            return e0.distance2(q);
        }
        let e1 = SimpleEdge::new(self.v1, self.v2);
        if e1.side_query::<TrivialKernel>(q).is_on_right_side() == ccw {
            return e1.distance2(q);
        }
        let e2 = SimpleEdge::new(self.v2, self.v0);
        if e2.side_query::<TrivialKernel>(q).is_on_right_side() == ccw {
            return e2.distance2(q);
        }
        Rat::zero()
    }


    /// The circumcenter of the triangle, exactly: the point returned
    /// has the closed-form coordinates [`circum_x`], [`circum_y`]. The
    /// triangle must not be degenerate — collinear vertices would
    /// divide by zero.
    pub fn circumcenter(&self) -> (r: Point2)
        requires
            self.wf(),
            self.in_range(dist_bound()),
            frac_sign(side_det(self.v0@, self.v1@, self.v2@)) != 0,
        ensures
            r.wf(),
            frac_eq(pt_x(r@), circum_x(self.v0@, self.v1@, self.v2@)),
            frac_eq(pt_y(r@), circum_y(self.v0@, self.v1@, self.v2@)),
    {
        let v0 = &self.v0;
        let v1 = &self.v1;
        let v2 = &self.v2;
        proof {
            lemma_abs_mul(v1@.x, v0@.d, 0x80, 0x80);
            lemma_abs_mul(v0@.x, v1@.d, 0x80, 0x80);
            lemma_abs_mul(v1@.y, v0@.d, 0x80, 0x80);
            lemma_abs_mul(v0@.y, v1@.d, 0x80, 0x80);
            lemma_abs_mul(v2@.x, v0@.d, 0x80, 0x80);
            lemma_abs_mul(v0@.x, v2@.d, 0x80, 0x80);
            lemma_abs_mul(v2@.y, v0@.d, 0x80, 0x80);
            lemma_abs_mul(v0@.y, v2@.d, 0x80, 0x80);
            lemma_abs_mul(v1@.d, v0@.d, 0x80, 0x80);
            lemma_abs_mul(v2@.d, v0@.d, 0x80, 0x80);
        }
        let b_x: i128 = v1.nx * v0.den - v0.nx * v1.den;
        let b_y: i128 = v1.ny * v0.den - v0.ny * v1.den;
        let b_d: i128 = v1.den * v0.den;
        let c_x: i128 = v2.nx * v0.den - v0.nx * v2.den;
        let c_y: i128 = v2.ny * v0.den - v0.ny * v2.den;
        let c_d: i128 = v2.den * v0.den;
        proof {
            lemma_abs_mul(b_x as int, c_y as int, 0x8000, 0x8000);
            lemma_abs_mul(b_y as int, c_x as int, 0x8000, 0x8000);
            lemma_abs_mul(b_d as int, c_d as int, 0x4000, 0x4000);
            lemma_abs_mul(b_x as int, b_x as int, 0x8000, 0x8000);
            lemma_abs_mul(b_y as int, b_y as int, 0x8000, 0x8000);
            lemma_abs_mul(c_x as int, c_x as int, 0x8000, 0x8000);
            lemma_abs_mul(c_y as int, c_y as int, 0x8000, 0x8000);
            lemma_abs_mul(b_d as int, b_d as int, 0x4000, 0x4000);
            lemma_abs_mul(c_d as int, c_d as int, 0x4000, 0x4000);
        }
        proof {
            assert(v1@.d * v0@.d > 0 && v2@.d * v0@.d > 0) by (nonlinear_arith)
                requires
                    v0@.d > 0,
                    v1@.d > 0,
                    v2@.d > 0,
            {}
        }
        let cross_n: i128 = b_x * c_y - b_y * c_x;
        let cross_d: i128 = b_d * c_d;
        let d2_n: i128 = 2 * cross_n;
        let d2_d: i128 = 1 * cross_d;
        let lb_n: i128 = b_x * b_x + b_y * b_y;
        let lb_d: i128 = b_d * b_d;
        let lc_n: i128 = c_x * c_x + c_y * c_y;
        let lc_d: i128 = c_d * c_d;
        proof {
            lemma_abs_mul(lb_n as int, c_y as int, 0x1_0000_0000, 0x8000);
            lemma_abs_mul(lc_n as int, b_y as int, 0x1_0000_0000, 0x8000);
            lemma_abs_mul(lc_n as int, b_x as int, 0x1_0000_0000, 0x8000);
            lemma_abs_mul(lb_n as int, c_x as int, 0x1_0000_0000, 0x8000);
            lemma_abs_mul(lb_d as int, c_d as int, 0x1000_0000, 0x4000);
            lemma_abs_mul(lc_d as int, b_d as int, 0x1000_0000, 0x4000);
        }
        let m1x_n: i128 = lb_n * c_y;
        let m1x_d: i128 = lb_d * c_d;
        let m2x_n: i128 = lc_n * b_y;
        let m2x_d: i128 = lc_d * b_d;
        let m1y_n: i128 = lc_n * b_x;
        let m1y_d: i128 = lc_d * b_d;
        let m2y_n: i128 = lb_n * c_x;
        let m2y_d: i128 = lb_d * c_d;
        proof {
            lemma_abs_mul(m1x_n as int, m2x_d as int, 0x800000000000, 0x40000000000);
            lemma_abs_mul(m2x_n as int, m1x_d as int, 0x800000000000, 0x40000000000);
            lemma_abs_mul(m1x_d as int, m2x_d as int, 0x40000000000, 0x40000000000);
            lemma_abs_mul(m1y_n as int, m2y_d as int, 0x800000000000, 0x40000000000);
            lemma_abs_mul(m2y_n as int, m1y_d as int, 0x800000000000, 0x40000000000);
            lemma_abs_mul(m1y_d as int, m2y_d as int, 0x40000000000, 0x40000000000);
        }
        let sx_n: i128 = m1x_n * m2x_d - m2x_n * m1x_d;
        let sx_d: i128 = m1x_d * m2x_d;
        let sy_n: i128 = m1y_n * m2y_d - m2y_n * m1y_d;
        let sy_d: i128 = m1y_d * m2y_d;
        proof {
            lemma_abs_mul(sx_n as int, d2_d as int, 0x40000000000000000000000, 0x10000000);
            lemma_abs_mul(sx_d as int, d2_n as int, 0x1000000000000000000000, 0x100000000);
            lemma_abs_mul(sy_n as int, d2_d as int, 0x40000000000000000000000, 0x10000000);
            lemma_abs_mul(sy_d as int, d2_n as int, 0x1000000000000000000000, 0x100000000);
        }
        let (dx_n, dx_d, dy_n, dy_d): (i128, i128, i128, i128) = if d2_n >= 0 {
            (sx_n * d2_d, sx_d * d2_n, sy_n * d2_d, sy_d * d2_n)
        } else {
            (-(sx_n * d2_d), -(sx_d * d2_n), -(sy_n * d2_d), -(sy_d * d2_n))
        };
        proof {
            assert(dx_d as int == dy_d as int && dx_d as int > 0) by (nonlinear_arith)
                requires
                    cross_n != 0,
                    cross_d as int == b_d as int * (c_d as int),
                    b_d as int > 0,
                    c_d as int > 0,
                    d2_n as int == 2 * (cross_n as int),
                    d2_d as int == 1 * (cross_d as int),
                    sx_d as int == m1x_d as int * (m2x_d as int),
                    sy_d as int == m1y_d as int * (m2y_d as int),
                    m1x_d as int == lb_d as int * (c_d as int),
                    m2x_d as int == lc_d as int * (b_d as int),
                    m1y_d as int == lc_d as int * (b_d as int),
                    m2y_d as int == lb_d as int * (c_d as int),
                    lb_d as int == b_d as int * (b_d as int),
                    lc_d as int == c_d as int * (c_d as int),
                    d2_n >= 0 ==> dx_d as int == sx_d as int * (d2_n as int) && dy_d as int
                        == sy_d as int * (d2_n as int),
                    d2_n < 0 ==> dx_d as int == -(sx_d as int * (d2_n as int)) && dy_d as int
                        == -(sy_d as int * (d2_n as int)),
            {}
            lemma_abs_mul(v0@.x, dx_d as int, 0x80, 0x100000000000000000000000000000);
            lemma_abs_mul(dx_n as int, v0@.d, 0x400000000000000000000000000000, 0x80);
            lemma_abs_mul(v0@.y, dy_d as int, 0x80, 0x100000000000000000000000000000);
            lemma_abs_mul(dy_n as int, v0@.d, 0x400000000000000000000000000000, 0x80);
            lemma_abs_mul(v0@.d, dx_d as int, 0x80, 0x100000000000000000000000000000);
            assert(v0@.d * (dx_d as int) > 0) by (nonlinear_arith)
                requires
                    v0@.d > 0,
                    dx_d as int > 0,
            {}
        }
        let x_n: i128 = v0.nx * dx_d + dx_n * v0.den;
        let y_n: i128 = v0.ny * dy_d + dy_n * v0.den;
        let den: i128 = v0.den * dx_d;
        let r = point_reduced(x_n, y_n, den);
        r
    }


    /// The barycentric coordinates of `q` relative to this triangle,
    /// exactly: three weights that sum to one, the first two given by
    /// the standard determinant ratios. The triangle must not be
    /// degenerate — a zero determinant would divide by zero.
    pub fn barycentric_interpolation(&self, q: &Point2) -> (r: (Rat, Rat, Rat))
        requires
            self.wf(),
            q.wf(),
            self.in_range(dist_bound()),
            pt_in(q@, dist_bound()),
            frac_sign(bary_det(self.v0@, self.v1@, self.v2@)) != 0,
        ensures
            r.0.wf(),
            r.1.wf(),
            r.2.wf(),
            frac_eq(r.0@, bary_l1(self.v0@, self.v1@, self.v2@, q@)),
            frac_eq(r.1@, bary_l2(self.v0@, self.v1@, self.v2@, q@)),
            frac_eq(r.2@, bary_l3(self.v0@, self.v1@, self.v2@, q@)),
    {
        let v0 = &self.v0;
        let v1 = &self.v1;
        let v2 = &self.v2;
        proof {
            lemma_abs_mul(v1@.y, v2@.d, 0x80, 0x80);
            lemma_abs_mul(v2@.y, v1@.d, 0x80, 0x80);
            lemma_abs_mul(v1@.x, v2@.d, 0x80, 0x80);
            lemma_abs_mul(v2@.x, v1@.d, 0x80, 0x80);
            lemma_abs_mul(q@.x, v2@.d, 0x80, 0x80);
            lemma_abs_mul(v2@.x, q@.d, 0x80, 0x80);
            lemma_abs_mul(q@.y, v2@.d, 0x80, 0x80);
            lemma_abs_mul(v2@.y, q@.d, 0x80, 0x80);
            lemma_abs_mul(v0@.x, v2@.d, 0x80, 0x80);
            lemma_abs_mul(v2@.x, v0@.d, 0x80, 0x80);
            lemma_abs_mul(v0@.y, v2@.d, 0x80, 0x80);
            lemma_abs_mul(v2@.y, v0@.d, 0x80, 0x80);
            lemma_abs_mul(v1@.d, v2@.d, 0x80, 0x80);
            lemma_abs_mul(q@.d, v2@.d, 0x80, 0x80);
            lemma_abs_mul(v0@.d, v2@.d, 0x80, 0x80);
        }
        let a_n: i128 = v1.ny * v2.den - v2.ny * v1.den;
        let b_n: i128 = v2.nx * v1.den - v1.nx * v2.den;
        let c_n: i128 = v2.ny * v0.den - v0.ny * v2.den;
        let e_n: i128 = v0.nx * v2.den - v2.nx * v0.den;
        let f_n: i128 = v0.ny * v2.den - v2.ny * v0.den;
        let qx_n: i128 = q.nx * v2.den - v2.nx * q.den;
        let qy_n: i128 = q.ny * v2.den - v2.ny * q.den;
        let d_12: i128 = v1.den * v2.den;
        let d_q2: i128 = q.den * v2.den;
        let d_02: i128 = v0.den * v2.den;
        proof {
            lemma_abs_mul(a_n as int, e_n as int, 0x8000, 0x8000);
            lemma_abs_mul(b_n as int, f_n as int, 0x8000, 0x8000);
            lemma_abs_mul(a_n as int, qx_n as int, 0x8000, 0x8000);
            lemma_abs_mul(b_n as int, qy_n as int, 0x8000, 0x8000);
            lemma_abs_mul(c_n as int, qx_n as int, 0x8000, 0x8000);
            lemma_abs_mul(e_n as int, qy_n as int, 0x8000, 0x8000);
            lemma_abs_mul(d_12 as int, d_02 as int, 0x4000, 0x4000);
            lemma_abs_mul(d_12 as int, d_q2 as int, 0x4000, 0x4000);
            lemma_abs_mul(d_02 as int, d_q2 as int, 0x4000, 0x4000);
            assert(d_12 as int * (d_02 as int) > 0 && d_12 as int * (d_q2 as int) > 0 && d_02
                as int * (d_q2 as int) > 0) by (nonlinear_arith)
                requires
                    d_12 as int == v1@.d * v2@.d,
                    d_q2 as int == q@.d * v2@.d,
                    d_02 as int == v0@.d * v2@.d,
                    v0@.d > 0,
                    v1@.d > 0,
                    v2@.d > 0,
                    q@.d > 0,
            {}
        }
        let det_n: i128 = a_n * e_n + b_n * f_n;
        let det_d: i128 = d_12 * d_02;
        let l1_n: i128 = a_n * qx_n + b_n * qy_n;
        let l1_d: i128 = d_12 * d_q2;
        let l2_n: i128 = c_n * qx_n + e_n * qy_n;
        let l2_d: i128 = d_02 * d_q2;
        let ghost detf = Frac { n: det_n as int, d: det_d as int };
        let ghost l1f = Frac { n: l1_n as int, d: l1_d as int };
        let ghost l2f = Frac { n: l2_n as int, d: l2_d as int };
        let ghost det_spec = bary_det(self.v0@, self.v1@, self.v2@);
        let ghost l1_spec = frac_add(
            frac_mul(frac_sub(pt_y(self.v1@), pt_y(self.v2@)), frac_sub(pt_x(q@), pt_x(self.v2@))),
            frac_mul(frac_sub(pt_x(self.v2@), pt_x(self.v1@)), frac_sub(pt_y(q@), pt_y(self.v2@))),
        );
        let ghost l2_spec = frac_add(
            frac_mul(frac_sub(pt_y(self.v2@), pt_y(self.v0@)), frac_sub(pt_x(q@), pt_x(self.v2@))),
            frac_mul(frac_sub(pt_x(self.v0@), pt_x(self.v2@)), frac_sub(pt_y(q@), pt_y(self.v2@))),
        );
        proof {
            assert(frac_eq(detf, det_spec)) by (nonlinear_arith)
                requires
                    detf.n == a_n as int * (e_n as int) + b_n as int * (f_n as int),
                    detf.d == (v1@.d * v2@.d) * (v0@.d * v2@.d),
                    det_spec.n == (a_n as int * (e_n as int)) * ((v2@.d * v1@.d) * (v0@.d
                        * v2@.d)) + (b_n as int * (f_n as int)) * ((v1@.d * v2@.d) * (v0@.d
                        * v2@.d)),
                    det_spec.d == ((v1@.d * v2@.d) * (v0@.d * v2@.d)) * ((v2@.d * v1@.d) * (
                    v0@.d * v2@.d)),
            {}
            assert(frac_eq(l1f, l1_spec)) by (nonlinear_arith)
                requires
                    l1f.n == a_n as int * (qx_n as int) + b_n as int * (qy_n as int),
                    l1f.d == (v1@.d * v2@.d) * (q@.d * v2@.d),
                    l1_spec.n == (a_n as int * (qx_n as int)) * ((v2@.d * v1@.d) * (q@.d
                        * v2@.d)) + (b_n as int * (qy_n as int)) * ((v1@.d * v2@.d) * (q@.d
                        * v2@.d)),
                    l1_spec.d == ((v1@.d * v2@.d) * (q@.d * v2@.d)) * ((v2@.d * v1@.d) * (q@.d
                        * v2@.d)),
            {}
            assert(frac_eq(l2f, l2_spec)) by (nonlinear_arith)
                requires
                    l2f.n == c_n as int * (qx_n as int) + e_n as int * (qy_n as int),
                    l2f.d == (v0@.d * v2@.d) * (q@.d * v2@.d),
                    l2_spec.n == (c_n as int * (qx_n as int)) * ((v0@.d * v2@.d) * (q@.d
                        * v2@.d)) + (e_n as int * (qy_n as int)) * ((v2@.d * v0@.d) * (q@.d
                        * v2@.d)),
                    l2_spec.d == ((v2@.d * v0@.d) * (q@.d * v2@.d)) * ((v0@.d * v2@.d) * (q@.d
                        * v2@.d)),
            {}
            assert(frac_wf(det_spec) && frac_wf(l1_spec) && frac_wf(l2_spec))
                by (nonlinear_arith)
                requires
                    det_spec.d == ((v1@.d * v2@.d) * (v0@.d * v2@.d)) * ((v2@.d * v1@.d) * (
                    v0@.d * v2@.d)),
                    l1_spec.d == ((v1@.d * v2@.d) * (q@.d * v2@.d)) * ((v2@.d * v1@.d) * (q@.d
                        * v2@.d)),
                    l2_spec.d == ((v2@.d * v0@.d) * (q@.d * v2@.d)) * ((v0@.d * v2@.d) * (q@.d
                        * v2@.d)),
                    v0@.d > 0,
                    v1@.d > 0,
                    v2@.d > 0,
                    q@.d > 0,
            {}
            lemma_frac_sign_congruence(detf, det_spec);
            lemma_abs_mul(l1_n as int, det_d as int, 0x1_0000_0000, 0x1000_0000);
            lemma_abs_mul(l1_d as int, det_n as int, 0x1000_0000, 0x1_0000_0000);
            lemma_abs_mul(l2_n as int, det_d as int, 0x1_0000_0000, 0x1000_0000);
            lemma_abs_mul(l2_d as int, det_n as int, 0x1000_0000, 0x1_0000_0000);
        }
        let (p1_n, p1_d, p2_n, p2_d): (i128, i128, i128, i128) = if det_n >= 0 {
            (l1_n * det_d, l1_d * det_n, l2_n * det_d, l2_d * det_n)
        } else {
            (-(l1_n * det_d), -(l1_d * det_n), -(l2_n * det_d), -(l2_d * det_n))
        };
        let ghost p1f = Frac { n: p1_n as int, d: p1_d as int };
        let ghost p2f = Frac { n: p2_n as int, d: p2_d as int };
        proof {
            assert(p1f == frac_div(l1f, detf) && p2f == frac_div(l2f, detf));
            assert(p1_d as int > 0 && p2_d as int > 0) by (nonlinear_arith)
                requires
                    det_n != 0,
                    l1_d as int > 0,
                    l2_d as int > 0,
                    det_n >= 0 ==> p1_d as int == l1_d as int * (det_n as int) && p2_d as int
                        == l2_d as int * (det_n as int),
                    det_n < 0 ==> p1_d as int == -(l1_d as int * (det_n as int)) && p2_d
                        as int == -(l2_d as int * (det_n as int)),
            {}
            lemma_frac_div_congruence(l1f, l1_spec, detf, det_spec);
            lemma_frac_div_congruence(l2f, l2_spec, detf, det_spec);
            assert(frac_wf(bary_l1(self.v0@, self.v1@, self.v2@, q@)) && frac_wf(
                bary_l2(self.v0@, self.v1@, self.v2@, q@),
            )) by (nonlinear_arith)
                requires
                    det_spec.n != 0,
                    l1_spec.d > 0,
                    l2_spec.d > 0,
                    det_spec.d > 0,
                    bary_l1(self.v0@, self.v1@, self.v2@, q@) == frac_div(l1_spec, det_spec),
                    bary_l2(self.v0@, self.v1@, self.v2@, q@) == frac_div(l2_spec, det_spec),
                    frac_div(l1_spec, det_spec) == (if det_spec.n >= 0 {
                        Frac { n: l1_spec.n * det_spec.d, d: l1_spec.d * det_spec.n }
                    } else {
                        Frac { n: -(l1_spec.n * det_spec.d), d: -(l1_spec.d * det_spec.n) }
                    }),
                    frac_div(l2_spec, det_spec) == (if det_spec.n >= 0 {
                        Frac { n: l2_spec.n * det_spec.d, d: l2_spec.d * det_spec.n }
                    } else {
                        Frac { n: -(l2_spec.n * det_spec.d), d: -(l2_spec.d * det_spec.n) }
                    }),
            {}
        }
        proof {
            lemma_abs_mul(p1_d as int - p1_n as int, p2_d as int, 0x2000_0000_0000_0000, 0x1000_0000_0000_0000);
            lemma_abs_mul(p2_n as int, p1_d as int, 0x1000_0000_0000_0000, 0x1000_0000_0000_0000);
            lemma_abs_mul(p1_d as int, p2_d as int, 0x1000_0000_0000_0000, 0x1000_0000_0000_0000);
        }
        let e1_n: i128 = p1_d - p1_n;
        let e1_d: i128 = p1_d;
        let l3_n: i128 = e1_n * p2_d - p2_n * e1_d;
        let l3_d: i128 = e1_d * p2_d;
        let ghost e1f = Frac { n: e1_n as int, d: e1_d as int };
        let ghost l3f = Frac { n: l3_n as int, d: l3_d as int };
        proof {
            assert(e1f == frac_sub(frac_int(1), p1f));
            assert(l3f == frac_sub(e1f, p2f));
            lemma_frac_sub_congruence(
                frac_int(1),
                frac_int(1),
                p1f,
                bary_l1(self.v0@, self.v1@, self.v2@, q@),
            );
            lemma_frac_sub_congruence(
                e1f,
                frac_sub(frac_int(1), bary_l1(self.v0@, self.v1@, self.v2@, q@)),
                p2f,
                bary_l2(self.v0@, self.v1@, self.v2@, q@),
            );
            assert(l3_d as int > 0) by (nonlinear_arith)
                requires
                    l3_d as int == p1_d as int * (p2_d as int),
                    p1_d as int > 0,
                    p2_d as int > 0,
            {}
        }
        let r1 = rat_reduced(p1_n, p1_d);
        let r2 = rat_reduced(p2_n, p2_d);
        let r3 = rat_reduced(l3_n, l3_d);
        proof {
            lemma_frac_eq_trans(r1@, p1f, bary_l1(self.v0@, self.v1@, self.v2@, q@));
            lemma_frac_eq_trans(r2@, p2f, bary_l2(self.v0@, self.v1@, self.v2@, q@));
            let b1 = bary_l1(self.v0@, self.v1@, self.v2@, q@);
            let b2 = bary_l2(self.v0@, self.v1@, self.v2@, q@);
            assert(frac_wf(bary_l3(self.v0@, self.v1@, self.v2@, q@))) by (nonlinear_arith)
                requires
                    bary_l3(self.v0@, self.v1@, self.v2@, q@).d == (1 * b1.d) * b2.d,
                    b1.d > 0,
                    b2.d > 0,
            {}
            lemma_frac_eq_trans(r3@, l3f, bary_l3(self.v0@, self.v1@, self.v2@, q@));
        }
        (r1, r2, r3)
    }

    /// The smallest axis-aligned rectangle holding all three vertices.
    pub fn mbr(&self) -> (r: BoundingRect)
        requires
            self.wf(),
            self.in_range(query_bound()),
        ensures
            rect_wf(r),
            frac_eq(
                pt_x(r.lower@),
                frac_min(frac_min(pt_x(self.v0@), pt_x(self.v1@)), pt_x(self.v2@)),
            ),
            frac_eq(
                pt_y(r.lower@),
                frac_min(frac_min(pt_y(self.v0@), pt_y(self.v1@)), pt_y(self.v2@)),
            ),
            frac_eq(
                pt_x(r.upper@),
                frac_max(frac_max(pt_x(self.v0@), pt_x(self.v1@)), pt_x(self.v2@)),
            ),
            frac_eq(
                pt_y(r.upper@),
                frac_max(frac_max(pt_y(self.v0@), pt_y(self.v1@)), pt_y(self.v2@)),
            ),
    {
        let b = BoundingRect::from_corners(&self.v0, &self.v1);
        let r = b.add_point(&self.v2);
        proof {
            lemma_frac_min_max_congruence(
                pt_x(b.lower@),
                frac_min(pt_x(self.v0@), pt_x(self.v1@)),
                pt_x(self.v2@),
                pt_x(self.v2@),
            );
            lemma_frac_min_max_congruence(
                pt_y(b.lower@),
                frac_min(pt_y(self.v0@), pt_y(self.v1@)),
                pt_y(self.v2@),
                pt_y(self.v2@),
            );
            lemma_frac_min_max_congruence(
                pt_x(b.upper@),
                frac_max(pt_x(self.v0@), pt_x(self.v1@)),
                pt_x(self.v2@),
                pt_x(self.v2@),
            );
            lemma_frac_min_max_congruence(
                pt_y(b.upper@),
                frac_max(pt_y(self.v0@), pt_y(self.v1@)),
                pt_y(self.v2@),
                pt_y(self.v2@),
            );
            lemma_frac_eq_trans(
                pt_x(r.lower@),
                frac_min(pt_x(b.lower@), pt_x(self.v2@)),
                frac_min(frac_min(pt_x(self.v0@), pt_x(self.v1@)), pt_x(self.v2@)),
            );
            lemma_frac_eq_trans(
                pt_y(r.lower@),
                frac_min(pt_y(b.lower@), pt_y(self.v2@)),
                frac_min(frac_min(pt_y(self.v0@), pt_y(self.v1@)), pt_y(self.v2@)),
            );
            lemma_frac_eq_trans(
                pt_x(r.upper@),
                frac_max(pt_x(b.upper@), pt_x(self.v2@)),
                frac_max(frac_max(pt_x(self.v0@), pt_x(self.v1@)), pt_x(self.v2@)),
            );
            lemma_frac_eq_trans(
                pt_y(r.upper@),
                frac_max(pt_y(b.upper@), pt_y(self.v2@)),
                frac_max(frac_max(pt_y(self.v0@), pt_y(self.v1@)), pt_y(self.v2@)),
            );
        }
        r
    }

    /// Twice the triangle's unsigned area, exactly. Zero signals a
    /// degenerate (collinear) triangle.
    pub fn double_area(&self) -> (r: Rat)
        requires
            self.wf(),
            self.in_range(query_bound()),
        ensures
            r.wf(),
            frac_eq(r@, tri_double_area(self.v0@, self.v1@, self.v2@)),
    {
        proof {
            lemma_abs_mul(self.v1@.x, self.v0@.d, 0x4000_0000, 0x4000_0000);
            lemma_abs_mul(self.v0@.x, self.v1@.d, 0x4000_0000, 0x4000_0000);
            lemma_abs_mul(self.v1@.y, self.v0@.d, 0x4000_0000, 0x4000_0000);
            lemma_abs_mul(self.v0@.y, self.v1@.d, 0x4000_0000, 0x4000_0000);
            lemma_abs_mul(self.v2@.x, self.v0@.d, 0x4000_0000, 0x4000_0000);
            lemma_abs_mul(self.v0@.x, self.v2@.d, 0x4000_0000, 0x4000_0000);
            lemma_abs_mul(self.v2@.y, self.v0@.d, 0x4000_0000, 0x4000_0000);
            lemma_abs_mul(self.v0@.y, self.v2@.d, 0x4000_0000, 0x4000_0000);
        }
        let bx: i128 = self.v1.nx * self.v0.den - self.v0.nx * self.v1.den;
        let by: i128 = self.v1.ny * self.v0.den - self.v0.ny * self.v1.den;
        let cx: i128 = self.v2.nx * self.v0.den - self.v0.nx * self.v2.den;
        let cy: i128 = self.v2.ny * self.v0.den - self.v0.ny * self.v2.den;
        proof {
            lemma_abs_mul(bx as int, cy as int, 0x2000_0000_0000_0000, 0x2000_0000_0000_0000);
            lemma_abs_mul(by as int, cx as int, 0x2000_0000_0000_0000, 0x2000_0000_0000_0000);
            lemma_abs_mul(self.v1@.d, self.v0@.d, 0x4000_0000, 0x4000_0000);
            lemma_abs_mul(self.v2@.d, self.v0@.d, 0x4000_0000, 0x4000_0000);
            lemma_abs_mul(
                self.v1@.d * self.v0@.d,
                self.v2@.d * self.v0@.d,
                0x1000_0000_0000_0000,
                0x1000_0000_0000_0000,
            );
            assert((self.v1@.d * self.v0@.d) * (self.v2@.d * self.v0@.d) > 0)
                by (nonlinear_arith)
                requires
                    self.v0@.d > 0,
                    self.v1@.d > 0,
                    self.v2@.d > 0,
            {}
        }
        let num: i128 = bx * cy - by * cx;
        let den: i128 = (self.v1.den * self.v0.den) * (self.v2.den * self.v0.den);
        let a: i128 = if num < 0 {
            -num
        } else {
            num
        };
        rat_reduced(a, den)
    }
}

/// Compares two stored point representations by [`pt_lex_le`].
fn lex_le(a: &Point2, b: &Point2) -> (r: bool)
    ensures
        r == pt_lex_le(*a, *b),
{
    a.nx < b.nx || (a.nx == b.nx && (a.ny < b.ny || (a.ny == b.ny && a.den <= b.den)))
}

} // verus!
