//! Directed line segments.

use vstd::prelude::*;
use crate::rational::{
    Frac,
    Rat,
    frac_div,
    frac_eq,
    frac_int,
    frac_le,
    frac_mul,
    frac_sign,
    frac_wf,
    lemma_abs_mul,
    lemma_frac_eq_trans,
    lemma_frac_mul_congruence,
    rat_reduced,
};
use crate::point::{
    Point2,
    Pt,
    point_reduced,
    pt_add,
    pt_dot,
    pt_eq,
    pt_in,
    pt_scale,
    pt_sub,
    pt_wf,
};
use crate::side_info::EdgeSideInfo;
use crate::kernel::{DelaunayKernel, query_bound, side_det};

verus! {

/// The squared length of the segment from `f` to `t`.
pub open spec fn edge_length2(f: Pt, t: Pt) -> Frac {
    pt_dot(pt_sub(f, t), pt_sub(f, t))
}

/// Two segments — neither pair of determinants all zero — intersect,
/// touching included: each segment's endpoints lie on different sides
/// of the other's line.
pub open spec fn edges_intersect(sf: Pt, st: Pt, of: Pt, ot: Pt) -> bool {
    frac_sign(side_det(sf, st, of)) != frac_sign(side_det(sf, st, ot)) && frac_sign(
        side_det(of, ot, sf),
    ) != frac_sign(side_det(of, ot, st))
}

/// Segment intersection is symmetric in the two segments.
pub proof fn lemma_intersects_symmetric(sf: Pt, st: Pt, of: Pt, ot: Pt)
    ensures
        edges_intersect(sf, st, of, ot) == edges_intersect(of, ot, sf, st),
{
}


/// Coordinate magnitude accepted by the segment distance queries; the
/// three-way comparison of exact squared distances in a triangle needs
/// their products of products to stay inside `i128`.
pub open spec fn dist_bound() -> int {
    0x80
}

/// The point of the segment `f -> t` nearest to `q`: `f` when the
/// projection parameter is at most zero, `t` when it is at least one,
/// and the interior projection point otherwise.
pub open spec fn nearest_pt_spec(f: Pt, t: Pt, q: Pt) -> Pt {
    let dir = pt_sub(t, f);
    let s = pt_dot(pt_sub(q, f), dir);
    let l = pt_dot(dir, dir);
    if frac_le(s, frac_int(0)) {
        f
    } else if frac_le(l, s) {
        t
    } else {
        pt_add(f, pt_scale(dir, frac_div(s, l)))
    }
}

/// The squared distance from `q` to the segment `f -> t`: the squared
/// distance to the nearer endpoint when the projection falls outside
/// the segment, and the squared line distance `det^2 / |dir|^2`
/// otherwise.
pub open spec fn seg_dist2(f: Pt, t: Pt, q: Pt) -> Frac {
    let dir = pt_sub(t, f);
    let s = pt_dot(pt_sub(q, f), dir);
    let l = pt_dot(dir, dir);
    if frac_le(s, frac_int(0)) {
        pt_dot(pt_sub(q, f), pt_sub(q, f))
    } else if frac_le(l, s) {
        pt_dot(pt_sub(q, t), pt_sub(q, t))
    } else {
        frac_div(frac_mul(side_det(f, t, q), side_det(f, t, q)), l)
    }
}

/// The squared segment distance is a well-formed fraction whenever the
/// edge is not degenerate.
pub proof fn lemma_seg_dist2_wf(f: Pt, t: Pt, q: Pt)
    requires
        pt_wf(f),
        pt_wf(t),
        pt_wf(q),
        !pt_eq(f, t),
    ensures
        frac_wf(seg_dist2(f, t, q)),
{
    let dir = pt_sub(t, f);
    let s = pt_dot(pt_sub(q, f), dir);
    let l = pt_dot(dir, dir);
    assert(l.n > 0) by (nonlinear_arith)
        requires
            f.x * t.d != t.x * f.d || f.y * t.d != t.y * f.d,
            dir == pt_sub(t, f),
            l == pt_dot(dir, dir),
    {}
    if frac_le(s, frac_int(0)) {
        assert((q.d * f.d) * (q.d * f.d) > 0) by (nonlinear_arith)
            requires
                q.d > 0,
                f.d > 0,
        {}
    } else if frac_le(l, s) {
        assert((q.d * t.d) * (q.d * t.d) > 0) by (nonlinear_arith)
            requires
                q.d > 0,
                t.d > 0,
        {}
    } else {
        let det = side_det(f, t, q);
        assert((det.d * det.d) * l.n > 0) by (nonlinear_arith)
            requires
                det.d == (t.d * f.d) * (q.d * f.d),
                t.d > 0,
                f.d > 0,
                q.d > 0,
                l.n > 0,
        {}
    }
}

/// Computes `seg_dist2(f, t, q)` exactly, reduced, with the bounds the
/// triangle queries need for their exact comparisons.
pub(crate) fn seg_dist2_core(f: &Point2, t: &Point2, q: &Point2) -> (r: Rat)
    requires
        f.wf(),
        t.wf(),
        q.wf(),
        pt_in(f@, dist_bound()),
        pt_in(t@, dist_bound()),
        pt_in(q@, dist_bound()),
        !pt_eq(f@, t@),
    ensures
        r.wf(),
        frac_eq(r@, seg_dist2(f@, t@, q@)),
        -0x4000_0000_0000_0000 <= r.num <= 0x4000_0000_0000_0000,
        0 < r.den <= 0x800_0000_0000_0000,
{
    proof {
        lemma_abs_mul(t@.x, f@.d, 0x80, 0x80);
        lemma_abs_mul(f@.x, t@.d, 0x80, 0x80);
        lemma_abs_mul(t@.y, f@.d, 0x80, 0x80);
        lemma_abs_mul(f@.y, t@.d, 0x80, 0x80);
        lemma_abs_mul(q@.x, f@.d, 0x80, 0x80);
        lemma_abs_mul(f@.x, q@.d, 0x80, 0x80);
        lemma_abs_mul(q@.y, f@.d, 0x80, 0x80);
        lemma_abs_mul(f@.y, q@.d, 0x80, 0x80);
        lemma_abs_mul(q@.x, t@.d, 0x80, 0x80);
        lemma_abs_mul(t@.x, q@.d, 0x80, 0x80);
        lemma_abs_mul(q@.y, t@.d, 0x80, 0x80);
        lemma_abs_mul(t@.y, q@.d, 0x80, 0x80);
        lemma_abs_mul(q@.d, f@.d, 0x80, 0x80);
        lemma_abs_mul(f@.d, t@.d, 0x80, 0x80);
        lemma_abs_mul(q@.d, t@.d, 0x80, 0x80);
    }
    let dir_x: i128 = t.nx * f.den - f.nx * t.den;
    let dir_y: i128 = t.ny * f.den - f.ny * t.den;
    let u_x: i128 = q.nx * f.den - f.nx * q.den;
    let u_y: i128 = q.ny * f.den - f.ny * q.den;
    proof {
        lemma_abs_mul(u_x as int, dir_x as int, 0x8000, 0x8000);
        lemma_abs_mul(u_y as int, dir_y as int, 0x8000, 0x8000);
        lemma_abs_mul(dir_x as int, dir_x as int, 0x8000, 0x8000);
        lemma_abs_mul(dir_y as int, dir_y as int, 0x8000, 0x8000);
        lemma_abs_mul(u_x as int, u_x as int, 0x8000, 0x8000);
        lemma_abs_mul(u_y as int, u_y as int, 0x8000, 0x8000);
        lemma_abs_mul(q@.d * f@.d, f@.d * t@.d, 0x4000, 0x4000);
        lemma_abs_mul(f@.d * t@.d, f@.d * t@.d, 0x4000, 0x4000);
        lemma_abs_mul(q@.d * f@.d, q@.d * f@.d, 0x4000, 0x4000);
        assert(q@.d * f@.d > 0 && f@.d * t@.d > 0 && q@.d * t@.d > 0) by (nonlinear_arith)
            requires
                q@.d > 0,
                f@.d > 0,
                t@.d > 0,
        {}
    }
    let sn: i128 = u_x * dir_x + u_y * dir_y;
    let ln: i128 = dir_x * dir_x + dir_y * dir_y;
    let sd: i128 = (q.den * f.den) * (f.den * t.den);
    let ld: i128 = (f.den * t.den) * (f.den * t.den);
    proof {
        lemma_abs_mul(ln as int, sd as int, 0x1_0000_0000, 0x1000_0000);
        lemma_abs_mul(sn as int, ld as int, 0x1_0000_0000, 0x1000_0000);
        assert((q@.d * f@.d) * (f@.d * t@.d) > 0 && (f@.d * t@.d) * (f@.d * t@.d) > 0 && (q@.d
            * f@.d) * (q@.d * f@.d) > 0 && (q@.d * t@.d) * (q@.d * t@.d) > 0)
            by (nonlinear_arith)
            requires
                q@.d > 0,
                f@.d > 0,
                t@.d > 0,
        {}
    }
    if sn <= 0 {
        let d0: i128 = q.den * f.den;
        rat_reduced(u_x * u_x + u_y * u_y, d0 * d0)
    } else if ln * sd <= sn * ld {
        proof {
            lemma_abs_mul(q@.x * t@.d - t@.x * q@.d, q@.x * t@.d - t@.x * q@.d, 0x8000, 0x8000);
            lemma_abs_mul(q@.y * t@.d - t@.y * q@.d, q@.y * t@.d - t@.y * q@.d, 0x8000, 0x8000);
            lemma_abs_mul(q@.d * t@.d, q@.d * t@.d, 0x4000, 0x4000);
        }
        let v_x: i128 = q.nx * t.den - t.nx * q.den;
        let v_y: i128 = q.ny * t.den - t.ny * q.den;
        let d1: i128 = q.den * t.den;
        rat_reduced(v_x * v_x + v_y * v_y, d1 * d1)
    } else {
        proof {
            assert(f@.x * t@.d != t@.x * f@.d || f@.y * t@.d != t@.y * f@.d);
            assert(ln > 0) by (nonlinear_arith)
                requires
                    f@.x * t@.d != t@.x * f@.d || f@.y * t@.d != t@.y * f@.d,
                    dir_x as int == t@.x * f@.d - f@.x * t@.d,
                    dir_y as int == t@.y * f@.d - f@.y * t@.d,
                    ln as int == dir_x as int * dir_x as int + dir_y as int * dir_y as int,
            {}
            lemma_abs_mul(dir_x as int, u_y as int, 0x8000, 0x8000);
            lemma_abs_mul(dir_y as int, u_x as int, 0x8000, 0x8000);
        }
        let cn: i128 = dir_x * u_y - dir_y * u_x;
        proof {
            lemma_abs_mul(cn as int, cn as int, 0x8000_0000, 0x8000_0000);
            lemma_abs_mul((q@.d * f@.d) * (q@.d * f@.d), ln as int, 0x1000_0000, 0x8000_0000);
            assert(((q@.d * f@.d) * (q@.d * f@.d)) * (ln as int) > 0) by (nonlinear_arith)
                requires
                    q@.d > 0,
                    f@.d > 0,
                    ln > 0,
            {}
        }
        let d0: i128 = q.den * f.den;
        let raw_num: i128 = cn * cn;
        let raw_den: i128 = (d0 * d0) * ln;
        let ghost det = side_det(f@, t@, q@);
        let ghost l = pt_dot(pt_sub(t@, f@), pt_sub(t@, f@));
        proof {
            assert((raw_num as int) * (frac_div(frac_mul(det, det), l).d) == (frac_div(
                frac_mul(det, det),
                l,
            ).n) * (raw_den as int)) by (nonlinear_arith)
                requires
                    raw_num as int == (cn as int) * (cn as int),
                    raw_den as int == ((q@.d * f@.d) * (q@.d * f@.d)) * (ln as int),
                    cn as int == det.n,
                    det.d == (t@.d * f@.d) * (q@.d * f@.d),
                    l.n == ln as int,
                    l.d == (f@.d * t@.d) * (f@.d * t@.d),
                    ln > 0,
                    frac_div(frac_mul(det, det), l) == (Frac {
                        n: (det.n * det.n) * l.d,
                        d: (det.d * det.d) * l.n,
                    }),
            {}
        }
        let r = rat_reduced(raw_num, raw_den);
        proof {
            assert((det.d * det.d) * l.n > 0) by (nonlinear_arith)
                requires
                    det.d == (t@.d * f@.d) * (q@.d * f@.d),
                    l.n == ln as int,
                    t@.d > 0,
                    f@.d > 0,
                    q@.d > 0,
                    ln > 0,
            {}
            lemma_frac_eq_trans(
                r@,
                Frac { n: raw_num as int, d: raw_den as int },
                frac_div(frac_mul(det, det), l),
            );
        }
        r
    }
}

/// A directed segment between two exact points.
#[derive(Clone, Copy, Debug, PartialEq, Eq, Structural, Hash)]
pub struct SimpleEdge {
    /// The edge's origin.
    pub from: Point2,
    /// The edge's destination.
    pub to: Point2,
}

impl SimpleEdge {
    /// Both endpoints are well formed.
    pub open spec fn wf(self) -> bool {
        self.from.wf() && self.to.wf()
    }

    /// Both endpoints lie within the given coordinate magnitude.
    pub open spec fn in_range(self, bound: int) -> bool {
        pt_in(self.from@, bound) && pt_in(self.to@, bound)
    }

    /// Creates a new edge from `from` to `to`.
    pub fn new(from: Point2, to: Point2) -> (r: SimpleEdge)
        ensures
            r.from == from,
            r.to == to,
    {
        SimpleEdge { from, to }
    }

    /// The edge's squared length, exactly.
    pub fn length2(&self) -> (r: Rat)
        requires
            self.wf(),
            self.in_range(query_bound()),
        ensures
            r.wf(),
            frac_eq(r@, edge_length2(self.from@, self.to@)),
    {
        proof {
            lemma_abs_mul(self.from@.x, self.to@.d, 0x4000_0000, 0x4000_0000);
            lemma_abs_mul(self.to@.x, self.from@.d, 0x4000_0000, 0x4000_0000);
            lemma_abs_mul(self.from@.y, self.to@.d, 0x4000_0000, 0x4000_0000);
            lemma_abs_mul(self.to@.y, self.from@.d, 0x4000_0000, 0x4000_0000);
        }
        let dx: i128 = self.from.nx * self.to.den - self.to.nx * self.from.den;
        let dy: i128 = self.from.ny * self.to.den - self.to.ny * self.from.den;
        proof {
            lemma_abs_mul(
                dx as int,
                dx as int,
                0x2000_0000_0000_0000,
                0x2000_0000_0000_0000,
            );
            lemma_abs_mul(
                dy as int,
                dy as int,
                0x2000_0000_0000_0000,
                0x2000_0000_0000_0000,
            );
            lemma_abs_mul(self.from@.d, self.to@.d, 0x4000_0000, 0x4000_0000);
            assert(self.from@.d * self.to@.d > 0) by (nonlinear_arith)
                requires
                    self.from@.d > 0,
                    self.to@.d > 0,
            {}
        }
        let d: i128 = self.from.den * self.to.den;
        proof {
            lemma_abs_mul(d as int, d as int, 0x1000_0000_0000_0000, 0x1000_0000_0000_0000);
            assert((d as int) * (d as int) > 0) by (nonlinear_arith)
                requires
                    d as int > 0,
            {}
        }
        let num: i128 = dx * dx + dy * dy;
        let dd: i128 = d * d;
        rat_reduced(num, dd)
    }


    /// Projects `q` onto the infinite line through the edge and
    /// returns whether the projection falls between `from` and `to`:
    /// the unnormalized projection `dot(q - from, to - from)` lies in
    /// `[0, length2]`, both bounds inclusive.
    pub fn is_projection_on_edge(&self, q: &Point2) -> (r: bool)
        requires
            self.wf(),
            q.wf(),
            self.in_range(0x8000),
            pt_in(q@, 0x8000),
        ensures
            r == {
                let s = pt_dot(pt_sub(q@, self.from@), pt_sub(self.to@, self.from@));
                let l = pt_dot(pt_sub(self.to@, self.from@), pt_sub(self.to@, self.from@));
                frac_le(frac_int(0), s) && frac_le(s, l)
            },
    {
        let f = &self.from;
        let t = &self.to;
        proof {
            lemma_abs_mul(t@.x, f@.d, 0x8000, 0x8000);
            lemma_abs_mul(f@.x, t@.d, 0x8000, 0x8000);
            lemma_abs_mul(t@.y, f@.d, 0x8000, 0x8000);
            lemma_abs_mul(f@.y, t@.d, 0x8000, 0x8000);
            lemma_abs_mul(q@.x, f@.d, 0x8000, 0x8000);
            lemma_abs_mul(f@.x, q@.d, 0x8000, 0x8000);
            lemma_abs_mul(q@.y, f@.d, 0x8000, 0x8000);
            lemma_abs_mul(f@.y, q@.d, 0x8000, 0x8000);
        }
        let dir_x: i128 = t.nx * f.den - f.nx * t.den;
        let dir_y: i128 = t.ny * f.den - f.ny * t.den;
        let u_x: i128 = q.nx * f.den - f.nx * q.den;
        let u_y: i128 = q.ny * f.den - f.ny * q.den;
        proof {
            lemma_abs_mul(u_x as int, dir_x as int, 0x8000_0000, 0x8000_0000);
            lemma_abs_mul(u_y as int, dir_y as int, 0x8000_0000, 0x8000_0000);
            lemma_abs_mul(dir_x as int, dir_x as int, 0x8000_0000, 0x8000_0000);
            lemma_abs_mul(dir_y as int, dir_y as int, 0x8000_0000, 0x8000_0000);
            lemma_abs_mul(q@.d, f@.d, 0x8000, 0x8000);
            lemma_abs_mul(f@.d, t@.d, 0x8000, 0x8000);
            lemma_abs_mul(q@.d * f@.d, f@.d * t@.d, 0x4000_0000, 0x4000_0000);
            lemma_abs_mul(f@.d * t@.d, f@.d * t@.d, 0x4000_0000, 0x4000_0000);
        }
        let sn: i128 = u_x * dir_x + u_y * dir_y;
        let ln: i128 = dir_x * dir_x + dir_y * dir_y;
        let sd: i128 = (q.den * f.den) * (f.den * t.den);
        let ld: i128 = (f.den * t.den) * (f.den * t.den);
        proof {
            lemma_abs_mul(
                sn as int,
                ld as int,
                0x8000_0000_0000_0000,
                0x1000_0000_0000_0000,
            );
            lemma_abs_mul(
                ln as int,
                sd as int,
                0x8000_0000_0000_0000,
                0x1000_0000_0000_0000,
            );
        }
        sn >= 0 && sn * ld <= ln * sd
    }


    /// The relative position of the projection of `q` onto the
    /// infinite line through the edge: the parameter `t` with
    /// `t * length2 == dot(q - from, to - from)`, so `t` in `[0, 1]`
    /// means the projection lies between `from` (at `0`) and `to` (at
    /// `1`), negative values lie before `from` and values above `1`
    /// beyond `to`. The edge must not be degenerate: `from == to`
    /// would divide by zero.
    pub fn project_point(&self, q: &Point2) -> (r: Rat)
        requires
            self.wf(),
            q.wf(),
            self.in_range(0x8000),
            pt_in(q@, 0x8000),
            !pt_eq(self.from@, self.to@),
        ensures
            r.wf(),
            frac_eq(
                frac_mul(r@, pt_dot(pt_sub(self.to@, self.from@), pt_sub(self.to@, self.from@))),
                pt_dot(pt_sub(q@, self.from@), pt_sub(self.to@, self.from@)),
            ),
    {
        let f = &self.from;
        let t = &self.to;
        proof {
            lemma_abs_mul(t@.x, f@.d, 0x8000, 0x8000);
            lemma_abs_mul(f@.x, t@.d, 0x8000, 0x8000);
            lemma_abs_mul(t@.y, f@.d, 0x8000, 0x8000);
            lemma_abs_mul(f@.y, t@.d, 0x8000, 0x8000);
            lemma_abs_mul(q@.x, f@.d, 0x8000, 0x8000);
            lemma_abs_mul(f@.x, q@.d, 0x8000, 0x8000);
            lemma_abs_mul(q@.y, f@.d, 0x8000, 0x8000);
            lemma_abs_mul(f@.y, q@.d, 0x8000, 0x8000);
        }
        let dir_x: i128 = t.nx * f.den - f.nx * t.den;
        let dir_y: i128 = t.ny * f.den - f.ny * t.den;
        let u_x: i128 = q.nx * f.den - f.nx * q.den;
        let u_y: i128 = q.ny * f.den - f.ny * q.den;
        proof {
            lemma_abs_mul(u_x as int, dir_x as int, 0x8000_0000, 0x8000_0000);
            lemma_abs_mul(u_y as int, dir_y as int, 0x8000_0000, 0x8000_0000);
            lemma_abs_mul(dir_x as int, dir_x as int, 0x8000_0000, 0x8000_0000);
            lemma_abs_mul(dir_y as int, dir_y as int, 0x8000_0000, 0x8000_0000);
            lemma_abs_mul(q@.d, f@.d, 0x8000, 0x8000);
            lemma_abs_mul(f@.d, t@.d, 0x8000, 0x8000);
            lemma_abs_mul(q@.d * f@.d, f@.d * t@.d, 0x4000_0000, 0x4000_0000);
            lemma_abs_mul(f@.d * t@.d, f@.d * t@.d, 0x4000_0000, 0x4000_0000);
            assert(f@.x * t@.d != t@.x * f@.d || f@.y * t@.d != t@.y * f@.d);
            assert(dir_x as int != 0 || dir_y as int != 0) by (nonlinear_arith)
                requires
                    f@.x * t@.d != t@.x * f@.d || f@.y * t@.d != t@.y * f@.d,
                    dir_x as int == t@.x * f@.d - f@.x * t@.d,
                    dir_y as int == t@.y * f@.d - f@.y * t@.d,
            {}
        }
        let sn: i128 = u_x * dir_x + u_y * dir_y;
        let ln: i128 = dir_x * dir_x + dir_y * dir_y;
        let sd: i128 = (q.den * f.den) * (f.den * t.den);
        let ld: i128 = (f.den * t.den) * (f.den * t.den);
        proof {
            assert(ln > 0) by (nonlinear_arith)
                requires
                    dir_x as int != 0 || dir_y as int != 0,
                    ln as int == dir_x as int * dir_x as int + dir_y as int * dir_y as int,
            {}
            assert(sd > 0 && ld > 0) by (nonlinear_arith)
                requires
                    q@.d > 0,
                    f@.d > 0,
                    t@.d > 0,
                    sd as int == (q@.d * f@.d) * (f@.d * t@.d),
                    ld as int == (f@.d * t@.d) * (f@.d * t@.d),
            {}
            lemma_abs_mul(
                sn as int,
                ld as int,
                0x8000_0000_0000_0000,
                0x1000_0000_0000_0000,
            );
            lemma_abs_mul(
                sd as int,
                ln as int,
                0x1000_0000_0000_0000,
                0x8000_0000_0000_0000,
            );
            assert(sd as int * ln as int > 0) by (nonlinear_arith)
                requires
                    sd > 0,
                    ln > 0,
            {}
        }
        let raw = rat_reduced(sn * ld, sd * ln);
        proof {
            let sf = pt_dot(pt_sub(q@, self.from@), pt_sub(self.to@, self.from@));
            let lf = pt_dot(pt_sub(self.to@, self.from@), pt_sub(self.to@, self.from@));
            assert(frac_eq(frac_mul(raw@, lf), sf)) by (nonlinear_arith)
                requires
                    raw@.n * ((sd as int) * (ln as int)) == ((sn as int) * (ld as int)) * raw@.d,
                    sn as int == sf.n,
                    sd as int == sf.d,
                    ln as int == lf.n,
                    ld as int == lf.d,
                    raw@.d > 0,
                    sd > 0,
                    ld > 0,
                    ln > 0,
            {}
        }
        raw
    }


    /// The squared distance from `q` to the nearest point of this
    /// segment, exactly. The edge must not be degenerate.
    pub fn distance2(&self, q: &Point2) -> (r: Rat)
        requires
            self.wf(),
            q.wf(),
            self.in_range(dist_bound()),
            pt_in(q@, dist_bound()),
            !pt_eq(self.from@, self.to@),
        ensures
            r.wf(),
            frac_eq(r@, seg_dist2(self.from@, self.to@, q@)),
    {
        seg_dist2_core(&self.from, &self.to, q)
    }

    /// The squared distance from `q` to its projection onto the
    /// infinite line through this edge, exactly: the result `r`
    /// satisfies `r * |dir|^2 == det^2`, the square of the orientation
    /// determinant. The edge must not be degenerate.
    pub fn projection_distance2(&self, q: &Point2) -> (r: Rat)
        requires
            self.wf(),
            q.wf(),
            self.in_range(0x8000),
            pt_in(q@, 0x8000),
            !pt_eq(self.from@, self.to@),
        ensures
            r.wf(),
            frac_eq(
                frac_mul(r@, pt_dot(pt_sub(self.to@, self.from@), pt_sub(self.to@, self.from@))),
                frac_mul(
                    side_det(self.from@, self.to@, q@),
                    side_det(self.from@, self.to@, q@),
                ),
            ),
    {
        let f = &self.from;
        let t = &self.to;
        proof {
            lemma_abs_mul(t@.x, f@.d, 0x8000, 0x8000);
            lemma_abs_mul(f@.x, t@.d, 0x8000, 0x8000);
            lemma_abs_mul(t@.y, f@.d, 0x8000, 0x8000);
            lemma_abs_mul(f@.y, t@.d, 0x8000, 0x8000);
            lemma_abs_mul(q@.x, f@.d, 0x8000, 0x8000);
            lemma_abs_mul(f@.x, q@.d, 0x8000, 0x8000);
            lemma_abs_mul(q@.y, f@.d, 0x8000, 0x8000);
            lemma_abs_mul(f@.y, q@.d, 0x8000, 0x8000);
            lemma_abs_mul(q@.d, f@.d, 0x8000, 0x8000);
        }
        let dir_x: i128 = t.nx * f.den - f.nx * t.den;
        let dir_y: i128 = t.ny * f.den - f.ny * t.den;
        let u_x: i128 = q.nx * f.den - f.nx * q.den;
        let u_y: i128 = q.ny * f.den - f.ny * q.den;
        proof {
            lemma_abs_mul(dir_x as int, u_y as int, 0x8000_0000, 0x8000_0000);
            lemma_abs_mul(dir_y as int, u_x as int, 0x8000_0000, 0x8000_0000);
            lemma_abs_mul(dir_x as int, dir_x as int, 0x8000_0000, 0x8000_0000);
            lemma_abs_mul(dir_y as int, dir_y as int, 0x8000_0000, 0x8000_0000);
        }
        let cn: i128 = dir_x * u_y - dir_y * u_x;
        let ln: i128 = dir_x * dir_x + dir_y * dir_y;
        let d0: i128 = q.den * f.den;
        proof {
            assert(f@.x * t@.d != t@.x * f@.d || f@.y * t@.d != t@.y * f@.d);
            assert(ln > 0) by (nonlinear_arith)
                requires
                    f@.x * t@.d != t@.x * f@.d || f@.y * t@.d != t@.y * f@.d,
                    dir_x as int == t@.x * f@.d - f@.x * t@.d,
                    dir_y as int == t@.y * f@.d - f@.y * t@.d,
                    ln as int == dir_x as int * dir_x as int + dir_y as int * dir_y as int,
            {}
            lemma_abs_mul(
                cn as int,
                cn as int,
                0x8000_0000_0000_0000,
                0x8000_0000_0000_0000,
            );
            lemma_abs_mul(d0 as int, d0 as int, 0x4000_0000, 0x4000_0000);
            lemma_abs_mul(
                d0 as int * d0 as int,
                ln as int,
                0x1000_0000_0000_0000,
                0x1_0000_0000_0000_0000,
            );
            assert(d0 as int > 0 && (d0 as int * d0 as int) * (ln as int) > 0)
                by (nonlinear_arith)
                requires
                    q@.d > 0,
                    f@.d > 0,
                    d0 as int == q@.d * f@.d,
                    ln > 0,
            {}
        }
        let raw_num: i128 = cn * cn;
        let raw_den: i128 = (d0 * d0) * ln;
        let ghost det = side_det(f@, t@, q@);
        let ghost l = pt_dot(pt_sub(t@, f@), pt_sub(t@, f@));
        let ghost raw = Frac { n: raw_num as int, d: raw_den as int };
        proof {
            assert(frac_eq(frac_mul(raw, l), frac_mul(det, det))) by (nonlinear_arith)
                requires
                    raw.n == (cn as int) * (cn as int),
                    raw.d == ((q@.d * f@.d) * (q@.d * f@.d)) * (ln as int),
                    cn as int == det.n,
                    det.d == (t@.d * f@.d) * (q@.d * f@.d),
                    l.n == ln as int,
                    l.d == (f@.d * t@.d) * (f@.d * t@.d),
            {}
        }
        let r = rat_reduced(raw_num, raw_den);
        proof {
            assert(frac_wf(l) && frac_wf(det) && frac_wf(frac_mul(r@, l)) && frac_wf(
                frac_mul(raw, l),
            ) && frac_wf(frac_mul(det, det))) by (nonlinear_arith)
                requires
                    l.d == (f@.d * t@.d) * (f@.d * t@.d),
                    det.d == (t@.d * f@.d) * (q@.d * f@.d),
                    raw.d == ((q@.d * f@.d) * (q@.d * f@.d)) * (ln as int),
                    f@.d > 0,
                    t@.d > 0,
                    q@.d > 0,
                    ln > 0,
                    r@.d > 0,
            {}
            lemma_frac_mul_congruence(r@, raw, l);
            lemma_frac_eq_trans(frac_mul(r@, l), frac_mul(raw, l), frac_mul(det, det));
        }
        r
    }

    /// The point of this segment nearest to `q`, exactly: `from` when
    /// the projection parameter is at most zero, `to` when it is at
    /// least one, and the interior projection point otherwise. The edge
    /// must not be degenerate.
    pub fn nearest_point(&self, q: &Point2) -> (r: Point2)
        requires
            self.wf(),
            q.wf(),
            self.in_range(0x800),
            pt_in(q@, 0x800),
            !pt_eq(self.from@, self.to@),
        ensures
            r.wf(),
            pt_eq(r@, nearest_pt_spec(self.from@, self.to@, q@)),
    {
        let f = &self.from;
        let t = &self.to;
        proof {
            lemma_abs_mul(t@.x, f@.d, 0x800, 0x800);
            lemma_abs_mul(f@.x, t@.d, 0x800, 0x800);
            lemma_abs_mul(t@.y, f@.d, 0x800, 0x800);
            lemma_abs_mul(f@.y, t@.d, 0x800, 0x800);
            lemma_abs_mul(q@.x, f@.d, 0x800, 0x800);
            lemma_abs_mul(f@.x, q@.d, 0x800, 0x800);
            lemma_abs_mul(q@.y, f@.d, 0x800, 0x800);
            lemma_abs_mul(f@.y, q@.d, 0x800, 0x800);
            lemma_abs_mul(q@.d, f@.d, 0x800, 0x800);
            lemma_abs_mul(f@.d, t@.d, 0x800, 0x800);
        }
        let dir_x: i128 = t.nx * f.den - f.nx * t.den;
        let dir_y: i128 = t.ny * f.den - f.ny * t.den;
        let dir_d: i128 = f.den * t.den;
        let u_x: i128 = q.nx * f.den - f.nx * q.den;
        let u_y: i128 = q.ny * f.den - f.ny * q.den;
        proof {
            lemma_abs_mul(u_x as int, dir_x as int, 0x80_0000, 0x80_0000);
            lemma_abs_mul(u_y as int, dir_y as int, 0x80_0000, 0x80_0000);
            lemma_abs_mul(dir_x as int, dir_x as int, 0x80_0000, 0x80_0000);
            lemma_abs_mul(dir_y as int, dir_y as int, 0x80_0000, 0x80_0000);
            lemma_abs_mul(q@.d * f@.d, f@.d * t@.d, 0x40_0000, 0x40_0000);
            lemma_abs_mul(f@.d * t@.d, f@.d * t@.d, 0x40_0000, 0x40_0000);
        }
        let sn: i128 = u_x * dir_x + u_y * dir_y;
        let ln: i128 = dir_x * dir_x + dir_y * dir_y;
        let sd: i128 = (q.den * f.den) * (f.den * t.den);
        let ld: i128 = (f.den * t.den) * (f.den * t.den);
        proof {
            lemma_abs_mul(ln as int, sd as int, 0x8000_0000_0000, 0x1000_0000_0000);
            lemma_abs_mul(sn as int, ld as int, 0x8000_0000_0000, 0x1000_0000_0000);
        }
        if sn <= 0 {
            *f
        } else if ln * sd <= sn * ld {
            *t
        } else {
            proof {
                lemma_abs_mul(sn as int, ld as int, 0x8000_0000_0000, 0x1000_0000_0000);
                lemma_abs_mul(sd as int, ln as int, 0x1000_0000_0000, 0x8000_0000_0000);
            }
            let t_n: i128 = sn * ld;
            let t_d: i128 = sd * ln;
            proof {
                lemma_abs_mul(
                    dir_x as int,
                    t_n as int,
                    0x80_0000,
                    0x8_0000_0000_0000_0000_0000_00,
                );
                lemma_abs_mul(
                    dir_y as int,
                    t_n as int,
                    0x80_0000,
                    0x8_0000_0000_0000_0000_0000_00,
                );
                lemma_abs_mul(
                    dir_d as int,
                    t_d as int,
                    0x40_0000,
                    0x8_0000_0000_0000_0000_0000_00,
                );
            }
            let v_x: i128 = dir_x * t_n;
            let v_y: i128 = dir_y * t_n;
            let v_d: i128 = dir_d * t_d;
            proof {
                lemma_abs_mul(
                    f@.x,
                    v_d as int,
                    0x800,
                    0x2_0000_0000_0000_0000_0000_0000_0000,
                );
                lemma_abs_mul(
                    f@.y,
                    v_d as int,
                    0x800,
                    0x2_0000_0000_0000_0000_0000_0000_0000,
                );
                lemma_abs_mul(
                    v_x as int,
                    f@.d,
                    0x4_0000_0000_0000_0000_0000_0000_0000,
                    0x800,
                );
                lemma_abs_mul(
                    v_y as int,
                    f@.d,
                    0x4_0000_0000_0000_0000_0000_0000_0000,
                    0x800,
                );
                lemma_abs_mul(
                    f@.d,
                    v_d as int,
                    0x800,
                    0x2_0000_0000_0000_0000_0000_0000_0000,
                );
                assert(f@.x * t@.d != t@.x * f@.d || f@.y * t@.d != t@.y * f@.d);
                assert(ln > 0) by (nonlinear_arith)
                    requires
                        f@.x * t@.d != t@.x * f@.d || f@.y * t@.d != t@.y * f@.d,
                        dir_x as int == t@.x * f@.d - f@.x * t@.d,
                        dir_y as int == t@.y * f@.d - f@.y * t@.d,
                        ln as int == dir_x as int * dir_x as int + dir_y as int * dir_y
                            as int,
                {}
                assert(v_d as int > 0) by (nonlinear_arith)
                    requires
                        v_d as int == dir_d as int * (t_d as int),
                        t_d as int == sd as int * (ln as int),
                        sd as int == (q@.d * f@.d) * (f@.d * t@.d),
                        dir_d as int == f@.d * t@.d,
                        q@.d > 0,
                        f@.d > 0,
                        t@.d > 0,
                        ln as int > 0,
                {}
                assert(f@.d * (v_d as int) > 0) by (nonlinear_arith)
                    requires
                        f@.d > 0,
                        v_d as int > 0,
                {}
            }
            let r_x: i128 = f.nx * v_d + v_x * f.den;
            let r_y: i128 = f.ny * v_d + v_y * f.den;
            let r_d: i128 = f.den * v_d;
            point_reduced(r_x, r_y, r_d)
        }
    }

    /// The smallest axis-aligned rectangle holding this edge.
    pub fn mbr(&self) -> (r: crate::bounding_rect::BoundingRect)
        requires
            self.wf(),
            self.in_range(query_bound()),
        ensures
            crate::bounding_rect::rect_wf(r),
            frac_eq(
                crate::point::pt_x(r.lower@),
                crate::bounding_rect::frac_min(
                    crate::point::pt_x(self.from@),
                    crate::point::pt_x(self.to@),
                ),
            ),
            frac_eq(
                crate::point::pt_y(r.lower@),
                crate::bounding_rect::frac_min(
                    crate::point::pt_y(self.from@),
                    crate::point::pt_y(self.to@),
                ),
            ),
            frac_eq(
                crate::point::pt_x(r.upper@),
                crate::bounding_rect::frac_max(
                    crate::point::pt_x(self.from@),
                    crate::point::pt_x(self.to@),
                ),
            ),
            frac_eq(
                crate::point::pt_y(r.upper@),
                crate::bounding_rect::frac_max(
                    crate::point::pt_y(self.from@),
                    crate::point::pt_y(self.to@),
                ),
            ),
    {
        crate::bounding_rect::BoundingRect::from_corners(&self.from, &self.to)
    }

    /// Classifies `q` against this edge with the kernel `K`.
    pub fn side_query<K: DelaunayKernel>(&self, q: &Point2) -> (r: EdgeSideInfo)
        requires
            self.wf(),
            q.wf(),
            self.in_range(query_bound()),
            pt_in(q@, query_bound()),
        ensures
            r.wf(),
            frac_eq(r@, side_det(self.from@, self.to@, q@)),
            frac_sign(r@) == frac_sign(side_det(self.from@, self.to@, q@)),
    {
        K::side_query(self, q)
    }

    /// Whether this edge and `other` intersect, touching endpoints
    /// included. The edges must not be collinear — all four side
    /// determinants vanishing is a precondition violation, which the
    /// caller must rule out beforehand — and the answer is never a
    /// silent misclassification of that degenerate configuration.
    pub fn intersects_edge_non_collinear<K: DelaunayKernel>(&self, other: &SimpleEdge) -> (r:
        bool)
        requires
            self.wf(),
            other.wf(),
            self.in_range(query_bound()),
            other.in_range(query_bound()),
            !(frac_sign(side_det(self.from@, self.to@, other.from@)) == 0 && frac_sign(
                side_det(self.from@, self.to@, other.to@),
            ) == 0 && frac_sign(side_det(other.from@, other.to@, self.from@)) == 0 && frac_sign(
                side_det(other.from@, other.to@, self.to@),
            ) == 0),
        ensures
            r == edges_intersect(self.from@, self.to@, other.from@, other.to@),
    {
        let other_from = self.side_query::<K>(&other.from);
        let other_to = self.side_query::<K>(&other.to);
        let self_from = other.side_query::<K>(&self.from);
        let self_to = other.side_query::<K>(&self.to);
        let differs_other = other_from.ne(&other_to);
        let differs_self = self_from.ne(&self_to);
        differs_other && differs_self
    }
}

} // verus!
