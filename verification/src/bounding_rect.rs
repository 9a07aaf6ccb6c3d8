//! Axis-aligned bounding rectangles.

use vstd::prelude::*;
use crate::rational::{Frac, frac_eq, frac_le, frac_wf, iabs, lemma_abs_mul, lemma_frac_le_congruence};
use crate::point::{Point2, Pt, pt_in, pt_x, pt_y};

verus! {

/// The smaller of two fractions with positive denominators, the first
/// on a tie.
pub open spec fn frac_min(a: Frac, b: Frac) -> Frac {
    if frac_le(a, b) {
        a
    } else {
        b
    }
}

/// The larger of two fractions with positive denominators, the first
/// on a tie.
pub open spec fn frac_max(a: Frac, b: Frac) -> Frac {
    if frac_le(b, a) {
        a
    } else {
        b
    }
}

/// Taking a minimum or maximum respects change of representative.
pub proof fn lemma_frac_min_max_congruence(a: Frac, a2: Frac, c: Frac, c2: Frac)
    requires
        frac_wf(a),
        frac_wf(a2),
        frac_wf(c),
        frac_wf(c2),
        frac_eq(a, a2),
        frac_eq(c, c2),
    ensures
        frac_eq(frac_min(a, c), frac_min(a2, c2)),
        frac_eq(frac_max(a, c), frac_max(a2, c2)),
{
    lemma_frac_le_congruence(a, c, a2, c2);
    lemma_frac_le_congruence(c, a, c2, a2);
}

/// The rectangle holds its two opposite corners in order on both axes.
pub open spec fn rect_wf(r: BoundingRect) -> bool {
    r.lower.wf() && r.upper.wf() && frac_le(pt_x(r.lower@), pt_x(r.upper@)) && frac_le(
        pt_y(r.lower@),
        pt_y(r.upper@),
    )
}

/// An axis-aligned rectangle given by its componentwise minimal and
/// maximal corners.
#[derive(Clone, Copy, Debug, PartialEq, Eq, Structural, Hash)]
pub struct BoundingRect {
    /// The componentwise minimal corner.
    pub lower: Point2,
    /// The componentwise maximal corner.
    pub upper: Point2,
}

impl BoundingRect {
    /// The smallest rectangle holding the two given points.
    pub fn from_corners(a: &Point2, b: &Point2) -> (r: BoundingRect)
        requires
            a.wf(),
            b.wf(),
            pt_in(a@, 0x4000_0000),
            pt_in(b@, 0x4000_0000),
        ensures
            rect_wf(r),
            frac_eq(pt_x(r.lower@), frac_min(pt_x(a@), pt_x(b@))),
            frac_eq(pt_y(r.lower@), frac_min(pt_y(a@), pt_y(b@))),
            frac_eq(pt_x(r.upper@), frac_max(pt_x(a@), pt_x(b@))),
            frac_eq(pt_y(r.upper@), frac_max(pt_y(a@), pt_y(b@))),
            pt_in(r.lower@, 0x1000_0000_0000_0000),
            pt_in(r.upper@, 0x1000_0000_0000_0000),
    {
        proof {
            lemma_abs_mul(a@.x, b@.d, 0x4000_0000, 0x4000_0000);
            lemma_abs_mul(b@.x, a@.d, 0x4000_0000, 0x4000_0000);
            lemma_abs_mul(a@.y, b@.d, 0x4000_0000, 0x4000_0000);
            lemma_abs_mul(b@.y, a@.d, 0x4000_0000, 0x4000_0000);
            lemma_abs_mul(a@.d, b@.d, 0x4000_0000, 0x4000_0000);
        }
        let lx = if a.nx * b.den <= b.nx * a.den {
            a.x()
        } else {
            b.x()
        };
        let ly = if a.ny * b.den <= b.ny * a.den {
            a.y()
        } else {
            b.y()
        };
        let ux = if b.nx * a.den <= a.nx * b.den {
            a.x()
        } else {
            b.x()
        };
        let uy = if b.ny * a.den <= a.ny * b.den {
            a.y()
        } else {
            b.y()
        };
        proof {
            lemma_abs_mul(lx@.n, ly@.d, 0x4000_0000, 0x4000_0000);
            lemma_abs_mul(ly@.n, lx@.d, 0x4000_0000, 0x4000_0000);
            lemma_abs_mul(lx@.d, ly@.d, 0x4000_0000, 0x4000_0000);
            lemma_abs_mul(ux@.n, uy@.d, 0x4000_0000, 0x4000_0000);
            lemma_abs_mul(uy@.n, ux@.d, 0x4000_0000, 0x4000_0000);
            lemma_abs_mul(ux@.d, uy@.d, 0x4000_0000, 0x4000_0000);
        }
        let lower = Point2::from_coords(&lx, &ly);
        let upper = Point2::from_coords(&ux, &uy);
        proof {
            lemma_frac_le_congruence(pt_x(lower@), pt_x(upper@), lx@, ux@);
            lemma_frac_le_congruence(pt_y(lower@), pt_y(upper@), ly@, uy@);
        }
        BoundingRect { lower, upper }
    }

    /// The smallest rectangle holding this rectangle and the point.
    pub fn add_point(&self, p: &Point2) -> (r: BoundingRect)
        requires
            rect_wf(*self),
            p.wf(),
            pt_in(self.lower@, 0x1000_0000_0000_0000),
            pt_in(self.upper@, 0x1000_0000_0000_0000),
            pt_in(p@, 0x4000_0000),
        ensures
            rect_wf(r),
            frac_eq(pt_x(r.lower@), frac_min(pt_x(self.lower@), pt_x(p@))),
            frac_eq(pt_y(r.lower@), frac_min(pt_y(self.lower@), pt_y(p@))),
            frac_eq(pt_x(r.upper@), frac_max(pt_x(self.upper@), pt_x(p@))),
            frac_eq(pt_y(r.upper@), frac_max(pt_y(self.upper@), pt_y(p@))),
    {
        let lo = &self.lower;
        let up = &self.upper;
        proof {
            lemma_abs_mul(lo@.x, p@.d, 0x1000_0000_0000_0000, 0x4000_0000);
            lemma_abs_mul(p@.x, lo@.d, 0x4000_0000, 0x1000_0000_0000_0000);
            lemma_abs_mul(lo@.y, p@.d, 0x1000_0000_0000_0000, 0x4000_0000);
            lemma_abs_mul(p@.y, lo@.d, 0x4000_0000, 0x1000_0000_0000_0000);
            lemma_abs_mul(up@.x, p@.d, 0x1000_0000_0000_0000, 0x4000_0000);
            lemma_abs_mul(p@.x, up@.d, 0x4000_0000, 0x1000_0000_0000_0000);
            lemma_abs_mul(up@.y, p@.d, 0x1000_0000_0000_0000, 0x4000_0000);
            lemma_abs_mul(p@.y, up@.d, 0x4000_0000, 0x1000_0000_0000_0000);
        }
        let lx = if lo.nx * p.den <= p.nx * lo.den {
            lo.x()
        } else {
            p.x()
        };
        let ly = if lo.ny * p.den <= p.ny * lo.den {
            lo.y()
        } else {
            p.y()
        };
        let ux = if p.nx * up.den <= up.nx * p.den {
            up.x()
        } else {
            p.x()
        };
        let uy = if p.ny * up.den <= up.ny * p.den {
            up.y()
        } else {
            p.y()
        };
        proof {
            lemma_abs_mul(lx@.n, ly@.d, 0x1000_0000_0000_0000, 0x1000_0000_0000_0000);
            lemma_abs_mul(ly@.n, lx@.d, 0x1000_0000_0000_0000, 0x1000_0000_0000_0000);
            lemma_abs_mul(lx@.d, ly@.d, 0x1000_0000_0000_0000, 0x1000_0000_0000_0000);
            lemma_abs_mul(ux@.n, uy@.d, 0x1000_0000_0000_0000, 0x1000_0000_0000_0000);
            lemma_abs_mul(uy@.n, ux@.d, 0x1000_0000_0000_0000, 0x1000_0000_0000_0000);
            lemma_abs_mul(ux@.d, uy@.d, 0x1000_0000_0000_0000, 0x1000_0000_0000_0000);
        }
        let lower = Point2::from_coords(&lx, &ly);
        let upper = Point2::from_coords(&ux, &uy);
        proof {
            lemma_frac_le_congruence(pt_x(lower@), pt_x(upper@), lx@, ux@);
            lemma_frac_le_congruence(pt_y(lower@), pt_y(upper@), ly@, uy@);
        }
        BoundingRect { lower, upper }
    }
}

} // verus!
