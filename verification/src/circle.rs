//! Circles.

use vstd::prelude::*;
use crate::rational::{
    Frac,
    Rat,
    frac_add,
    frac_eq,
    frac_le,
    frac_mul,
    frac_sub,
    lemma_abs_mul,
    lemma_frac_le_congruence,
};
use crate::point::{Point2, Pt, pt_dot, pt_in, pt_sub, pt_x, pt_y};
use crate::bounding_rect::{BoundingRect, frac_max, frac_min, rect_wf};

verus! {

/// Coordinate and radius magnitude accepted by the containment query.
pub open spec fn circle_bound() -> int {
    0x10_0000
}

/// The squared distance from `p` to the center `c`.
pub open spec fn center_dist2(c: Pt, p: Pt) -> Frac {
    pt_dot(pt_sub(p, c), pt_sub(p, c))
}

/// `p` lies in the closed disc: the radius is not negative and
/// `|p - c|^2 <= radius^2`. A negative radius yields an empty region.
pub open spec fn circle_contains(c: Pt, radius: Frac, p: Pt) -> bool {
    radius.n >= 0 && frac_le(center_dist2(c, p), frac_mul(radius, radius))
}

/// A circle, defined by its center and radius.
#[derive(Clone, Copy, Debug, PartialEq, Eq, Structural, Hash)]
pub struct SimpleCircle {
    /// The circle's center.
    pub center: Point2,
    /// The circle's radius.
    pub radius: Rat,
}

impl SimpleCircle {
    /// Center and radius are well formed.
    pub open spec fn wf(self) -> bool {
        self.center.wf() && self.radius.wf()
    }

    /// Create a new circle.
    pub fn new(center: Point2, radius: Rat) -> (r: SimpleCircle)
        ensures
            r.center == center,
            r.radius == radius,
    {
        SimpleCircle { center, radius }
    }

    /// The smallest axis-aligned rectangle holding the circle: the
    /// center offset by the radius along each axis.
    pub fn mbr(&self) -> (r: BoundingRect)
        requires
            self.wf(),
            pt_in(self.center@, circle_bound()),
            -circle_bound() <= self.radius@.n <= circle_bound(),
            self.radius@.d <= circle_bound(),
        ensures
            rect_wf(r),
            frac_eq(
                pt_x(r.lower@),
                frac_min(
                    frac_sub(pt_x(self.center@), self.radius@),
                    frac_add(pt_x(self.center@), self.radius@),
                ),
            ),
            frac_eq(
                pt_y(r.lower@),
                frac_min(
                    frac_sub(pt_y(self.center@), self.radius@),
                    frac_add(pt_y(self.center@), self.radius@),
                ),
            ),
            frac_eq(
                pt_x(r.upper@),
                frac_max(
                    frac_sub(pt_x(self.center@), self.radius@),
                    frac_add(pt_x(self.center@), self.radius@),
                ),
            ),
            frac_eq(
                pt_y(r.upper@),
                frac_max(
                    frac_sub(pt_y(self.center@), self.radius@),
                    frac_add(pt_y(self.center@), self.radius@),
                ),
            ),
    {
        let c = &self.center;
        let rad = &self.radius;
        proof {
            lemma_abs_mul(c@.x, rad@.d, 0x10_0000, 0x10_0000);
            lemma_abs_mul(rad@.n, c@.d, 0x10_0000, 0x10_0000);
            lemma_abs_mul(c@.y, rad@.d, 0x10_0000, 0x10_0000);
            lemma_abs_mul(c@.d, rad@.d, 0x10_0000, 0x10_0000);
            assert(c@.d * rad@.d > 0) by (nonlinear_arith)
                requires
                    c@.d > 0,
                    rad@.d > 0,
            {}
        }
        let den: i128 = c.den * rad.den;
        let sx = Rat { num: c.nx * rad.den - rad.num * c.den, den };
        let ax = Rat { num: c.nx * rad.den + rad.num * c.den, den };
        let sy = Rat { num: c.ny * rad.den - rad.num * c.den, den };
        let ay = Rat { num: c.ny * rad.den + rad.num * c.den, den };
        proof {
            lemma_abs_mul(sx@.n, ax@.d, 0x200_0000_0000, 0x100_0000_0000);
            lemma_abs_mul(ax@.n, sx@.d, 0x200_0000_0000, 0x100_0000_0000);
            lemma_abs_mul(sy@.n, ay@.d, 0x200_0000_0000, 0x100_0000_0000);
            lemma_abs_mul(ay@.n, sy@.d, 0x200_0000_0000, 0x100_0000_0000);
        }
        let lx = if sx.num * ax.den <= ax.num * sx.den {
            sx
        } else {
            ax
        };
        let ly = if sy.num * ay.den <= ay.num * sy.den {
            sy
        } else {
            ay
        };
        let ux = if ax.num * sx.den <= sx.num * ax.den {
            sx
        } else {
            ax
        };
        let uy = if ay.num * sy.den <= sy.num * ay.den {
            sy
        } else {
            ay
        };
        proof {
            lemma_abs_mul(lx@.n, ly@.d, 0x200_0000_0000, 0x100_0000_0000);
            lemma_abs_mul(ly@.n, lx@.d, 0x200_0000_0000, 0x100_0000_0000);
            lemma_abs_mul(lx@.d, ly@.d, 0x100_0000_0000, 0x100_0000_0000);
            lemma_abs_mul(ux@.n, uy@.d, 0x200_0000_0000, 0x100_0000_0000);
            lemma_abs_mul(uy@.n, ux@.d, 0x200_0000_0000, 0x100_0000_0000);
            lemma_abs_mul(ux@.d, uy@.d, 0x100_0000_0000, 0x100_0000_0000);
        }
        let lower = Point2::from_coords(&lx, &ly);
        let upper = Point2::from_coords(&ux, &uy);
        proof {
            lemma_frac_le_congruence(pt_x(lower@), pt_x(upper@), lx@, ux@);
            lemma_frac_le_congruence(pt_y(lower@), pt_y(upper@), ly@, uy@);
        }
        BoundingRect { lower, upper }
    }

    /// Whether `point` lies in the closed disc, decided on squared
    /// quantities: no square root is taken.
    pub fn contains(&self, point: &Point2) -> (r: bool)
        requires
            self.wf(),
            point.wf(),
            pt_in(self.center@, circle_bound()),
            pt_in(point@, circle_bound()),
            -circle_bound() <= self.radius@.n <= circle_bound(),
            self.radius@.d <= circle_bound(),
        ensures
            r == circle_contains(self.center@, self.radius@, point@),
    {
        let c = &self.center;
        proof {
            lemma_abs_mul(point@.x, c@.d, 0x10_0000, 0x10_0000);
            lemma_abs_mul(c@.x, point@.d, 0x10_0000, 0x10_0000);
            lemma_abs_mul(point@.y, c@.d, 0x10_0000, 0x10_0000);
            lemma_abs_mul(c@.y, point@.d, 0x10_0000, 0x10_0000);
        }
        let ux: i128 = point.nx * c.den - c.nx * point.den;
        let uy: i128 = point.ny * c.den - c.ny * point.den;
        proof {
            lemma_abs_mul(ux as int, ux as int, 0x200_0000_0000, 0x200_0000_0000);
            lemma_abs_mul(uy as int, uy as int, 0x200_0000_0000, 0x200_0000_0000);
            lemma_abs_mul(point@.d, c@.d, 0x10_0000, 0x10_0000);
            lemma_abs_mul(self.radius@.n, self.radius@.n, 0x10_0000, 0x10_0000);
            lemma_abs_mul(self.radius@.d, self.radius@.d, 0x10_0000, 0x10_0000);
        }
        let un: i128 = ux * ux + uy * uy;
        let d0: i128 = point.den * c.den;
        let rn2: i128 = self.radius.num * self.radius.num;
        let rd2: i128 = self.radius.den * self.radius.den;
        proof {
            lemma_abs_mul(d0 as int, d0 as int, 0x100_0000_0000, 0x100_0000_0000);
            lemma_abs_mul(
                un as int,
                rd2 as int,
                0x8_0000_0000_0000_0000_0000,
                0x100_0000_0000,
            );
            lemma_abs_mul(
                rn2 as int,
                d0 as int * d0 as int,
                0x100_0000_0000,
                0x1_0000_0000_0000_0000_0000,
            );
        }
        let ud: i128 = d0 * d0;
        self.radius.num >= 0 && un * rd2 <= rn2 * ud
    }
}

} // verus!
