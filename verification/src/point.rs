//! Exact 2D points.
//!
//! A point stores the two coordinate numerators over one shared
//! positive denominator, so that subtraction, dot product and cross
//! product of two points each cost a single denominator product. The
//! mathematical model is [`Pt`], a triple of unbounded integers; two
//! models denote the same point of the rational plane exactly when
//! [`pt_eq`] holds.

use vstd::prelude::*;
use crate::rational::{
    Frac,
    Rat,
    frac_eq,
    frac_in,
    iabs,
    lemma_abs_mul,
    lemma_frac_eq_trans,
    rat_gcd,
};
use vstd::arithmetic::div_mod::lemma_div_multiples_vanish;

verus! {

/// Mathematical model of a point: `(x / d, y / d)`.
pub ghost struct Pt {
    pub x: int,
    pub y: int,
    pub d: int,
}

/// A model point is well formed when its denominator is positive.
pub open spec fn pt_wf(p: Pt) -> bool {
    p.d > 0
}

/// Coordinate magnitudes under which a computation stays exact.
pub open spec fn pt_in(p: Pt, bound: int) -> bool {
    -bound <= p.x <= bound && -bound <= p.y <= bound && 0 < p.d <= bound
}

/// The first coordinate as a fraction.
pub open spec fn pt_x(p: Pt) -> Frac {
    Frac { n: p.x, d: p.d }
}

/// The second coordinate as a fraction.
pub open spec fn pt_y(p: Pt) -> Frac {
    Frac { n: p.y, d: p.d }
}

/// `a` and `b` denote the same point of the plane.
pub open spec fn pt_eq(a: Pt, b: Pt) -> bool {
    a.x * b.d == b.x * a.d && a.y * b.d == b.y * a.d
}

/// Componentwise difference `a - b`.
pub open spec fn pt_sub(a: Pt, b: Pt) -> Pt {
    Pt { x: a.x * b.d - b.x * a.d, y: a.y * b.d - b.y * a.d, d: a.d * b.d }
}

/// Componentwise sum `a + b`.
pub open spec fn pt_add(a: Pt, b: Pt) -> Pt {
    Pt { x: a.x * b.d + b.x * a.d, y: a.y * b.d + b.y * a.d, d: a.d * b.d }
}

/// The vector `a` scaled by the fraction `t`.
pub open spec fn pt_scale(a: Pt, t: Frac) -> Pt {
    Pt { x: a.x * t.n, y: a.y * t.n, d: a.d * t.d }
}

/// Dot product of `a` and `b` taken as vectors.
pub open spec fn pt_dot(a: Pt, b: Pt) -> Frac {
    Frac { n: a.x * b.x + a.y * b.y, d: a.d * b.d }
}

/// 2D cross product (signed parallelogram area) of `a` and `b`.
pub open spec fn pt_cross(a: Pt, b: Pt) -> Frac {
    Frac { n: a.x * b.y - a.y * b.x, d: a.d * b.d }
}

/// The same point with the three stored integers divided by a common
/// divisor of all three, so that magnitudes never grow.
pub fn point_reduced(nx: i128, ny: i128, den: i128) -> (r: Point2)
    requires
        den > 0,
        nx > i128::MIN,
        ny > i128::MIN,
    ensures
        r.wf(),
        pt_eq(r@, Pt { x: nx as int, y: ny as int, d: den as int }),
        -iabs(nx as int) <= r.nx <= iabs(nx as int),
        -iabs(ny as int) <= r.ny <= iabs(ny as int),
        0 < r.den <= den,
{
    let ax: i128 = if nx < 0 {
        -nx
    } else {
        nx
    };
    let ay: i128 = if ny < 0 {
        -ny
    } else {
        ny
    };
    let g1 = rat_gcd(ax, den);
    let g = rat_gcd(ay, g1);
    let ghost kx1: int = choose|k: int| ax as int == #[trigger] ((g1 as int) * k);
    let ghost kd1: int = choose|k: int| den as int == #[trigger] ((g1 as int) * k);
    let ghost ky: int = choose|k: int| ay as int == #[trigger] ((g as int) * k);
    let ghost km: int = choose|k: int| g1 as int == #[trigger] ((g as int) * k);
    let ghost kx: int = km * kx1;
    let ghost kd: int = km * kd1;
    proof {
        assert(ax as int == (g as int) * kx && den as int == (g as int) * kd)
            by (nonlinear_arith)
            requires
                ax as int == (g1 as int) * kx1,
                den as int == (g1 as int) * kd1,
                g1 as int == (g as int) * km,
                kx == km * kx1,
                kd == km * kd1,
        {}
        assert(kx >= 0 && ky >= 0 && kd > 0 && kx <= ax as int && ky <= ay as int && kd
            <= den as int) by (nonlinear_arith)
            requires
                ax as int == (g as int) * kx,
                ay as int == (g as int) * ky,
                den as int == (g as int) * kd,
                g > 0,
                ax >= 0,
                ay >= 0,
                den > 0,
        {}
        lemma_div_multiples_vanish(kx, g as int);
        lemma_div_multiples_vanish(ky, g as int);
        lemma_div_multiples_vanish(kd, g as int);
        assert((g as int) * kx == kx * (g as int) && (g as int) * ky == ky * (g as int) && (
        g as int) * kd == kd * (g as int)) by (nonlinear_arith);
    }
    let qx: i128 = ax / g;
    let qy: i128 = ay / g;
    let d2: i128 = den / g;
    let x2: i128 = if nx < 0 {
        -qx
    } else {
        qx
    };
    let y2: i128 = if ny < 0 {
        -qy
    } else {
        qy
    };
    proof {
        assert(x2 as int * (den as int) == (nx as int) * (d2 as int) && y2 as int * (den as int)
            == (ny as int) * (d2 as int)) by (nonlinear_arith)
            requires
                ax as int == (g as int) * kx,
                ay as int == (g as int) * ky,
                den as int == (g as int) * kd,
                qx as int == kx,
                qy as int == ky,
                d2 as int == kd,
                g > 0,
                nx < 0 ==> x2 as int == -kx && (nx as int) == -(ax as int),
                nx >= 0 ==> x2 as int == kx && (nx as int) == ax as int,
                ny < 0 ==> y2 as int == -ky && (ny as int) == -(ay as int),
                ny >= 0 ==> y2 as int == ky && (ny as int) == ay as int,
        {}
    }
    Point2 { nx: x2, ny: y2, den: d2 }
}

/// An exact point of the rational plane: `(nx / den, ny / den)`.
///
/// Equality of `Point2` values (the derived `==`) compares the stored
/// representation; the constructors divide the three stored integers by
/// a common divisor and keep the denominator positive, so points built
/// from the same coordinates compare equal.
#[derive(Clone, Copy, Debug, PartialEq, Eq, Structural, Hash)]
pub struct Point2 {
    pub nx: i128,
    pub ny: i128,
    pub den: i128,
}

impl View for Point2 {
    type V = Pt;

    open spec fn view(&self) -> Pt {
        Pt { x: self.nx as int, y: self.ny as int, d: self.den as int }
    }
}

impl Point2 {
    /// Positive denominator; numerators whose negation fits.
    pub open spec fn wf(self) -> bool {
        self.den > 0 && self.nx > i128::MIN && self.ny > i128::MIN
    }

    /// Builds the point `(x_num / den, y_num / den)`, normalized, with
    /// magnitudes no larger than the inputs' — so a caller that builds
    /// from small integers can meet any of this crate's magnitude
    /// preconditions that admits those integers.
    pub fn new(x_num: i64, y_num: i64, den: i64) -> (r: Point2)
        requires
            den != 0,
        ensures
            r.wf(),
            pt_eq(r@, Pt { x: x_num as int, y: y_num as int, d: den as int }),
            -iabs(x_num as int) <= r@.x <= iabs(x_num as int),
            -iabs(y_num as int) <= r@.y <= iabs(y_num as int),
            0 < r@.d <= iabs(den as int),
            pt_in(r@, 0x8000_0000_0000_0000),
    {
        let mut x: i128 = x_num as i128;
        let mut y: i128 = y_num as i128;
        let mut d: i128 = den as i128;
        if d < 0 {
            x = -x;
            y = -y;
            d = -d;
        }
        let r = point_reduced(x, y, d);
        proof {
            if (den as int) < 0 {
                assert(pt_eq(r@, Pt { x: x_num as int, y: y_num as int, d: den as int }))
                    by (nonlinear_arith)
                    requires
                        pt_eq(r@, Pt { x: -(x_num as int), y: -(y_num as int), d: -(den as int) }),
                        (den as int) < 0,
                        r@.d > 0,
                {}
            }
        }
        r
    }

    /// Builds the point with the given coordinates.
    pub fn from_coords(x: &Rat, y: &Rat) -> (r: Point2)
        requires
            x.wf(),
            y.wf(),
            frac_in(x@, 0x4000_0000_0000_0000_0000_0000_0000_0000),
            frac_in(y@, 0x4000_0000_0000_0000_0000_0000_0000_0000),
            x@.n * y@.d < i128::MAX,
            -(i128::MAX as int) < x@.n * y@.d,
            y@.n * x@.d < i128::MAX,
            -(i128::MAX as int) < y@.n * x@.d,
            x@.d * y@.d <= i128::MAX,
        ensures
            r.wf(),
            frac_eq(pt_x(r@), x@),
            frac_eq(pt_y(r@), y@),
            -iabs(x@.n * y@.d) <= r@.x <= iabs(x@.n * y@.d),
            -iabs(y@.n * x@.d) <= r@.y <= iabs(y@.n * x@.d),
            0 < r@.d <= x@.d * y@.d,
    {
        proof {
            lemma_abs_mul(x@.d, y@.d, i128::MAX as int, i128::MAX as int);
            assert(x@.d * y@.d > 0) by (nonlinear_arith)
                requires
                    x@.d > 0,
                    y@.d > 0,
            {}
        }
        let raw = Point2 { nx: x.num * y.den, ny: y.num * x.den, den: x.den * y.den };
        proof {
            assert(frac_eq(pt_x(raw@), x@) && frac_eq(pt_y(raw@), y@)) by (nonlinear_arith)
                requires
                    raw@.x == x@.n * y@.d,
                    raw@.y == y@.n * x@.d,
                    raw@.d == x@.d * y@.d,
            {}
        }
        let r = point_reduced(raw.nx, raw.ny, raw.den);
        proof {
            lemma_frac_eq_trans(pt_x(r@), pt_x(raw@), x@);
            lemma_frac_eq_trans(pt_y(r@), pt_y(raw@), y@);
        }
        r
    }

    /// The first coordinate.
    pub fn x(&self) -> (r: Rat)
        requires
            self.wf(),
        ensures
            r.wf(),
            r@ == pt_x(self@),
    {
        Rat { num: self.nx, den: self.den }
    }

    /// The second coordinate.
    pub fn y(&self) -> (r: Rat)
        requires
            self.wf(),
        ensures
            r.wf(),
            r@ == pt_y(self@),
    {
        Rat { num: self.ny, den: self.den }
    }
}

} // verus!
