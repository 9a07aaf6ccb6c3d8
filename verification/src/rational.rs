//! Exact rational scalars.
//!
//! A scalar is a fraction of two `i128` values with a positive
//! denominator. The mathematical model of a scalar is [`Frac`], a pair
//! of unbounded integers; two fractions denote the same rational number
//! exactly when [`frac_eq`] holds, and all contracts in this crate are
//! stated through that relation, so no contract depends on which
//! representative a computation happens to produce.

use vstd::prelude::*;
use vstd::arithmetic::div_mod::lemma_fundamental_div_mod;
use vstd::arithmetic::div_mod::lemma_div_multiples_vanish;

verus! {

/// Mathematical model of a rational scalar: the number `n / d`.
pub ghost struct Frac {
    pub n: int,
    pub d: int,
}

/// A model fraction is well formed when its denominator is positive.
pub open spec fn frac_wf(a: Frac) -> bool {
    a.d > 0
}

/// The fraction denoting the integer `i`.
pub open spec fn frac_int(i: int) -> Frac {
    Frac { n: i, d: 1 }
}

/// `a` and `b` denote the same rational number (denominators nonzero).
pub open spec fn frac_eq(a: Frac, b: Frac) -> bool {
    a.n * b.d == b.n * a.d
}

/// `a <= b` as rational numbers, for positive denominators.
pub open spec fn frac_le(a: Frac, b: Frac) -> bool {
    a.n * b.d <= b.n * a.d
}

/// Sign of a fraction with positive denominator: -1, 0 or 1.
pub open spec fn frac_sign(a: Frac) -> int {
    if a.n > 0 {
        1
    } else if a.n < 0 {
        -1
    } else {
        0
    }
}

pub open spec fn frac_neg(a: Frac) -> Frac {
    Frac { n: -a.n, d: a.d }
}

pub open spec fn frac_add(a: Frac, b: Frac) -> Frac {
    Frac { n: a.n * b.d + b.n * a.d, d: a.d * b.d }
}

pub open spec fn frac_sub(a: Frac, b: Frac) -> Frac {
    Frac { n: a.n * b.d - b.n * a.d, d: a.d * b.d }
}

pub open spec fn frac_mul(a: Frac, b: Frac) -> Frac {
    Frac { n: a.n * b.n, d: a.d * b.d }
}

/// Division; the sign of the divisor's numerator is folded into the
/// numerator so that a positive denominator stays positive.
pub open spec fn frac_div(a: Frac, b: Frac) -> Frac {
    if b.n >= 0 {
        Frac { n: a.n * b.d, d: a.d * b.n }
    } else {
        Frac { n: -(a.n * b.d), d: -(a.d * b.n) }
    }
}

/// The absolute value of an integer.
pub open spec fn iabs(x: int) -> int {
    if x < 0 {
        -x
    } else {
        x
    }
}

/// `-bound <= n <= bound` for the numerator and `0 < d <= bound` for
/// the denominator: the magnitudes under which a computation's i128
/// arithmetic is proved exact.
pub open spec fn frac_in(a: Frac, bound: int) -> bool {
    -bound <= a.n <= bound && 0 < a.d <= bound
}

/// `d` divides `x` exactly.
pub open spec fn divides(d: int, x: int) -> bool {
    exists|k: int| x == #[trigger] (d * k)
}

/// `n / d` is in lowest terms: no integer above one divides both.
pub open spec fn in_lowest_terms(n: int, d: int) -> bool {
    forall|c: int| 1 < c ==> !(#[trigger] divides(c, iabs(n)) && divides(c, d))
}

/// Product of magnitude-bounded integers is magnitude-bounded.
pub proof fn lemma_abs_mul(x: int, y: int, bx: int, by: int)
    by (nonlinear_arith)
    requires
        -bx <= x <= bx,
        -by <= y <= by,
        0 <= bx,
        0 <= by,
    ensures
        -(bx * by) <= x * y <= bx * by,
{
}

/// Denoting the same rational number is transitive.
pub proof fn lemma_frac_eq_trans(a: Frac, b: Frac, c: Frac)
    by (nonlinear_arith)
    requires
        frac_wf(a),
        frac_wf(b),
        frac_wf(c),
        frac_eq(a, b),
        frac_eq(b, c),
    ensures
        frac_eq(a, c),
{
}

/// The rational order is invariant under change of representative.
pub proof fn lemma_frac_le_congruence(a: Frac, b: Frac, a2: Frac, b2: Frac)
    by (nonlinear_arith)
    requires
        frac_wf(a),
        frac_wf(b),
        frac_wf(a2),
        frac_wf(b2),
        frac_eq(a, a2),
        frac_eq(b, b2),
    ensures
        frac_le(a, b) == frac_le(a2, b2),
{
}

/// The sign of a fraction is invariant under change of representative.
pub proof fn lemma_frac_sign_congruence(a: Frac, b: Frac)
    by (nonlinear_arith)
    requires
        frac_wf(a),
        frac_wf(b),
        frac_eq(a, b),
    ensures
        frac_sign(a) == frac_sign(b),
{
}

/// Subtraction respects change of representative in both arguments.
pub proof fn lemma_frac_sub_congruence(a: Frac, a2: Frac, b: Frac, b2: Frac)
    requires
        frac_wf(a),
        frac_wf(a2),
        frac_wf(b),
        frac_wf(b2),
        frac_eq(a, a2),
        frac_eq(b, b2),
    ensures
        frac_eq(frac_sub(a, b), frac_sub(a2, b2)),
{
    assert((a.n * b.d) * (a2.d * b2.d) == (a2.n * b2.d) * (a.d * b.d)) by (nonlinear_arith)
        requires
            a.n * a2.d == a2.n * a.d,
    {}
    assert((b.n * a.d) * (a2.d * b2.d) == (b2.n * a2.d) * (a.d * b.d)) by (nonlinear_arith)
        requires
            b.n * b2.d == b2.n * b.d,
    {}
    assert((a.n * b.d - b.n * a.d) * (a2.d * b2.d) == (a2.n * b2.d - b2.n * a2.d) * (a.d
        * b.d)) by (nonlinear_arith)
        requires
            (a.n * b.d) * (a2.d * b2.d) == (a2.n * b2.d) * (a.d * b.d),
            (b.n * a.d) * (a2.d * b2.d) == (b2.n * a2.d) * (a.d * b.d),
    {}
}

/// Division respects change of representative in both arguments, for a
/// divisor that is not zero.
pub proof fn lemma_frac_div_congruence(a: Frac, a2: Frac, b: Frac, b2: Frac)
    requires
        frac_wf(a),
        frac_wf(a2),
        frac_wf(b),
        frac_wf(b2),
        frac_eq(a, a2),
        frac_eq(b, b2),
        b.n != 0,
        b2.n != 0,
    ensures
        frac_eq(frac_div(a, b), frac_div(a2, b2)),
{
    lemma_frac_sign_congruence(b, b2);
    let x = a.n * b.d;
    let y = a.d * b.n;
    let x2 = a2.n * b2.d;
    let y2 = a2.d * b2.n;
    assert(x * y2 == x2 * y) by (nonlinear_arith)
        requires
            a.n * a2.d == a2.n * a.d,
            b.n * b2.d == b2.n * b.d,
            x == a.n * b.d,
            y == a.d * b.n,
            x2 == a2.n * b2.d,
            y2 == a2.d * b2.n,
    {}
    if b.n >= 0 {
        assert(frac_div(a, b) == Frac { n: x, d: y } && frac_div(a2, b2) == Frac {
            n: x2,
            d: y2,
        });
    } else {
        assert(frac_div(a, b) == Frac { n: -x, d: -y } && frac_div(a2, b2) == Frac {
            n: -x2,
            d: -y2,
        });
        assert((-x) * (-y2) == (-x2) * (-y)) by (nonlinear_arith)
            requires
                x * y2 == x2 * y,
        {}
    }
}

/// Multiplication respects change of representative on the left.
pub proof fn lemma_frac_mul_congruence(a: Frac, a2: Frac, c: Frac)
    by (nonlinear_arith)
    requires
        frac_wf(a),
        frac_wf(a2),
        frac_wf(c),
        frac_eq(a, a2),
    ensures
        frac_eq(frac_mul(a, c), frac_mul(a2, c)),
{
}

/// An exact rational scalar: the number `num / den`, `den > 0`.
///
/// Equality of `Rat` values (the derived `==`) compares the stored
/// representation; [`Rat::new`] and the scalar queries of this
/// crate return the reduced representative, so such values compare as
/// the rational numbers they denote. A kernel's signed magnitude is the
/// one exception: only its sign carries meaning and it is stored as
/// computed.
#[derive(Clone, Copy, Debug, PartialEq, Eq, Structural, Hash)]
pub struct Rat {
    pub num: i128,
    pub den: i128,
}

impl View for Rat {
    type V = Frac;

    open spec fn view(&self) -> Frac {
        Frac { n: self.num as int, d: self.den as int }
    }
}

impl Rat {
    /// Positive denominator, and a numerator whose negation fits.
    pub open spec fn wf(self) -> bool {
        self.den > 0 && self.num > i128::MIN
    }

    /// Builds the scalar `num / den` in lowest terms, with magnitudes
    /// no larger than the inputs'.
    pub fn new(num: i64, den: i64) -> (r: Rat)
        requires
            den != 0,
        ensures
            r.wf(),
            frac_eq(r@, Frac { n: num as int, d: den as int }),
            -iabs(num as int) <= r@.n <= iabs(num as int),
            0 < r@.d <= iabs(den as int),
            in_lowest_terms(r@.n, r@.d),
            frac_in(r@, 0x8000_0000_0000_0000),
    {
        let mut n: i128 = num as i128;
        let mut d: i128 = den as i128;
        if d < 0 {
            n = -n;
            d = -d;
        }
        let r = rat_reduced(n, d);
        proof {
            if (den as int) < 0 {
                assert(frac_eq(r@, Frac { n: num as int, d: den as int })) by (nonlinear_arith)
                    requires
                        frac_eq(r@, Frac { n: -(num as int), d: -(den as int) }),
                        (den as int) < 0,
                        r@.d > 0,
                {}
            }
        }
        r
    }

    /// The scalar zero.
    pub fn zero() -> (r: Rat)
        ensures
            r.wf(),
            r@ == frac_int(0),
    {
        Rat { num: 0, den: 1 }
    }
}

/// A positive common divisor of `a` and `b`, by Euclid's algorithm.
pub fn rat_gcd(a: i128, b: i128) -> (g: i128)
    requires
        a >= 0,
        b > 0,
    ensures
        g > 0,
        divides(g as int, a as int),
        divides(g as int, b as int),
        forall|c: int|
            divides(c, a as int) && divides(c, b as int) ==> #[trigger] divides(c, g as int),
{
    let mut x: i128 = a;
    let mut y: i128 = b;
    while y != 0
        invariant
            x >= 0,
            y >= 0,
            x + y > 0,
            forall|c: int|
                divides(c, x as int) && divides(c, y as int) ==> divides(c, a as int) && divides(
                    c,
                    b as int,
                ),
            forall|c: int|
                divides(c, a as int) && divides(c, b as int) ==> #[trigger] divides(c, x as int)
                    && divides(c, y as int),
        decreases y,
    {
        let r = x % y;
        proof {
            lemma_fundamental_div_mod(x as int, y as int);
            assert forall|c: int|
                divides(c, y as int) && divides(c, r as int) implies divides(c, x as int) by {
                let k1 = choose|k: int| y as int == #[trigger] (c * k);
                let k2 = choose|k: int| r as int == #[trigger] (c * k);
                let quot = (x as int) / (y as int);
                assert(x as int == (y as int) * quot + (r as int));
                assert(x as int == c * (k1 * quot + k2)) by (nonlinear_arith)
                    requires
                        x as int == (y as int) * quot + (r as int),
                        y as int == c * k1,
                        r as int == c * k2,
                {}
            }
            assert forall|c: int|
                divides(c, a as int) && divides(c, b as int) implies divides(c, y as int)
                    && divides(c, r as int) by {
                assert(divides(c, x as int) && divides(c, y as int));
                let k1 = choose|k: int| x as int == #[trigger] (c * k);
                let k2 = choose|k: int| y as int == #[trigger] (c * k);
                let quot = (x as int) / (y as int);
                assert(r as int == (x as int) - (y as int) * quot);
                assert(r as int == c * (k1 - k2 * quot)) by (nonlinear_arith)
                    requires
                        r as int == (x as int) - (y as int) * quot,
                        x as int == c * k1,
                        y as int == c * k2,
                {}
            }
        }
        x = y;
        y = r;
    }
    proof {
        assert(divides(x as int, x as int)) by {
            assert(x as int == (x as int) * 1) by (nonlinear_arith);
        }
        assert(divides(x as int, 0int)) by {
            assert(0int == (x as int) * 0) by (nonlinear_arith);
        }
    }
    x
}

/// The reduced representative of `num / den`: the same rational
/// number, in lowest terms, with magnitudes no larger than the input.
pub fn rat_reduced(num: i128, den: i128) -> (r: Rat)
    requires
        den > 0,
        num > i128::MIN,
    ensures
        r.wf(),
        frac_eq(r@, Frac { n: num as int, d: den as int }),
        -iabs(num as int) <= r.num <= iabs(num as int),
        0 < r.den <= den,
        in_lowest_terms(r@.n, r@.d),
{
    let a: i128 = if num < 0 {
        -num
    } else {
        num
    };
    let g = rat_gcd(a, den);
    let ghost ka: int = choose|k: int| a as int == #[trigger] ((g as int) * k);
    let ghost kd: int = choose|k: int| den as int == #[trigger] ((g as int) * k);
    proof {
        assert(ka >= 0 && kd > 0 && ka <= a as int && kd <= den as int) by (nonlinear_arith)
            requires
                a as int == (g as int) * ka,
                den as int == (g as int) * kd,
                g > 0,
                a >= 0,
                den > 0,
        {}
        lemma_div_multiples_vanish(ka, g as int);
        lemma_div_multiples_vanish(kd, g as int);
        assert((g as int) * ka == ka * (g as int)) by (nonlinear_arith);
        assert((g as int) * kd == kd * (g as int)) by (nonlinear_arith);
    }
    let q: i128 = a / g;
    let d2: i128 = den / g;
    let n2: i128 = if num < 0 {
        -q
    } else {
        q
    };
    proof {
        assert(n2 as int * (den as int) == (num as int) * (d2 as int)) by (nonlinear_arith)
            requires
                a as int == (g as int) * ka,
                den as int == (g as int) * kd,
                q as int == ka,
                d2 as int == kd,
                g > 0,
                num < 0 ==> n2 as int == -ka && (num as int) == -(a as int),
                num >= 0 ==> n2 as int == ka && (num as int) == a as int,
        {}
        assert forall|c: int|
            1 < c implies !(#[trigger] divides(c, iabs(n2 as int)) && divides(
            c,
            d2 as int,
        )) by {
            if divides(c, iabs(n2 as int)) && divides(c, d2 as int) {
                let m1 = choose|k: int| iabs(n2 as int) == #[trigger] (c * k);
                let m2 = choose|k: int| d2 as int == #[trigger] (c * k);
                assert(a as int == (g * c) * m1 && den as int == (g * c) * m2)
                    by (nonlinear_arith)
                    requires
                        a as int == (g as int) * (q as int),
                        den as int == (g as int) * (d2 as int),
                        iabs(n2 as int) == c * m1,
                        d2 as int == c * m2,
                        q as int >= 0,
                        iabs(n2 as int) == q as int,
                {}
                assert(divides((g as int) * c, a as int));
                assert(divides((g as int) * c, den as int));
                assert(divides((g as int) * c, g as int));
                let m3 = choose|k: int| g as int == #[trigger] (((g as int) * c) * k);
                assert(false) by (nonlinear_arith)
                    requires
                        g as int == ((g as int) * c) * m3,
                        g > 0,
                        c > 1,
                {}
            }
        }
    }
    Rat { num: n2, den: d2 }
}

} // verus!
