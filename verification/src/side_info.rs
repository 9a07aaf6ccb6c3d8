//! Side-of-line classification.
//!
//! An [`EdgeSideInfo`] wraps the signed magnitude a kernel produced for
//! a directed edge and a query point. Only the sign of that magnitude
//! carries meaning: positive is the left side, negative the right side,
//! and exactly zero — with no tolerance — the line itself.

use vstd::prelude::*;
use crate::rational::{Frac, Rat, frac_neg, frac_sign, frac_wf};

verus! {

/// The query point lies strictly left of the directed edge.
pub open spec fn on_left(s: Frac) -> bool {
    s.n > 0
}

/// The query point lies strictly right of the directed edge.
pub open spec fn on_right(s: Frac) -> bool {
    s.n < 0
}

/// The query point lies on the infinite line through the edge.
pub open spec fn on_line(s: Frac) -> bool {
    s.n == 0
}

/// For any signed magnitude, exactly one of the three classifications
/// holds.
pub proof fn lemma_side_classification_exclusive(s: Frac)
    requires
        frac_wf(s),
    ensures
        on_left(s) || on_right(s) || on_line(s),
        on_left(s) ==> !on_right(s) && !on_line(s),
        on_right(s) ==> !on_left(s) && !on_line(s),
        on_line(s) ==> !on_left(s) && !on_right(s),
{
}

/// Which side of a directed edge a query point lies on.
///
/// Two values compare equal when they classify the point the same way:
/// all on-line values are equal to each other whatever their stored
/// magnitude, and otherwise only the sign is compared.
#[derive(Clone, Copy, Debug)]
pub struct EdgeSideInfo {
    pub signed_side: Rat,
}

impl View for EdgeSideInfo {
    type V = Frac;

    open spec fn view(&self) -> Frac {
        self.signed_side@
    }
}

impl PartialEq for EdgeSideInfo {
    fn eq(&self, other: &EdgeSideInfo) -> (r: bool) {
        (self.signed_side.num == 0 && other.signed_side.num == 0) || (self.signed_side.num > 0
            && other.signed_side.num > 0) || (self.signed_side.num < 0 && other.signed_side.num
            < 0)
    }
}

impl vstd::std_specs::cmp::PartialEqSpecImpl for EdgeSideInfo {
    open spec fn obeys_eq_spec() -> bool {
        true
    }

    open spec fn eq_spec(&self, other: &EdgeSideInfo) -> bool {
        frac_sign(self@) == frac_sign(other@)
    }
}

impl EdgeSideInfo {
    /// The wrapped magnitude is well formed.
    pub open spec fn wf(self) -> bool {
        self.signed_side.wf()
    }

    /// Wraps a signed magnitude produced by a kernel.
    pub fn from_determinant(s: Rat) -> (r: EdgeSideInfo)
        requires
            s.wf(),
        ensures
            r.wf(),
            r@ == s@,
    {
        EdgeSideInfo { signed_side: s }
    }

    /// The query point lies strictly left of the edge.
    pub fn is_on_left_side(&self) -> (r: bool)
        requires
            self.wf(),
        ensures
            r == on_left(self@),
    {
        self.signed_side.num > 0
    }

    /// The query point lies strictly right of the edge.
    pub fn is_on_right_side(&self) -> (r: bool)
        requires
            self.wf(),
        ensures
            r == on_right(self@),
    {
        self.signed_side.num < 0
    }

    /// The query point lies left of the edge or on its line.
    pub fn is_on_left_side_or_on_line(&self) -> (r: bool)
        requires
            self.wf(),
        ensures
            r == (on_left(self@) || on_line(self@)),
    {
        self.signed_side.num >= 0
    }

    /// The query point lies right of the edge or on its line.
    pub fn is_on_right_side_or_on_line(&self) -> (r: bool)
        requires
            self.wf(),
        ensures
            r == (on_right(self@) || on_line(self@)),
    {
        self.signed_side.num <= 0
    }

    /// The query point lies exactly on the infinite line through the
    /// edge: the magnitude is exactly zero, with no tolerance.
    pub fn is_on_line(&self) -> (r: bool)
        requires
            self.wf(),
        ensures
            r == on_line(self@),
    {
        self.signed_side.num == 0
    }

    /// The side information of the same point relative to the reversed
    /// edge, without recomputing the determinant.
    pub fn reversed(&self) -> (r: EdgeSideInfo)
        requires
            self.wf(),
        ensures
            r.wf(),
            r@ == frac_neg(self@),
    {
        EdgeSideInfo {
            signed_side: Rat { num: -self.signed_side.num, den: self.signed_side.den },
        }
    }
}

} // verus!
