//! Comparison and selection of binary64 numbers. These need no rounding: the
//! order of two numbers is the order of their sign and magnitude encodings.
use crate::ieee::double::{Double, INF};
use vstd::prelude::*;

verus! {

impl Double {
    pub open spec fn spec_zero() -> Double {
        Double { bits: 0 }
    }

    pub open spec fn spec_one() -> Double {
        Double { bits: 0x3ff0_0000_0000_0000 }
    }

    /// The number 0.
    #[verifier::when_used_as_spec(spec_zero)]
    pub fn zero() -> (r: Double)
        ensures
            r == Double::spec_zero(),
    {
        Double { bits: 0 }
    }

    /// The number 1.
    #[verifier::when_used_as_spec(spec_one)]
    pub fn one() -> (r: Double)
        ensures
            r == Double::spec_one(),
    {
        Double { bits: 0x3ff0_0000_0000_0000 }
    }

    pub open spec fn spec_half() -> Double {
        Double { bits: 0x3fe0_0000_0000_0000 }
    }

    /// The number 1/2.
    #[verifier::when_used_as_spec(spec_half)]
    pub fn half() -> (r: Double)
        ensures
            r == Double::spec_half(),
    {
        Double { bits: 0x3fe0_0000_0000_0000 }
    }

    /// A finite number above zero.
    pub open spec fn spec_positive(self) -> bool {
        self.finite() && self.key() > 0
    }

    #[verifier::when_used_as_spec(spec_positive)]
    pub fn positive(self) -> (r: bool)
        ensures
            r == self.spec_positive(),
    {
        self.is_finite() && self.place() > 0
    }

    /// A finite number that is not below zero.
    pub open spec fn spec_nonnegative(self) -> bool {
        self.finite() && self.key() >= 0
    }

    #[verifier::when_used_as_spec(spec_nonnegative)]
    pub fn nonnegative(self) -> (r: bool)
        ensures
            r == self.spec_nonnegative(),
    {
        self.is_finite() && self.place() >= 0
    }

    pub open spec fn spec_lt(self, o: Double) -> bool {
        !self.nan() && !o.nan() && self.key() < o.key()
    }

    pub open spec fn spec_le(self, o: Double) -> bool {
        !self.nan() && !o.nan() && self.key() <= o.key()
    }

    pub open spec fn spec_same(self, o: Double) -> bool {
        !self.nan() && !o.nan() && self.key() == o.key()
    }

    pub open spec fn spec_abs(self) -> Double {
        Double::make(false, self.mag())
    }

    pub open spec fn spec_min(self, o: Double) -> Double {
        if self.nan() || (!o.nan() && o.key() < self.key()) {
            o
        } else {
            self
        }
    }

    pub open spec fn spec_max(self, o: Double) -> Double {
        if self.nan() || (!o.nan() && self.key() < o.key()) {
            o
        } else {
            self
        }
    }

    pub open spec fn spec_clamp(self, lo: Double, hi: Double) -> Double {
        if self.spec_lt(lo) {
            lo
        } else if hi.spec_lt(self) {
            hi
        } else {
            self
        }
    }

    pub open spec fn spec_signum(self) -> Double {
        if self.nan() {
            self
        } else {
            Double::make(self.negative(), 0x3ff0_0000_0000_0000)
        }
    }

    pub open spec fn spec_is_finite(self) -> bool {
        self.finite()
    }

    #[verifier::when_used_as_spec(spec_is_finite)]
    pub fn is_finite(self) -> (r: bool)
        ensures
            r == self.finite(),
    {
        self.magnitude() < INF
    }

    /// Place of the number in the order, for one that is not NaN.
    fn place(self) -> (r: i64)
        ensures
            r == self.key(),
    {
        let m = self.magnitude();
        if self.is_negative() {
            -(m as i64)
        } else {
            m as i64
        }
    }

    pub fn is_nan(self) -> (r: bool)
        ensures
            r == self.nan(),
    {
        self.magnitude() > INF
    }

    /// `self < o`; false where either is NaN.
    #[verifier::when_used_as_spec(spec_lt)]
    pub fn lt(self, o: Double) -> (r: bool)
        ensures
            r == self.spec_lt(o),
    {
        !self.is_nan() && !o.is_nan() && self.place() < o.place()
    }

    /// `self <= o`; false where either is NaN.
    #[verifier::when_used_as_spec(spec_le)]
    pub fn le(self, o: Double) -> (r: bool)
        ensures
            r == self.spec_le(o),
    {
        !self.is_nan() && !o.is_nan() && self.place() <= o.place()
    }

    /// Place in the total order of all numbers: negative before positive zero,
    /// NaN at either end.
    pub open spec fn rank(self) -> int {
        if self.negative() {
            -(self.mag() as int) - 1
        } else {
            self.mag() as int
        }
    }

    /// `self` is not behind `o` in the total order.
    pub fn total_le(self, o: Double) -> (r: bool)
        ensures
            r == (self.rank() <= o.rank()),
    {
        let (a, b) = (self.magnitude(), o.magnitude());
        if self.is_negative() {
            !o.is_negative() || b <= a
        } else {
            !o.is_negative() && a <= b
        }
    }

    /// `self == o`: the zeros are equal, NaN equals nothing.
    #[verifier::when_used_as_spec(spec_same)]
    pub fn same(self, o: Double) -> (r: bool)
        ensures
            r == self.spec_same(o),
    {
        !self.is_nan() && !o.is_nan() && self.place() == o.place()
    }

    /// Absolute value.
    #[verifier::when_used_as_spec(spec_abs)]
    pub fn abs(self) -> (r: Double)
        ensures
            r == self.spec_abs(),
    {
        Double::assemble(false, self.magnitude())
    }

    /// The smaller number; the other one where one is NaN.
    #[verifier::when_used_as_spec(spec_min)]
    pub fn min(self, o: Double) -> (r: Double)
        ensures
            r == self.spec_min(o),
    {
        if self.is_nan() || (!o.is_nan() && o.place() < self.place()) {
            o
        } else {
            self
        }
    }

    /// The larger number; the other one where one is NaN.
    #[verifier::when_used_as_spec(spec_max)]
    pub fn max(self, o: Double) -> (r: Double)
        ensures
            r == self.spec_max(o),
    {
        if self.is_nan() || (!o.is_nan() && self.place() < o.place()) {
            o
        } else {
            self
        }
    }

    /// `self`, brought into `[lo, hi]`; NaN stays NaN.
    #[verifier::when_used_as_spec(spec_clamp)]
    pub fn clamp(self, lo: Double, hi: Double) -> (r: Double)
        requires
            lo.spec_le(hi),
        ensures
            r == self.spec_clamp(lo, hi),
    {
        if self.lt(lo) {
            lo
        } else if hi.lt(self) {
            hi
        } else {
            self
        }
    }

    /// `self`, not below `lo` and else not above `hi`, whether or not these
    /// two are in order.
    #[verifier::when_used_as_spec(spec_clamp)]
    pub fn within(self, lo: Double, hi: Double) -> (r: Double)
        ensures
            r == self.spec_clamp(lo, hi),
    {
        if self.lt(lo) {
            lo
        } else if hi.lt(self) {
            hi
        } else {
            self
        }
    }

    /// One with the sign of `self`; NaN stays NaN.
    #[verifier::when_used_as_spec(spec_signum)]
    pub fn signum(self) -> (r: Double)
        ensures
            r == self.spec_signum(),
    {
        if self.is_nan() {
            self
        } else {
            Double::assemble(self.is_negative(), 0x3ff0_0000_0000_0000)
        }
    }
}

} // verus!
