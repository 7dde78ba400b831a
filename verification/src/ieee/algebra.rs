//! What binary64 arithmetic keeps of the algebra of signs and order: these hold
//! exactly, without any rounding.
use crate::ieee::double::{
    encode, lemma_decode_monotone, lemma_decode_zero, lemma_encode_decode, lemma_encode_zero, Double, INF,
};
use crate::ieee::laws::{lemma_encode_monotone, lemma_encode_monotone_ratio, lemma_encode_ratio};
use vstd::arithmetic::power2::{lemma_pow2_pos, pow2};
use vstd::prelude::*;

verus! {

/// The numbers are equal up to the sign, or neither is a number.
pub open spec fn opposite(a: Double, b: Double) -> bool {
    a.nan() == b.nan() && (!a.nan() ==> a.key() == -b.key())
}

/// The numbers are equal, or neither is one.
pub open spec fn alike(a: Double, b: Double) -> bool {
    a.nan() == b.nan() && (!a.nan() ==> a.key() == b.key())
}

impl Double {
    pub proof fn lemma_negate(self)
        ensures
            self.negate().negate() == self,
            self.negate().mag() == self.mag(),
            self.negate().negative() == !self.negative(),
            self.negate().key() == -self.key(),
            self.negate().value() == -self.value(),
    {
    }

    pub proof fn lemma_plus_commutes(self, o: Double)
        ensures
            self.plus(o) == o.plus(self),
    {
        reveal(Double::spec_plus);
    }

    pub proof fn lemma_times_commutes(self, o: Double)
        ensures
            self.times(o) == o.times(self),
    {
        reveal(Double::spec_times);
        let (a, b) = (self.units(), o.units());
        assert(a * b == b * a) by (nonlinear_arith);
    }

    /// It does not matter which factor has the sign.
    pub proof fn lemma_times_negate(self, o: Double)
        ensures
            self.negate().times(o) == self.times(o.negate()),
            self.negate().times(o.negate()) == self.times(o),
            !self.times(o).nan() ==> self.negate().times(o) == self.times(o).negate(),
            self.negate().times(o).nan() == self.times(o).nan(),
    {
        reveal(Double::spec_times);
        lemma_pow2_pos(1074);
        let n = encode(self.units() * o.units(), pow2(1074));
        assert(n <= INF);
    }

    pub proof fn lemma_over_negate(self, o: Double)
        ensures
            self.negate().over(o) == self.over(o.negate()),
            self.negate().over(o.negate()) == self.over(o),
            !self.over(o).nan() ==> self.negate().over(o) == self.over(o).negate(),
            self.negate().over(o).nan() == self.over(o).nan(),
    {
        reveal(Double::spec_over);
        let n = encode(self.units() * pow2(1074), o.units());
        assert(n <= INF);
    }

    /// The sum of the opposites is the opposite of the sum.
    pub proof fn lemma_plus_negate(self, o: Double)
        ensures
            opposite(self.negate().plus(o.negate()), self.plus(o)),
            self.value() + o.value() != 0 && self.finite() && o.finite()
                ==> self.negate().plus(o.negate()) == self.plus(o).negate(),
    {
        reveal(Double::spec_plus);
        if self.finite() && o.finite() {
            let t = self.value() + o.value();
            assert(encode(t as nat, 1) <= INF && encode((-t) as nat, 1) <= INF);
        }
    }

    /// Sums and products of numbers that are equal are equal.
    pub proof fn lemma_plus_alike(self, o: Double, a: Double, b: Double)
        requires
            alike(self, a),
            alike(o, b),
        ensures
            alike(self.plus(o), a.plus(b)),
    {
        reveal(Double::spec_plus);
        lemma_decode_zero();
    }

    pub proof fn lemma_times_alike(self, o: Double, a: Double, b: Double)
        requires
            alike(self, a),
            alike(o, b),
        ensures
            alike(self.times(o), a.times(b)),
    {
        reveal(Double::spec_times);
        lemma_decode_zero();
        lemma_pow2_pos(1074);
        lemma_encode_zero(pow2(1074));
        let (x, y) = (a.units(), b.units());
        assert(0 * y == 0 && x * 0 == 0) by (nonlinear_arith);
    }

    /// One is neutral.
    pub proof fn lemma_times_one(self)
        requires
            self.finite(),
        ensures
            self.times(Double::one()) == self,
            Double::one().times(self) == self,
    {
        reveal(Double::spec_times);
        Double::lemma_one();
        lemma_pow2_pos(1074);
        let (p, n) = (pow2(1074), self.units());
        assert(1 * p == p && p * n == n * p) by (nonlinear_arith);
        lemma_encode_ratio(n, 1, p);
        lemma_encode_decode(self.mag());
    }

    /// A product with zero is zero.
    pub proof fn lemma_times_zero(self, z: Double)
        requires
            self.finite(),
            z.mag() == 0,
        ensures
            self.times(z).mag() == 0,
            z.times(self).mag() == 0,
    {
        reveal(Double::spec_times);
        lemma_decode_zero();
        lemma_pow2_pos(1074);
        lemma_encode_zero(pow2(1074));
        let n = self.units();
        assert(n * 0 == 0 && 0 * n == 0) by (nonlinear_arith);
    }

    /// Adding nothing to a number other than zero changes nothing.
    pub proof fn lemma_plus_nothing(self, z: Double)
        requires
            self.finite(),
            z.mag() == 0,
        ensures
            self.plus(z).key() == self.key() && !self.plus(z).nan(),
            z.plus(self).key() == self.key() && !z.plus(self).nan(),
            self.mag() > 0 ==> self.plus(z) == self && z.plus(self) == self,
    {
        lemma_decode_zero();
        self.lemma_plus(z);
        z.lemma_plus(self);
        self.lemma_rounded_value();
        reveal(Double::spec_plus);
        self.lemma_units_positive();
        lemma_encode_decode(self.mag());
    }

    /// The sign of a product: not negative where the factors have the same one.
    pub proof fn lemma_times_side(self, o: Double)
        requires
            !self.times(o).nan(),
        ensures
            self.times(o).key() > 0 ==> (self.key() > 0 && o.key() > 0) || (self.key() < 0
                && o.key() < 0),
            self.times(o).key() < 0 ==> (self.key() > 0 && o.key() < 0) || (self.key() < 0
                && o.key() > 0),
            self.times(o).negative() == (self.negative() != o.negative()),
    {
        reveal(Double::spec_times);
        lemma_decode_zero();
        lemma_pow2_pos(1074);
        lemma_encode_zero(pow2(1074));
        let (x, y) = (self.units(), o.units());
        assert(0 * y == 0 && x * 0 == 0) by (nonlinear_arith);
        assert(encode(x * y, pow2(1074)) <= INF);
    }

    /// A number divided by itself is one.
    pub proof fn lemma_over_itself(self)
        requires
            self.finite(),
            self.mag() > 0,
        ensures
            self.over(self) == Double::one(),
    {
        reveal(Double::spec_over);
        self.lemma_units_positive();
        Double::lemma_one();
        let (p, n) = (pow2(1074), self.units());
        assert(n * p == p * n && 1 * n == n) by (nonlinear_arith);
        lemma_encode_ratio(p, 1, n);
        lemma_encode_decode(Double::one().mag());
    }

    /// Quotients by a positive number keep the order.
    pub proof fn lemma_over_order(a: Double, b: Double, c: Double)
        requires
            a.finite() && b.finite(),
            a.le(b),
            c.positive(),
        ensures
            a.over(c).le(b.over(c)),
    {
        a.lemma_negate();
        b.lemma_negate();
        a.lemma_over_negate(c);
        b.lemma_over_negate(c);
        if a.key() >= 0 {
            Double::lemma_over_monotone(a, b, c);
        } else if b.key() <= 0 {
            Double::lemma_over_monotone(b.negate(), a.negate(), c);
            a.over(c).lemma_negate();
            b.over(c).lemma_negate();
        } else {
            let z = Double::zero();
            Double::lemma_over_monotone(z, b, c);
            Double::lemma_over_monotone(z, a.negate(), c);
            a.over(c).lemma_negate();
        }
    }

    /// A ratio of whole numbers from 1 up is a positive number.
    pub proof fn lemma_ratio_number(n: u64, d: u64)
        requires
            1 <= n && 1 <= d,
        ensures
            Double::ratio(n, d).positive(),
    {
        Double::lemma_of(n);
        Double::lemma_of(d);
        Double::lemma_ratio_positive(n, d);
        Double::of(n).lemma_over_shrinks(Double::of(d));
    }

    /// Divided by more, a number that is not negative becomes no larger.
    pub proof fn lemma_over_falls(self, c: Double, d: Double)
        requires
            self.nonnegative(),
            c.positive() && d.positive(),
            c.le(d),
        ensures
            self.over(d).le(self.over(c)),
            Double::zero().le(self.over(d)),
    {
        reveal(Double::spec_over);
        c.lemma_units_positive();
        d.lemma_units_positive();
        c.lemma_order(d);
        let (n, u, v) = (self.units() * pow2(1074), c.units(), d.units());
        assert(n * u <= n * v) by (nonlinear_arith)
            requires
                u <= v,
        ;
        lemma_encode_monotone_ratio(n, v, n, u);
        lemma_decode_zero();
        lemma_encode_zero(u);
        lemma_encode_zero(v);
        assert(encode(n, u) <= INF && encode(n, v) <= INF);
        assert(self.mag() == 0 ==> n == 0) by (nonlinear_arith)
            requires
                self.mag() == 0 ==> self.units() == 0,
                n == self.units() * pow2(1074),
        ;
    }

    /// Divided by a number from one up, nothing becomes larger.
    pub proof fn lemma_over_shrinks(self, c: Double)
        requires
            self.finite() && c.finite(),
            c.mag() >= Double::one().mag(),
        ensures
            self.over(c).mag() <= self.mag(),
    {
        reveal(Double::spec_over);
        Double::lemma_one();
        lemma_decode_monotone(Double::one().mag(), c.mag());
        lemma_pow2_pos(1074);
        let (n, p, d) = (self.units(), pow2(1074), c.units());
        assert((n * p) * 1 <= n * d) by (nonlinear_arith)
            requires
                p <= d,
        ;
        lemma_encode_monotone_ratio(n * p, d, n, 1);
        lemma_encode_decode(self.mag());
    }

    /// A sum that is a number is one of numbers.
    pub proof fn lemma_plus_number(self, o: Double)
        requires
            !self.plus(o).nan(),
        ensures
            !self.nan() && !o.nan(),
    {
        reveal(Double::spec_plus);
    }

    /// Products keep the order of the exact ones.
    pub proof fn lemma_product_order(self, o: Double, a: Double, b: Double)
        requires
            self.finite() && o.finite() && a.finite() && b.finite(),
        ensures
            self.value() * o.value() <= a.value() * b.value() ==> self.times(o).key()
                <= a.times(b).key(),
            self.value() * o.value() >= a.value() * b.value() ==> self.times(o).key()
                >= a.times(b).key(),
            !self.times(o).nan(),
    {
        self.lemma_product(o);
        a.lemma_product(b);
        let (m, n) = (self.units() * o.units(), a.units() * b.units());
        lemma_pow2_pos(1074);
        lemma_encode_zero(pow2(1074));
        if m <= n {
            lemma_encode_monotone(m, n, pow2(1074));
        }
        if n <= m {
            lemma_encode_monotone(n, m, pow2(1074));
        }
    }

    /// A product in terms of magnitudes.
    proof fn lemma_product(self, o: Double)
        requires
            self.finite() && o.finite(),
        ensures
            ({
                let (x, y) = (self.value() * o.value(), self.units() * o.units());
                let n = encode(y, pow2(1074)) as int;
                &&& !self.times(o).nan()
                &&& x == y || x == -y
                &&& x >= 0 ==> x == y && self.times(o).key() == n || y == 0
                &&& x <= 0 ==> x == -y && self.times(o).key() == -n || y == 0
                &&& y == 0 ==> n == 0 && self.times(o).key() == 0
            }),
    {
        reveal(Double::spec_times);
        lemma_pow2_pos(1074);
        lemma_encode_zero(pow2(1074));
        let (a, b) = (self.units(), o.units());
        assert((-(a as int)) * (b as int) == -(a * b) && (a as int) * (-(b as int)) == -(a * b) && (
        -(a as int)) * (-(b as int)) == a * b && a * b >= 0) by (nonlinear_arith);
        assert(encode(a * b, pow2(1074)) <= INF);
    }

    /// A quotient by a positive number is on the same side of zero.
    pub proof fn lemma_over_side(self, o: Double)
        requires
            !self.nan(),
            o.positive(),
        ensures
            !self.over(o).nan(),
            self.key() >= 0 ==> self.over(o).key() >= 0,
            self.key() <= 0 ==> self.over(o).key() <= 0,
    {
        reveal(Double::spec_over);
        o.lemma_units_positive();
        lemma_decode_zero();
        lemma_encode_zero(o.units());
        let p = pow2(1074);
        assert(0 * p == 0) by (nonlinear_arith);
        assert(encode(self.units() * p, o.units()) <= INF);
    }

    /// Sums, products and quotients of opposite numbers.
    pub proof fn lemma_plus_opposite(self, o: Double, a: Double, b: Double)
        requires
            opposite(self, a),
            opposite(o, b),
        ensures
            opposite(self.plus(o), a.plus(b)),
    {
        a.lemma_negate();
        b.lemma_negate();
        self.lemma_plus_alike(o, a.negate(), b.negate());
        a.lemma_plus_negate(b);
    }

    pub proof fn lemma_times_opposite(self, o: Double, a: Double, b: Double)
        requires
            opposite(self, a),
            alike(o, b),
        ensures
            opposite(self.times(o), a.times(b)),
            opposite(o.times(self), b.times(a)),
    {
        a.lemma_negate();
        self.lemma_times_alike(o, a.negate(), b);
        a.lemma_times_negate(b);
        a.times(b).lemma_negate();
        self.lemma_times_commutes(o);
        a.lemma_times_commutes(b);
    }

    pub proof fn lemma_over_alike(self, o: Double, a: Double, b: Double)
        requires
            alike(self, a),
            o == b || (alike(o, b) && o.mag() > 0),
        ensures
            alike(self.over(o), a.over(b)),
    {
        reveal(Double::spec_over);
        lemma_decode_zero();
        let p = pow2(1074);
        assert(0 * p == 0) by (nonlinear_arith);
        if o.finite() && o.mag() > 0 {
            o.lemma_units_positive();
            lemma_encode_zero(o.units());
        }
    }

    pub proof fn lemma_over_opposite(self, o: Double, a: Double)
        requires
            opposite(self, a),
        ensures
            opposite(self.over(o), a.over(o)),
    {
        a.lemma_negate();
        self.lemma_over_alike(o, a.negate(), o);
        a.lemma_over_negate(o);
        a.over(o).lemma_negate();
    }

    pub proof fn lemma_minus_opposite(self, o: Double, a: Double, b: Double)
        requires
            opposite(self, a),
            opposite(o, b),
        ensures
            opposite(self.minus(o), a.minus(b)),
    {
        o.lemma_negate();
        b.lemma_negate();
        self.lemma_plus_opposite(o.negate(), a, b.negate());
    }

    pub proof fn lemma_minus_alike(self, o: Double, a: Double, b: Double)
        requires
            alike(self, a),
            alike(o, b),
        ensures
            alike(self.minus(o), a.minus(b)),
    {
        o.lemma_negate();
        b.lemma_negate();
        self.lemma_plus_alike(o.negate(), a, b.negate());
    }

    /// A difference the other way round.
    pub proof fn lemma_minus_swapped(self, o: Double)
        ensures
            opposite(self.minus(o), o.minus(self)),
    {
        self.lemma_negate();
        o.lemma_negate();
        self.lemma_plus_opposite(o.negate(), self.negate(), o);
        self.negate().lemma_plus_commutes(o);
    }

    /// Opposite numbers have the same square.
    pub proof fn lemma_square_opposite(self, o: Double)
        requires
            opposite(self, o) || alike(self, o),
        ensures
            self.square() == o.square(),
            !self.square().negative(),
    {
        reveal(Double::spec_times);
        lemma_pow2_pos(1074);
        assert(encode(self.units() * self.units(), pow2(1074)) <= INF);
    }

    /// A product with a number that is not negative is on the side of the other.
    pub proof fn lemma_times_keeps_side(self, o: Double)
        requires
            self.finite(),
            o.nonnegative(),
        ensures
            !self.times(o).nan() && !o.times(self).nan(),
            self.key() >= 0 ==> self.times(o).key() >= 0 && o.times(self).key() >= 0,
            self.key() <= 0 ==> self.times(o).key() <= 0 && o.times(self).key() <= 0,
    {
        self.lemma_times_commutes(o);
        reveal(Double::spec_times);
        lemma_decode_zero();
        lemma_pow2_pos(1074);
        lemma_encode_zero(pow2(1074));
        let (x, y) = (self.units(), o.units());
        assert(0 * y == 0 && x * 0 == 0) by (nonlinear_arith);
        assert(encode(x * y, pow2(1074)) <= INF);
    }
}

} // verus!
