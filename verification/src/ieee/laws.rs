//! Laws of rounded arithmetic: rounding keeps the order of exact values, and
//! numbers that are representable are their own rounding.
use crate::ieee::double::{
    decode, encode, exponent, lemma_decode_monotone, lemma_decode_zero, lemma_encode_decode,
    lemma_encode_zero, significand, Double, EXP, INF,
};
use crate::ieee::rounding::{
    fits, half_even, is_scale, lemma_fits_up, lemma_half_even_monotone, lemma_half_even_ratio,
    lemma_scale_exists, lemma_scale_unique, round_mag, scale,
};
use crate::ieee::single::lemma_encode_single_zero;
use vstd::arithmetic::div_mod::lemma_fundamental_div_mod_converse;
use vstd::arithmetic::power2::{
    lemma2_to64, lemma2_to64_rest, lemma_pow2_adds, lemma_pow2_pos, lemma_pow2_strictly_increases,
    lemma_pow2_unfold, pow2,
};
use vstd::prelude::*;

verus! {

/// Where `m` spacings of `2^k` make up the value exactly, it rounds to `m`.
proof fn lemma_half_even_exact(m: nat, y: nat)
    requires
        y > 0,
    ensures
        half_even(y * m, y) == m,
{
    assert(y * m == m * y) by (nonlinear_arith);
    lemma_fundamental_div_mod_converse((y * m) as int, y as int, m as int, 0);
}

/// Rounding is monotone in the numerator.
pub proof fn lemma_round_monotone(p: nat, inf: nat, n1: nat, n2: nat, d: nat)
    requires
        p >= 1,
        n1 <= n2,
        d > 0,
    ensures
        round_mag(p, inf, n1, d) <= round_mag(p, inf, n2, d),
{
    let (k1, k2) = (scale(p, n1, d), scale(p, n2, d));
    lemma_scale_exists(p, n1, d);
    lemma_scale_exists(p, n2, d);
    lemma_pow2_pos(k1);
    lemma_pow2_pos(k2);
    if k1 > k2 {
        lemma_fits_up(p, n2, d, k2, (k1 - 1) as nat);
        assert(false);
    }
    let (x, y) = (pow2(k1), pow2(k2));
    let (dx, dy) = (d * x, d * y);
    assert(dx > 0 && dy > 0) by (nonlinear_arith)
        requires
            d > 0,
            x > 0,
            y > 0,
            dx == d * x,
            dy == d * y,
    ;
    if k1 == k2 {
        lemma_half_even_monotone(n1, n2, dx);
    } else {
        // The coarser spacing starts where the finer one ends.
        let (a, b) = (pow2(p), pow2((p - 1) as nat));
        lemma_pow2_unfold(p);
        lemma_pow2_adds(k1, p);
        assert(d * (x * a) == dx * a) by (nonlinear_arith)
            requires
                dx == d * x,
        ;
        assert(n1 < dx * a);
        lemma_pow2_adds(k2, (p - 1) as nat);
        assert((k2 - 1) as nat + p == k2 + (p - 1) as nat);
        assert(d * (y * b) == dy * b) by (nonlinear_arith)
            requires
                dy == d * y,
        ;
        assert(n2 >= dy * b);
        lemma_half_even_exact(a, dx);
        lemma_half_even_monotone(n1, dx * a, dx);
        lemma_half_even_exact(b, dy);
        lemma_half_even_monotone(dy * b, n2, dy);
        assert(k1 * b + 2 * b <= k2 * b + b) by (nonlinear_arith)
            requires
                k1 + 1 <= k2,
        ;
    }
}

/// Rounding is monotone in the numerator.
pub proof fn lemma_encode_monotone(n1: nat, n2: nat, d: nat)
    requires
        n1 <= n2,
        d > 0,
    ensures
        encode(n1, d) <= encode(n2, d),
{
    lemma_round_monotone(53, INF as nat, n1, n2, d);
}

/// Rounding depends on the ratio alone.
pub proof fn lemma_round_ratio(p: nat, inf: nat, n: nat, d: nat, c: nat)
    requires
        d > 0,
        c > 0,
    ensures
        round_mag(p, inf, n * c, d * c) == round_mag(p, inf, n, d),
{
    let k = scale(p, n, d);
    lemma_scale_exists(p, n, d);
    lemma_fits_ratio(p, n, d, c, k);
    if k > 0 {
        lemma_fits_ratio(p, n, d, c, (k - 1) as nat);
    }
    assert(is_scale(p, n * c, d * c, k));
    lemma_scale_unique(p, n * c, d * c, k);
    lemma_pow2_pos(k);
    let x = pow2(k);
    let e = d * x;
    assert(e > 0 && (d * c) * x == e * c) by (nonlinear_arith)
        requires
            d > 0,
            x > 0,
            e == d * x,
    ;
    lemma_half_even_ratio(n, e, c);
}

/// Rounding depends on the ratio alone.
pub proof fn lemma_encode_ratio(n: nat, d: nat, c: nat)
    requires
        d > 0,
        c > 0,
    ensures
        encode(n * c, d * c) == encode(n, d),
{
    lemma_round_ratio(53, INF as nat, n, d, c);
}

proof fn lemma_fits_ratio(p: nat, n: nat, d: nat, c: nat, k: nat)
    requires
        c > 0,
    ensures
        fits(p, n * c, d * c, k) == fits(p, n, d, k),
{
    let w = pow2(k + p);
    assert((d * c) * w == (d * w) * c) by (nonlinear_arith);
    let v = d * w;
    assert(n < v <==> n * c < v * c) by (nonlinear_arith)
        requires
            c > 0,
    ;
}

/// Rounding is monotone on ratios.
pub proof fn lemma_encode_monotone_ratio(n1: nat, d1: nat, n2: nat, d2: nat)
    requires
        d1 > 0,
        d2 > 0,
        n1 * d2 <= n2 * d1,
    ensures
        encode(n1, d1) <= encode(n2, d2),
{
    lemma_encode_ratio(n1, d1, d2);
    lemma_encode_ratio(n2, d2, d1);
    let d = d1 * d2;
    assert(d > 0 && d2 * d1 == d) by (nonlinear_arith)
        requires
            d1 > 0,
            d2 > 0,
            d == d1 * d2,
    ;
    lemma_encode_monotone(n1 * d2, n2 * d1, d);
}

/// Place in the order of the number nearest to `t` units.
pub open spec fn rounded(t: int) -> int {
    if t >= 0 {
        encode(t as nat, 1) as int
    } else {
        -(encode((-t) as nat, 1) as int)
    }
}

pub proof fn lemma_rounded_monotone(s: int, t: int)
    requires
        s <= t,
    ensures
        rounded(s) <= rounded(t),
{
    if s >= 0 {
        lemma_encode_monotone(s as nat, t as nat, 1);
    } else if t < 0 {
        lemma_encode_monotone((-t) as nat, (-s) as nat, 1);
    }
}

/// Rounding does not look at the sign.
pub proof fn lemma_rounded_negate(t: int)
    ensures
        rounded(-t) == -rounded(t),
{
    lemma_encode_zero(1);
}

/// The least magnitude stands for one unit.
proof fn lemma_decode_one()
    ensures
        decode(1) == 1,
{
    lemma2_to64();
    assert(exponent(1) == 0 && significand(1) == 1);
    let w = pow2(0);
    assert(1 * w == 1);
}

/// Neighbouring magnitudes lie one spacing apart.
pub proof fn lemma_gap(b: nat)
    ensures
        decode(b + 1) == decode(b) + pow2(exponent(b)),
{
    let k = exponent(b);
    let x = pow2(k);
    if exponent(b + 1) == k {
        let m = significand(b);
        assert((m + 1) * x == m * x + x) by (nonlinear_arith);
    } else {
        assert(exponent(b + 1) == k + 1);
        assert(significand(b) == 2 * EXP - 1);
        assert(significand(b + 1) == EXP);
        lemma_pow2_unfold(k + 1);
        assert(EXP * (2 * x) == (2 * EXP - 1) * x + x) by (nonlinear_arith);
    }
}

/// Zero is its own rounding, and one unit is.
pub proof fn lemma_rounded_zero()
    ensures
        rounded(0) == 0,
{
    lemma_encode_zero(1);
}

pub proof fn lemma_rounded_one()
    ensures
        rounded(1) == 1,
{
    lemma_decode_one();
    lemma_encode_decode(1);
}

impl Double {
    /// A finite number is the number nearest to its own value.
    pub proof fn lemma_rounded_value(self)
        requires
            self.finite(),
        ensures
            rounded(self.value()) == self.key(),
            self.value() >= 0 <==> self.key() >= 0,
            self.value() <= 0 <==> self.key() <= 0,
    {
        lemma_encode_decode(self.mag());
        lemma_decode_monotone(0, self.mag());
        lemma_decode_zero();
        lemma_encode_zero(1);
    }

    /// The order of finite numbers is the order of their values.
    pub proof fn lemma_order(self, o: Double)
        requires
            self.finite(),
            o.finite(),
        ensures
            self.key() <= o.key() <==> self.value() <= o.value(),
            self.key() < o.key() <==> self.value() < o.value(),
    {
        let (a, b) = (self, o);
        lemma_decode_zero();
        lemma_decode_monotone(0, a.mag());
        lemma_decode_monotone(0, b.mag());
        if a.mag() <= b.mag() {
            lemma_decode_monotone(a.mag(), b.mag());
        }
        if b.mag() <= a.mag() {
            lemma_decode_monotone(b.mag(), a.mag());
        }
    }

    /// A sum of finite numbers is the number nearest to the exact sum.
    pub proof fn lemma_plus(self, o: Double)
        requires
            self.finite(),
            o.finite(),
        ensures
            !self.plus(o).nan(),
            self.plus(o).key() == rounded(self.value() + o.value()),
    {
        reveal(Double::spec_plus);
        lemma_encode_zero(1);
    }

    /// Adding to zero changes nothing.
    pub proof fn lemma_zero_plus(self)
        ensures
            Double::zero().plus(self).nan() == self.nan(),
            Double::zero().plus(self).key() == self.key() || self.nan(),
    {
        reveal(Double::spec_plus);
        if self.finite() {
            lemma_decode_zero();
            Double::zero().lemma_plus(self);
            self.lemma_rounded_value();
        }
    }

    /// Up to `2^53` in magnitude the numbers lie so close together that a
    /// change by more than one leads to another number.
    pub proof fn lemma_step(self, o: Double)
        requires
            self.finite() && o.finite(),
            self.mag() <= 0x4340_0000_0000_0000,
            o.mag() >= 0x3ff0_0000_0000_0000,
            !o.negative(),
        ensures
            self.key() > 0 ==> self.minus(o).key() < self.key(),
            self.key() < 0 ==> self.key() < self.plus(o).key(),
    {
        if self.mag() > 0 {
            let below = (self.mag() - 1) as nat;
            lemma_gap(below);
            lemma_encode_decode(below);
            Double::lemma_one();
            lemma_decode_monotone(Double::one().mag(), o.mag());
            lemma_decode_monotone(below, 0x433f_ffff_ffff_ffff);
            lemma_decode_monotone(0, below);
            lemma_decode_zero();
            assert(exponent(0x433f_ffff_ffff_ffff) == 1074);
            if exponent(below) < 1074 {
                lemma_pow2_strictly_increases(exponent(below), 1074);
            }
            self.lemma_minus(o);
            self.lemma_plus(o);
            if self.negative() {
                lemma_rounded_monotone(-(decode(below) as int), self.value() + o.value());
            } else {
                lemma_rounded_monotone(self.value() - o.value(), decode(below) as int);
            }
        }
    }

    /// A difference of finite numbers is the number nearest to the exact one.
    pub proof fn lemma_minus(self, o: Double)
        requires
            self.finite(),
            o.finite(),
        ensures
            !self.minus(o).nan(),
            self.minus(o).key() == rounded(self.value() - o.value()),
    {
        let m = o.negate();
        assert(m.mag() == o.mag() && m.value() == -o.value());
        self.lemma_plus(m);
    }

    /// The product of a positive number and one that is not negative.
    pub proof fn lemma_times_positive(self, o: Double)
        requires
            self.positive(),
            Double::zero().le(o),
        ensures
            Double::zero().le(self.times(o)),
    {
        reveal(Double::spec_times);
        lemma_decode_zero();
        lemma_pow2_pos(1074);
        if o.mag() == 0 {
            let u = self.units();
            assert(u * 0 == 0) by (nonlinear_arith);
            lemma_encode_zero(pow2(1074));
        }
    }

    /// One is `2^1074` units.
    pub proof fn lemma_one()
        ensures
            Double::one().units() == pow2(1074),
    {
        lemma2_to64_rest();
        lemma_pow2_adds(52, 1022);
        assert(exponent(0x3ff0_0000_0000_0000) == 1022);
        assert(significand(0x3ff0_0000_0000_0000) == pow2(52));
    }

    /// The units of one half.
    pub proof fn lemma_half()
        ensures
            2 * Double::half().units() == pow2(1074),
    {
        lemma2_to64_rest();
        lemma_pow2_adds(52, 1021);
        lemma_pow2_adds(1, 1073);
        lemma2_to64();
        assert(exponent(0x3fe0_0000_0000_0000) == 1021);
        assert(significand(0x3fe0_0000_0000_0000) == pow2(52));
    }

    /// Multiplication by one or minus one keeps the magnitude.
    pub proof fn lemma_times_sign(self, o: Double)
        requires
            self.mag() == 0x3ff0_0000_0000_0000,
            o.finite(),
        ensures
            self.times(o).mag() == o.mag(),
            self.times(o).negative() == (self.negative() != o.negative()),
    {
        reveal(Double::spec_times);
        Double::lemma_one();
        assert(Double::one().mag() == self.mag());
        lemma_pow2_pos(1074);
        let (p, n) = (pow2(1074), o.units());
        assert(p * n == n * p && 1 * p == p) by (nonlinear_arith);
        lemma_encode_ratio(n, 1, p);
        lemma_encode_decode(o.mag());
    }

    /// Only the zeros are nothing.
    pub proof fn lemma_units_positive(self)
        ensures
            self.units() > 0 <==> self.mag() > 0,
    {
        lemma_decode_zero();
        lemma_decode_monotone(0, self.mag());
    }

    /// The ratio of two whole numbers is not negative.
    pub proof fn lemma_ratio_nonnegative(n: u64, d: u64)
        ensures
            !Double::ratio(n, d).negative(),
    {
        reveal(Double::spec_over);
    }

    /// A whole number from 1 up is a finite number from one up.
    pub proof fn lemma_of(n: u64)
        requires
            n >= 1,
        ensures
            Double::of(n).finite() && !Double::of(n).negative(),
            Double::of(n).mag() >= Double::one().mag(),
            pow2(1074) <= Double::of(n).units() <= pow2(64) * pow2(1074),
    {
        let p = pow2(1074);
        lemma_pow2_pos(1074);
        Double::lemma_one();
        lemma_encode_decode(Double::one().mag());
        let top = Double { bits: 0x43f0_0000_0000_0000 };
        lemma2_to64_rest();
        lemma_pow2_adds(52, 1086);
        lemma_pow2_adds(64, 1074);
        assert(exponent(0x43f0_0000_0000_0000) == 1086);
        assert(significand(0x43f0_0000_0000_0000) == pow2(52));
        assert(top.units() == pow2(64) * p);
        lemma_encode_decode(top.mag());
        assert(p <= n as nat * p <= pow2(64) * p) by (nonlinear_arith)
            requires
                1 <= n as nat <= pow2(64),
                p > 0,
        ;
        lemma_encode_monotone(p, n as nat * p, 1);
        lemma_encode_monotone(n as nat * p, pow2(64) * p, 1);
        lemma_decode_monotone(Double::one().mag(), Double::of(n).mag());
        lemma_decode_monotone(Double::of(n).mag(), top.mag());
    }

    /// The whole number `n`, where its encoding is known.
    pub proof fn lemma_of_exact(n: u64, bits: u64)
        requires
            bits < INF,
            decode(bits as nat) == n as nat * pow2(1074),
        ensures
            Double::of(n) == (Double { bits }),
    {
        lemma_encode_decode(bits as nat);
    }

    /// The order of whole numbers.
    pub proof fn lemma_of_order(n: u64, m: u64)
        requires
            1 <= n <= m,
        ensures
            Double::of(n).le(Double::of(m)),
            Double::of(n).units() <= Double::of(m).units(),
    {
        let p = pow2(1074);
        Double::lemma_of(n);
        Double::lemma_of(m);
        assert(n as nat * p <= m as nat * p) by (nonlinear_arith)
            requires
                n <= m,
        ;
        lemma_encode_monotone(n as nat * p, m as nat * p, 1);
        lemma_decode_monotone(Double::of(n).mag(), Double::of(m).mag());
    }

    /// The ratio of two whole numbers from 1 up is positive.
    pub proof fn lemma_ratio_positive(n: u64, d: u64)
        requires
            1 <= n,
            1 <= d,
        ensures
            Double::ratio(n, d).key() > 0,
    {
        Double::lemma_of(n);
        Double::lemma_of(d);
        reveal(Double::spec_over);
        let (a, b, p) = (Double::of(n).units(), Double::of(d).units(), pow2(1074));
        lemma_pow2_adds(64, 1010);
        lemma_pow2_pos(1010);
        lemma_pow2_pos(1074);
        let (s, t) = (pow2(64), pow2(1010));
        assert(1 * b <= (a * p) * 1) by (nonlinear_arith)
            requires
                b <= s * p,
                p <= a,
                p == s * t,
                t >= 1,
        ;
        lemma_encode_monotone_ratio(1, 1, a * p, b);
        lemma_encode_decode(1);
        lemma_decode_one();
    }

    /// A ratio of whole numbers from 1 up that is at most one.
    pub proof fn lemma_ratio_le_one(n: u64, d: u64)
        requires
            1 <= n <= d,
        ensures
            !Double::ratio(n, d).nan(),
            Double::ratio(n, d).key() >= 0,
            Double::ratio(n, d).le(Double::one()),
    {
        Double::lemma_of(n);
        Double::lemma_of(d);
        Double::lemma_of_order(n, d);
        reveal(Double::spec_over);
        Double::lemma_one();
        lemma_pow2_pos(1074);
        let (a, b, p) = (Double::of(n).units(), Double::of(d).units(), pow2(1074));
        assert((a * p) * 1 <= p * b) by (nonlinear_arith)
            requires
                a <= b,
        ;
        lemma_encode_monotone_ratio(a * p, b, p, 1);
        lemma_encode_decode(Double::one().mag());
    }

    /// The product of numbers that are not negative grows with either factor.
    pub proof fn lemma_times_monotone(self, a: Double, b: Double)
        requires
            self.nonnegative(),
            a.nonnegative(),
            b.nonnegative(),
            a.le(b),
        ensures
            self.times(a).le(self.times(b)),
            Double::zero().le(self.times(a)),
    {
        reveal(Double::spec_times);
        lemma_decode_monotone(a.mag(), b.mag());
        lemma_pow2_pos(1074);
        lemma_decode_zero();
        lemma_encode_zero(pow2(1074));
        let (u, x, y) = (self.units(), a.units(), b.units());
        assert(u * x <= u * y && (u == 0 || x == 0 ==> u * x == 0) && (u == 0 || y == 0 ==> u * y
            == 0)) by (nonlinear_arith)
            requires
                x <= y,
        ;
        lemma_encode_monotone(u * x, u * y, pow2(1074));
    }

    /// Products by a number that is not negative keep the order.
    pub proof fn lemma_times_order(a: Double, b: Double, c: Double)
        requires
            a.finite(),
            b.finite(),
            c.nonnegative(),
            a.le(b),
        ensures
            a.times(c).le(b.times(c)),
    {
        reveal(Double::spec_times);
        let p = pow2(1074);
        let (x, y, u) = (a.units(), b.units(), c.units());
        lemma_pow2_pos(1074);
        lemma_decode_zero();
        lemma_encode_zero(p);
        assert(0 * u == 0 && x * 0 == 0 && y * 0 == 0) by (nonlinear_arith);
        if a.mag() <= b.mag() {
            lemma_decode_monotone(a.mag(), b.mag());
            assert(x * u <= y * u) by (nonlinear_arith)
                requires
                    x <= y,
            ;
            lemma_encode_monotone(x * u, y * u, p);
        } else {
            lemma_decode_monotone(b.mag(), a.mag());
            assert(y * u <= x * u) by (nonlinear_arith)
                requires
                    y <= x,
            ;
            lemma_encode_monotone(y * u, x * u, p);
        }
    }

    /// A factor of at most one makes nothing larger.
    pub proof fn lemma_times_shrinks(self, r: Double)
        requires
            self.nonnegative(),
            r.nonnegative(),
            r.le(Double::one()),
        ensures
            self.times(r).le(self),
            Double::zero().le(self.times(r)),
    {
        self.lemma_times_monotone(r, Double::one());
        reveal(Double::spec_times);
        Double::lemma_one();
        lemma_pow2_pos(1074);
        let (p, n) = (pow2(1074), self.units());
        assert(1 * p == p) by (nonlinear_arith);
        lemma_encode_ratio(n, 1, p);
        lemma_encode_decode(self.mag());
    }

    /// Sums keep the order of what is summed.
    pub proof fn lemma_plus_monotone(a: Double, b: Double, c: Double, d: Double)
        requires
            a.le(b),
            c.le(d),
            !a.plus(c).nan(),
            !b.plus(d).nan(),
        ensures
            a.plus(c).le(b.plus(d)),
    {
        reveal(Double::spec_plus);
        if a.finite() && c.finite() {
            a.lemma_plus(c);
        }
        if b.finite() && d.finite() {
            b.lemma_plus(d);
        }
        if a.finite() && b.finite() && c.finite() && d.finite() {
            a.lemma_order(b);
            c.lemma_order(d);
            lemma_rounded_monotone(a.value() + c.value(), b.value() + d.value());
        }
    }

    /// A sum of numbers that are not negative is not negative.
    pub proof fn lemma_plus_nonnegative(self, o: Double)
        requires
            Double::zero().le(self),
            Double::zero().le(o),
        ensures
            Double::zero().le(self.plus(o)),
    {
        reveal(Double::spec_plus);
        if self.finite() && o.finite() {
            self.lemma_plus(o);
            self.lemma_rounded_value();
            o.lemma_rounded_value();
        }
    }

    /// A finite number plus one that is not negative is not below it.
    pub proof fn lemma_plus_grows(self, o: Double)
        requires
            self.finite(),
            Double::zero().le(o),
        ensures
            self.le(self.plus(o)),
    {
        reveal(Double::spec_plus);
        if o.finite() {
            self.lemma_plus(o);
            self.lemma_rounded_value();
            o.lemma_rounded_value();
            lemma_rounded_monotone(self.value(), self.value() + o.value());
        }
    }

    /// A finite number less one that is not negative is not above it.
    pub proof fn lemma_minus_shrinks(self, o: Double)
        requires
            self.finite(),
            Double::zero().le(o),
        ensures
            self.minus(o).le(self),
    {
        reveal(Double::spec_plus);
        if o.finite() {
            self.lemma_minus(o);
            self.lemma_rounded_value();
            o.lemma_rounded_value();
            lemma_rounded_monotone(self.value() - o.value(), self.value());
        }
    }

    /// Differences from one number keep the order.
    pub proof fn lemma_minus_monotone(a: Double, b: Double, c: Double, d: Double)
        requires
            a.le(b),
            d.le(c),
            !a.minus(c).nan(),
            !b.minus(d).nan(),
        ensures
            a.minus(c).le(b.minus(d)),
    {
        assert(c.negate().le(d.negate()));
        Double::lemma_plus_monotone(a, b, c.negate(), d.negate());
    }

    /// Quotients by a positive number keep the order.
    pub proof fn lemma_over_monotone(a: Double, b: Double, c: Double)
        requires
            Double::zero().le(a),
            a.le(b),
            c.positive(),
        ensures
            a.over(c).le(b.over(c)),
            Double::zero().le(a.over(c)),
    {
        reveal(Double::spec_over);
        c.lemma_units_positive();
        lemma_decode_zero();
        lemma_encode_zero(c.units());
        let p = pow2(1074);
        if b.finite() {
            lemma_decode_monotone(a.mag(), b.mag());
            let (x, y) = (a.units(), b.units());
            assert(x * p <= y * p && (x == 0 ==> x * p == 0) && (y == 0 ==> y * p == 0))
                by (nonlinear_arith)
                requires
                    x <= y,
            ;
            lemma_encode_monotone(x * p, y * p, c.units());
        } else if a.finite() {
            let x = a.units();
            assert(x == 0 ==> x * p == 0) by (nonlinear_arith);
        }
    }

    /// A finite number times one from zero to one lies between zero and it.
    pub proof fn lemma_times_within(self, r: Double)
        requires
            self.finite(),
            r.nonnegative(),
            r.le(Double::one()),
        ensures
            self.times(r).finite(),
            self.key() >= 0 ==> 0 <= self.times(r).key() <= self.key(),
            self.key() <= 0 ==> self.key() <= self.times(r).key() <= 0,
    {
        let a = Double::make(false, self.mag());
        let t = Double::make(false, r.mag());
        assert(a.nonnegative() && a.mag() == self.mag() && a.units() == self.units());
        assert(t.nonnegative() && t.mag() == r.mag() && t.units() == r.units());
        a.lemma_times_shrinks(t);
        reveal(Double::spec_times);
        let u = self.units();
        assert(u * 0 == 0 && 0 * r.units() == 0) by (nonlinear_arith);
        lemma_decode_zero();
        lemma_pow2_pos(1074);
        lemma_encode_zero(pow2(1074));
    }
}

impl Double {
    /// Rounding to binary32 keeps the order.
    pub proof fn lemma_narrow_monotone(a: Double, b: Double)
        requires
            a.le(b),
        ensures
            a.narrow().le(b.narrow()),
    {
        reveal(Double::spec_narrow);
        lemma_pow2_pos(925);
        let (p, top) = (pow2(925), 0x7f80_0000nat);
        if a.finite() && b.finite() {
            lemma_encode_single_zero(p);
            lemma_decode_zero();
            if a.mag() <= b.mag() {
                lemma_decode_monotone(a.mag(), b.mag());
                lemma_round_monotone(24, top, a.units(), b.units(), p);
            } else {
                lemma_decode_monotone(b.mag(), a.mag());
                lemma_round_monotone(24, top, b.units(), a.units(), p);
            }
            lemma_round_monotone(24, top, 0, a.units(), p);
            lemma_round_monotone(24, top, 0, b.units(), p);
        }
    }
}

} // verus!
