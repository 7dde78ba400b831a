//! Laws of binary32 numbers that are not negative.
use crate::ieee::double;
use crate::ieee::double::{lemma_encode_decode, Double};
use crate::ieee::laws::{lemma_encode_monotone, lemma_encode_ratio, lemma_round_ratio};
use crate::ieee::rounding::{is_scale, lemma_scale_unique};
use crate::ieee::single::{decode, encode_single, exponent, Single, EXP, INF};
use vstd::arithmetic::div_mod::lemma_fundamental_div_mod_converse;
use vstd::arithmetic::power2::{
    lemma2_to64, lemma2_to64_rest, lemma_pow2_adds, lemma_pow2_pos, lemma_pow2_strictly_increases,
    lemma_pow2_unfold, pow2,
};
use vstd::prelude::*;

verus! {

/// The magnitude order is the order of the values.
proof fn lemma_decode_monotone(a: nat, b: nat)
    requires
        a <= b,
    ensures
        decode(a) <= decode(b),
{
    let (ka, kb) = (exponent(a), exponent(b));
    let (ma, mb) = ((a - ka * EXP) as nat, (b - kb * EXP) as nat);
    assert(ka <= kb);
    lemma_pow2_pos(ka);
    let x = pow2(ka);
    if ka == kb {
        assert(ma * x <= mb * x) by (nonlinear_arith)
            requires
                ma <= mb,
        ;
    } else {
        let t = (kb - ka - 1) as nat;
        lemma_pow2_adds(ka, t);
        lemma_pow2_unfold(kb);
        lemma_pow2_pos(t);
        let (y, z) = (pow2(t), pow2(kb));
        assert(z == 2 * (x * y));
        assert(x * y >= x) by (nonlinear_arith)
            requires
                y >= 1,
                x > 0,
        ;
        assert(ma * x <= mb * z) by (nonlinear_arith)
            requires
                ma < 2 * EXP,
                mb >= EXP,
                z >= 2 * x,
                x > 0,
        ;
    }
}

/// Every finite number is its own nearest number.
proof fn lemma_encode_single_decode(b: nat)
    requires
        b < INF,
    ensures
        encode_single(decode(b), 1) == b,
{
    let k = exponent(b);
    let m = (b - k * EXP) as nat;
    let n = decode(b);
    let x = pow2(k);
    lemma_pow2_pos(k);
    lemma2_to64();
    lemma_pow2_adds(k, 24);
    lemma_pow2_adds(k, 23);
    assert(m < 2 * EXP);
    assert(m * x < x * 0x100_0000) by (nonlinear_arith)
        requires
            m < 0x100_0000,
            x > 0,
    ;
    if k > 0 {
        assert(m >= EXP);
        assert(m * x >= x * 0x80_0000) by (nonlinear_arith)
            requires
                m >= 0x80_0000,
                x > 0,
        ;
        assert((k - 1) as nat + 24 == k + 23);
    }
    assert(is_scale(24, n, 1, k));
    lemma_scale_unique(24, n, 1, k);
    lemma_fundamental_div_mod_converse(n as int, x as int, m as int, 0);
    assert(1 * x == x);
}

/// How far a number has to be shifted to fill 53 bits.
proof fn lemma_shift(m: nat, i: nat) -> (j: nat)
    requires
        0 < m,
        m * pow2(i) < 0x20_0000_0000_0000,
    ensures
        i <= j <= 53,
        0x10_0000_0000_0000 <= m * pow2(j) < 0x20_0000_0000_0000,
    decreases 0x20_0000_0000_0000 - m * pow2(i),
{
    let w = pow2(i);
    lemma_pow2_pos(i);
    lemma2_to64_rest();
    if i > 53 {
        lemma_pow2_strictly_increases(53, i);
        assert(m * w >= w) by (nonlinear_arith)
            requires
                m >= 1,
                w >= 0,
        ;
        assert(false);
        i
    } else if m * w >= 0x10_0000_0000_0000 {
        i
    } else {
        lemma_pow2_unfold(i + 1);
        assert(m * (2 * w) == 2 * (m * w) && m * w > 0) by (nonlinear_arith)
            requires
                m > 0,
                w > 0,
        ;
        lemma_shift(m, i + 1)
    }
}

/// Widening is exact.
proof fn lemma_widen_exact(a: Single)
    requires
        !a.negative(),
        a.mag() < INF,
    ensures
        a.widen().finite() && !a.widen().negative(),
        a.widen().units() == decode(a.mag()) * pow2(925),
{
    reveal(Single::spec_widen);
    let k = exponent(a.mag());
    let m = (a.mag() - k * EXP) as nat;
    let n = decode(a.mag()) * pow2(925);
    lemma2_to64();
    lemma2_to64_rest();
    if m == 0 {
        let (x, y) = (pow2(k), pow2(925));
        assert((0 * x) * y == 0) by (nonlinear_arith);
        double::lemma_encode_zero(1);
        double::lemma_decode_zero();
    } else {
        assert(m * pow2(0) == m) by (nonlinear_arith)
            requires
                pow2(0) == 1,
        ;
        let j = lemma_shift(m, 0);
        let s = m * pow2(j);
        let e = (k + 925 - j) as nat;
        let b = e * double::EXP as nat + s;
        assert(double::exponent(b) == e && double::significand(b) == s) by {
            lemma_fundamental_div_mod_converse(
                b as int,
                double::EXP as int,
                e as int + 1,
                s - double::EXP,
            );
        }
        lemma_pow2_adds(j, e);
        lemma_pow2_adds(k, 925);
        let (x, y, z, w) = (pow2(k), pow2(925), pow2(j), pow2(e));
        assert((m * z) * w == m * (z * w) && (m * x) * y == m * (x * y)) by (nonlinear_arith);
        assert(double::decode(b) == n);
        assert(e <= 1178);
        lemma_encode_decode(b);
    }
}

/// Widening and rounding back changes nothing.
proof fn lemma_narrow_widen(a: Single)
    requires
        !a.negative() && !a.nan(),
    ensures
        a.widen().narrow() == a,
{
    reveal(Double::spec_narrow);
    if a.mag() < INF {
        lemma_widen_exact(a);
        lemma_pow2_pos(925);
        let (n, p) = (decode(a.mag()), pow2(925));
        assert(1 * p == p) by (nonlinear_arith);
        lemma_round_ratio(24, INF as nat, n, 1, p);
        lemma_encode_single_decode(a.mag());
    } else {
        reveal(Single::spec_widen);
    }
}

proof fn lemma_widen_monotone(a: Single, b: Single)
    requires
        !a.negative() && !b.negative(),
        a.mag() <= b.mag() <= INF,
    ensures
        a.widen().le(b.widen()),
        Double::zero().le(a.widen()),
{
    reveal(Single::spec_widen);
    if a.mag() < INF {
        lemma_widen_exact(a);
    }
    if b.mag() < INF {
        lemma_widen_exact(b);
        lemma_decode_monotone(a.mag(), b.mag());
        let (x, y, p) = (decode(a.mag()), decode(b.mag()), pow2(925));
        assert(x * p <= y * p) by (nonlinear_arith)
            requires
                x <= y,
        ;
        lemma_encode_monotone(x * p, y * p, 1);
    }
}

impl Single {
    /// Sums keep the order.
    pub proof fn lemma_plus_monotone(a: Single, b: Single, c: Single)
        requires
            !a.negative() && !b.negative() && !c.negative(),
            a.le(b) && !c.nan(),
        ensures
            a.plus(c).le(b.plus(c)),
    {
        reveal(Single::spec_plus);
        lemma_widen_monotone(a, b);
        lemma_widen_monotone(c, c);
        lemma_widen_monotone(b, b);
        let (x, y, z) = (a.widen(), b.widen(), c.widen());
        x.lemma_plus_nonnegative(z);
        y.lemma_plus_nonnegative(z);
        Double::lemma_plus_monotone(x, y, z, z);
        Double::lemma_narrow_monotone(x.plus(z), y.plus(z));
    }

    /// A sum grows with what is added.
    pub proof fn lemma_plus_ordered(c: Single, a: Single, b: Single)
        requires
            !a.negative() && !b.negative() && !c.negative(),
            a.le(b) && !c.nan(),
        ensures
            c.plus(a).le(c.plus(b)),
    {
        reveal(Single::spec_plus);
        lemma_widen_monotone(a, b);
        lemma_widen_monotone(c, c);
        lemma_widen_monotone(b, b);
        let (x, y, z) = (a.widen(), b.widen(), c.widen());
        z.lemma_plus_nonnegative(x);
        z.lemma_plus_nonnegative(y);
        Double::lemma_plus_monotone(z, z, x, y);
        Double::lemma_narrow_monotone(z.plus(x), z.plus(y));
    }

    /// A sum is at least as large as what is added to.
    pub proof fn lemma_plus_grows(self, c: Single)
        requires
            !self.negative() && !c.negative(),
            !self.nan() && !c.nan(),
        ensures
            self.le(self.plus(c)),
    {
        reveal(Single::spec_plus);
        lemma_widen_monotone(self, self);
        lemma_widen_monotone(c, c);
        let (x, z) = (self.widen(), c.widen());
        x.lemma_plus_nonnegative(z);
        if x.finite() {
            x.lemma_plus_grows(z);
        } else {
            reveal(Double::spec_plus);
        }
        Double::lemma_narrow_monotone(x, x.plus(z));
        lemma_narrow_widen(self);
    }

    /// Multiplied by a number of at least one, nothing becomes smaller.
    pub proof fn lemma_times_grows(self, c: Single)
        requires
            !self.negative() && !self.nan(),
            !c.negative(),
            0x3f80_0000 <= c.mag() < INF,
        ensures
            self.le(self.times(c)),
    {
        reveal(Single::spec_times);
        let one = Single { bits: 0x3f80_0000 };
        lemma_widen_exact(one);
        lemma_widen_exact(c);
        lemma_widen_monotone(one, c);
        lemma_widen_monotone(self, self);
        let (x, y, z) = (self.widen(), one.widen(), c.widen());
        lemma_unit();
        if x.finite() {
            x.lemma_times_monotone(y, z);
            reveal(Double::spec_times);
            lemma_pow2_pos(1074);
            let (p, n) = (pow2(1074), x.units());
            assert(1 * p == p) by (nonlinear_arith);
            lemma_encode_ratio(n, 1, p);
            lemma_encode_decode(x.mag());
        } else {
            reveal(Double::spec_times);
            double::lemma_decode_zero();
            lemma_pow2_pos(1074);
        }
        assert(x.le(x.times(z)));
        Double::lemma_narrow_monotone(x, x.times(z));
        lemma_narrow_widen(self);
    }
}

/// One is `2^1074` units of binary64.
proof fn lemma_unit()
    ensures
        decode(0x3f80_0000) * pow2(925) == pow2(1074),
{
    let (x, y) = (pow2(126), pow2(925));
    lemma2_to64();
    lemma_pow2_adds(126, 925);
    lemma_pow2_adds(23, 1051);
    assert(exponent(0x3f80_0000) == 126);
    assert((0x80_0000 * x) * y == 0x80_0000 * (x * y)) by (nonlinear_arith);
}

} // verus!
