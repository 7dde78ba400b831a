//! Conversions between binary64 numbers and integers, and the remainder.
use crate::ieee::double::{
    decode, encode, lemma_decode_monotone, lemma_encode_decode, lemma_encode_zero, pack_exact,
    parts, Double, INF,
};
use crate::ieee::pack::{lower, raise};
use vstd::arithmetic::div_mod::{lemma_fundamental_div_mod, lemma_fundamental_div_mod_converse};
use vstd::arithmetic::power2::{
    lemma2_to64, lemma2_to64_rest, lemma_pow2_adds, lemma_pow2_pos, lemma_pow2_strictly_increases,
    lemma_pow2_unfold, pow2,
};
use vstd::prelude::*;

verus! {

/// Where the fractional part of a number lies.
#[derive(Clone, Copy, PartialEq, Eq, Structural)]
pub enum Rest {
    Zero,
    BelowHalf,
    Half,
    AboveHalf,
}

pub open spec fn rest_of(r: nat, one: nat) -> Rest {
    if r == 0 {
        Rest::Zero
    } else if 2 * r < one {
        Rest::BelowHalf
    } else if 2 * r == one {
        Rest::Half
    } else {
        Rest::AboveHalf
    }
}

proof fn lemma_cancel(m: nat, y: nat, x: nat)
    requires
        x > 0,
        y > 0,
    ensures
        (m * x) / (y * x) == m / y,
        (m * x) % (y * x) == (m % y) * x,
        y * x > 0,
{
    lemma_fundamental_div_mod(m as int, y as int);
    let q = m / y;
    let r = m % y;
    assert(m * x == q * (y * x) + r * x && 0 <= r * x < y * x) by (nonlinear_arith)
        requires
            m == y * q + r,
            0 <= r < y,
            x > 0,
    ;
    lemma_fundamental_div_mod_converse((m * x) as int, (y * x) as int, q as int, (r * x) as int);
}

/// Whole part of a finite magnitude, saturated, and its fractional part.
fn whole_and_rest(b: u64) -> (r: (u64, Rest))
    requires
        b < INF,
    ensures
        ({
            let q = decode(b as nat) / pow2(1074);
            &&& r.0 == if q < u64::MAX {
                q
            } else {
                u64::MAX as nat
            }
            &&& r.1 == rest_of(decode(b as nat) % pow2(1074), pow2(1074))
        }),
{
    let (m, k) = parts(b);
    proof {
        lemma_pow2_pos(1074);
        lemma2_to64();
        lemma2_to64_rest();
        assert(pow2(64) == 0x1_0000_0000_0000_0000);
    }
    if k >= 1074 {
        let s = k - 1074;
        proof {
            lemma_pow2_adds(s as nat, 1074);
            let (x, y) = (pow2(s as nat), pow2(1074));
            assert((m * x) * y == m * (x * y)) by (nonlinear_arith);
            lemma_cancel((m * x) as nat, 1, y);
            lemma_pow2_pos(s as nat);
            assert((m as nat * x) % 1 == 0) by {
                lemma_fundamental_div_mod((m * x) as int, 1);
            }
            assert((m as nat * x) / 1 == m as nat * x) by {
                lemma_fundamental_div_mod((m * x) as int, 1);
            }
            assert(0 * y == 0) by (nonlinear_arith);
            assert(1 * y == y) by (nonlinear_arith);
        }
        if s > 11 {
            proof {
                if s > 12 {
                    lemma_pow2_strictly_increases(12, s as nat);
                }
                let x = pow2(s as nat);
                assert(m * x >= 0x10_0000_0000_0000 * 0x1000) by (nonlinear_arith)
                    requires
                        m >= 0x10_0000_0000_0000,
                        x >= 0x1000,
                ;
            }
            (u64::MAX, Rest::Zero)
        } else {
            proof {
                if s < 11 {
                    lemma_pow2_strictly_increases(s as nat, 11);
                }
                let x = pow2(s as nat);
                assert(m * x < 0x20_0000_0000_0000 * 0x800) by (nonlinear_arith)
                    requires
                        m < 0x20_0000_0000_0000,
                        0 < x <= 0x800,
                ;
            }
            (raise(m, s), Rest::Zero)
        }
    } else {
        let s: u32 = 1074 - k;
        proof {
            lemma_pow2_adds(s as nat, k as nat);
            lemma_pow2_pos(s as nat);
            lemma_pow2_pos(k as nat);
            lemma_cancel(m as nat, pow2(s as nat), pow2(k as nat));
            lemma_pow2_unfold(s as nat);
        }
        let ghost x = pow2(k as nat);
        let ghost y = pow2(s as nat);
        let ghost h = pow2((s - 1) as nat);
        if s >= 64 {
            proof {
                lemma_pow2_strictly_increases(53, (s - 1) as nat);
                lemma_fundamental_div_mod_converse(m as int, y as int, 0, m as int);
                assert(2 * (m * x) < y * x && (m * x == 0 <==> m == 0)) by (nonlinear_arith)
                    requires
                        2 * m < y,
                        x > 0,
                ;
            }
            if m == 0 {
                (0, Rest::Zero)
            } else {
                (0, Rest::BelowHalf)
            }
        } else {
            let q = lower(m, s);
            let r = m - raise(q, s);
            proof {
                lemma_fundamental_div_mod(m as int, y as int);
                assert(q * y == y * q) by (nonlinear_arith);
                assert(q <= m) by (nonlinear_arith)
                    requires
                        m == y * q + r,
                        y >= 1,
                        r >= 0,
                ;
                lemma_pow2_pos((s - 1) as nat);
                if s < 63 {
                    lemma_pow2_strictly_increases((s - 1) as nat, 63);
                }
                assert((2 * (r * x) < y * x <==> r < h) && (2 * (r * x) == y * x <==> r == h) && (r
                    * x == 0 <==> r == 0)) by (nonlinear_arith)
                    requires
                        y == 2 * h,
                        x > 0,
                ;
            }
            let half = raise(1, s - 1);
            let rest = if r == 0 {
                Rest::Zero
            } else if r < half {
                Rest::BelowHalf
            } else if r == half {
                Rest::Half
            } else {
                Rest::AboveHalf
            };
            (q, rest)
        }
    }
}

impl Double {
    /// The nearest number to `n`.
    pub open spec fn spec_of(n: u64) -> Double {
        Double::make(false, encode(n as nat * pow2(1074), 1))
    }

    #[verifier::when_used_as_spec(spec_of)]
    pub fn of(n: u64) -> (r: Double)
        ensures
            r == Double::spec_of(n),
    {
        if n == 0 {
            proof {
                lemma_encode_zero(1);
                let x = pow2(1074);
                assert(0 * x == 0) by (nonlinear_arith);
            }
            return Double { bits: 0 };
        }
        Double::assemble(false, pack_exact(n, 1074, Ghost(n as nat * pow2(1074))))
    }

    /// The nearest number to `n / d`, for whole numbers that are exact in
    /// this format: decimal constants are written this way.
    pub open spec fn spec_ratio(n: u64, d: u64) -> Double {
        Double::spec_of(n).spec_over(Double::spec_of(d))
    }

    #[verifier::when_used_as_spec(spec_ratio)]
    pub fn ratio(n: u64, d: u64) -> (r: Double)
        ensures
            r == Double::spec_ratio(n, d),
    {
        Double::of(n).over(Double::of(d))
    }

    /// Whole part of the absolute value of a finite number.
    pub open spec fn whole(self) -> nat {
        self.units() / pow2(1074)
    }

    /// Fractional part of the absolute value of a finite number.
    pub open spec fn rest(self) -> Rest {
        rest_of(self.units() % pow2(1074), pow2(1074))
    }

    /// `self` cut off to an integer, saturating; NaN gives 0.
    #[verifier::opaque]
    pub open spec fn spec_truncate(self) -> i64 {
        if self.nan() {
            0
        } else if self.infinite() || self.whole() > i64::MAX {
            if self.negative() {
                i64::MIN
            } else {
                i64::MAX
            }
        } else if self.negative() {
            (-(self.whole() as int)) as i64
        } else {
            self.whole() as i64
        }
    }

    #[verifier::when_used_as_spec(spec_truncate)]
    pub fn truncate(self) -> (r: i64)
        ensures
            r == self.spec_truncate(),
    {
        proof {
            reveal(Double::spec_truncate);
        }
        let b = self.magnitude();
        if b > INF {
            return 0;
        }
        let whole: u64 = if b == INF {
            u64::MAX
        } else {
            whole_and_rest(b).0
        };
        if whole > i64::MAX as u64 {
            if self.is_negative() {
                i64::MIN
            } else {
                i64::MAX
            }
        } else if self.is_negative() {
            -(whole as i64)
        } else {
            whole as i64
        }
    }

    /// `self` cut off to a natural number, saturating; NaN and negative
    /// numbers give 0.
    #[verifier::opaque]
    pub open spec fn spec_floor_count(self) -> u64 {
        if self.nan() || self.negative() {
            0
        } else if self.infinite() || self.whole() > u64::MAX {
            u64::MAX
        } else {
            self.whole() as u64
        }
    }

    #[verifier::when_used_as_spec(spec_floor_count)]
    pub fn floor_count(self) -> (r: u64)
        ensures
            r == self.spec_floor_count(),
    {
        proof {
            reveal(Double::spec_floor_count);
        }
        let b = self.magnitude();
        if b > INF || self.is_negative() {
            0
        } else if b == INF {
            u64::MAX
        } else {
            whole_and_rest(b).0
        }
    }

    /// `self` rounded up to a natural number, saturating; NaN and negative
    /// numbers give 0.
    #[verifier::opaque]
    pub open spec fn spec_ceil_count(self) -> u64 {
        if self.nan() || self.negative() {
            0
        } else if self.infinite() || self.whole() >= u64::MAX {
            u64::MAX
        } else if self.rest() == Rest::Zero {
            self.whole() as u64
        } else {
            (self.whole() + 1) as u64
        }
    }

    #[verifier::when_used_as_spec(spec_ceil_count)]
    pub fn ceil_count(self) -> (r: u64)
        ensures
            r == self.spec_ceil_count(),
    {
        proof {
            reveal(Double::spec_ceil_count);
        }
        let b = self.magnitude();
        if b > INF || self.is_negative() {
            return 0;
        }
        if b == INF {
            return u64::MAX;
        }
        let (whole, rest) = whole_and_rest(b);
        if whole == u64::MAX || rest == Rest::Zero {
            whole
        } else {
            whole + 1
        }
    }

    /// `self` rounded to the nearest natural number, halves up, saturating; NaN
    /// and negative numbers give 0.
    #[verifier::opaque]
    pub open spec fn spec_round_count(self) -> u64 {
        if self.nan() || self.negative() {
            0
        } else if self.infinite() || self.whole() >= u64::MAX {
            u64::MAX
        } else if self.rest() == Rest::Half || self.rest() == Rest::AboveHalf {
            (self.whole() + 1) as u64
        } else {
            self.whole() as u64
        }
    }

    #[verifier::when_used_as_spec(spec_round_count)]
    pub fn round_count(self) -> (r: u64)
        ensures
            r == self.spec_round_count(),
    {
        proof {
            reveal(Double::spec_round_count);
        }
        let b = self.magnitude();
        if b > INF || self.is_negative() {
            return 0;
        }
        if b == INF {
            return u64::MAX;
        }
        let (whole, rest) = whole_and_rest(b);
        if whole < u64::MAX && (rest == Rest::Half || rest == Rest::AboveHalf) {
            whole + 1
        } else {
            whole
        }
    }

    /// `self` rounded to the nearest integer, halves away from zero,
    /// saturating at 32 bits; NaN gives 0.
    #[verifier::opaque]
    pub open spec fn spec_round(self) -> i32 {
        let up: nat = if self.rest() == Rest::Half || self.rest() == Rest::AboveHalf {
            1
        } else {
            0
        };
        if self.nan() {
            0
        } else if self.infinite() || self.whole() + up > i32::MAX {
            if self.negative() {
                if self.infinite() || self.whole() + up > 0x8000_0000 {
                    i32::MIN
                } else {
                    (-(self.whole() + up)) as i32
                }
            } else {
                i32::MAX
            }
        } else if self.negative() {
            (-(self.whole() + up)) as i32
        } else {
            (self.whole() + up) as i32
        }
    }

    #[verifier::when_used_as_spec(spec_round)]
    pub fn round(self) -> (r: i32)
        ensures
            r == self.spec_round(),
    {
        proof {
            reveal(Double::spec_round);
        }
        let b = self.magnitude();
        if b > INF {
            return 0;
        }
        if b == INF {
            return if self.is_negative() {
                i32::MIN
            } else {
                i32::MAX
            };
        }
        let (whole, rest) = whole_and_rest(b);
        let up: u64 = if rest == Rest::Half || rest == Rest::AboveHalf {
            1
        } else {
            0
        };
        if whole >= 0x8000_0000 || whole + up >= 0x8000_0000 {
            if self.is_negative() {
                i32::MIN
            } else {
                i32::MAX
            }
        } else if self.is_negative() {
            -((whole + up) as i32)
        } else {
            (whole + up) as i32
        }
    }

    /// Remainder of the division truncated toward zero, with the sign of
    /// `self`; it is always exact.
    #[verifier::opaque]
    pub open spec fn spec_rem(self, o: Double) -> Double {
        if self.nan() || o.nan() || self.infinite() || o.mag() == 0 {
            Double::invalid()
        } else if o.infinite() {
            self
        } else {
            Double::make(self.negative(), encode(self.units() % o.units(), 1))
        }
    }

    #[verifier::when_used_as_spec(spec_rem)]
    pub fn rem(self, o: Double) -> (r: Double)
        ensures
            r == self.spec_rem(o),
    {
        proof {
            reveal(Double::spec_rem);
        }
        let a = self.magnitude();
        let b = o.magnitude();
        if a >= INF || b > INF || b == 0 {
            return Double::quiet();
        }
        if b == INF {
            return self;
        }
        if a < b {
            proof {
                lemma_decode_monotone(a as nat, b as nat);
                lemma_fundamental_div_mod_converse(
                    decode(a as nat) as int,
                    decode(b as nat) as int,
                    0,
                    decode(a as nat) as int,
                );
                lemma_encode_decode(a as nat);
            }
            return self;
        }
        Double::assemble(self.is_negative(), remainder_magnitudes(a, b))
    }
}

/// Encoding of the remainder of two magnitudes, the first at least the
/// second.
fn remainder_magnitudes(a: u64, b: u64) -> (mag: u64)
    requires
        0 < b <= a < INF,
    ensures
        mag == encode(decode(a as nat) % decode(b as nat), 1),
        mag <= INF,
{
    let (m1, k1) = parts(a);
    let (m2, k2) = parts(b);
    proof {
        lemma_decode_monotone(b as nat, a as nat);
        lemma_pow2_pos(k2 as nat);
    }
    let diff: u32 = k1 - k2;
    let mut r: u64 = m1 % m2;
    let mut i: u32 = 0;
    proof {
        lemma2_to64();
        assert(m1 as nat * pow2(0) == m1) by {
            let x = pow2(0);
            assert(m1 * x == m1) by (nonlinear_arith)
                requires
                    x == 1,
            ;
        }
    }
    while i < diff
        invariant
            i <= diff,
            0 < m2 < 0x20_0000_0000_0000,
            r < m2,
            r == (m1 as nat * pow2(i as nat)) % (m2 as nat),
        decreases diff - i,
    {
        proof {
            lemma_pow2_unfold((i + 1) as nat);
            let x = pow2(i as nat);
            let t = m1 as nat * x;
            lemma_fundamental_div_mod(t as int, m2 as int);
            lemma_fundamental_div_mod((2 * r) as int, m2 as int);
            let q = t / (m2 as nat);
            let q2 = (2 * r) / (m2 as int);
            let r2 = (2 * r) % (m2 as int);
            assert(m1 as nat * (2 * x) == (2 * q + q2) * m2 + r2) by (nonlinear_arith)
                requires
                    m1 as nat * x == m2 * q + r,
                    2 * r == m2 * q2 + r2,
            ;
            lemma_fundamental_div_mod_converse(
                (m1 as nat * (2 * x)) as int,
                m2 as int,
                2 * q + q2,
                r2,
            );
        }
        r = (2 * r) % m2;
        i = i + 1;
    }
    let ghost n = decode(a as nat) % decode(b as nat);
    proof {
        let (x, w) = (pow2(diff as nat), pow2(k2 as nat));
        lemma_pow2_adds(diff as nat, k2 as nat);
        assert((m1 as nat * x) * w == m1 as nat * (x * w)) by (nonlinear_arith);
        lemma_cancel(m1 as nat * x, m2 as nat, w);
        assert(n == r as nat * w);
    }
    if r == 0 {
        proof {
            let w = pow2(k2 as nat);
            assert(0 * w == 0) by (nonlinear_arith);
            lemma_encode_zero(1);
        }
        0
    } else {
        pack_exact(r, k2, Ghost(n))
    }
}

} // verus!
