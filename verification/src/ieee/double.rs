//! IEEE 754 binary64 numbers in software: every operation is exact integer
//! arithmetic on the bit pattern, rounded to nearest, ties to even.
use crate::ieee::pack::{
    down, in_bin, lemma_coarser, lower, pack, pack_word, raise, split, up, word_length, Format,
};
use crate::ieee::rounding::{is_scale, lemma_scale_unique, round_mag};
use vstd::arithmetic::div_mod::{lemma_fundamental_div_mod, lemma_fundamental_div_mod_converse};
use vstd::arithmetic::power2::{
    lemma2_to64, lemma2_to64_rest, lemma_pow2_adds, lemma_pow2_pos, lemma_pow2_strictly_increases,
    lemma_pow2_unfold, pow2,
};
use vstd::prelude::*;

verus! {

/// Encoding step of one exponent: `2^52`.
pub const EXP: u64 = 0x10_0000_0000_0000;

/// The sign bit: `2^63`.
pub const SIGN: u64 = 0x8000_0000_0000_0000;

/// Magnitude encoding of infinity.
pub const INF: u64 = 0x7ff0_0000_0000_0000;

/// The quiet NaN that invalid operations return.
pub const NAN: u64 = 0x7ff8_0000_0000_0000;

/// A binary64 number, by its bit pattern. Finite numbers are whole multiples
/// of `2^-1074`, the unit in which contracts measure them.
#[derive(Clone, Copy, Debug)]
pub struct Double {
    pub bits: u64,
}

/// Exponent of the spacing of the number encoded as `b`.
pub open spec fn exponent(b: nat) -> nat {
    if b < 2 * EXP {
        0
    } else {
        (b / EXP as nat - 1) as nat
    }
}

/// Significand of the number encoded as `b`.
pub open spec fn significand(b: nat) -> nat {
    (b - exponent(b) * EXP) as nat
}

/// The finite magnitude encoded as `b`, in units.
pub open spec fn decode(b: nat) -> nat {
    significand(b) * pow2(exponent(b))
}

/// Encoding of the magnitude nearest to `n / d` units.
pub open spec fn encode(n: nat, d: nat) -> nat {
    round_mag(53, INF as nat, n, d)
}

impl Double {
    pub open spec fn negative(self) -> bool {
        self.bits >= SIGN
    }

    /// Encoding of the absolute value.
    pub open spec fn mag(self) -> nat {
        if self.negative() {
            (self.bits - SIGN) as nat
        } else {
            self.bits as nat
        }
    }

    pub open spec fn nan(self) -> bool {
        self.mag() > INF
    }

    pub open spec fn infinite(self) -> bool {
        self.mag() == INF
    }

    pub open spec fn finite(self) -> bool {
        self.mag() < INF
    }

    /// Absolute value in units, of a finite number.
    pub open spec fn units(self) -> nat {
        decode(self.mag())
    }

    /// Signed value in units, of a finite number.
    pub open spec fn value(self) -> int {
        if self.negative() {
            -(self.units() as int)
        } else {
            self.units() as int
        }
    }

    /// Position in the order of the numbers; both zeros are at 0.
    pub open spec fn key(self) -> int {
        if self.negative() {
            -(self.mag() as int)
        } else {
            self.mag() as int
        }
    }

    pub open spec fn make(negative: bool, mag: nat) -> Double {
        Double {
            bits: (if negative {
                mag + SIGN
            } else {
                mag as int
            }) as u64,
        }
    }

    pub open spec fn invalid() -> Double {
        Double { bits: NAN }
    }
}

pub open spec fn double_format() -> Format {
    Format { prec: 53, top: 2047 }
}

pub proof fn lemma_format()
    ensures
        double_format().wf(),
        double_format().inf() == INF,
        forall|n: nat, d: nat| double_format().round(n, d) == encode(n, d),
{
    lemma2_to64_rest();
    assert(2047 * 0x10_0000_0000_0000 == 0x7ff0_0000_0000_0000);
}

impl Double {
    pub fn is_negative(self) -> (r: bool)
        ensures
            r == self.negative(),
    {
        self.bits >= SIGN
    }

    pub fn magnitude(self) -> (r: u64)
        ensures
            r == self.mag(),
            r < SIGN,
    {
        if self.bits >= SIGN {
            self.bits - SIGN
        } else {
            self.bits
        }
    }

    /// Assemble a number from its sign and magnitude encoding.
    pub fn assemble(negative: bool, mag: u64) -> (r: Double)
        requires
            mag < SIGN,
        ensures
            r == Double::make(negative, mag as nat),
            r.negative() == negative,
            r.mag() == mag,
    {
        Double {
            bits: if negative {
                mag + SIGN
            } else {
                mag
            },
        }
    }

    pub fn quiet() -> (r: Double)
        ensures
            r == Double::invalid(),
    {
        Double { bits: NAN }
    }
}

/// Significand and exponent of a finite magnitude.
pub fn parts(b: u64) -> (r: (u64, u32))
    requires
        b < INF,
    ensures
        r.0 == significand(b as nat),
        r.1 == exponent(b as nat),
        r.0 * pow2(r.1 as nat) == decode(b as nat),
        r.0 < 0x20_0000_0000_0000,
        r.1 <= 2045,
        r.1 > 0 ==> r.0 >= 0x10_0000_0000_0000,
        r.0 == 0 <==> b == 0,
{
    if b < 2 * EXP {
        (b, 0)
    } else {
        let e = b / EXP;
        (b - (e - 1) * EXP, (e - 1) as u32)
    }
}

pub proof fn lemma_decode_zero()
    ensures
        decode(0) == 0,
{
    assert(exponent(0) == 0 && significand(0) == 0);
    let w = pow2(0);
    assert(0 * w == 0) by (nonlinear_arith);
}

/// The magnitude order is the order of the values.
pub proof fn lemma_decode_monotone(a: nat, b: nat)
    requires
        a <= b,
    ensures
        decode(a) <= decode(b),
        exponent(a) <= exponent(b),
        a < b ==> decode(a) < decode(b),
{
    let (ka, kb) = (exponent(a), exponent(b));
    let (ma, mb) = (significand(a), significand(b));
    assert(ka <= kb);
    lemma_pow2_pos(ka);
    let x = pow2(ka);
    if ka == kb {
        assert(ma <= mb);
        assert(ma * x <= mb * x && (ma < mb ==> ma * x < mb * x)) by (nonlinear_arith)
            requires
                ma <= mb,
                x > 0,
        ;
    } else {
        let t = (kb - ka - 1) as nat;
        lemma_pow2_adds(ka, t);
        lemma_pow2_unfold(kb);
        lemma_pow2_pos(t);
        let y = pow2(t);
        let z = pow2(kb);
        assert(z == 2 * (x * y));
        assert(x * y >= x) by (nonlinear_arith)
            requires
                y >= 1,
                x > 0,
        ;
        assert(ma < 2 * EXP);
        assert(mb >= EXP);
        assert(ma * x < mb * z) by (nonlinear_arith)
            requires
                ma < 2 * EXP,
                mb >= EXP,
                z >= 2 * x,
                x > 0,
        ;
    }
}

/// Every finite number is its own nearest number.
pub proof fn lemma_encode_decode(b: nat)
    requires
        b < INF,
    ensures
        encode(decode(b), 1) == b,
{
    let k = exponent(b);
    let m = significand(b);
    let n = decode(b);
    let x = pow2(k);
    lemma_pow2_pos(k);
    lemma2_to64_rest();
    lemma_pow2_adds(k, 53);
    lemma_pow2_adds(k, 52);
    assert(m < 2 * EXP);
    assert(m * x < x * 0x20_0000_0000_0000) by (nonlinear_arith)
        requires
            m < 0x20_0000_0000_0000,
            x > 0,
    ;
    if k > 0 {
        assert(m >= EXP);
        assert(m * x >= x * 0x10_0000_0000_0000) by (nonlinear_arith)
            requires
                m >= 0x10_0000_0000_0000,
                x > 0,
        ;
        assert((k - 1) as nat + 53 == k + 52);
    }
    assert(is_scale(53, n, 1, k));
    lemma_scale_unique(53, n, 1, k);
    lemma_fundamental_div_mod_converse(n as int, x as int, m as int, 0);
    assert(1 * x == x);
}

/// Encoding of `p * 2^e`, where that product is the whole number `n`.
pub fn pack_exact(p: u64, e: u32, n: Ghost<nat>) -> (mag: u64)
    requires
        0 < p,
        e <= 4000,
        n@ == p * pow2(e as nat),
    ensures
        mag == encode(n@, 1),
        mag <= INF,
{
    proof {
        lemma_format();
        let w = pow2(e as nat);
        lemma_pow2_pos(e as nat);
        assert((p + 1) * (1 * w) == p * w + w) by (nonlinear_arith);
        assert(p as nat * (1 * up(e as int)) == n@);
        assert(in_bin(n@, 1, p as nat, e as int, false));
    }
    pack_word(Format { prec: 53, top: 2047 }, p, e as i32, false, n, Ghost(1))
}

/// How many times `2^(k1 - 10)` goes into `m * 2^k2`, and whether anything, the
/// ghost value, is left.
#[inline]
fn aligned(m: u64, k1: u32, k2: u32) -> (r: (u64, bool, Ghost<nat>))
    requires
        m < 0x20_0000_0000_0000,
        k2 <= k1 <= 2045,
        k1 >= 10,
    ensures
        r.0 < 0x8000_0000_0000_0000,
        m * pow2(k2 as nat) == r.0 * pow2((k1 - 10) as nat) + r.2@,
        r.2@ < pow2((k1 - 10) as nat),
        r.1 <==> r.2@ != 0,
        r.1 ==> r.0 <= m && k1 > k2 + 10,
{
    let ghost w = pow2((k1 - 10) as nat);
    let ghost z = pow2(k2 as nat);
    proof {
        lemma2_to64();
        lemma2_to64_rest();
        lemma_pow2_pos(k2 as nat);
        lemma_pow2_pos((k1 - 10) as nat);
    }
    let diff: u32 = k1 - k2;
    let y = m * 1024;
    let ghost t = pow2(diff as nat);
    proof {
        lemma_pow2_pos(diff as nat);
        lemma_pow2_adds(diff as nat, k2 as nat);
        lemma_pow2_adds(10, (k1 - 10) as nat);
        lemma_fundamental_div_mod(y as int, t as int);
    }
    let ghost (q, r) = (y as nat / t, y as nat % t);
    let ghost left = (m * z - q * w) as nat;
    proof {
        assert(1024 * (m * z - q * w) == r * z) by (nonlinear_arith)
            requires
                m * 1024 == t * q + r,
                t * z == 1024 * w,
        ;
        assert(0 <= r * z < 1024 * w && (r * z != 0 <==> r != 0)) by (nonlinear_arith)
            requires
                0 <= r < t,
                t * z == 1024 * w,
                z > 0,
        ;
        assert(q <= y) by (nonlinear_arith)
            requires
                y == t * q + r,
                t >= 1,
                r >= 0,
                q >= 0,
        ;
        if r != 0 && diff <= 10 {
            // 2^diff divides 1024
            lemma_pow2_adds(diff as nat, (10 - diff) as nat);
            let c = pow2((10 - diff) as nat);
            assert(m * (t * c) == t * (m * c) + 0) by (nonlinear_arith);
            lemma_fundamental_div_mod_converse(y as int, t as int, m * c, 0);
        }
        if diff > 10 {
            lemma_pow2_strictly_increases(10, diff as nat);
            assert(q <= m) by (nonlinear_arith)
                requires
                    m * 1024 == t * q + r,
                    t >= 1024,
                    r >= 0,
                    q >= 0,
            ;
        }
    }
    if diff < 64 {
        let x = lower(y, diff);
        proof {
            assert(q * t == t * q) by (nonlinear_arith);
        }
        let lost = raise(x, diff) != y;
        (x, lost, Ghost(left))
    } else {
        proof {
            lemma_pow2_strictly_increases(63, diff as nat);
            lemma_fundamental_div_mod_converse(y as int, t as int, 0, y as int);
        }
        (0, m != 0, Ghost(left))
    }
}

/// Encoding of the sum of two magnitudes, the first at least the second.
fn sum_magnitudes(hi: u64, lo: u64) -> (mag: u64)
    requires
        lo <= hi < INF,
        hi > 0,
    ensures
        mag == encode(decode(hi as nat) + decode(lo as nat), 1),
        mag <= INF,
{
    let (m1, k1) = parts(hi);
    let (m2, k2) = parts(lo);
    let ghost n = decode(hi as nat) + decode(lo as nat);
    proof {
        lemma_decode_monotone(lo as nat, hi as nat);
    }
    if k1 < 10 {
        proof {
            lemma_align(m1 as nat, k1 as nat, (k1 - k2) as nat);
        }
        let x = raise(m1, k1 - k2);
        let p = x + m2;
        proof {
            let w = pow2(k2 as nat);
            assert((x + m2) * w == x * w + m2 * w) by (nonlinear_arith);
        }
        return pack_exact(p, k2, Ghost(n));
    }
    let (x, lost, left) = aligned(m2, k1, k2);
    proof {
        lemma_align(m1 as nat, k1 as nat, 10);
        lemma2_to64();
    }
    let p = raise(m1, 10) + x;
    proof {
        lemma_format();
        lemma2_to64_rest();
        let w = pow2((k1 - 10) as nat);
        let y = m1 * 1024;
        assert((y + x) * w == y * w + x * w) by (nonlinear_arith);
        assert((y + x + 1) * w == (y + x) * w + w) by (nonlinear_arith);
        assert(1 * w == w);
        assert(up(k1 - 10) == w && down(k1 - 10) == 1);
        assert(in_bin(n, 1, p as nat, k1 - 10, lost));
    }
    pack_word(Format { prec: 53, top: 2047 }, p, k1 as i32 - 10, lost, Ghost(n), Ghost(1))
}

/// Encoding of the difference of two magnitudes, the first above the second.
fn difference_magnitudes(hi: u64, lo: u64) -> (mag: u64)
    requires
        lo < hi < INF,
    ensures
        mag == encode((decode(hi as nat) - decode(lo as nat)) as nat, 1),
        mag <= INF,
{
    let (m1, k1) = parts(hi);
    let (m2, k2) = parts(lo);
    proof {
        lemma_decode_monotone(lo as nat, hi as nat);
    }
    let ghost n = (decode(hi as nat) - decode(lo as nat)) as nat;
    if k1 < 10 {
        proof {
            lemma_align(m1 as nat, k1 as nat, (k1 - k2) as nat);
        }
        let x = raise(m1, k1 - k2);
        proof {
            let w = pow2(k2 as nat);
            lemma_pow2_pos(k2 as nat);
            assert(x > m2) by (nonlinear_arith)
                requires
                    x * w > m2 * w,
                    w > 0,
            ;
            assert((x - m2) * w == x * w - m2 * w) by (nonlinear_arith);
        }
        return pack_exact(x - m2, k2, Ghost(n));
    }
    let (x, lost, left) = aligned(m2, k1, k2);
    proof {
        lemma_align(m1 as nat, k1 as nat, 10);
        lemma2_to64();
        lemma2_to64_rest();
        let w = pow2((k1 - 10) as nat);
        let y = m1 * 1024;
        assert(y > x) by (nonlinear_arith)
            requires
                y * w > x * w + left@,
                left@ >= 0,
                w > 0,
        ;
    }
    let y = raise(m1, 10);
    let p = if lost {
        y - x - 1
    } else {
        y - x
    };
    proof {
        lemma_format();
        let w = pow2((k1 - 10) as nat);
        assert((y - x) * w == y * w - x * w) by (nonlinear_arith);
        assert((y - x - 1) * w == (y - x) * w - w) by (nonlinear_arith);
        assert((y - x + 1) * w == (y - x) * w + w) by (nonlinear_arith);
        assert(1 * w == w);
        assert(up(k1 - 10) == w && down(k1 - 10) == 1);
        assert(in_bin(n, 1, p as nat, k1 - 10, lost));
    }
    pack_word(Format { prec: 53, top: 2047 }, p, k1 as i32 - 10, lost, Ghost(n), Ghost(1))
}

/// A significand of a higher exponent is a multiple at the lower one.
proof fn lemma_align(m: nat, k: nat, diff: nat)
    requires
        diff <= 10,
        diff <= k,
        m < 0x20_0000_0000_0000,
    ensures
        m * pow2(diff) < 0x8000_0000_0000_0000,
        (m * pow2(diff)) * pow2((k - diff) as nat) == m * pow2(k),
{
    lemma2_to64();
    lemma_pow2_pos(diff);
    if diff < 10 {
        lemma_pow2_strictly_increases(diff, 10);
    }
    let a = pow2(diff);
    let b = pow2((k - diff) as nat);
    lemma_pow2_adds(diff, (k - diff) as nat);
    assert(m * a < 0x20_0000_0000_0000 * 1024) by (nonlinear_arith)
        requires
            m < 0x20_0000_0000_0000,
            0 < a <= 1024,
    ;
    assert((m * a) * b == m * (a * b)) by (nonlinear_arith);
}

impl Double {
    /// `self + o`.
    #[verifier::opaque]
    pub open spec fn spec_plus(self, o: Double) -> Double {
        if self.nan() || o.nan() {
            Double::invalid()
        } else if self.infinite() {
            if o.infinite() && self.negative() != o.negative() {
                Double::invalid()
            } else {
                self
            }
        } else if o.infinite() {
            o
        } else {
            let t = self.value() + o.value();
            if t > 0 {
                Double::make(false, encode(t as nat, 1))
            } else if t < 0 {
                Double::make(true, encode((-t) as nat, 1))
            } else {
                Double::make(self.negative() && o.negative(), 0)
            }
        }
    }

    pub open spec fn spec_negate(self) -> Double {
        Double::make(!self.negative(), self.mag())
    }

    /// `self - o`.
    pub open spec fn spec_minus(self, o: Double) -> Double {
        self.spec_plus(o.spec_negate())
    }

    /// `self * o`.
    #[verifier::opaque]
    pub open spec fn spec_times(self, o: Double) -> Double {
        let negative = self.negative() != o.negative();
        if self.nan() || o.nan() {
            Double::invalid()
        } else if self.infinite() || o.infinite() {
            if self.mag() == 0 || o.mag() == 0 {
                Double::invalid()
            } else {
                Double::make(negative, INF as nat)
            }
        } else {
            Double::make(negative, encode(self.units() * o.units(), pow2(1074)))
        }
    }

    /// `self / o`.
    #[verifier::opaque]
    pub open spec fn spec_over(self, o: Double) -> Double {
        let negative = self.negative() != o.negative();
        if self.nan() || o.nan() {
            Double::invalid()
        } else if self.infinite() {
            if o.infinite() {
                Double::invalid()
            } else {
                Double::make(negative, INF as nat)
            }
        } else if o.infinite() {
            Double::make(negative, 0)
        } else if o.mag() == 0 {
            if self.mag() == 0 {
                Double::invalid()
            } else {
                Double::make(negative, INF as nat)
            }
        } else {
            Double::make(negative, encode(self.units() * pow2(1074), o.units()))
        }
    }

    /// `self + o`.
    #[verifier::when_used_as_spec(spec_plus)]
    pub fn plus(self, o: Double) -> (r: Double)
        ensures
            r == self.spec_plus(o),
    {
        proof {
            reveal(Double::spec_plus);
        }
        let a = self.magnitude();
        let b = o.magnitude();
        if a > INF || b > INF {
            return Double::quiet();
        }
        if a == INF {
            if b == INF && self.is_negative() != o.is_negative() {
                return Double::quiet();
            }
            return self;
        }
        if b == INF {
            return o;
        }
        proof {
            lemma_decode_monotone(0, a as nat);
            lemma_decode_monotone(0, b as nat);
            lemma2_to64();
            lemma_decode_zero();
            if a <= b {
                lemma_decode_monotone(a as nat, b as nat);
            } else {
                lemma_decode_monotone(b as nat, a as nat);
            }
        }
        let (hi, lo, negative) = if a >= b {
            (a, b, self.is_negative())
        } else {
            (b, a, o.is_negative())
        };
        if self.is_negative() == o.is_negative() {
            if hi == 0 {
                return self;
            }
            Double::assemble(negative, sum_magnitudes(hi, lo))
        } else if hi == lo {
            Double { bits: 0 }
        } else {
            Double::assemble(negative, difference_magnitudes(hi, lo))
        }
    }

    /// `-self`.
    #[verifier::when_used_as_spec(spec_negate)]
    pub fn negate(self) -> (r: Double)
        ensures
            r == self.spec_negate(),
    {
        Double::assemble(!self.is_negative(), self.magnitude())
    }

    /// `self - o`.
    #[verifier::when_used_as_spec(spec_minus)]
    pub fn minus(self, o: Double) -> (r: Double)
        ensures
            r == self.spec_minus(o),
    {
        self.plus(o.negate())
    }

    /// `self * o`.
    #[verifier::when_used_as_spec(spec_times)]
    pub fn times(self, o: Double) -> (r: Double)
        ensures
            r == self.spec_times(o),
    {
        proof {
            reveal(Double::spec_times);
        }
        let a = self.magnitude();
        let b = o.magnitude();
        let negative = self.is_negative() != o.is_negative();
        if a > INF || b > INF {
            return Double::quiet();
        }
        if a == INF || b == INF {
            if a == 0 || b == 0 {
                return Double::quiet();
            }
            return Double::assemble(negative, INF);
        }
        Double::assemble(negative, product_magnitudes(a, b))
    }

    /// `self / o`.
    #[verifier::when_used_as_spec(spec_over)]
    pub fn over(self, o: Double) -> (r: Double)
        ensures
            r == self.spec_over(o),
    {
        proof {
            reveal(Double::spec_over);
        }
        let a = self.magnitude();
        let b = o.magnitude();
        let negative = self.is_negative() != o.is_negative();
        if a > INF || b > INF {
            return Double::quiet();
        }
        if a == INF {
            if b == INF {
                return Double::quiet();
            }
            return Double::assemble(negative, INF);
        }
        if b == INF {
            return Double::assemble(negative, 0);
        }
        if b == 0 {
            if a == 0 {
                return Double::quiet();
            }
            return Double::assemble(negative, INF);
        }
        Double::assemble(negative, quotient_magnitudes(a, b))
    }
}

pub proof fn lemma_encode_zero(d: nat)
    requires
        d > 0,
    ensures
        encode(0, d) == 0,
{
    lemma_pow2_pos(53);
    lemma_pow2_pos(0);
    let x = pow2(53);
    assert(0 < d * x) by (nonlinear_arith)
        requires
            d > 0,
            x > 0,
    ;
    assert(is_scale(53, 0, d, 0));
    lemma_scale_unique(53, 0, d, 0);
    let y = d * pow2(0);
    assert(y > 0) by (nonlinear_arith)
        requires
            d > 0,
            pow2(0) > 0,
            y == d * pow2(0),
    ;
    assert(0nat / y == 0 && 0nat % y == 0) by (nonlinear_arith)
        requires
            y > 0,
    ;
    let z = pow2(52);
    assert(0 * z == 0) by (nonlinear_arith);
}

proof fn lemma_product_scale(k1: nat, k2: nat, e: int)
    requires
        e == k1 + k2 - 1074,
    ensures
        pow2(1074) * up(e) == (pow2(k1) * pow2(k2)) * down(e),
{
    lemma_pow2_adds(k1, k2);
    if e >= 0 {
        lemma_pow2_adds(1074, e as nat);
    } else {
        lemma_pow2_adds(k1 + k2, (-e) as nat);
    }
}

/// Encoding of the product of two magnitudes.
fn product_magnitudes(a: u64, b: u64) -> (mag: u64)
    requires
        a < INF,
        b < INF,
    ensures
        mag == encode(decode(a as nat) * decode(b as nat), pow2(1074)),
        mag <= INF,
{
    let (m1, k1) = parts(a);
    let (m2, k2) = parts(b);
    let ghost n = decode(a as nat) * decode(b as nat);
    let ghost d = pow2(1074);
    proof {
        lemma_pow2_pos(1074);
    }
    if m1 == 0 || m2 == 0 {
        proof {
            lemma_decode_zero();
            assert(n == 0) by (nonlinear_arith)
                requires
                    decode(a as nat) == 0 || decode(b as nat) == 0,
                    n == decode(a as nat) * decode(b as nat),
            ;
            lemma_encode_zero(d);
        }
        return 0;
    }
    let e: i32 = k1 as i32 + k2 as i32 - 1074;
    proof {
        assert(0 < m1 * m2 < 0x400_0000_0000_0000_0000_0000_0000) by (nonlinear_arith)
            requires
                0 < m1 < 0x20_0000_0000_0000,
                0 < m2 < 0x20_0000_0000_0000,
        ;
    }
    let p = m1 as u128 * m2 as u128;
    proof {
        lemma_format();
        let (u, w) = (up(e as int), down(e as int));
        // 2^1074 * u == 2^k1 * 2^k2 * w
        let (x, y) = (pow2(k1 as nat), pow2(k2 as nat));
        lemma_product_scale(k1 as nat, k2 as nat, e as int);
        let (g, h) = (m1 as nat, m2 as nat);
        assert(((g * x) * (h * y)) * w == (g * h) * ((x * y) * w)) by (nonlinear_arith);
        assert(n * w == p as nat * (d * u));
        lemma_pow2_pos(if e >= 0 {
            e as nat
        } else {
            (-e) as nat
        });
        let v = d * u;
        assert(v > 0) by (nonlinear_arith)
            requires
                d > 0,
                u > 0,
                v == d * u,
        ;
        assert((p as nat + 1) * v == p as nat * v + v) by (nonlinear_arith);
    }
    if p < 0x100_0000_0000_0000_0000_0000_0000 {
        return pack(Format { prec: 53, top: 2047 }, p, e, false, Ghost(n), Ghost(d));
    }
    let (q, r) = split(p, 42);
    proof {
        lemma_coarser(n, d, p as nat, e as int, false, 42);
        lemma2_to64_rest();
        lemma_fundamental_div_mod(p as int, pow2(42) as int);
    }
    pack_word(Format { prec: 53, top: 2047 }, q as u64, e + 42, r != 0, Ghost(n), Ghost(d))
}

/// Shift a significand up to its full 53 bits.
pub fn normalize(m: u64) -> (r: (u64, u32))
    requires
        0 < m < 0x20_0000_0000_0000,
    ensures
        r.1 <= 52,
        r.0 == m * pow2(r.1 as nat),
        0x10_0000_0000_0000 <= r.0 < 0x20_0000_0000_0000,
{
    if m >= 0x10_0000_0000_0000 {
        proof {
            lemma2_to64();
        }
        return (m, 0);
    }
    let len = word_length(m);
    proof {
        lemma2_to64();
        lemma2_to64_rest();
        if len > 53 {
            lemma_pow2_strictly_increases(53, len as nat);
            if len > 54 {
                lemma_pow2_strictly_increases(53, (len - 1) as nat);
            }
            assert(false);
        }
        let j = (53 - len) as nat;
        lemma_pow2_adds((len - 1) as nat, j);
        lemma_pow2_adds(len as nat, j);
        lemma_pow2_pos(j);
        let x = pow2(j);
        let (lo, hi) = (pow2((len - 1) as nat), pow2(len as nat));
        assert(lo * x <= m * x < hi * x) by (nonlinear_arith)
            requires
                lo <= m < hi,
                x > 0,
        ;
    }
    let j = 53 - len;
    (raise(m, j), j)
}

/// Encoding of the quotient of two magnitudes, the second not zero.
fn quotient_magnitudes(a: u64, b: u64) -> (mag: u64)
    requires
        a < INF,
        0 < b < INF,
    ensures
        mag == encode(decode(a as nat) * pow2(1074), decode(b as nat)),
        mag <= INF,
{
    let (m1, k1) = parts(a);
    let (m2, k2) = parts(b);
    let ghost n = decode(a as nat) * pow2(1074);
    let ghost d = decode(b as nat);
    proof {
        lemma_decode_zero();
        lemma_decode_monotone(0, b as nat);
    }
    if m1 == 0 {
        proof {
            let x = pow2(1074);
            assert(0 * x == 0) by (nonlinear_arith);
            lemma_encode_zero(d);
        }
        return 0;
    }
    let (g1, j1) = normalize(m1);
    let (g2, j2) = normalize(m2);
    proof {
        lemma2_to64();
        lemma2_to64_rest();
        assert(pow2(62) == 0x4000_0000_0000_0000);
    }
    let num = g1 as u128 * 0x4000_0000_0000_0000;
    let p = num / g2 as u128;
    proof {
        lemma_fundamental_div_mod(num as int, g2 as int);
        assert(g2 * p == p * g2 && p * g2 >= 0) by (nonlinear_arith)
            requires
                g2 >= 0,
                p >= 0,
        ;
    }
    let rem = num - p * g2 as u128;
    let e: i32 = (k1 as i32 - j1 as i32) - (k2 as i32 - j2 as i32) + 1012;
    proof {
        lemma_format();
        lemma_fundamental_div_mod(num as int, g2 as int);
        assert(p >= 0x40_0000_0000_0000) by (nonlinear_arith)
            requires
                num == g2 * p + rem,
                rem < g2,
                g2 < 0x20_0000_0000_0000,
                num >= 0x10_0000_0000_0000 * 0x4000_0000_0000_0000,
        ;
        assert(p < 0x8000_0000_0000_0000) by (nonlinear_arith)
            requires
                num == g2 * p + rem,
                rem >= 0,
                g2 >= 0x10_0000_0000_0000,
                num < 0x10_0000_0000_0000 * 0x8000_0000_0000_0000,
        ;
        let (u, w) = (up(e as int), down(e as int));
        lemma_pow2_pos(if e >= 0 {
            e as nat
        } else {
            (-e) as nat
        });
        // cross multiplication: d * u * num == n * w * g2
        let x = d * u;
        let y = n * w;
        assert(x * num == y * g2) by {
            let (a1, b1) = (pow2(k1 as nat), pow2(j1 as nat));
            let (a2, b2) = (pow2(k2 as nat), pow2(j2 as nat));
            let t = pow2(1074);
            let s = pow2(62);
            let (q1, q2) = (m1 as nat, m2 as nat);
            lemma_cross(k1 as nat, j1 as nat, k2 as nat, j2 as nat, e as int);
            assert(x * num as nat == (q1 * q2) * (((a2 * b1) * s) * u)) by (nonlinear_arith)
                requires
                    x == (q2 * a2) * u,
                    num as nat == (q1 * b1) * s,
            ;
            assert(y * g2 as nat == (q1 * q2) * (((a1 * b2) * t) * w)) by (nonlinear_arith)
                requires
                    y == ((q1 * a1) * t) * w,
                    g2 as nat == q2 * b2,
            ;
        }
        assert(x > 0) by (nonlinear_arith)
            requires
                d > 0,
                u > 0,
                x == d * u,
        ;
        lemma_ratio_bin(x, y, num as nat, g2 as nat, p as nat, rem as nat);
    }
    pack_word(Format { prec: 53, top: 2047 }, p as u64, e, rem != 0, Ghost(n), Ghost(d))
}

proof fn lemma_cross(k1: nat, j1: nat, k2: nat, j2: nat, e: int)
    requires
        e == (k1 - j1) - (k2 - j2) + 1012,
    ensures
        ((pow2(k2) * pow2(j1)) * pow2(62)) * up(e) == ((pow2(k1) * pow2(j2)) * pow2(1074)) * down(e),
{
    lemma_pow2_adds(k2, j1);
    lemma_pow2_adds(k2 + j1, 62);
    lemma_pow2_adds(k1, j2);
    lemma_pow2_adds(k1 + j2, 1074);
    if e >= 0 {
        lemma_pow2_adds(k2 + j1 + 62, e as nat);
    } else {
        lemma_pow2_adds(k1 + j2 + 1074, (-e) as nat);
    }
}

proof fn lemma_ratio_bin(x: nat, y: nat, num: nat, den: nat, p: nat, rem: nat)
    requires
        x * num == y * den,
        num == den * p + rem,
        rem < den,
        x > 0,
    ensures
        p * x <= y < (p + 1) * x,
        y != p * x <==> rem != 0,
{
    assert(y * den == (p * x) * den + x * rem) by (nonlinear_arith)
        requires
            x * num == y * den,
            num == den * p + rem,
    ;
    assert(p * x <= y) by (nonlinear_arith)
        requires
            y * den == (p * x) * den + x * rem,
            x * rem >= 0,
            den > 0,
    ;
    assert(x * rem < x * den) by (nonlinear_arith)
        requires
            rem < den,
            x > 0,
    ;
    assert(((p + 1) * x) * den == (p * x) * den + x * den) by (nonlinear_arith);
    assert(y < (p + 1) * x) by (nonlinear_arith)
        requires
            y * den < ((p + 1) * x) * den,
            den > 0,
    ;
    if rem != 0 {
        assert(x * rem > 0) by (nonlinear_arith)
            requires
                rem > 0,
                x > 0,
        ;
        if y == p * x {
            assert(false);
        }
    } else {
        assert(x * rem == 0) by (nonlinear_arith)
            requires
                rem == 0,
        ;
        assert(y == p * x) by (nonlinear_arith)
            requires
                y * den == (p * x) * den,
                den > 0,
        ;
    }
}

} // verus!
