//! Square root of binary64 numbers.
use crate::ieee::double::{
    decode, encode, lemma_decode_monotone, lemma_format, normalize, parts, Double, INF,
};
use crate::ieee::laws::lemma_encode_monotone;
use crate::ieee::pack::{in_bin, pack_word, shift_left, Format};
use vstd::arithmetic::div_mod::lemma_fundamental_div_mod;
use vstd::arithmetic::power2::{
    lemma2_to64, lemma2_to64_rest, lemma_pow2_adds, lemma_pow2_pos, lemma_pow2_unfold, pow2,
};
use vstd::prelude::*;

verus! {

/// `s` is the whole part of the square root of `x`.
pub open spec fn is_root(s: nat, x: nat) -> bool {
    s * s <= x < (s + 1) * (s + 1)
}

pub open spec fn root(x: nat) -> nat {
    choose|s: nat| is_root(s, x)
}

/// The square root of `x`, twice, with one added where the root has a
/// fractional part. For an `x` of more than 110 bits it lies on the same side
/// of every number and of every midpoint of two numbers as the root itself.
pub open spec fn twice_root(x: nat) -> nat {
    let s = root(x);
    if s * s == x {
        2 * s
    } else {
        2 * s + 1
    }
}

proof fn lemma_root_unique(s: nat, x: nat)
    requires
        is_root(s, x),
    ensures
        root(x) == s,
{
    let r = root(x);
    assert(is_root(r, x));
    if r < s {
        assert((r + 1) * (r + 1) <= s * s) by (nonlinear_arith)
            requires
                r + 1 <= s,
        ;
    }
    if s < r {
        assert((s + 1) * (s + 1) <= r * r) by (nonlinear_arith)
            requires
                s + 1 <= r,
        ;
    }
}

proof fn lemma_root_exists(x: nat) -> (s: nat)
    ensures
        is_root(s, x),
    decreases x,
{
    if x == 0 {
        assert(0nat * 0nat == 0) by (nonlinear_arith);
        assert((0nat + 1) * (0nat + 1) == 1) by (nonlinear_arith);
        assert(is_root(0, 0));
        0
    } else {
        let r = lemma_root_exists((x - 1) as nat);
        let t = r + 1;
        assert((t + 1) * (t + 1) > t * t) by (nonlinear_arith);
        if t * t <= x {
            assert(is_root(t, x));
            t
        } else {
            assert(is_root(r, x));
            r
        }
    }
}

/// A step of Newton's method never falls below the whole part of the root, and
/// goes down as long as that has not been reached.
proof fn lemma_newton(x: nat, r: nat)
    requires
        r > 0,
    ensures
        ({
            let t = (r + x / r) / 2;
            &&& x < (t + 1) * (t + 1)
            &&& r * r > x ==> t < r
        }),
{
    let q = x / r;
    let t = (r + q) / 2;
    lemma_fundamental_div_mod(x as int, r as int);
    let rest = x % r;
    assert(x < r * (q + 1)) by (nonlinear_arith)
        requires
            x == r * q + rest,
            rest < r,
    ;
    assert((r + (q + 1)) * (r + (q + 1)) >= 4 * (r * (q + 1))) by {
        lemma_squares(r as int, q as int + 1);
    }
    assert((2 * (t + 1)) * (2 * (t + 1)) >= (r + (q + 1)) * (r + (q + 1))) by (nonlinear_arith)
        requires
            2 * (t + 1) >= r + (q + 1),
            r + (q + 1) >= 0,
    ;
    assert((2 * (t + 1)) * (2 * (t + 1)) == 4 * ((t + 1) * (t + 1))) by (nonlinear_arith);
    if r * r > x {
        assert(q < r) by (nonlinear_arith)
            requires
                x == r * q + rest,
                rest >= 0,
                r * r > x,
        ;
    }
}

proof fn lemma_squares(a: int, b: int)
    ensures
        (a + b) * (a + b) >= 4 * (a * b),
{
    let d = a - b;
    assert(d * d >= 0) by (nonlinear_arith);
    assert((a + b) * (a + b) == 4 * (a * b) + d * d) by (nonlinear_arith)
        requires
            d == a - b,
    ;
}

/// Whole part of the square root, by Newton's method from the middle of the
/// range that it lies in.
fn whole_root(x: u128) -> (r: u128)
    requires
        0x10_0000_0000_0000_0000_0000_0000_0000 <= x < 0x40_0000_0000_0000_0000_0000_0000_0000,
    ensures
        is_root(r as nat, x as nat),
        r < 0x800_0000_0000_0000,
{
    let middle: u128 = 0x600_0000_0000_0000;
    let mut r: u128 = (middle + x / middle) / 2;
    proof {
        lemma_newton(x as nat, middle as nat);
        assert(r < 0x1000_0000_0000_0000);
    }
    loop
        invariant
            0x10_0000_0000_0000_0000_0000_0000_0000 <= x
                < 0x40_0000_0000_0000_0000_0000_0000_0000,
            x < (r + 1) * (r + 1),
            r < 0x1000_0000_0000_0000,
        ensures
            is_root(r as nat, x as nat),
        decreases r,
    {
        proof {
            assert(r * r < 0x1000_0000_0000_0000 * 0x1000_0000_0000_0000) by (nonlinear_arith)
                requires
                    0 <= r < 0x1000_0000_0000_0000,
            ;
            assert(r > 0) by (nonlinear_arith)
                requires
                    x < (r + 1) * (r + 1),
                    x >= 1,
                    r >= 0,
            ;
        }
        if r * r <= x {
            break;
        }
        proof {
            lemma_newton(x as nat, r as nat);
            assert(x / r <= x) by (nonlinear_arith)
                requires
                    r > 0,
            ;
        }
        r = (r + x / r) / 2;
    }
    proof {
        assert(r < 0x800_0000_0000_0000) by (nonlinear_arith)
            requires
                r * r <= x,
                x < 0x800_0000_0000_0000 * 0x800_0000_0000_0000,
                r >= 0,
        ;
    }
    r
}

impl Double {
    /// The nearest number to the square root.
    #[verifier::opaque]
    pub open spec fn spec_sqrt(self) -> Double {
        if self.nan() || (self.negative() && self.mag() > 0) {
            Double::invalid()
        } else if self.infinite() || self.mag() == 0 {
            self
        } else {
            Double::make(false, encode(twice_root(self.units() * pow2(1074)), 2))
        }
    }

    /// Square root; NaN for a negative number.
    #[verifier::when_used_as_spec(spec_sqrt)]
    pub fn sqrt(self) -> (r: Double)
        ensures
            r == self.spec_sqrt(),
    {
        proof {
            reveal(Double::spec_sqrt);
        }
        let b = self.magnitude();
        if b > INF || (self.is_negative() && b > 0) {
            return Double::quiet();
        }
        if b == INF || b == 0 {
            return self;
        }
        Double::assemble(false, root_magnitude(b))
    }
}

proof fn lemma_even_scale(g: nat, j: nat, m: nat, k: nat, t: nat, e: nat)
    requires
        g == m * pow2(j),
        2 * e + t + j == k + 1074,
    ensures
        (m * pow2(k)) * pow2(1074) == (g * pow2(t)) * (pow2(e) * pow2(e)),
{
    let (a, b, c, f) = (pow2(k), pow2(1074), pow2(j), pow2(t));
    let h = pow2(e);
    lemma_pow2_adds(k, 1074);
    lemma_pow2_adds(e, e);
    lemma_pow2_adds(e + e, t);
    lemma_pow2_adds(e + e + t, j);
    let hh = h * h;
    let hhf = hh * f;
    assert(a * b == hhf * c);
    assert((m * a) * b == m * (a * b)) by (nonlinear_arith);
    assert(m * (hhf * c) == ((m * c) * f) * hh) by (nonlinear_arith)
        requires
            hhf == hh * f,
    ;
}

proof fn lemma_root_bin(x: nat, y: nat, p: nat, e: nat)
    requires
        is_root(p, y),
        x == y * (pow2(e) * pow2(e)),
    ensures
        in_bin(twice_root(x), 2, p, e as int, p * p != y),
{
    let h = pow2(e);
    lemma_pow2_pos(e);
    let s = lemma_root_exists(x);
    lemma_root_unique(s, x);
    let lo = p * h;
    let hi = (p + 1) * h;
    assert(lo * lo == (p * p) * (h * h)) by (nonlinear_arith)
        requires
            lo == p * h,
    ;
    assert(hi * hi == ((p + 1) * (p + 1)) * (h * h)) by (nonlinear_arith)
        requires
            hi == (p + 1) * h,
    ;
    let hh = h * h;
    assert(hh > 0) by (nonlinear_arith)
        requires
            h > 0,
            hh == h * h,
    ;
    let pp = p * p;
    let qq = (p + 1) * (p + 1);
    assert(pp * hh <= y * hh) by (nonlinear_arith)
        requires
            pp <= y,
    ;
    assert(y * hh < qq * hh) by (nonlinear_arith)
        requires
            y < qq,
            hh > 0,
    ;
    assert(lo <= s) by (nonlinear_arith)
        requires
            lo * lo <= x,
            x < (s + 1) * (s + 1),
    ;
    assert(s < hi) by (nonlinear_arith)
        requires
            x < hi * hi,
            s * s <= x,
    ;
    assert(p * (2 * h) == 2 * lo) by (nonlinear_arith)
        requires
            lo == p * h,
    ;
    assert((p + 1) * (2 * h) == 2 * hi) by (nonlinear_arith)
        requires
            hi == (p + 1) * h,
    ;
    if pp == y {
        assert(lo * lo == x);
        assert(s == lo) by (nonlinear_arith)
            requires
                lo * lo == x,
                lo <= s,
                s * s <= x,
        ;
    } else {
        assert(pp * hh < y * hh) by (nonlinear_arith)
            requires
                pp < y,
                hh > 0,
        ;
        assert(lo * lo != x);
    }
}

/// Encoding of the square root of a finite, positive magnitude.
fn root_magnitude(b: u64) -> (mag: u64)
    requires
        0 < b < INF,
    ensures
        mag == encode(twice_root(decode(b as nat) * pow2(1074)), 2),
        mag <= INF,
{
    let (m, k) = parts(b);
    let (g, j) = normalize(m);
    let scaled: u32 = k + 1074 - j;
    let t: u32 = 64 + scaled % 2;
    let e: u32 = (scaled - t) / 2;
    proof {
        lemma2_to64();
        lemma2_to64_rest();
        lemma_pow2_unfold(65);
        assert(pow2(64) == 0x1_0000_0000_0000_0000);
        let w = pow2(t as nat);
        assert(0x10_0000_0000_0000 * 0x1_0000_0000_0000_0000 <= g * w < 0x20_0000_0000_0000
            * 0x2_0000_0000_0000_0000) by (nonlinear_arith)
            requires
                0x10_0000_0000_0000 <= g < 0x20_0000_0000_0000,
                0x1_0000_0000_0000_0000 <= w <= 0x2_0000_0000_0000_0000,
        ;
    }
    let y = shift_left(g as u128, t);
    let p = whole_root(y);
    proof {
        lemma_format();
        lemma_even_scale(g as nat, j as nat, m as nat, k as nat, t as nat, e as nat);
        lemma_root_bin(decode(b as nat) * pow2(1074), y as nat, p as nat, e as nat);
        assert(p >= 0x40_0000_0000_0000) by (nonlinear_arith)
            requires
                y < (p + 1) * (p + 1),
                y >= 0x10_0000_0000_0000 * 0x1_0000_0000_0000_0000,
        ;
        assert(p * p <= 0x800_0000_0000_0000 * 0x800_0000_0000_0000) by (nonlinear_arith)
            requires
                0 <= p <= 0x800_0000_0000_0000,
        ;
    }
    pack_word(
        Format { prec: 53, top: 2047 },
        p as u64,
        e as i32,
        p * p != y,
        Ghost(twice_root(decode(b as nat) * pow2(1074))),
        Ghost(2),
    )
}

proof fn lemma_twice_root_monotone(x: nat, y: nat)
    requires
        x <= y,
    ensures
        twice_root(x) <= twice_root(y),
{
    let (a, b) = (lemma_root_exists(x), lemma_root_exists(y));
    lemma_root_unique(a, x);
    lemma_root_unique(b, y);
    if b < a {
        assert((b + 1) * (b + 1) <= a * a) by (nonlinear_arith)
            requires
                b + 1 <= a,
        ;
    }
}

impl Double {
    /// Square roots keep the order.
    pub proof fn lemma_sqrt_monotone(a: Double, b: Double)
        requires
            Double::zero().le(a),
            a.le(b),
        ensures
            a.sqrt().le(b.sqrt()),
            Double::zero().le(a.sqrt()),
    {
        reveal(Double::spec_sqrt);
        let p = pow2(1074);
        lemma_pow2_pos(1074);
        if a.finite() && a.mag() > 0 {
            assert(encode(twice_root(a.units() * p), 2) <= INF);
        }
        if b.finite() && b.mag() > 0 {
            assert(encode(twice_root(b.units() * p), 2) <= INF);
            if a.mag() > 0 {
                lemma_decode_monotone(a.mag(), b.mag());
                let (x, y) = (a.units(), b.units());
                assert(x * p <= y * p) by (nonlinear_arith)
                    requires
                        x <= y,
                ;
                lemma_twice_root_monotone(x * p, y * p);
                lemma_encode_monotone(twice_root(x * p), twice_root(y * p), 2);
            }
        }
    }
}

} // verus!
