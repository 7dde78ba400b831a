//! Turning an integer significand, an exponent and a sticky bit into the
//! nearest representable magnitude.
use crate::ieee::rounding::{
    half_even, is_scale, lemma_half_even_ratio, lemma_scale_unique, round_mag, scale,
};
use vstd::arithmetic::div_mod::{lemma_fundamental_div_mod, lemma_fundamental_div_mod_converse};
use vstd::arithmetic::power2::{
    lemma2_to64, lemma2_to64_rest, lemma_pow2_adds, lemma_pow2_pos, lemma_pow2_strictly_increases,
    lemma_pow2_unfold, pow2,
};
use vstd::prelude::*;
use vstd::std_specs::bits::{axiom_u64_leading_zeros, u64_leading_zeros};

verus! {

/// `2^e` for `e >= 0`, else 1.
pub open spec fn up(e: int) -> nat {
    if e >= 0 {
        pow2(e as nat)
    } else {
        1
    }
}

/// `2^-e` for `e < 0`, else 1; `2^e` is `up(e) / down(e)`.
pub open spec fn down(e: int) -> nat {
    if e >= 0 {
        1
    } else {
        pow2((-e) as nat)
    }
}

/// `n / d` lies in `[p * 2^e, (p + 1) * 2^e)`, and `sticky` tells that it is
/// not the lower end.
pub open spec fn in_bin(n: nat, d: nat, p: nat, e: int, sticky: bool) -> bool {
    &&& p * (d * up(e)) <= n * down(e)
    &&& n * down(e) < (p + 1) * (d * up(e))
    &&& sticky <==> n * down(e) != p * (d * up(e))
}

proof fn lemma_up_down(e: int, s: nat, k: nat)
    requires
        k == e + s,
    ensures
        pow2(k) * down(e) == pow2(s) * up(e),
{
    if e >= 0 {
        lemma_pow2_adds(s, e as nat);
    } else {
        lemma_pow2_adds(k, (-e) as nat);
    }
}

/// Rounding a value known to lie in a bin at a coarser spacing: the
/// quotient, the comparison of the remainder with one half, and the sticky
/// bit decide.
proof fn lemma_round_bin(nn: nat, dd: nat, p: nat, s: nat)
    requires
        dd > 0,
        s >= 1,
        p * dd <= nn < (p + 1) * dd,
    ensures
        ({
            let q = p / pow2(s);
            let r = p % pow2(s);
            let h = pow2((s - 1) as nat);
            let sticky = nn != p * dd;
            half_even(nn, dd * pow2(s)) == if r < h {
                q
            } else if r > h || sticky || q % 2 == 1 {
                q + 1
            } else {
                q
            }
        }),
{
    lemma_pow2_pos(s);
    lemma_pow2_unfold(s);
    let t = pow2(s);
    let h = pow2((s - 1) as nat);
    let q = p / t;
    let r = p % t;
    let x = (nn - p * dd) as nat;
    assert((p + 1) * dd == p * dd + dd) by (nonlinear_arith);
    lemma_fundamental_div_mod(p as int, t as int);
    let rem = r * dd + x;
    assert(nn == q * (dd * t) + rem) by (nonlinear_arith)
        requires
            nn == p * dd + x,
            p == t * q + r,
            rem == r * dd + x,
    ;
    assert(rem < dd * t) by (nonlinear_arith)
        requires
            rem == r * dd + x,
            x < dd,
            r + 1 <= t,
            nn < (p + 1) * dd,
    ;
    lemma_fundamental_div_mod_converse(nn as int, (dd * t) as int, q as int, rem as int);
    assert(t == 2 * h);
    if r < h {
        assert(2 * rem < dd * t) by (nonlinear_arith)
            requires
                rem == r * dd + x,
                x < dd,
                r + 1 <= h,
                t == 2 * h,
        ;
    } else if r > h {
        assert(2 * rem > dd * t) by (nonlinear_arith)
            requires
                rem == r * dd + x,
                dd > 0,
                r >= h + 1,
                t == 2 * h,
        ;
    } else {
        assert(2 * rem == dd * t + 2 * x) by (nonlinear_arith)
            requires
                rem == r * dd + x,
                r == h,
                t == 2 * h,
        ;
    }
}

/// The spacing exponent of a value whose leading bit is known.
proof fn lemma_scale_of_bin(prec: nat, n: nat, d: nat, p: nat, e: int, sticky: bool, len: nat, k: nat)
    requires
        d > 0,
        in_bin(n, d, p, e, sticky),
        1 <= len,
        pow2((len - 1) as nat) <= p < pow2(len),
        k + prec >= len + e,
        k == 0 || k + prec == len + e,
    ensures
        scale(prec, n, d) == k,
{
    let u = up(e);
    let w = down(e);
    lemma_pow2_pos(if e >= 0 {
        e as nat
    } else {
        (-e) as nat
    });
    assert(u > 0 && w > 0);
    let top = pow2(len);
    // 2^len * u <= 2^(k + prec) * w
    let x = pow2(k + prec);
    assert(top * u <= x * w) by {
        let a = (len + if e >= 0 {
            e
        } else {
            0
        }) as nat;
        let b = (k + prec + if e >= 0 {
            0
        } else {
            -e
        }) as nat;
        if e >= 0 {
            lemma_pow2_adds(len, e as nat);
        } else {
            lemma_pow2_adds(k + prec, (-e) as nat);
        }
        assert(top * u == pow2(a));
        assert(x * w == pow2(b));
        if a < b {
            lemma_pow2_strictly_increases(a, b);
        }
    }
    assert(n < d * x) by {
        assert((p + 1) * (d * u) <= top * (d * u)) by (nonlinear_arith)
            requires
                p + 1 <= top,
        ;
        assert(top * (d * u) == d * (top * u)) by (nonlinear_arith);
        assert(d * (top * u) <= d * (x * w)) by (nonlinear_arith)
            requires
                top * u <= x * w,
        ;
        assert(d * (x * w) == (d * x) * w) by (nonlinear_arith);
        assert(n * w < (d * x) * w);
        assert(n < d * x) by (nonlinear_arith)
            requires
                n * w < (d * x) * w,
                w > 0,
        ;
    }
    if k > 0 {
        let lo = pow2((len - 1) as nat);
        let y = pow2((k - 1 + prec) as nat);
        assert(lo * u == y * w) by {
            if e >= 0 {
                lemma_pow2_adds((len - 1) as nat, e as nat);
            } else {
                lemma_pow2_adds((k - 1 + prec) as nat, (-e) as nat);
            }
        }
        assert(n >= d * y) by {
            assert(p * (d * u) >= lo * (d * u)) by (nonlinear_arith)
                requires
                    p >= lo,
            ;
            assert(lo * (d * u) == d * (lo * u)) by (nonlinear_arith);
            assert(d * (y * w) == (d * y) * w) by (nonlinear_arith);
            assert(n * w >= (d * y) * w);
            assert(n >= d * y) by (nonlinear_arith)
                requires
                    n * w >= (d * y) * w,
                    w > 0,
            ;
        }
        assert((k - 1) as nat + prec == (k - 1 + prec) as nat);
    }
    assert(is_scale(prec, n, d, k));
    lemma_scale_unique(prec, n, d, k);
}

proof fn lemma_shl(x: u128, s: u32)
    requires
        s < 128,
        x * pow2(s as nat) <= u128::MAX,
    ensures
        x << s == x * pow2(s as nat),
    decreases s,
{
    if s == 0 {
        lemma2_to64();
        assert(x << 0u32 == x) by (bit_vector);
    } else {
        let t = (s - 1) as u32;
        lemma_pow2_unfold(s as nat);
        lemma_pow2_pos(t as nat);
        let a = pow2(t as nat);
        assert(x * (2 * a) == 2 * (x * a)) by (nonlinear_arith);
        lemma_shl(x, t);
        assert(x << s == (x << t) << 1u32) by (bit_vector)
            requires
                0 < s < 128,
                t == s - 1,
        ;
        let y = x << t;
        assert(y * 2 <= u128::MAX);
        assert(y << 1u32 == y * 2) by (bit_vector)
            requires
                y * 2 <= 0xffff_ffff_ffff_ffff_ffff_ffff_ffff_ffffu128,
        ;
    }
}

proof fn lemma_shr(x: u128, s: u32)
    requires
        s < 128,
    ensures
        x >> s == x as nat / pow2(s as nat),
{
    vstd::bits::lemma_u128_shr_is_div(x, s as u128);
    assert(x >> s == x >> (s as u128)) by (bit_vector);
}

/// `x * 2^s`.
#[inline]
pub fn shift_left(x: u128, s: u32) -> (r: u128)
    requires
        s < 128,
        x * pow2(s as nat) <= u128::MAX,
    ensures
        r == x * pow2(s as nat),
{
    proof {
        lemma_shl(x, s);
    }
    x << s
}

/// Quotient and remainder of `x` by `2^s`.
#[inline]
pub fn split(x: u128, s: u32) -> (r: (u128, u128))
    requires
        s < 128,
    ensures
        r.0 == x as nat / pow2(s as nat),
        r.1 == x as nat % pow2(s as nat),
{
    proof {
        lemma_shr(x, s);
        lemma_pow2_pos(s as nat);
        lemma_fundamental_div_mod(x as int, pow2(s as nat) as int);
        let q = x as nat / pow2(s as nat);
        let t = pow2(s as nat);
        assert(q * t == t * q) by (nonlinear_arith);
    }
    let q = x >> s;
    (q, x - shift_left(q, s))
}

/// A positive word lies between the powers of two that its leading zeros give.
proof fn lemma_leading_zeros(i: u64)
    requires
        i > 0,
    ensures
        0 <= u64_leading_zeros(i) <= 63,
        pow2((63 - u64_leading_zeros(i)) as nat) <= i < pow2((64 - u64_leading_zeros(i)) as nat),
    decreases i,
{
    reveal_with_fuel(u64_leading_zeros, 2);
    lemma2_to64();
    if i > 1 {
        lemma_leading_zeros(i / 2);
        let z = u64_leading_zeros(i);
        assert(u64_leading_zeros(i / 2) == z + 1);
        axiom_u64_leading_zeros(i);
        lemma_pow2_unfold((63 - z) as nat);
        lemma_pow2_unfold((64 - z) as nat);
    }
}

/// `x * 2^s`.
#[inline]
pub fn raise(x: u64, s: u32) -> (r: u64)
    requires
        s < 64,
        x * pow2(s as nat) <= u64::MAX,
    ensures
        r == x * pow2(s as nat),
{
    proof {
        vstd::bits::lemma_u64_shl_is_mul(x, s as u64);
        assert(x << s == x << (s as u64)) by (bit_vector);
    }
    x << s
}

/// Quotient of `x` by `2^s`.
#[inline]
pub fn lower(x: u64, s: u32) -> (r: u64)
    requires
        s < 64,
    ensures
        r == x as nat / pow2(s as nat),
        r * pow2(s as nat) <= x,
{
    proof {
        vstd::bits::lemma_u64_shr_is_div(x, s as u64);
        assert(x >> s == x >> (s as u64)) by (bit_vector);
        lemma_pow2_pos(s as nat);
        lemma_fundamental_div_mod(x as int, pow2(s as nat) as int);
        let (q, t) = (x as nat / pow2(s as nat), pow2(s as nat));
        assert(q * t == t * q) by (nonlinear_arith);
    }
    x >> s
}

/// Number of significant bits of a positive word.
#[inline]
pub fn word_length(x: u64) -> (len: u32)
    requires
        x > 0,
    ensures
        1 <= len <= 64,
        pow2((len - 1) as nat) <= x < pow2(len as nat),
{
    proof {
        lemma_leading_zeros(x);
    }
    64 - x.leading_zeros()
}

/// Number of significant bits of a positive integer.
fn bit_length(x: u128) -> (len: u32)
    requires
        0 < x < 0x8000_0000_0000_0000_0000_0000_0000_0000,
    ensures
        1 <= len <= 127,
        pow2((len - 1) as nat) <= x < pow2(len as nat),
{
    proof {
        lemma2_to64();
        lemma2_to64_rest();
    }
    if x < 0x1_0000_0000_0000_0000 {
        return word_length(x as u64);
    }
    let (q, r) = split(x, 64);
    let hi = q as u64;
    proof {
        let t = pow2(64);
        assert(0 < q < 0x8000_0000_0000_0000) by (nonlinear_arith)
            requires
                x == t * q + r,
                t == 0x1_0000_0000_0000_0000,
                x < 0x8000_0000_0000_0000_0000_0000_0000_0000,
                0x1_0000_0000_0000_0000 <= x,
                0 <= r < t,
        ;
        lemma_leading_zeros(hi);
        let z = u64_leading_zeros(hi);
        if z == 0 {
            assert(pow2(63) == 0x8000_0000_0000_0000);
        }
        lemma_pow2_adds(64, (63 - z) as nat);
        lemma_pow2_adds(64, (64 - z) as nat);
        let (a, b) = (pow2((63 - z) as nat), pow2((64 - z) as nat));
        assert(t * a <= x && x < t * b) by (nonlinear_arith)
            requires
                x == t * q + r,
                0 <= r < t,
                a <= q < b,
        ;
    }
    128 - hi.leading_zeros()
}

/// A bin is part of the coarser one that its number without the last `s` bits
/// gives.
pub proof fn lemma_coarser(n: nat, d: nat, p: nat, e: int, sticky: bool, s: nat)
    requires
        d > 0,
        in_bin(n, d, p, e, sticky),
    ensures
        in_bin(n, d, p / pow2(s), e + s, sticky || p % pow2(s) != 0),
{
    let (t, q, r) = (pow2(s), p / pow2(s), p % pow2(s));
    lemma_pow2_pos(s);
    lemma_fundamental_div_mod(p as int, t as int);
    let (u, w) = (up(e), down(e));
    let (u2, w2) = (up(e + s), down(e + s));
    lemma_pow2_pos(if e >= 0 {
        e as nat
    } else {
        (-e) as nat
    });
    lemma_pow2_pos(if e + s >= 0 {
        (e + s) as nat
    } else {
        (-(e + s)) as nat
    });
    // u2 / w2 == t * (u / w)
    assert(u2 * w == (t * u) * w2) by {
        if e >= 0 {
            lemma_pow2_adds(s, e as nat);
            assert(u2 * 1 == (t * u) * 1);
        } else if e + s >= 0 {
            lemma_pow2_adds((e + s) as nat, (-e) as nat);
            assert((t * 1) * 1 == t);
        } else {
            lemma_pow2_adds(s, (-(e + s)) as nat);
            assert(1 * w == w && t * 1 == t);
        }
    }
    let (x, y) = (d * u, d * u2);
    let (a, b) = (n * w, n * w2);
    assert(x > 0 && y > 0) by (nonlinear_arith)
        requires
            d > 0,
            u > 0,
            u2 > 0,
            x == d * u,
            y == d * u2,
    ;
    // y * w == t * x * w2 and a * w2 == b * w
    assert(y * w == (t * x) * w2) by (nonlinear_arith)
        requires
            u2 * w == (t * u) * w2,
            x == d * u,
            y == d * u2,
    ;
    assert(a * w2 == b * w) by (nonlinear_arith)
        requires
            a == n * w,
            b == n * w2,
    ;
    // q * t * x <= p * x <= a < (p + 1) * x <= (q + 1) * t * x
    assert(p * x == (q * t) * x + r * x) by (nonlinear_arith)
        requires
            p == t * q + r,
    ;
    assert((p + 1) * x <= ((q + 1) * t) * x) by (nonlinear_arith)
        requires
            p == t * q + r,
            r + 1 <= t,
            x > 0,
    ;
    assert(r * x >= 0 && (r * x == 0 <==> r == 0)) by (nonlinear_arith)
        requires
            r >= 0,
            x > 0,
    ;
    let (lo, hi) = ((q * t) * x, ((q + 1) * t) * x);
    assert(lo * w2 == (q * y) * w) by (nonlinear_arith)
        requires
            y * w == (t * x) * w2,
            lo == (q * t) * x,
    ;
    assert(hi * w2 == ((q + 1) * y) * w) by (nonlinear_arith)
        requires
            y * w == (t * x) * w2,
            hi == ((q + 1) * t) * x,
    ;
    assert(q * y <= b) by (nonlinear_arith)
        requires
            lo <= a,
            a * w2 == b * w,
            lo * w2 == (q * y) * w,
            w > 0,
            w2 > 0,
    ;
    assert(b < (q + 1) * y) by (nonlinear_arith)
        requires
            a < hi,
            a * w2 == b * w,
            hi * w2 == ((q + 1) * y) * w,
            w > 0,
            w2 > 0,
    ;
    assert(a == lo <==> b == q * y) by (nonlinear_arith)
        requires
            a * w2 == b * w,
            lo * w2 == (q * y) * w,
            w > 0,
            w2 > 0,
    ;
}

/// The shape of a binary format: `prec` significant bits, and `top` exponents
/// below infinity, whose encoding is `top * 2^(prec-1)`.
#[derive(Clone, Copy)]
pub struct Format {
    pub prec: u32,
    pub top: u32,
}

impl Format {
    pub open spec fn wf(self) -> bool {
        2 <= self.prec <= 53 && 1 <= self.top <= 2047
    }

    pub open spec fn inf(self) -> nat {
        self.top as nat * pow2((self.prec - 1) as nat)
    }

    /// Encoding of the number nearest to `n / d`.
    pub open spec fn round(self, n: nat, d: nat) -> nat {
        round_mag(self.prec as nat, self.inf(), n, d)
    }
}

/// `p / 2^s` to the nearest whole number, ties to even, where `sticky` tells
/// that the value is a little above.
#[inline]
fn cut(p: u64, s: u32, sticky: bool) -> (m: u64)
    requires
        1 <= s <= 64,
    ensures
        ({
            let q = p as nat / pow2(s as nat);
            let r = p as nat % pow2(s as nat);
            let half = pow2((s - 1) as nat);
            m == if r < half {
                q
            } else if r > half || sticky || q % 2 == 1 {
                q + 1
            } else {
                q
            }
        }),
{
    let h = lower(p, s - 1);
    let rest = p - raise(h, s - 1);
    let q = h / 2;
    proof {
        lemma_pow2_pos((s - 1) as nat);
        lemma_pow2_unfold(s as nat);
        let (t, half) = (pow2(s as nat), pow2((s - 1) as nat));
        lemma_fundamental_div_mod(p as int, half as int);
        assert(half * h == h * half) by (nonlinear_arith);
        let b = h % 2;
        assert(p == t * q + (b * half + rest) && b * half + rest < t) by (nonlinear_arith)
            requires
                p == h * half + rest,
                h == 2 * q + b,
                0 <= b <= 1,
                0 <= rest < half,
                t == 2 * half,
        ;
        lemma_fundamental_div_mod_converse(p as int, t as int, q as int, b * half + rest);
        assert((b == 0 ==> b * half == 0) && (b == 1 ==> b * half == half)) by (nonlinear_arith);
    }
    let past: u64 = if rest != 0 || sticky {
        1
    } else {
        q % 2
    };
    q + if h % 2 == 1 {
        past
    } else {
        0
    }
}

/// Encoding of the magnitude nearest to the value `n / d`, which lies in the
/// bin of `p * 2^e`.
#[inline]
pub fn pack_word(fmt: Format, p: u64, e: i32, sticky: bool, n: Ghost<nat>, d: Ghost<nat>) -> (mag:
    u64)
    requires
        fmt.wf(),
        0 < p,
        -10000 <= e <= 10100,
        d@ > 0,
        in_bin(n@, d@, p as nat, e as int, sticky),
        sticky ==> p >= pow2((fmt.prec + 1) as nat),
    ensures
        mag == fmt.round(n@, d@),
        mag <= fmt.inf() < 0x8000_0000_0000_0000,
{
    let len = word_length(p);
    let prec = fmt.prec as i32;
    let lead = len as i32 + e - prec;
    let k: i32 = if lead > 0 {
        lead
    } else {
        0
    };
    let s: i32 = k - e;
    let ghost unit = pow2((prec - 1) as nat);
    let ghost m: nat = half_even(n@, d@ * pow2(k as nat));
    proof {
        lemma2_to64();
        lemma2_to64_rest();
        lemma_pow2_pos((prec - 1) as nat);
        if prec < 53 {
            lemma_pow2_strictly_increases((prec - 1) as nat, 52);
        }
        assert(fmt.top * unit <= 2047 * 0x10_0000_0000_0000) by (nonlinear_arith)
            requires
                fmt.top <= 2047,
                unit <= 0x10_0000_0000_0000,
        ;
        lemma_scale_of_bin(
            prec as nat,
            n@,
            d@,
            p as nat,
            e as int,
            sticky,
            len as nat,
            k as nat,
        );
        assert(fmt.round(n@, d@) == {
            let b = k as nat * unit + m;
            if b < fmt.inf() {
                b
            } else {
                fmt.inf()
            }
        });
        assert(k >= fmt.top ==> k * unit >= fmt.top * unit) by (nonlinear_arith)
            requires
                unit > 0,
        ;
    }
    let one: u64 = raise(1, fmt.prec - 1);
    let inf: u64 = fmt.top as u64 * one;
    if k >= fmt.top as i32 {
        return inf;
    }
    let sig: u64 = if s <= 0 {
        proof {
            // The spacing is finer than the bin: nothing is lost.
            let t = (-s) as nat;
            assert(!sticky) by {
                if sticky {
                    if len <= prec + 1 {
                        if len < prec + 1 {
                            lemma_pow2_strictly_increases(len as nat, (prec + 1) as nat);
                        }
                        assert(false);
                    }
                }
            }
            lemma_pow2_adds(t, k as nat);
            lemma_pow2_adds(t, len as nat);
            lemma_pow2_pos(t);
            lemma_pow2_pos(k as nat);
            let x = d@ * pow2(k as nat);
            let g = p as nat * pow2(t);
            assert(x > 0) by (nonlinear_arith)
                requires
                    d@ > 0,
                    pow2(k as nat) > 0,
                    x == d@ * pow2(k as nat),
            ;
            assert(e == t + k);
            assert(up(e as int) == pow2(t) * pow2(k as nat));
            assert(n@ == x * g) by {
                let a = pow2(t);
                let b = pow2(k as nat);
                assert(p as nat * (d@ * (a * b)) == (d@ * b) * (p as nat * a)) by (nonlinear_arith);
            }
            lemma_fundamental_div_mod_converse(n@ as int, x as int, g as int, 0);
            assert(m == g);
            assert(g < pow2(t) * pow2(len as nat)) by (nonlinear_arith)
                requires
                    p < pow2(len as nat),
                    g == p as nat * pow2(t),
                    pow2(t) > 0,
            ;
            if t + len < prec {
                lemma_pow2_strictly_increases(t + len as nat, prec as nat);
            }
            if prec < 53 {
                lemma_pow2_strictly_increases(prec as nat, 53);
            }
        }
        raise(p, (-s) as u32)
    } else {
        let ghost nn = n@ * down(e as int);
        let ghost dd = d@ * up(e as int);
        proof {
            lemma_pow2_pos(if e >= 0 {
                e as nat
            } else {
                (-e) as nat
            });
            lemma_up_down(e as int, s as nat, k as nat);
            lemma_pow2_pos(k as nat);
            let w = down(e as int);
            let u = up(e as int);
            let x = d@ * pow2(k as nat);
            assert(x > 0) by (nonlinear_arith)
                requires
                    d@ > 0,
                    pow2(k as nat) > 0,
                    x == d@ * pow2(k as nat),
            ;
            lemma_half_even_ratio(n@, x, w);
            assert(x * w == dd * pow2(s as nat)) by {
                let b = pow2(k as nat);
                let c = pow2(s as nat);
                assert((d@ * b) * w == d@ * (b * w)) by (nonlinear_arith);
                assert((d@ * u) * c == d@ * (c * u)) by (nonlinear_arith);
            }
            assert(m == half_even(nn, dd * pow2(s as nat)));
            assert(dd > 0) by (nonlinear_arith)
                requires
                    d@ > 0,
                    u > 0,
                    dd == d@ * u,
            ;
            lemma_round_bin(nn, dd, p as nat, s as nat);
            // the significand stays within prec bits, plus a carry
            if k > 0 {
                assert(s == len - prec);
            }
        }
        if s > len as i32 {
            proof {
                let h = pow2((s - 1) as nat);
                if len < s - 1 {
                    lemma_pow2_strictly_increases(len as nat, (s - 1) as nat);
                }
                lemma_pow2_unfold(s as nat);
                lemma_fundamental_div_mod_converse(p as int, pow2(s as nat) as int, 0, p as int);
                assert(m == 0);
            }
            0
        } else {
            proof {
                lemma_pow2_pos(s as nat);
                lemma_fundamental_div_mod(p as int, pow2(s as nat) as int);
                lemma_pow2_adds(s as nat, (len - s) as nat);
                let (t, c) = (pow2(s as nat), pow2((len - s) as nat));
                let (q, r) = (p as nat / t, p as nat % t);
                assert(q < c) by (nonlinear_arith)
                    requires
                        p == t * q + r,
                        r >= 0,
                        p < t * c,
                ;
                if len - s < prec {
                    lemma_pow2_strictly_increases((len - s) as nat, prec as nat);
                }
                if prec < 53 {
                    lemma_pow2_strictly_increases(prec as nat, 53);
                }
            }
            cut(p, s as u32, sticky)
        }
    };
    proof {
        assert(k * unit <= 2047 * unit) by (nonlinear_arith)
            requires
                k <= 2047,
        ;
        assert(sig == m);
    }
    let b = k as u64 * one + sig;
    if b < inf {
        b
    } else {
        inf
    }
}

/// Encoding of the magnitude nearest to the value `n / d`, which lies in the
/// bin of `p * 2^e`, for a `p` of any length.
pub fn pack(fmt: Format, p: u128, e: i32, sticky: bool, n: Ghost<nat>, d: Ghost<nat>) -> (mag: u64)
    requires
        fmt.wf(),
        0 < p < 0x8000_0000_0000_0000_0000_0000_0000_0000,
        -10000 <= e <= 10000,
        d@ > 0,
        in_bin(n@, d@, p as nat, e as int, sticky),
        sticky ==> p >= pow2((fmt.prec + 1) as nat),
    ensures
        mag == fmt.round(n@, d@),
        mag <= fmt.inf() < 0x8000_0000_0000_0000,
{
    if p < 0x1_0000_0000_0000_0000 {
        return pack_word(fmt, p as u64, e, sticky, n, d);
    }
    let len = bit_length(p);
    proof {
        lemma2_to64();
        lemma2_to64_rest();
        if len < 64 {
            lemma_pow2_strictly_increases(len as nat, 64);
        }
    }
    let s: u32 = len - 64;
    let (q, r) = split(p, s);
    proof {
        lemma_coarser(n@, d@, p as nat, e as int, sticky, s as nat);
        lemma_pow2_pos(s as nat);
        lemma_pow2_adds(s as nat, 63);
        lemma_pow2_adds(s as nat, 64);
        lemma_fundamental_div_mod(p as int, pow2(s as nat) as int);
        let t = pow2(s as nat);
        assert(0x8000_0000_0000_0000 <= q < 0x1_0000_0000_0000_0000) by (nonlinear_arith)
            requires
                p == t * q + r,
                0 <= r < t,
                t * 0x8000_0000_0000_0000 <= p < t * 0x1_0000_0000_0000_0000,
        ;
        lemma_pow2_strictly_increases((fmt.prec + 1) as nat, 63);
    }
    pack_word(fmt, q as u64, e + s as i32, sticky || r != 0, n, d)
}

} // verus!
