//! Rounding of an exact rational to a binary floating-point magnitude.
use vstd::arithmetic::div_mod::{lemma_fundamental_div_mod, lemma_fundamental_div_mod_converse};
use vstd::arithmetic::power2::{
    lemma_pow2_adds, lemma_pow2_pos, lemma_pow2_strictly_increases, lemma_pow2_unfold, pow2,
};
use vstd::prelude::*;

verus! {

/// `n / d` rounded to the nearest integer, ties going to the even one.
pub open spec fn half_even(n: nat, d: nat) -> nat {
    let q = n / d;
    let r = n % d;
    if 2 * r < d {
        q
    } else if 2 * r > d {
        q + 1
    } else if q % 2 == 0 {
        q
    } else {
        q + 1
    }
}

/// With spacing `2^k`, the value `n / d` needs at most `p` significant bits
/// before the point.
pub open spec fn fits(p: nat, n: nat, d: nat, k: nat) -> bool {
    n < d * pow2(k + p)
}

/// `k` is the exponent of the spacing of `p`-bit numbers around `n / d`: the
/// least one at which the value fits.
pub open spec fn is_scale(p: nat, n: nat, d: nat, k: nat) -> bool {
    fits(p, n, d, k) && (k == 0 || !fits(p, n, d, (k - 1) as nat))
}

pub open spec fn scale(p: nat, n: nat, d: nat) -> nat {
    choose|k: nat| is_scale(p, n, d, k)
}

/// Magnitude encoding of `n / d` units in the last place of the smallest
/// number: the nearest `p`-bit number, ties to even, saturating at the
/// encoding `inf` of infinity. A number `m * 2^k` is encoded as
/// `k * 2^(p-1) + m`.
pub open spec fn round_mag(p: nat, inf: nat, n: nat, d: nat) -> nat {
    let k = scale(p, n, d);
    let b = k * pow2((p - 1) as nat) + half_even(n, d * pow2(k));
    if b < inf {
        b
    } else {
        inf
    }
}

pub proof fn lemma_fits_up(p: nat, n: nat, d: nat, k: nat, j: nat)
    requires
        fits(p, n, d, k),
        k <= j,
    ensures
        fits(p, n, d, j),
{
    if k < j {
        lemma_pow2_strictly_increases(k + p, j + p);
    }
    let a = pow2(k + p);
    let b = pow2(j + p);
    assert(d * a <= d * b) by (nonlinear_arith)
        requires
            a <= b,
    ;
}

pub proof fn lemma_scale_unique(p: nat, n: nat, d: nat, k: nat)
    requires
        is_scale(p, n, d, k),
    ensures
        scale(p, n, d) == k,
{
    let j = scale(p, n, d);
    assert(is_scale(p, n, d, j));
    if j < k {
        lemma_fits_up(p, n, d, j, (k - 1) as nat);
    }
    if k < j {
        lemma_fits_up(p, n, d, k, (j - 1) as nat);
    }
}

proof fn lemma_below_pow2(n: nat)
    ensures
        n < pow2(n),
    decreases n,
{
    lemma_pow2_pos(n);
    if n > 0 {
        lemma_below_pow2((n - 1) as nat);
        lemma_pow2_unfold(n);
    }
}

proof fn lemma_scale_descend(p: nat, n: nat, d: nat, k: nat) -> (j: nat)
    requires
        fits(p, n, d, k),
    ensures
        is_scale(p, n, d, j),
    decreases k,
{
    if k == 0 || !fits(p, n, d, (k - 1) as nat) {
        k
    } else {
        lemma_scale_descend(p, n, d, (k - 1) as nat)
    }
}

pub proof fn lemma_scale_exists(p: nat, n: nat, d: nat)
    requires
        d > 0,
    ensures
        is_scale(p, n, d, scale(p, n, d)),
{
    lemma_below_pow2(n);
    lemma_pow2_adds(n, p);
    lemma_pow2_pos(p);
    let a = pow2(n);
    let b = pow2(p);
    assert(n < d * (a * b)) by (nonlinear_arith)
        requires
            n < a,
            b >= 1,
            d >= 1,
    ;
    let k = lemma_scale_descend(p, n, d, n);
    lemma_scale_unique(p, n, d, k);
}

/// Rounding depends on the ratio alone.
pub proof fn lemma_half_even_ratio(n: nat, d: nat, c: nat)
    requires
        d > 0,
        c > 0,
    ensures
        half_even(n * c, d * c) == half_even(n, d),
{
    lemma_fundamental_div_mod(n as int, d as int);
    let q = n / d;
    let r = n % d;
    assert(n * c == (d * c) * q + r * c && 0 <= r * c < d * c && (2 * r < d <==> 2 * (r * c) < d * c)
        && (2 * r > d <==> 2 * (r * c) > d * c)) by (nonlinear_arith)
        requires
            n == d * q + r,
            0 <= r < d,
            c > 0,
    ;
    lemma_fundamental_div_mod_converse((n * c) as int, (d * c) as int, q as int, (r * c) as int);
}

/// Half-even rounding is monotone in the numerator.
pub proof fn lemma_half_even_monotone(n1: nat, n2: nat, d: nat)
    requires
        d > 0,
        n1 <= n2,
    ensures
        half_even(n1, d) <= half_even(n2, d),
{
    lemma_fundamental_div_mod(n1 as int, d as int);
    lemma_fundamental_div_mod(n2 as int, d as int);
    let (q1, r1) = (n1 / d, n1 % d);
    let (q2, r2) = (n2 / d, n2 % d);
    assert(q1 <= q2) by (nonlinear_arith)
        requires
            n1 == d * q1 + r1,
            n2 == d * q2 + r2,
            0 <= r2 < d,
            0 <= r1,
            n1 <= n2,
            d > 0,
    ;
    if q1 == q2 {
        assert(r1 <= r2);
    }
}

} // verus!
