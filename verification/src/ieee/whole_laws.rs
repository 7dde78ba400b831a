//! How near the integers are that numbers are turned into.
use crate::ieee::convert::rest_of;
use crate::ieee::double::{lemma_decode_zero, Double};
use vstd::arithmetic::div_mod::lemma_fundamental_div_mod;
use vstd::arithmetic::power2::{lemma_pow2_pos, pow2};
use vstd::prelude::*;

verus! {

impl Double {
    proof fn lemma_whole(self)
        ensures
            ({
                let (p, r) = (pow2(1074) as int, self.units() % pow2(1074));
                &&& p > 0
                &&& self.units() == self.whole() * p + r
                &&& 0 <= r < p
                &&& self.rest() == rest_of(r, pow2(1074))
            }),
    {
        lemma_pow2_pos(1074);
        let (u, p) = (self.units() as int, pow2(1074) as int);
        lemma_fundamental_div_mod(u, p);
        assert(p * (u / p) == (u / p) * p) by (nonlinear_arith);
    }

    /// Cut off, a number lies less than one from its integer, away from zero.
    pub proof fn law_truncate(self)
        requires
            self.finite(),
            self.whole() <= i64::MAX,
        ensures
            ({
                let (n, p, v) = (self.truncate() as int, pow2(1074) as int, self.value());
                &&& v >= 0 ==> n * p <= v < n * p + p
                &&& v <= 0 ==> n * p - p < v <= n * p
            }),
    {
        reveal(Double::spec_truncate);
        self.lemma_whole();
        let (w, p) = (self.whole() as int, pow2(1074) as int);
        assert((-w) * p == -(w * p)) by (nonlinear_arith);
        assert(w >= 0 && p > 0 ==> w * p >= 0) by (nonlinear_arith);
        assert(w > 0 && p > 0 ==> w * p > 0) by (nonlinear_arith);
    }

    /// Rounded down or up, a number that is not negative lies less than one from its
    /// integer, on that side.
    pub proof fn law_counts(self)
        requires
            self.nonnegative(),
            self.whole() < u64::MAX,
        ensures
            ({
                let (p, v) = (pow2(1074) as int, self.value());
                let (down, up) = (self.floor_count() as int, self.ceil_count() as int);
                let near = self.round_count() as int;
                &&& down * p <= v < down * p + p
                &&& up * p - p < v <= up * p
                &&& 2 * (v - near * p) < p && 2 * (near * p - v) <= p
            }),
    {
        reveal(Double::spec_floor_count);
        reveal(Double::spec_ceil_count);
        reveal(Double::spec_round_count);
        self.lemma_whole();
        lemma_decode_zero();
        let (w, p) = (self.whole() as int, pow2(1074) as int);
        assert((w + 1) * p == w * p + p) by (nonlinear_arith);
        assert(0 * p == 0);
        assert(w >= 0 && p > 0 ==> w * p >= 0) by (nonlinear_arith);
        assert(w > 0 && p > 0 ==> w * p > 0) by (nonlinear_arith);
    }

    /// Rounded, a number lies no more than one half from its integer; one with a half
    /// goes away from zero. The opposite number is rounded to the opposite integer.
    pub proof fn law_round(self)
        requires
            self.finite(),
            self.whole() < i32::MAX,
        ensures
            ({
                let (n, p, v) = (self.round() as int, pow2(1074) as int, self.value());
                &&& v >= 0 ==> 2 * (v - n * p) < p && 2 * (n * p - v) <= p
                &&& v <= 0 ==> 2 * (v - n * p) <= p && 2 * (n * p - v) < p
                &&& self.negate().round() == -n
            }),
    {
        reveal(Double::spec_round);
        self.lemma_whole();
        self.lemma_negate();
        lemma_decode_zero();
        let (w, p) = (self.whole() as int, pow2(1074) as int);
        assert((w + 1) * p == w * p + p) by (nonlinear_arith);
        assert((-w) * p == -(w * p)) by (nonlinear_arith);
        assert((-(w + 1)) * p == -(w * p) - p) by (nonlinear_arith);
        assert(w >= 0 && p > 0 ==> w * p >= 0) by (nonlinear_arith);
        assert(w > 0 && p > 0 ==> w * p > 0) by (nonlinear_arith);
        assert(self.negate().whole() == self.whole() && self.negate().rest() == self.rest());
    }
}

} // verus!
