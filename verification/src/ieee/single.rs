//! IEEE 754 binary32 numbers in software: storage, comparison, and the exact
//! widening to and rounded narrowing from binary64.
use crate::ieee::double::{encode, lemma_decode_zero, lemma_encode_zero, pack_exact, parts, Double};
use crate::ieee::pack::{down, in_bin, pack_word, up, Format};
use crate::ieee::rounding::{is_scale, lemma_scale_unique, round_mag};
use vstd::arithmetic::power2::{lemma2_to64, lemma_pow2_adds, lemma_pow2_pos, pow2};
use vstd::prelude::*;

verus! {

/// Encoding step of one exponent: `2^23`.
pub const EXP: u32 = 0x80_0000;

/// The sign bit: `2^31`.
pub const SIGN: u32 = 0x8000_0000;

/// Magnitude encoding of infinity.
pub const INF: u32 = 0x7f80_0000;

/// The quiet NaN that a narrowed NaN becomes.
pub const NAN: u32 = 0x7fc0_0000;

/// A binary32 number, by its bit pattern. Finite numbers are whole multiples
/// of `2^-149`.
#[derive(Clone, Copy, Debug)]
pub struct Single {
    pub bits: u32,
}

/// Exponent of the spacing of the number encoded as `b`.
pub open spec fn exponent(b: nat) -> nat {
    if b < 2 * EXP {
        0
    } else {
        (b / EXP as nat - 1) as nat
    }
}

/// The finite magnitude encoded as `b`, in multiples of `2^-149`.
pub open spec fn decode(b: nat) -> nat {
    ((b - exponent(b) * EXP) as nat) * pow2(exponent(b))
}

/// Encoding of the magnitude nearest to `n / d` multiples of `2^-149`.
pub open spec fn encode_single(n: nat, d: nat) -> nat {
    round_mag(24, INF as nat, n, d)
}

impl Single {
    pub open spec fn negative(self) -> bool {
        self.bits >= SIGN
    }

    /// Encoding of the absolute value.
    pub open spec fn mag(self) -> nat {
        if self.negative() {
            (self.bits - SIGN) as nat
        } else {
            self.bits as nat
        }
    }

    pub open spec fn nan(self) -> bool {
        self.mag() > INF
    }

    /// Position in the order of the numbers; both zeros are at 0.
    pub open spec fn key(self) -> int {
        if self.negative() {
            -(self.mag() as int)
        } else {
            self.mag() as int
        }
    }

    pub open spec fn make(negative: bool, mag: nat) -> Single {
        Single {
            bits: (if negative {
                mag + SIGN
            } else {
                mag as int
            }) as u32,
        }
    }

    fn is_negative(self) -> (r: bool)
        ensures
            r == self.negative(),
    {
        self.bits >= SIGN
    }

    fn magnitude(self) -> (r: u32)
        ensures
            r == self.mag(),
            r < SIGN,
    {
        if self.bits >= SIGN {
            self.bits - SIGN
        } else {
            self.bits
        }
    }

    fn place(self) -> (r: i64)
        ensures
            r == self.key(),
    {
        if self.is_negative() {
            -(self.magnitude() as i64)
        } else {
            self.magnitude() as i64
        }
    }

    pub open spec fn spec_lt(self, o: Single) -> bool {
        !self.nan() && !o.nan() && self.key() < o.key()
    }

    /// `self < o`; false where either is NaN.
    #[verifier::when_used_as_spec(spec_lt)]
    pub fn lt(self, o: Single) -> (r: bool)
        ensures
            r == self.spec_lt(o),
    {
        self.magnitude() <= INF && o.magnitude() <= INF && self.place() < o.place()
    }

    pub open spec fn spec_le(self, o: Single) -> bool {
        !self.nan() && !o.nan() && self.key() <= o.key()
    }

    /// `self <= o`; false where either is NaN.
    #[verifier::when_used_as_spec(spec_le)]
    pub fn le(self, o: Single) -> (r: bool)
        ensures
            r == self.spec_le(o),
    {
        self.magnitude() <= INF && o.magnitude() <= INF && self.place() <= o.place()
    }

    pub open spec fn spec_min(self, o: Single) -> Single {
        if self.nan() || (!o.nan() && o.key() < self.key()) {
            o
        } else {
            self
        }
    }

    /// The smaller number; the other one where one is NaN.
    #[verifier::when_used_as_spec(spec_min)]
    pub fn min(self, o: Single) -> (r: Single)
        ensures
            r == self.spec_min(o),
    {
        if self.magnitude() > INF || (o.magnitude() <= INF && o.place() < self.place()) {
            o
        } else {
            self
        }
    }

    /// The same number in binary64.
    #[verifier::opaque]
    pub open spec fn spec_widen(self) -> Double {
        if self.nan() {
            Double::invalid()
        } else if self.mag() == INF {
            Double::make(self.negative(), crate::ieee::double::INF as nat)
        } else {
            Double::make(self.negative(), encode(decode(self.mag()) * pow2(925), 1))
        }
    }

    #[verifier::when_used_as_spec(spec_widen)]
    pub fn widen(self) -> (r: Double)
        ensures
            r == self.spec_widen(),
    {
        proof {
            reveal(Single::spec_widen);
        }
        let b = self.magnitude();
        if b > INF {
            return Double::quiet();
        }
        if b == INF {
            return Double::assemble(self.is_negative(), crate::ieee::double::INF);
        }
        let k: u32 = if b < 2 * EXP {
            0
        } else {
            b / EXP - 1
        };
        let m = b - k * EXP;
        if m == 0 {
            proof {
                assert(b == 0);
                lemma_encode_zero(1);
                let (x, y) = (pow2(0), pow2(925));
                assert((0 * x) * y == 0) by (nonlinear_arith);
            }
            return Double::assemble(self.is_negative(), 0);
        }
        proof {
            lemma_pow2_adds(k as nat, 925);
            let (x, y) = (pow2(k as nat), pow2(925));
            assert((m as nat * x) * y == m as nat * (x * y)) by (nonlinear_arith);
        }
        let mag = pack_exact(m as u64, k + 925, Ghost(decode(b as nat) * pow2(925)));
        Double::assemble(self.is_negative(), mag)
    }

    /// The sum, rounded once to binary64 and once to binary32; the second
    /// rounding never disagrees with rounding the exact sum to binary32.
    #[verifier::opaque]
    pub open spec fn spec_plus(self, o: Single) -> Single {
        self.spec_widen().spec_plus(o.spec_widen()).spec_narrow()
    }

    #[verifier::when_used_as_spec(spec_plus)]
    pub fn plus(self, o: Single) -> (r: Single)
        ensures
            r == self.spec_plus(o),
    {
        proof {
            reveal(Single::spec_plus);
        }
        self.widen().plus(o.widen()).narrow()
    }

    /// The product, which binary64 holds exactly, rounded to binary32.
    #[verifier::opaque]
    pub open spec fn spec_times(self, o: Single) -> Single {
        self.spec_widen().spec_times(o.spec_widen()).spec_narrow()
    }

    #[verifier::when_used_as_spec(spec_times)]
    pub fn times(self, o: Single) -> (r: Single)
        ensures
            r == self.spec_times(o),
    {
        proof {
            reveal(Single::spec_times);
        }
        self.widen().times(o.widen()).narrow()
    }
}

pub proof fn lemma_single_format()
    ensures
        (Format { prec: 24, top: 255 }).wf(),
        (Format { prec: 24, top: 255 }).inf() == INF,
        forall|n: nat, d: nat|
            (Format { prec: 24, top: 255 }).round(n, d) == #[trigger] encode_single(n, d),
{
    lemma2_to64();
    assert(255 * 0x80_0000 == 0x7f80_0000);
}

pub proof fn lemma_encode_single_zero(d: nat)
    requires
        d > 0,
    ensures
        encode_single(0, d) == 0,
{
    lemma_pow2_pos(24);
    lemma_pow2_pos(0);
    let x = pow2(24);
    assert(0 < d * x) by (nonlinear_arith)
        requires
            d > 0,
            x > 0,
    ;
    assert(is_scale(24, 0, d, 0));
    lemma_scale_unique(24, 0, d, 0);
    let y = d * pow2(0);
    assert(y > 0) by (nonlinear_arith)
        requires
            d > 0,
            pow2(0) > 0,
            y == d * pow2(0),
    ;
    assert(0nat / y == 0 && 0nat % y == 0) by (nonlinear_arith)
        requires
            y > 0,
    ;
    let z = pow2(23);
    assert(0 * z == 0) by (nonlinear_arith);
}

proof fn lemma_narrow_scale(k: nat, e: int)
    requires
        e == k - 925,
    ensures
        pow2(925) * up(e) == pow2(k) * down(e),
{
    if e >= 0 {
        lemma_pow2_adds(925, e as nat);
    } else {
        lemma_pow2_adds(k, (-e) as nat);
    }
}

impl Double {
    /// The nearest binary32 number.
    #[verifier::opaque]
    pub open spec fn spec_narrow(self) -> Single {
        if self.nan() {
            Single { bits: NAN }
        } else if self.infinite() {
            Single::make(self.negative(), INF as nat)
        } else {
            Single::make(self.negative(), encode_single(self.units(), pow2(925)))
        }
    }

    #[verifier::when_used_as_spec(spec_narrow)]
    pub fn narrow(self) -> (r: Single)
        ensures
            r == self.spec_narrow(),
    {
        proof {
            reveal(Double::spec_narrow);
        }
        let b = self.magnitude();
        if b > crate::ieee::double::INF {
            return Single { bits: NAN };
        }
        let mag: u32 = if b == crate::ieee::double::INF {
            INF
        } else {
            let (m, k) = parts(b);
            proof {
                lemma_pow2_pos(925);
                lemma_single_format();
            }
            if m == 0 {
                proof {
                    lemma_decode_zero();
                    lemma_encode_single_zero(pow2(925));
                }
                0
            } else {
                let e: i32 = k as i32 - 925;
                let ghost n = self.units();
                let ghost d = pow2(925);
                proof {
                    lemma_narrow_scale(k as nat, e as int);
                    let (u, w, x) = (up(e as int), down(e as int), pow2(k as nat));
                    let v = d * u;
                    assert((m as nat * x) * w == m as nat * (x * w)) by (nonlinear_arith);
                    assert(n * w == m as nat * v);
                    lemma_pow2_pos(if e >= 0 {
                        e as nat
                    } else {
                        (-e) as nat
                    });
                    assert(v > 0) by (nonlinear_arith)
                        requires
                            d > 0,
                            u > 0,
                            v == d * u,
                    ;
                    assert((m as nat + 1) * v == m as nat * v + v) by (nonlinear_arith);
                    assert(in_bin(n, d, m as nat, e as int, false));
                }
                pack_word(Format { prec: 24, top: 255 }, m, e, false, Ghost(n), Ghost(d)) as u32
            }
        };
        if self.is_negative() {
            Single { bits: mag + SIGN }
        } else {
            Single { bits: mag }
        }
    }
}

} // verus!
