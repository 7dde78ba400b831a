//! Circular functions. The library does not compute them: it is handed a
//! function that does, and its contracts are stated over what that function
//! returns.
use crate::ieee::double::{exponent, lemma_decode_monotone, significand, Double};
use crate::ieee::laws::{lemma_rounded_monotone, rounded};
use vstd::arithmetic::power2::{
    lemma2_to64_rest, lemma_pow2_adds, lemma_pow2_pos, lemma_pow2_unfold, pow2,
};
use vstd::prelude::*;

verus! {

/// The functions that are asked for.
#[derive(Clone, Copy, Debug, PartialEq, Eq, Structural)]
pub enum Circular {
    Sin,
    Cos,
    Tan,
    Asin,
    Atan,
    /// Angle of the point with the second argument as abscissa.
    Atan2,
}

/// What a provider of circular functions returns.
pub type Trig = spec_fn(Circular, Double, Double) -> Double;

/// The provider answers every question, and always in the same way.
pub open spec fn functional<M: Fn(Circular, Double, Double) -> Double>(m: &M) -> bool {
    &&& forall|k: Circular, x: Double, y: Double| #[trigger] call_requires(m, (k, x, y))
    &&& forall|k: Circular, x: Double, y: Double, a: Double, b: Double|
        #![trigger call_ensures(m, (k, x, y), a), call_ensures(m, (k, x, y), b)]
        call_ensures(m, (k, x, y), a) && call_ensures(m, (k, x, y), b) ==> a == b
}

/// The functions that a provider computes.
pub open spec fn trig_of<M: Fn(Circular, Double, Double) -> Double>(m: &M) -> Trig {
    |k: Circular, x: Double, y: Double| choose|r: Double| call_ensures(m, (k, x, y), r)
}

fn ask<M: Fn(Circular, Double, Double) -> Double>(
    m: &M,
    k: Circular,
    x: Double,
    y: Double,
) -> (r: Double)
    requires
        functional(m),
    ensures
        r == trig_of(m)(k, x, y),
{
    let r = m(k, x, y);
    proof {
        let c = trig_of(m)(k, x, y);
        assert(call_ensures(m, (k, x, y), r));
        assert(call_ensures(m, (k, x, y), c));
    }
    r
}

pub open spec fn sine(t: Trig, x: Double) -> Double {
    t(Circular::Sin, x, Double::zero())
}

pub open spec fn cosine(t: Trig, x: Double) -> Double {
    t(Circular::Cos, x, Double::zero())
}

pub open spec fn tangent(t: Trig, x: Double) -> Double {
    t(Circular::Tan, x, Double::zero())
}

pub open spec fn arcsine(t: Trig, x: Double) -> Double {
    t(Circular::Asin, x, Double::zero())
}

pub open spec fn arctangent(t: Trig, x: Double) -> Double {
    t(Circular::Atan, x, Double::zero())
}

pub open spec fn bearing(t: Trig, y: Double, x: Double) -> Double {
    t(Circular::Atan2, y, x)
}

pub fn sin<M: Fn(Circular, Double, Double) -> Double>(m: &M, x: Double) -> (r: Double)
    requires
        functional(m),
    ensures
        r == sine(trig_of(m), x),
{
    ask(m, Circular::Sin, x, Double::zero())
}

pub fn cos<M: Fn(Circular, Double, Double) -> Double>(m: &M, x: Double) -> (r: Double)
    requires
        functional(m),
    ensures
        r == cosine(trig_of(m), x),
{
    ask(m, Circular::Cos, x, Double::zero())
}

pub fn tan<M: Fn(Circular, Double, Double) -> Double>(m: &M, x: Double) -> (r: Double)
    requires
        functional(m),
    ensures
        r == tangent(trig_of(m), x),
{
    ask(m, Circular::Tan, x, Double::zero())
}

pub fn asin<M: Fn(Circular, Double, Double) -> Double>(m: &M, x: Double) -> (r: Double)
    requires
        functional(m),
    ensures
        r == arcsine(trig_of(m), x),
{
    ask(m, Circular::Asin, x, Double::zero())
}

pub fn atan<M: Fn(Circular, Double, Double) -> Double>(m: &M, x: Double) -> (r: Double)
    requires
        functional(m),
    ensures
        r == arctangent(trig_of(m), x),
{
    ask(m, Circular::Atan, x, Double::zero())
}

pub fn atan2<M: Fn(Circular, Double, Double) -> Double>(m: &M, y: Double, x: Double) -> (r: Double)
    requires
        functional(m),
    ensures
        r == bearing(trig_of(m), y, x),
{
    ask(m, Circular::Atan2, y, x)
}

/// The second angle is a quarter turn to the left of the first.
pub open spec fn quarter(t: Trig, a: Double, b: Double) -> bool {
    &&& sine(t, b) == cosine(t, a)
    &&& cosine(t, b) == sine(t, a).negate()
}

/// The number nearest to pi.
pub open spec fn spec_pi() -> Double {
    Double { bits: 0x4009_21fb_5444_2d18 }
}

#[verifier::when_used_as_spec(spec_pi)]
pub fn pi() -> (r: Double)
    ensures
        r == spec_pi(),
{
    Double { bits: 0x4009_21fb_5444_2d18 }
}

/// A full turn: twice that number.
pub open spec fn spec_turn() -> Double {
    Double { bits: 0x4019_21fb_5444_2d18 }
}

#[verifier::when_used_as_spec(spec_turn)]
pub fn turn() -> (r: Double)
    ensures
        r == spec_turn(),
{
    Double { bits: 0x4019_21fb_5444_2d18 }
}

/// An angle above pi, less as many full turns as bring it down to pi. An angle
/// so large that a turn is lost in its precision stays as it is.
pub open spec fn wound_down(a: Double) -> Double
    decreases a.key() + 0x7ff0_0000_0000_0000,
{
    let next = a.minus(turn());
    if pi().lt(a) && next.lt(a) {
        wound_down(next)
    } else {
        a
    }
}

/// An angle below minus pi, plus as many full turns as bring it up to that.
pub open spec fn wound_up(a: Double) -> Double
    decreases 0x7ff0_0000_0000_0000 - a.key(),
{
    let next = a.plus(turn());
    if a.lt(pi().negate()) && a.lt(next) {
        wound_up(next)
    } else {
        a
    }
}

/// The angle brought to `[-pi, pi]` by full turns.
pub open spec fn spec_normalize_angle(a: Double) -> Double {
    wound_up(wound_down(a))
}

#[verifier::when_used_as_spec(spec_normalize_angle)]
pub fn normalize_angle(angle: Double) -> (r: Double)
    ensures
        r == spec_normalize_angle(angle),
{
    let mut a = angle;
    let mut more = pi().lt(a);
    while more
        invariant
            wound_down(a) == wound_down(angle),
            more ==> pi().lt(a),
            !more ==> wound_down(a) == a,
        decreases a.key() + 0x7ff0_0000_0000_0000, (if more { 1int } else { 0int }),
    {
        let next = a.minus(turn());
        if next.lt(a) {
            a = next;
            more = pi().lt(a);
        } else {
            more = false;
        }
    }
    let ghost mid = a;
    let mut less = a.lt(pi().negate());
    while less
        invariant
            mid == wound_down(angle),
            wound_up(a) == wound_up(mid),
            less ==> a.lt(pi().negate()),
            !less ==> wound_up(a) == a,
        decreases 0x7ff0_0000_0000_0000 - a.key(), (if less { 1int } else { 0int }),
    {
        let next = a.plus(turn());
        if a.lt(next) {
            a = next;
            less = a.lt(pi().negate());
        } else {
            less = false;
        }
    }
    a
}

/// The angle lies between minus pi and pi.
pub open spec fn within_half_turn(a: Double) -> bool {
    pi().negate().le(a) && a.le(pi())
}

/// A full turn has exactly twice the value of pi.
pub proof fn lemma_turn()
    ensures
        pi().finite() && turn().finite(),
        pi().value() > 0,
        turn().value() == 2 * pi().value(),
{
    let x = pow2(1023);
    lemma_pow2_unfold(1024);
    lemma_pow2_pos(1023);
    assert(exponent(pi().mag()) == 1023 && exponent(turn().mag()) == 1024);
    let m = significand(pi().mag());
    assert(significand(turn().mag()) == m);
    assert(m * (2 * x) == 2 * (m * x) && m * x > 0) by (nonlinear_arith)
        requires
            m > 0,
            x > 0,
    ;
}

proof fn lemma_wound_down(a: Double)
    requires
        !a.nan(),
        a.key() <= 0x4340_0000_0000_0000,
    ensures
        wound_down(a).le(pi()),
        pi().negate().le(a) ==> pi().negate().le(wound_down(a)),
        a.le(pi()) ==> wound_down(a) == a,
    decreases a.key() + 0x7ff0_0000_0000_0000,
{
    let next = a.minus(turn());
    if pi().lt(a) {
        lemma_turn();
        a.lemma_step(turn());
        a.lemma_minus(turn());
        a.lemma_order(pi());
        pi().negate().lemma_rounded_value();
        lemma_rounded_monotone(-pi().value(), a.value() - turn().value());
        lemma_wound_down(next);
    }
}

proof fn lemma_wound_up(a: Double)
    requires
        !a.nan(),
        a.key() >= -0x4340_0000_0000_0000,
    ensures
        pi().negate().le(wound_up(a)),
        a.le(pi()) ==> wound_up(a).le(pi()),
        pi().negate().le(a) ==> wound_up(a) == a,
    decreases 0x7ff0_0000_0000_0000 - a.key(),
{
    let next = a.plus(turn());
    if a.lt(pi().negate()) {
        lemma_turn();
        a.lemma_step(turn());
        a.lemma_plus(turn());
        a.lemma_order(pi().negate());
        pi().lemma_rounded_value();
        lemma_rounded_monotone(a.value() + turn().value(), pi().value());
        lemma_wound_up(next);
    }
}

/// A normalized angle lies between minus pi and pi, and an angle that lies there
/// is left as it is. This holds of every angle up to `2^53`; beyond, a turn may
/// be lost in the precision of the angle.
pub proof fn law_normalize_angle(a: Double)
    requires
        a.mag() <= 0x4340_0000_0000_0000,
    ensures
        within_half_turn(normalize_angle(a)),
        within_half_turn(a) ==> normalize_angle(a) == a,
{
    lemma_wound_down(a);
    if pi().negate().le(a) {
        lemma_wound_up(wound_down(a));
    } else {
        lemma_wound_up(a);
    }
}

/// An angle that is up to one turn beyond is brought back by that turn: to the number
/// nearest to the angle less the turn, or plus it.
pub proof fn law_normalize_takes_a_turn(a: Double)
    requires
        a.finite(),
    ensures
        pi().value() < a.value() <= 3 * pi().value() ==> !normalize_angle(a).nan()
            && normalize_angle(a).key() == rounded(a.value() - turn().value()),
        -3 * pi().value() <= a.value() < -pi().value() ==> !normalize_angle(a).nan()
            && normalize_angle(a).key() == rounded(a.value() + turn().value()),
{
    lemma_turn();
    pi().lemma_negate();
    a.lemma_order(pi());
    a.lemma_order(pi().negate());
    pi().lemma_rounded_value();
    pi().negate().lemma_rounded_value();
    a.lemma_minus(turn());
    a.lemma_plus(turn());
    let top = Double { bits: 0x4340_0000_0000_0000 };
    let three = 3 * pi().value();
    assert(a.units() as int <= three ==> a.mag() <= top.mag()) by {
        if a.mag() > top.mag() {
            lemma_decode_monotone(top.mag(), a.mag());
            lemma_large();
        }
    }
    if pi().value() < a.value() <= three {
        a.lemma_step(turn());
        lemma_rounded_monotone(a.value() - turn().value(), pi().value());
        lemma_rounded_monotone(-pi().value(), a.value() - turn().value());
        let next = a.minus(turn());
        lemma_wound_down(next);
        lemma_wound_up(next);
    }
    if -three <= a.value() < -pi().value() {
        a.lemma_step(turn());
        lemma_rounded_monotone(a.value() + turn().value(), pi().value());
        lemma_rounded_monotone(-pi().value(), a.value() + turn().value());
        let next = a.plus(turn());
        lemma_wound_down(a);
        lemma_wound_up(next);
    }
}

/// Three times pi is far below `2^53`.
proof fn lemma_large()
    ensures
        3 * pi().value() < (Double { bits: 0x4340_0000_0000_0000 }).value(),
{
    let (x, y) = (pow2(1023), pow2(1075));
    lemma_pow2_adds(1023, 52);
    lemma2_to64_rest();
    lemma_pow2_pos(1023);
    let m = significand(pi().mag());
    assert(exponent(pi().mag()) == 1023);
    assert(exponent(0x4340_0000_0000_0000) == 1075);
    assert(significand(0x4340_0000_0000_0000) == 0x10_0000_0000_0000);
    assert(3 * (m * x) < 0x10_0000_0000_0000 * (x * 0x10_0000_0000_0000)) by (nonlinear_arith)
        requires
            m < 0x20_0000_0000_0000,
            x > 0,
    ;
}

} // verus!
