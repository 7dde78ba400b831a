//! Laws of the dynamic-window planner.
use crate::ieee::double::{
    decode, exponent, lemma_decode_zero, lemma_encode_decode, lemma_encode_zero, significand,
    Double, INF,
};
use crate::ieee::laws::{
    lemma_encode_monotone_ratio, lemma_encode_ratio, lemma_rounded_monotone, lemma_rounded_one,
    lemma_rounded_zero,
};
use crate::local_planner::arc::{
    at_rest, braking_trail, cycle, horizon_trail, keeps, law_least_along,
};
use crate::local_planner::dwa::{
    cruise_fraction, decided, infeasible_stop, robot_footprint_radius, spacing,
    speed_scaled_radius, velocity_score, DwaConfig, DwaPlanner, Query, Window,
};
use crate::local_planner::motion::RobotState;
use crate::local_planner::standstill::SetOff;
use crate::local_planner::VelocityCommand;
use crate::trig::Trig;
use vstd::arithmetic::power2::{
    lemma2_to64, lemma2_to64_rest, lemma_pow2_adds, lemma_pow2_pos, pow2,
};
use vstd::prelude::*;

verus! {

/// Between the crawl and the cruise there is some way.
proof fn lemma_cruise_span()
    ensures
        Double::ratio(3, 10).minus(Double::ratio(1, 10)).positive(),
{
    let p = pow2(1074);
    lemma2_to64_rest();
    lemma_pow2_pos(1074);
    lemma_pow2_adds(51, 1023);
    lemma_pow2_adds(50, 1024);
    lemma_pow2_adds(1, 1023);
    lemma_pow2_adds(50, 1025);
    lemma_pow2_adds(1, 1024);
    lemma_pow2_adds(1, 1074);
    lemma2_to64();
    assert(exponent(0x3ff0_0000_0000_0000) == 1022);
    assert(significand(0x3ff0_0000_0000_0000) == pow2(52));
    assert(exponent(0x4008_0000_0000_0000) == 1023);
    assert(significand(0x4008_0000_0000_0000) == 3 * pow2(51));
    assert(exponent(0x4024_0000_0000_0000) == 1025);
    assert(significand(0x4024_0000_0000_0000) == 5 * pow2(50));
    lemma_pow2_adds(52, 1022);
    assert(3 * pow2(51) * pow2(1023) == 3 * (pow2(51) * pow2(1023))) by (nonlinear_arith);
    assert(5 * pow2(50) * pow2(1025) == 5 * (pow2(50) * pow2(1025))) by (nonlinear_arith);
    lemma_pow2_adds(50, 1025);
    assert(decode(0x4008_0000_0000_0000) == 3 * p);
    assert(decode(0x4024_0000_0000_0000) == 10 * p);
    assert(decode(0x3ff0_0000_0000_0000) == 1 * p);
    Double::lemma_of_exact(1, 0x3ff0_0000_0000_0000);
    Double::lemma_of_exact(3, 0x4008_0000_0000_0000);
    Double::lemma_of_exact(10, 0x4024_0000_0000_0000);
    let (a, b) = (Double { bits: 0x3fc0_0000_0000_0000 }, Double { bits: 0x3fd0_0000_0000_0000 });
    lemma_pow2_adds(52, 1019);
    lemma_pow2_adds(52, 1020);
    lemma_pow2_adds(3, 1071);
    lemma_pow2_adds(2, 1072);
    assert(exponent(0x3fc0_0000_0000_0000) == 1019);
    assert(significand(0x3fc0_0000_0000_0000) == pow2(52));
    assert(exponent(0x3fd0_0000_0000_0000) == 1020);
    assert(significand(0x3fd0_0000_0000_0000) == pow2(52));
    let (q, h) = (pow2(1071), pow2(1072));
    assert(a.units() == q && p == 8 * q && b.units() == h && p == 4 * h);
    reveal(Double::spec_over);
    lemma_encode_decode(a.mag());
    lemma_encode_decode(b.mag());
    assert((p * p) * 1 <= q * (10 * p)) by (nonlinear_arith)
        requires
            p == 8 * q,
    ;
    assert(h * (10 * p) <= (3 * p * p) * 1) by (nonlinear_arith)
        requires
            p == 4 * h,
    ;
    lemma_encode_monotone_ratio(p * p, 10 * p, q, 1);
    lemma_encode_monotone_ratio(h, 1, 3 * p * p, 10 * p);
    let (lo, hi) = (Double::ratio(1, 10), Double::ratio(3, 10));
    assert(lo.mag() <= a.mag() && b.mag() <= hi.mag() <= INF);
    Double::lemma_ratio_le_one(1, 10);
    Double::lemma_ratio_le_one(3, 10);
    hi.lemma_minus(lo);
    hi.lemma_order(lo);
    lo.lemma_rounded_value();
    hi.lemma_rounded_value();
    let gap = hi.value() - lo.value();
    assert(gap >= 1);
    lemma_rounded_monotone(1, gap);
    lemma_rounded_one();
    hi.lemma_minus_shrinks(lo);
}

/// The footprint is a finite number above zero.
proof fn lemma_footprint()
    ensures
        robot_footprint_radius().positive(),
{
    Double::lemma_ratio_le_one(19, 100);
    Double::lemma_ratio_positive(19, 100);
}

/// The parts of the radius that is required at a speed, and their bounds.
proof fn lemma_radius_parts(v: Double, base: Double, low: Double, gain: Double)
    requires
        v.finite(),
        base.finite(),
        low.nonnegative(),
        gain.nonnegative(),
    ensures
        ({
            let margin = base.minus(robot_footprint_radius()).max(Double::zero());
            let t = cruise_fraction(v);
            let scale = low.plus(Double::one().minus(low).times(t)).max(Double::zero());
            let fast = v.abs().minus(Double::one()).max(Double::zero());
            &&& margin.nonnegative()
            &&& t.nonnegative() && t.le(Double::one())
            &&& scale.nonnegative()
            &&& fast.nonnegative()
            &&& gain.max(Double::zero()).nonnegative()
        }),
{
    lemma_footprint();
    lemma_cruise_span();
    let fp = robot_footprint_radius();
    base.lemma_minus(fp);
    base.lemma_minus_shrinks(fp);
    let a = v.abs();
    assert(a.nonnegative());
    Double::lemma_ratio_le_one(1, 10);
    let d = Double::ratio(3, 10).minus(Double::ratio(1, 10));
    let x = a.minus(Double::ratio(1, 10));
    a.lemma_minus(Double::ratio(1, 10));
    a.lemma_minus_shrinks(Double::ratio(1, 10));
    reveal(Double::spec_over);
    d.lemma_units_positive();
    assert(!x.over(d).nan());
    let t = cruise_fraction(v);
    assert(t.nonnegative() && t.le(Double::one()));
    a.lemma_minus(Double::one());
    a.lemma_minus_shrinks(Double::one());
    let u = Double::one().minus(low);
    Double::one().lemma_minus(low);
    Double::one().lemma_minus_shrinks(low);
    Double::one().lemma_rounded_value();
    low.lemma_rounded_value();
    low.negate().lemma_rounded_value();
    lemma_rounded_monotone(low.negate().value(), Double::one().value() - low.value());
    assert(u.finite());
    u.lemma_times_within(t);
    let w = u.times(t);
    assert(w.finite() && w.le(Double::one()));
    low.lemma_plus(w);
    w.lemma_order(Double::one());
    Double::one().lemma_order(low);
    u.lemma_order(Double::zero());
    let two = Double { bits: 0x4000_0000_0000_0000 };
    lemma_two();
    two.lemma_rounded_value();
    w.lemma_rounded_value();
    if low.le(Double::one()) {
        low.lemma_order(Double::one());
        lemma_rounded_monotone(low.value() + w.value(), two.value());
    } else {
        assert(u.key() <= 0) by {
            lemma_rounded_monotone(Double::one().value() - low.value(), 0);
            lemma_rounded_zero();
        }
        assert(w.key() <= 0);
        lemma_rounded_monotone(low.value() + w.value(), low.value());
    }
}

/// Two is two ones.
proof fn lemma_two()
    ensures
        (Double { bits: 0x4000_0000_0000_0000 }).value() == 2 * Double::one().value(),
{
    lemma2_to64_rest();
    lemma2_to64();
    lemma_pow2_adds(52, 1022);
    lemma_pow2_adds(52, 1023);
    lemma_pow2_adds(1, 1074);
    assert(exponent(0x3ff0_0000_0000_0000) == 1022);
    assert(significand(0x3ff0_0000_0000_0000) == pow2(52));
    assert(exponent(0x4000_0000_0000_0000) == 1023);
    assert(significand(0x4000_0000_0000_0000) == pow2(52));
}

/// No speed and no scaling brings the required radius below the footprint.
pub proof fn law_radius_covers_footprint(v: Double, base: Double, low: Double, gain: Double)
    requires
        v.finite(),
        base.finite(),
        low.nonnegative(),
        gain.nonnegative(),
    ensures
        robot_footprint_radius().le(speed_scaled_radius(v, base, low, gain)),
{
    lemma_radius_parts(v, base, low, gain);
    lemma_footprint();
    let fp = robot_footprint_radius();
    let margin = base.minus(fp).max(Double::zero());
    let scale = low.plus(Double::one().minus(low).times(cruise_fraction(v))).max(Double::zero());
    let fast = v.abs().minus(Double::one()).max(Double::zero());
    let g = gain.max(Double::zero());
    margin.lemma_times_monotone(scale, scale);
    g.lemma_times_monotone(fast, fast);
    let inner = fp.plus(margin.times(scale));
    fp.lemma_plus_grows(margin.times(scale));
    inner.lemma_plus_nonnegative(g.times(fast));
    if inner.finite() {
        inner.lemma_plus_grows(g.times(fast));
    } else {
        reveal(Double::spec_plus);
    }
}

/// Sums of numbers that are equal are equal.
proof fn lemma_plus_same(a: Double, b: Double, c: Double, d: Double)
    requires
        a.same(b),
        c.same(d),
        a.finite(),
        c.finite(),
    ensures
        a.plus(c).same(b.plus(d)),
{
    a.lemma_order(b);
    c.lemma_order(d);
    a.lemma_plus(c);
    b.lemma_plus(d);
}

/// Products with numbers that are equal are equal.
proof fn lemma_times_same(x: Double, a: Double, b: Double)
    requires
        x.finite(),
        a.same(b),
        a.finite(),
    ensures
        x.times(a).same(x.times(b)),
{
    reveal(Double::spec_times);
    lemma_decode_zero();
    lemma_pow2_pos(1074);
    lemma_encode_zero(pow2(1074));
    if a.key() == 0 {
        let u = x.units();
        assert(u * 0 == 0) by (nonlinear_arith);
    }
}

/// Multiplication by one changes nothing.
proof fn lemma_times_one(x: Double)
    requires
        x.finite(),
    ensures
        x.times(Double::one()) == x,
{
    Double::one().lemma_times_sign(x);
    reveal(Double::spec_times);
    let (a, b) = (x.units(), Double::one().units());
    assert(a * b == b * a) by (nonlinear_arith);
}

/// A positive number goes once into itself.
proof fn lemma_over_self(d: Double)
    requires
        d.positive(),
    ensures
        d.over(d) == Double::one(),
{
    reveal(Double::spec_over);
    let (u, p) = (d.units(), pow2(1074));
    d.lemma_units_positive();
    lemma_pow2_pos(1074);
    Double::lemma_one();
    lemma_encode_decode(Double::one().mag());
    assert(u * p == p * u && 1 * u == u) by (nonlinear_arith);
    lemma_encode_ratio(p, 1, u);
}

/// The radius does not depend on the direction of travel. Up to 0.1 m/s it is the
/// footprint with the margin scaled down, and from 0.3 to 1 m/s the footprint with
/// the full margin, the same for all these speeds.
pub proof fn law_radius_by_speed(v: Double, base: Double, low: Double, gain: Double)
    requires
        v.finite(),
        base.finite(),
        low.nonnegative(),
        low.le(Double::one()),
        gain.nonnegative(),
    ensures
        speed_scaled_radius(v.negate(), base, low, gain) == speed_scaled_radius(
            v,
            base,
            low,
            gain,
        ),
        ({
            let fp = robot_footprint_radius();
            let margin = base.minus(fp).max(Double::zero());
            let full = low.plus(Double::one().minus(low));
            let r = speed_scaled_radius(v, base, low, gain);
            &&& v.abs().le(Double::ratio(1, 10)) ==> r.same(fp.plus(margin.times(low)))
            &&& Double::ratio(3, 10).le(v.abs()) && v.abs().le(Double::one()) ==> r.same(
                fp.plus(margin.times(full)),
            )
        }),
{
    lemma_radius_parts(v, base, low, gain);
    lemma_footprint();
    lemma_cruise_span();
    let (zero, one) = (Double::zero(), Double::one());
    let fp = robot_footprint_radius();
    let margin = base.minus(fp).max(zero);
    let a = v.abs();
    let (tenth, third) = (Double::ratio(1, 10), Double::ratio(3, 10));
    Double::lemma_ratio_le_one(1, 10);
    Double::lemma_ratio_le_one(3, 10);
    let d = third.minus(tenth);
    let x = a.minus(tenth);
    a.lemma_minus(tenth);
    tenth.lemma_minus(tenth);
    let t = cruise_fraction(v);
    let u = one.minus(low);
    one.lemma_minus(low);
    assert(u.nonnegative()) by {
        one.lemma_minus_shrinks(low);
        low.lemma_order(one);
        lemma_rounded_zero();
        lemma_rounded_monotone(0, one.value() - low.value());
    }
    let scale = low.plus(u.times(t)).max(zero);
    margin.lemma_times_monotone(scale, scale);
    let fast = a.minus(one).max(zero);
    let g = gain.max(zero);
    if a.le(one) {
        a.lemma_order(one);
        a.lemma_minus(one);
        lemma_rounded_monotone(a.value() - one.value(), 0);
        lemma_rounded_zero();
        assert(fast.same(zero));
        lemma_times_same(g, fast, zero);
        assert(g.times(zero).same(zero)) by {
            reveal(Double::spec_times);
            lemma_decode_zero();
            lemma_pow2_pos(1074);
            lemma_encode_zero(pow2(1074));
            let y = g.units();
            assert(y * 0 == 0) by (nonlinear_arith);
        }
    }
    if a.le(tenth) {
        a.lemma_order(tenth);
        lemma_rounded_monotone(a.value() - tenth.value(), 0);
        lemma_rounded_zero();
        assert(x.le(zero));
        assert(t.same(zero)) by {
            reveal(Double::spec_over);
            d.lemma_units_positive();
            lemma_decode_zero();
            lemma_encode_zero(d.units());
            let p = pow2(1074);
            assert(0 * p == 0) by (nonlinear_arith);
        }
        lemma_times_same(u, t, zero);
        assert(u.times(zero).same(zero)) by {
            reveal(Double::spec_times);
            lemma_decode_zero();
            lemma_pow2_pos(1074);
            lemma_encode_zero(pow2(1074));
            let y = u.units();
            assert(y * 0 == 0) by (nonlinear_arith);
        }
        assert(scale.same(low)) by {
            lemma_plus_same(low, low, u.times(t), zero);
            low.lemma_rounded_value();
            low.lemma_plus(zero);
            lemma_decode_zero();
        }
        lemma_times_same(margin, scale, low);
        lemma_rest(fp, margin.times(scale), margin.times(low), g.times(fast));
    }
    if third.le(a) && a.le(one) {
        Double::lemma_minus_monotone(third, a, tenth, tenth);
        lemma_over_self(d);
        Double::lemma_over_monotone(d, x, d);
        assert(t == one);
        lemma_times_one(u);
        assert(scale.same(low.plus(u))) by {
            low.lemma_plus(u);
            low.lemma_plus_nonnegative(u);
        }
        lemma_times_same(margin, scale, low.plus(u));
        lemma_rest(fp, margin.times(scale), margin.times(low.plus(u)), g.times(fast));
    }
}

/// Adding nothing to a sum leaves it as it is.
proof fn lemma_rest(fp: Double, a: Double, b: Double, none: Double)
    requires
        fp.finite(),
        a.same(b),
        zero_or_more(a),
        none.same(Double::zero()),
    ensures
        fp.plus(a).plus(none).same(fp.plus(b)),
{
    reveal(Double::spec_plus);
    if a.finite() {
        lemma_plus_same(fp, fp, a, b);
        let s = fp.plus(a);
        if s.finite() {
            s.lemma_plus(none);
            s.lemma_rounded_value();
            lemma_decode_zero();
            none.lemma_rounded_value();
        }
    }
}

spec fn zero_or_more(a: Double) -> bool {
    !a.nan() && a.key() >= 0
}

/// The faster the robot, the larger the radius it requires.
pub proof fn law_radius_grows_with_speed(
    v1: Double,
    v2: Double,
    base: Double,
    low: Double,
    gain: Double,
)
    requires
        v1.finite(),
        v2.finite(),
        v1.abs().le(v2.abs()),
        base.finite(),
        low.nonnegative(),
        low.le(Double::one()),
        gain.nonnegative(),
    ensures
        speed_scaled_radius(v1, base, low, gain).le(speed_scaled_radius(v2, base, low, gain)),
{
    lemma_radius_parts(v1, base, low, gain);
    lemma_radius_parts(v2, base, low, gain);
    lemma_footprint();
    lemma_cruise_span();
    let fp = robot_footprint_radius();
    let margin = base.minus(fp).max(Double::zero());
    let (a1, a2) = (v1.abs(), v2.abs());
    let tenth = Double::ratio(1, 10);
    Double::lemma_ratio_le_one(1, 10);
    a1.lemma_minus(tenth);
    a2.lemma_minus(tenth);
    Double::lemma_minus_monotone(a1, a2, tenth, tenth);
    let (x1, x2) = (a1.minus(tenth), a2.minus(tenth));
    let d = Double::ratio(3, 10).minus(tenth);
    let (t1, t2) = (cruise_fraction(v1), cruise_fraction(v2));
    if Double::zero().le(x1) {
        Double::lemma_over_monotone(x1, x2, d);
    } else {
        reveal(Double::spec_over);
    }
    assert(t1.le(t2));
    let u = Double::one().minus(low);
    Double::one().lemma_minus(low);
    Double::one().lemma_minus_shrinks(low);
    Double::one().lemma_order(low);
    lemma_rounded_monotone(0, Double::one().value() - low.value());
    lemma_rounded_zero();
    assert(u.nonnegative());
    u.lemma_times_monotone(t1, t2);
    u.lemma_times_within(t1);
    u.lemma_times_within(t2);
    low.lemma_plus(u.times(t1));
    low.lemma_plus(u.times(t2));
    Double::lemma_plus_monotone(low, low, u.times(t1), u.times(t2));
    let s1 = low.plus(u.times(t1)).max(Double::zero());
    let s2 = low.plus(u.times(t2)).max(Double::zero());
    margin.lemma_times_monotone(s1, s2);
    let (m1, m2) = (margin.times(s1), margin.times(s2));
    fp.lemma_plus_nonnegative(m1);
    fp.lemma_plus_nonnegative(m2);
    Double::lemma_plus_monotone(fp, fp, m1, m2);
    a1.lemma_minus(Double::one());
    a2.lemma_minus(Double::one());
    Double::lemma_minus_monotone(a1, a2, Double::one(), Double::one());
    let f1 = a1.minus(Double::one()).max(Double::zero());
    let f2 = a2.minus(Double::one()).max(Double::zero());
    let g = gain.max(Double::zero());
    g.lemma_times_monotone(f1, f2);
    let (e1, e2) = (g.times(f1), g.times(f2));
    fp.plus(m1).lemma_plus_nonnegative(e1);
    fp.plus(m2).lemma_plus_nonnegative(e2);
    Double::lemma_plus_monotone(fp.plus(m1), fp.plus(m2), e1, e2);
}

/// The relaxation in recovery does not reach below the footprint either.
pub proof fn law_relaxed_covers_footprint(p: DwaPlanner)
    requires
        p.config.robot_radius.finite(),
        p.config.recovery_margin_scale.nonnegative(),
    ensures
        robot_footprint_radius().le(p.relaxed()),
{
    lemma_footprint();
    let fp = robot_footprint_radius();
    let base = p.config.robot_radius;
    base.lemma_minus(fp);
    base.lemma_minus_shrinks(fp);
    let margin = base.minus(fp).max(Double::zero());
    let scale = p.config.recovery_margin_scale;
    margin.lemma_times_monotone(scale, scale);
    fp.lemma_plus_grows(margin.times(scale));
}

/// A speed above the target is preferred the less, the further it is above.
pub proof fn law_velocity_score(v1: Double, v2: Double, target: Double, max_speed: Double)
    requires
        target.finite(),
        v1.finite(),
        v2.finite(),
        target.le(v1),
        v1.le(v2),
        max_speed.finite(),
    ensures
        velocity_score(v2, target, max_speed).le(velocity_score(v1, target, max_speed)),
{
    Double::lemma_ratio_le_one(1, 10);
    Double::lemma_ratio_positive(1, 10);
    let m = max_speed.max(Double::ratio(1, 10));
    assert(m.positive());
    v1.lemma_minus(target);
    v2.lemma_minus(target);
    target.lemma_order(v1);
    v1.lemma_order(v2);
    lemma_rounded_monotone(0, v1.value() - target.value());
    lemma_rounded_zero();
    Double::lemma_minus_monotone(v1, v2, target, target);
    let (d1, d2) = (v1.minus(target).abs(), v2.minus(target).abs());
    assert(d1.le(d2) && Double::zero().le(d1));
    Double::lemma_over_monotone(d1, d2, m);
    let (q1, q2) = (d1.over(m), d2.over(m));
    reveal(Double::spec_plus);
    Double::lemma_minus_monotone(Double::one(), Double::one(), q2, q1);
}

/// The window lies between a standstill and the speed limit. Where the target
/// is within reach, it does not go above it; where a stop is asked for, it is
/// one speed alone, the slowest within reach.
pub proof fn law_window(c: DwaConfig, s: RobotState, target: Double)
    requires
        c.limits(),
        c.max_acceleration.finite(),
        s.linear_vel.finite(),
    ensures
        ({
            let (lo, hi) = Window::speeds(c, s, target);
            let slow = s.linear_vel.minus(c.max_acceleration.times(cycle())).max(Double::zero());
            &&& Double::zero().le(lo)
            &&& lo.le(hi)
            &&& hi.le(c.max_speed)
            &&& slow.le(target) ==> hi.le(target)
            &&& target.same(Double::zero()) ==> lo.same(hi) && hi.le(slow)
        }),
{
    Double::lemma_ratio_le_one(1, 10);
    c.max_acceleration.lemma_times_within(cycle());
    s.linear_vel.lemma_plus(c.max_acceleration.times(cycle()));
    s.linear_vel.lemma_minus(c.max_acceleration.times(cycle()));
}

/// A command can be driven exactly where it can be steered and keeps the
/// required distance from every obstacle, over the horizon and over the stop.
pub proof fn law_feasible(tr: Trig, q: Query, v: Double, w: Double)
    requires
        !q.required(v).nan(),
    ensures
        q.feasible(tr, v, w) <==> q.steerable(v, w) && forall|i: int|
            0 <= i < q.obstacles@.len() ==> keeps(
                tr,
                #[trigger] q.obstacles@[i],
                q.config.moving_obstacle_margin_gain,
                horizon_trail(tr, q.config, q.state, v, w),
                q.required(v),
            ) && keeps(
                tr,
                q.obstacles@[i],
                q.config.moving_obstacle_margin_gain,
                braking_trail(tr, q.config, q.state, v, w),
                q.required(v),
            ),
{
    let gain = q.config.moving_obstacle_margin_gain;
    let d = q.required(v);
    law_least_along(
        tr,
        q.obstacles@,
        gain,
        horizon_trail(tr, q.config, q.state, v, w),
        d,
    );
    law_least_along(
        tr,
        q.obstacles@,
        gain,
        braking_trail(tr, q.config, q.state, v, w),
        d,
    );
}

/// The sample stands before the place `(vi, wi)` of the window.
pub open spec fn before(q: Query, i: int, j: int, vi: int, wi: int) -> bool {
    0 <= i && 0 <= j < q.config.w_samples && (i < vi || (i == vi && j < wi))
}

/// What is found in the window is a sample that can be driven, and none that
/// can be driven has a higher score. Nothing is found exactly where no sample
/// can be driven.
pub proof fn law_found(tr: Trig, q: Query, window: Window, vi: int, wi: int)
    requires
        0 <= vi,
        0 <= wi <= q.config.w_samples,
    ensures
        ({
            let (best, moves) = q.found(tr, window, vi, wi);
            &&& best is None <==> forall|i: int, j: int|
                before(q, i, j, vi, wi) ==> !#[trigger] q.open(tr, window, i, j)
            &&& best is Some ==> exists|i: int, j: int|
                before(q, i, j, vi, wi) && #[trigger] q.open(tr, window, i, j) && best->0
                    == q.sample(tr, window, i, j)
            &&& best is Some && !best->0.score.nan() ==> forall|i: int, j: int|
                before(q, i, j, vi, wi) && #[trigger] q.open(tr, window, i, j)
                    ==> !best->0.score.lt(q.sample(tr, window, i, j).score)
            &&& moves <==> exists|i: int, j: int|
                before(q, i, j, vi, wi) && #[trigger] q.open(tr, window, i, j) && at_rest().lt(
                    q.sample(tr, window, i, j).v,
                )
        }),
    decreases vi, wi,
{
    if wi > 0 {
        law_found(tr, q, window, vi, wi - 1);
        let (b, mv) = q.found(tr, window, vi, wi - 1);
        let here = q.open(tr, window, vi, wi - 1);
        assert(before(q, vi, wi - 1, vi, wi));
        assert forall|i: int, j: int| before(q, i, j, vi, wi - 1) implies before(
            q,
            i,
            j,
            vi,
            wi,
        ) by {}
        assert forall|i: int, j: int|
            before(q, i, j, vi, wi) && !(i == vi && j == wi - 1) implies before(
            q,
            i,
            j,
            vi,
            wi - 1,
        ) by {}
        if b is Some {
            let (i, j) = choose|i: int, j: int|
                before(q, i, j, vi, wi - 1) && #[trigger] q.open(tr, window, i, j) && b->0
                    == q.sample(tr, window, i, j);
            assert(q.open(tr, window, i, j));
        }
        if mv {
            let (i, j) = choose|i: int, j: int|
                before(q, i, j, vi, wi - 1) && #[trigger] q.open(tr, window, i, j)
                    && at_rest().lt(q.sample(tr, window, i, j).v);
            assert(q.open(tr, window, i, j));
        }
    } else if vi > 0 {
        let n = q.config.w_samples as int;
        law_found(tr, q, window, vi - 1, n);
        assert forall|i: int, j: int| before(q, i, j, vi, 0) == before(q, i, j, vi - 1, n) by {}
        let (b, mv) = q.found(tr, window, vi - 1, n);
        if b is Some {
            let (i, j) = choose|i: int, j: int|
                before(q, i, j, vi - 1, n) && #[trigger] q.open(tr, window, i, j) && b->0
                    == q.sample(tr, window, i, j);
            assert(before(q, i, j, vi, 0) && q.open(tr, window, i, j));
        }
        if mv {
            let (i, j) = choose|i: int, j: int|
                before(q, i, j, vi - 1, n) && #[trigger] q.open(tr, window, i, j)
                    && at_rest().lt(q.sample(tr, window, i, j).v);
            assert(before(q, i, j, vi, 0) && q.open(tr, window, i, j));
        }
    }
}

/// The profile that is chosen for setting off keeps the required distance, and
/// none that does has a higher score. None is chosen exactly where none does.
pub proof fn law_set_off(tr: Trig, q: Query, n: int)
    requires
        0 <= n,
    ensures
        ({
            let best = q.best_set_off(tr, n);
            &&& best is None <==> forall|i: int|
                0 <= i < n ==> (#[trigger] q.set_off(tr, i)).spare.lt(Double::zero())
            &&& best is Some ==> !best->0.spare.lt(Double::zero()) && exists|i: int|
                0 <= i < n && best->0 == #[trigger] q.set_off(tr, i)
            &&& best is Some && !best->0.score.nan() ==> forall|i: int|
                0 <= i < n && !(#[trigger] q.set_off(tr, i)).spare.lt(Double::zero())
                    ==> !best->0.score.lt(q.set_off(tr, i).score)
        }),
    decreases n,
{
    if n > 0 {
        law_set_off(tr, q, n - 1);
    }
}

/// A command is one of three: a sample of the window that can be driven, the
/// first cycle of a profile that keeps its distance, or the stop. The stop
/// comes only where no sample can be driven.
pub proof fn law_decided(tr: Trig, q: Query)
    ensures
        ({
            let r = decided(tr, q);
            let window = Window::of(q.config, q.state, q.target);
            let n = q.config.v_samples as int;
            ||| exists|i: int, j: int|
                before(q, i, j, n, 0) && #[trigger] q.open(tr, window, i, j) && r == (
                VelocityCommand {
                    linear_x: q.sample(tr, window, i, j).v,
                    angular_z: q.sample(tr, window, i, j).w,
                    confidence: Double::ratio(9, 10).narrow(),
                })
            ||| exists|s: SetOff|
                !s.spare.lt(Double::zero()) && r == #[trigger] q.first_cycle(s)
            ||| r == infeasible_stop() && forall|i: int, j: int|
                before(q, i, j, n, 0) ==> !#[trigger] q.open(tr, window, i, j)
        }),
{
    let window = Window::of(q.config, q.state, q.target);
    let n = q.config.v_samples as int;
    law_found(tr, q, window, n, 0);
    law_set_off(tr, q, q.curvatures() as int);
    let best = q.best_set_off(tr, q.curvatures() as int);
    if best is Some {
        assert(q.first_cycle(best->0) == q.first_cycle(best->0));
    }
}

/// Samples at even steps go from the first up to the last.
proof fn lemma_samples(lo: Double, step: Double, i: u64, n: u64)
    requires
        lo.finite(),
        step.nonnegative(),
        i < n,
    ensures
        ({
            let x = lo.plus(Double::of(i).times(step));
            &&& lo.le(x)
            &&& x.le(lo.plus(Double::of((n - 1) as u64).times(step)))
        }),
{
    let m = (n - 1) as u64;
    lemma_pow2_pos(1074);
    assert(Double::of(0) == Double::zero()) by {
        let p = pow2(1074);
        assert(0 * p == 0) by (nonlinear_arith);
        lemma_encode_zero(1);
    }
    if i > 0 {
        Double::lemma_of(i);
        Double::lemma_of_order(i, m);
    }
    if m > 0 {
        Double::lemma_of(m);
    }
    let (a, b) = (Double::of(i), Double::of(m));
    assert(a.nonnegative() && b.nonnegative() && a.le(b));
    Double::lemma_times_order(a, b, step);
    a.lemma_times_monotone(step, step);
    b.lemma_times_monotone(step, step);
    reveal(Double::spec_plus);
    lo.lemma_plus_grows(a.times(step));
    Double::lemma_plus_monotone(lo, lo, a.times(step), b.times(step));
}

/// The steps from one number up to another are not negative.
proof fn lemma_spacing(lo: Double, hi: Double, n: usize)
    requires
        lo.finite(),
        hi.finite(),
        lo.le(hi),
    ensures
        Double::zero().le(spacing(lo, hi, n)),
{
    if n > 1 {
        lo.lemma_order(hi);
        hi.lemma_minus(lo);
        lemma_rounded_zero();
        lemma_rounded_monotone(0, hi.value() - lo.value());
        Double::lemma_of((n - 1) as u64);
        let d = hi.minus(lo);
        Double::lemma_over_monotone(d, d, Double::of((n - 1) as u64));
    }
}

/// The samples of the window begin and end with it. The last may come out above
/// its bound by rounding alone.
pub open spec fn samples_fit(q: Query) -> bool {
    let window = Window::of(q.config, q.state, q.target);
    &&& window.v_step.finite() && window.w_step.finite()
    &&& q.config.v_samples > 0 ==> window.v((q.config.v_samples - 1) as u64).le(
        Window::speeds(q.config, q.state, q.target).1,
    )
    &&& q.config.w_samples > 0 ==> window.w((q.config.w_samples - 1) as u64).le(
        Window::rates(q.config, q.state).1,
    )
}

/// The speed of a command lies in the window, unless the robot sets off or stops.
/// In every case it is not negative, not above the limit, and within reach of the
/// speed of the robot. The yaw rate is within its limit, unless it is no number.
/// Left out are windows whose last sample rounds to a number beyond them.
pub proof fn law_decided_within_limits(tr: Trig, q: Query)
    requires
        q.config.limits(),
        q.config.max_speed.finite() && q.config.max_angular_speed.finite(),
        q.config.max_acceleration.nonnegative(),
        q.config.max_angular_accel.nonnegative(),
        q.state.linear_vel.finite(),
        q.state.angular_vel.abs().le(q.config.max_angular_speed),
        Double::zero().le(q.target) && q.target.le(q.config.max_speed),
        samples_fit(q),
    ensures
        ({
            let r = decided(tr, q);
            let (lo, hi) = Window::speeds(q.config, q.state, q.target);
            let reach = q.config.max_acceleration.times(cycle());
            let start = q.state.linear_vel.max(Double::zero()).plus(reach);
            &&& (lo.le(r.linear_x) && r.linear_x.le(hi)) || r.linear_x == start.min(q.target)
                || r == infeasible_stop()
            &&& Double::zero().le(r.linear_x)
            &&& r.linear_x.le(q.config.max_speed)
            &&& r.linear_x.le(start)
            &&& r.angular_z.nan() || r.angular_z.abs().le(q.config.max_angular_speed)
        }),
{
    let c = q.config;
    let window = Window::of(c, q.state, q.target);
    let n = c.v_samples as int;
    let (lo, hi) = Window::speeds(c, q.state, q.target);
    let (w_lo, w_hi) = Window::rates(c, q.state);
    let (reach, turn) = (c.max_acceleration.times(cycle()), c.max_angular_accel.times(cycle()));
    let r = decided(tr, q);
    Double::lemma_ratio_le_one(1, 10);
    c.max_acceleration.lemma_times_within(cycle());
    c.max_angular_accel.lemma_times_within(cycle());
    law_window(c, q.state, q.target);
    let v = q.state.linear_vel;
    v.lemma_plus(reach);
    let from = v.max(Double::zero());
    from.lemma_plus(reach);
    from.lemma_plus_nonnegative(reach);
    Double::lemma_plus_monotone(v, from, reach, reach);
    let w = q.state.angular_vel;
    w.lemma_plus(turn);
    w.lemma_plus_grows(turn);
    w.lemma_minus(turn);
    w.lemma_minus_shrinks(turn);
    law_decided(tr, q);
    law_found(tr, q, window, n, 0);
    let (best, moves) = q.found(tr, window, n, 0);
    if best is Some && r.linear_x == best->0.v && r.angular_z == best->0.w {
        let (i, j) = choose|i: int, j: int|
            before(q, i, j, n, 0) && #[trigger] q.open(tr, window, i, j) && best->0 == q.sample(
                tr,
                window,
                i,
                j,
            );
        lemma_spacing(lo, hi, c.v_samples);
        lemma_spacing(w_lo, w_hi, c.w_samples);
        lemma_samples(lo, window.v_step, i as u64, c.v_samples as u64);
        lemma_samples(w_lo, window.w_step, j as u64, c.w_samples as u64);
    }
}

} // verus!
