//! What the score of a command prefers.
use crate::global_planner::PathWaypoint;
use crate::ieee::double::{lemma_decode_zero, lemma_encode_zero, Double};
use crate::ieee::laws::{lemma_rounded_monotone, lemma_rounded_zero, rounded};
use crate::local_planner::dwa::{facing, velocity_score, Query};
use crate::local_planner::TrajPoint;
use crate::trig::{bearing, law_normalize_angle, lemma_turn, normalize_angle, pi, turn, Trig};
use vstd::arithmetic::power2::pow2;
use vstd::prelude::*;

verus! {

/// The angle, in units, by which the bearing of the goal differs from the heading.
pub open spec fn off_by(tr: Trig, p: TrajPoint, goal: PathWaypoint) -> int {
    bearing(tr, goal.y.minus(p.y), goal.x.minus(p.x)).value() - p.theta.value()
}

/// Heading and bearing of the goal are angles from minus pi to pi.
pub open spec fn sighted(tr: Trig, p: TrajPoint, goal: PathWaypoint) -> bool {
    let b = bearing(tr, goal.y.minus(p.y), goal.x.minus(p.x));
    &&& b.finite() && p.theta.finite()
    &&& -pi().value() <= b.value() <= pi().value()
    &&& -pi().value() <= p.theta.value() <= pi().value()
}

pub open spec fn size(n: int) -> int {
    if n < 0 {
        -n
    } else {
        n
    }
}

/// The score of a pose that is off by so many units.
proof fn lemma_facing(tr: Trig, p: TrajPoint, goal: PathWaypoint)
    requires
        sighted(tr, p, goal),
        size(off_by(tr, p, goal)) <= pi().value(),
    ensures
        ({
            let d = bearing(tr, goal.y.minus(p.y), goal.x.minus(p.x)).minus(p.theta);
            &&& d.finite() && d.key() == rounded(off_by(tr, p, goal))
            &&& d.abs().key() == rounded(size(off_by(tr, p, goal)))
            &&& d.abs().le(pi())
            &&& facing(tr, p, goal) == Double::one().minus(d.abs().over(pi()))
        }),
{
    let b = bearing(tr, goal.y.minus(p.y), goal.x.minus(p.x));
    let d = b.minus(p.theta);
    let off = off_by(tr, p, goal);
    lemma_turn();
    b.lemma_minus(p.theta);
    pi().lemma_rounded_value();
    pi().lemma_negate();
    pi().negate().lemma_rounded_value();
    lemma_rounded_zero();
    lemma_rounded_monotone(off, pi().value());
    lemma_rounded_monotone(-pi().value(), off);
    lemma_rounded_monotone(0, size(off));
    law_normalize_angle(d);
}

/// The score depends on nothing but the size of the angle between heading and
/// bearing: turning both by the same angle leaves it as it is, and so does being off
/// to the other side. The larger the angle, the lower the score.
pub proof fn law_facing_falls_with_the_angle(
    tr: Trig,
    p: TrajPoint,
    goal: PathWaypoint,
    q: TrajPoint,
    other: PathWaypoint,
)
    requires
        sighted(tr, p, goal),
        sighted(tr, q, other),
        size(off_by(tr, p, goal)) <= size(off_by(tr, q, other)) <= pi().value(),
    ensures
        facing(tr, q, other).le(facing(tr, p, goal)),
        size(off_by(tr, p, goal)) == size(off_by(tr, q, other)) ==> facing(tr, q, other)
            == facing(tr, p, goal),
{
    lemma_facing(tr, p, goal);
    lemma_facing(tr, q, other);
    lemma_rounded_monotone(size(off_by(tr, p, goal)), size(off_by(tr, q, other)));
    let a = bearing(tr, goal.y.minus(p.y), goal.x.minus(p.x)).minus(p.theta).abs();
    let b = bearing(tr, other.y.minus(q.y), other.x.minus(q.x)).minus(q.theta).abs();
    assert(a.le(b) && Double::zero().le(a));
    Double::lemma_over_monotone(a, b, pi());
    Double::lemma_over_monotone(b, pi(), pi());
    pi().lemma_over_itself();
    Double::one().lemma_minus(a.over(pi()));
    Double::one().lemma_minus(b.over(pi()));
    Double::lemma_minus_monotone(Double::one(), Double::one(), b.over(pi()), a.over(pi()));
}

/// A pose that looks right at the goal has the score one, and one that looks right
/// away from it none.
pub proof fn law_facing_ends(tr: Trig, p: TrajPoint, goal: PathWaypoint)
    requires
        sighted(tr, p, goal),
    ensures
        off_by(tr, p, goal) == 0 ==> facing(tr, p, goal) == Double::one(),
        size(off_by(tr, p, goal)) == pi().value() ==> facing(tr, p, goal) == Double::zero(),
{
    lemma_turn();
    if size(off_by(tr, p, goal)) <= pi().value() {
        lemma_facing(tr, p, goal);
        lemma_rounded_zero();
        pi().lemma_rounded_value();
        let d = bearing(tr, goal.y.minus(p.y), goal.x.minus(p.x)).minus(p.theta).abs();
        if off_by(tr, p, goal) == 0 {
            assert(d == Double::zero());
            Double::lemma_over_monotone(d, d, pi());
            reveal(Double::spec_over);
            lemma_decode_zero();
            pi().lemma_units_positive();
            let p = pow2(1074);
            assert(0 * p == 0) by (nonlinear_arith);
            lemma_encode_zero(pi().units());
            let z = d.over(pi());
            assert(z == Double::zero());
            Double::one().lemma_plus_nothing(z.negate());
        }
        if size(off_by(tr, p, goal)) == pi().value() {
            assert(d == pi());
            pi().lemma_over_itself();
            reveal(Double::spec_plus);
        }
    }
}

/// The score is a share from zero to one, however heading and bearing are written.
pub proof fn law_facing_is_a_share(tr: Trig, p: TrajPoint, goal: PathWaypoint)
    requires
        sighted(tr, p, goal),
    ensures
        Double::zero().le(facing(tr, p, goal)),
        facing(tr, p, goal).le(Double::one()),
{
    let b = bearing(tr, goal.y.minus(p.y), goal.x.minus(p.x));
    let d = b.minus(p.theta);
    lemma_turn();
    b.lemma_minus(p.theta);
    turn().lemma_rounded_value();
    turn().lemma_negate();
    turn().negate().lemma_rounded_value();
    lemma_rounded_monotone(off_by(tr, p, goal), turn().value());
    lemma_rounded_monotone(-turn().value(), off_by(tr, p, goal));
    law_normalize_angle(d);
    let a = normalize_angle(d).abs();
    pi().lemma_negate();
    assert(a.le(pi()) && Double::zero().le(a));
    Double::lemma_over_monotone(a, pi(), pi());
    pi().lemma_over_itself();
    let q = a.over(pi());
    Double::one().lemma_minus(q);
    Double::one().lemma_minus_shrinks(q);
    Double::one().lemma_minus(Double::one());
    lemma_rounded_zero();
    Double::lemma_minus_monotone(Double::one(), Double::one(), Double::one(), q);
}

/// A command that faces the goal better, ends nearer to it and keeps a larger
/// distance from obstacles is rated no lower.
pub proof fn law_rating(
    q: Query,
    v: Double,
    heading: Double,
    far: Double,
    gap: Double,
    better: Double,
    nearer: Double,
    wider: Double,
)
    requires
        q.config.heading_weight.nonnegative(),
        q.config.distance_weight.nonnegative(),
        q.config.obstacle_weight.nonnegative(),
        heading.finite() && better.finite() && heading.le(better),
        nearer.nonnegative() && far.nonnegative() && nearer.le(far),
        !gap.infinite() || !gap.negative(),
        gap.le(wider),
        !q.rated(v, heading, far, gap).nan() && !q.rated(v, better, nearer, wider).nan(),
    ensures
        q.rated(v, heading, far, gap).le(q.rated(v, better, nearer, wider)),
{
    let c = q.config;
    let three = Double::of(3);
    Double::lemma_of(3);
    let (g, h) = (gap.min(three), wider.min(three));
    let (a, b) = (c.heading_weight.times(heading), c.heading_weight.times(better));
    let (s, t) = (c.distance_weight.times(nearer), c.distance_weight.times(far));
    heading.lemma_times_commutes(c.heading_weight);
    better.lemma_times_commutes(c.heading_weight);
    Double::lemma_times_order(heading, better, c.heading_weight);
    c.distance_weight.lemma_times_monotone(nearer, far);
    Double::lemma_over_order(g, h, three);
    g.lemma_over_shrinks(three);
    h.lemma_over_shrinks(three);
    let (x, y) = (g.over(three), h.over(three));
    x.lemma_times_commutes(c.obstacle_weight);
    y.lemma_times_commutes(c.obstacle_weight);
    Double::lemma_times_order(x, y, c.obstacle_weight);
    let (u, w) = (c.obstacle_weight.times(x), c.obstacle_weight.times(y));
    let speed = c.velocity_weight.times(
        velocity_score(v, q.target, c.max_speed),
    );
    let change = c.weight_continuity.times(
        v.minus(q.prev_v).abs().over(c.max_speed.max(Double::ratio(1, 10))),
    );
    let low = a.minus(t).plus(speed).plus(u);
    let high = b.minus(s).plus(speed).plus(w);
    low.lemma_plus_number(change.negate());
    a.minus(t).plus(speed).lemma_plus_number(u);
    a.minus(t).lemma_plus_number(speed);
    high.lemma_plus_number(change.negate());
    b.minus(s).plus(speed).lemma_plus_number(w);
    b.minus(s).lemma_plus_number(speed);
    Double::lemma_plus_monotone(a, b, t.negate(), s.negate());
    Double::lemma_plus_monotone(a.minus(t), b.minus(s), speed, speed);
    Double::lemma_plus_monotone(a.minus(t).plus(speed), b.minus(s).plus(speed), u, w);
    Double::lemma_plus_monotone(low, high, change.negate(), change.negate());
}

} // verus!
