//! What the predictive controller pays for, and which way it turns.
use crate::geometry::{distance, distance_squared};
use crate::geometry_laws::law_distance_is_not_negative;
use crate::global_planner::path::{distances, law_least_of};
use crate::global_planner::PathWaypoint;
use crate::ieee::algebra::alike;
use crate::ieee::double::Double;
use crate::ieee::laws::{lemma_rounded_monotone, lemma_rounded_negate, lemma_rounded_zero, rounded};
use crate::local_planner::mpc::{
    law_unit, moved_on, nudge, shifted, unit, ControlInput, MpcConfig, SimpleMpc,
};
use crate::local_planner::obstacle::Obstacle;
use crate::local_planner::TrajPoint;
use crate::trig::{law_normalize_angle, lemma_turn, normalize_angle, pi, tangent, Trig};
use vstd::prelude::*;

verus! {

/// Driving forward, the robot yaws to the side that its wheels are turned to.
pub proof fn law_yaws_with_the_wheels(p: SimpleMpc, tr: Trig, u: ControlInput, cost: Double)
    requires
        p.config.limits(),
        p.config.wheelbase.positive(),
        u.velocity.nonnegative(),
        tangent(tr, u.steering).finite(),
    ensures
        ({
            let r = p.command(tr, u, cost);
            let side = tangent(tr, u.steering);
            &&& r.linear_x == u.velocity
            &&& side.key() >= 0 ==> r.angular_z.key() >= 0
            &&& side.key() <= 0 ==> r.angular_z.key() <= 0
            &&& !r.angular_z.nan()
            &&& u.velocity == Double::one() && side.over(p.config.wheelbase).abs().le(
                p.config.max_angular_speed,
            ) ==> r.angular_z == side.over(p.config.wheelbase)
        }),
{
    tangent(tr, u.steering).lemma_times_one();
    let side = tangent(tr, u.steering);
    side.lemma_times_keeps_side(u.velocity);
    u.velocity.times(side).lemma_over_side(p.config.wheelbase);
    p.config.max_angular_speed.lemma_negate();
}

/// The dearer the plan, the less confident is the command.
pub proof fn law_cost_lowers_confidence(
    p: SimpleMpc,
    tr: Trig,
    u: ControlInput,
    cost: Double,
    dearer: Double,
)
    requires
        cost.nonnegative() && dearer.nonnegative() && cost.le(dearer),
    ensures
        p.command(tr, u, dearer).confidence.le(p.command(tr, u, cost).confidence),
{
    let hundred = Double::of(100);
    let one = Double::one();
    let least = Double::ratio(1, 10);
    Double::lemma_of(100);
    Double::lemma_ratio_number(1, 10);
    Double::lemma_ratio_le_one(1, 10);
    Double::lemma_over_monotone(cost, dearer, hundred);
    cost.lemma_over_shrinks(hundred);
    dearer.lemma_over_shrinks(hundred);
    let (a, b) = (cost.over(hundred), dearer.over(hundred));
    one.lemma_minus(a);
    one.lemma_minus(b);
    Double::lemma_minus_monotone(one, one, b, a);
    Double::lemma_narrow_monotone(
        one.minus(b).clamp(least, one),
        one.minus(a).clamp(least, one),
    );
}

/// How far a heading is off another one.
pub open spec fn off(p: TrajPoint, r: PathWaypoint) -> int {
    p.theta.value() - r.theta.value()
}

/// Both headings are angles between minus pi and pi, no more than pi apart.
pub open spec fn comparable(p: TrajPoint, r: PathWaypoint) -> bool {
    &&& p.theta.finite() && r.theta.finite()
    &&& -pi().value() <= off(p, r) <= pi().value()
}

/// A pose costs nothing more where it is the reference point with its heading. It costs
/// the more the farther it is off, and the more its heading is off to either side.
pub proof fn law_reference_cost(
    c: MpcConfig,
    cost: Double,
    p: TrajPoint,
    r: PathWaypoint,
    q: TrajPoint,
    s: PathWaypoint,
)
    requires
        c.weight_position.nonnegative() && c.weight_heading.nonnegative(),
        cost.nonnegative(),
        comparable(p, r) && comparable(q, s),
        -off(q, s) <= off(p, r) <= off(q, s) || off(q, s) <= off(p, r) <= -off(q, s),
        normalize_angle(q.theta.minus(s.theta)).square().finite(),
        distance_squared(r.x, r.y, p.x, p.y).finite(),
        distance_squared(s.x, s.y, q.x, q.y).finite(),
        distance_squared(r.x, r.y, p.x, p.y).le(distance_squared(s.x, s.y, q.x, q.y)),
    ensures
        cost.le(c.reference_cost(cost, p, r)),
        c.reference_cost(cost, p, r).le(c.reference_cost(cost, q, s)),
        distance_squared(r.x, r.y, p.x, p.y).mag() == 0 && off(p, r) == 0 ==> alike(
            c.reference_cost(cost, p, r),
            cost,
        ),
{
    let (a, b) = (normalize_angle(p.theta.minus(r.theta)), normalize_angle(q.theta.minus(s.theta)));
    lemma_off(p, r);
    lemma_off(q, s);
    let (x, y) = (off(p, r), off(q, s));
    lemma_rounded_negate(x);
    lemma_rounded_negate(y);
    if y >= 0 {
        lemma_rounded_monotone(x, y);
        lemma_rounded_monotone(-y, x);
    } else {
        lemma_rounded_monotone(x, -y);
        lemma_rounded_monotone(y, x);
    }
    lemma_square_order(a, b);
    let (d, e) = (distance_squared(r.x, r.y, p.x, p.y), distance_squared(s.x, s.y, q.x, q.y));
    law_distance_is_not_negative(r.x, r.y, p.x, p.y);
    law_distance_is_not_negative(s.x, s.y, q.x, q.y);
    c.weight_position.lemma_times_monotone(d, e);
    c.weight_heading.lemma_times_monotone(a.square(), b.square());
    let (m, n) = (c.weight_position.times(d), c.weight_position.times(e));
    let (u, v) = (c.weight_heading.times(a.square()), c.weight_heading.times(b.square()));
    cost.lemma_plus_nonnegative(m);
    cost.lemma_plus_nonnegative(n);
    cost.plus(m).lemma_plus_nonnegative(u);
    cost.plus(n).lemma_plus_nonnegative(v);
    cost.lemma_plus_grows(m);
    let z = Double::zero();
    Double::lemma_plus_monotone(cost, cost, m, n);
    Double::lemma_plus_monotone(cost.plus(m), cost.plus(n), u, v);
    if cost.plus(m).finite() {
        cost.plus(m).lemma_plus_grows(u);
    } else {
        reveal(Double::spec_plus);
    }
    if d.mag() == 0 && x == 0 {
        lemma_rounded_zero();
        c.weight_position.lemma_times_zero(d);
        a.lemma_times_zero(a);
        c.weight_heading.lemma_times_zero(a.square());
        cost.lemma_plus_nothing(m);
        cost.plus(m).lemma_plus_nothing(u);
    }
}

proof fn lemma_off(p: TrajPoint, r: PathWaypoint)
    requires
        comparable(p, r),
    ensures
        ({
            let a = normalize_angle(p.theta.minus(r.theta));
            &&& a.finite()
            &&& a.key() == rounded(off(p, r))
        }),
{
    let d = p.theta.minus(r.theta);
    p.theta.lemma_minus(r.theta);
    lemma_turn();
    pi().lemma_negate();
    pi().lemma_rounded_value();
    pi().negate().lemma_rounded_value();
    lemma_rounded_monotone(off(p, r), pi().value());
    lemma_rounded_monotone(-pi().value(), off(p, r));
    law_normalize_angle(d);
}

proof fn lemma_square_order(a: Double, b: Double)
    requires
        a.finite() && b.finite(),
        a.mag() <= b.mag(),
        b.square().finite(),
    ensures
        a.square().nonnegative() && b.square().nonnegative(),
        a.square().le(b.square()),
{
    let (x, y) = (a.abs(), b.abs());
    if a.negative() {
        a.lemma_times_negate(a);
        a.lemma_negate();
    }
    if b.negative() {
        b.lemma_times_negate(b);
        b.lemma_negate();
    }
    x.lemma_times_monotone(x, y);
    y.lemma_times_monotone(x, y);
    x.lemma_times_commutes(y);
}

/// An obstacle costs nothing from two radii on. Within them it costs the more the nearer
/// it is.
pub proof fn law_obstacle_cost(
    c: MpcConfig,
    cost: Double,
    x: Double,
    y: Double,
    o: Obstacle,
    near: Obstacle,
)
    requires
        c.weight_obstacle.nonnegative(),
        cost.nonnegative(),
        distance(o.x, o.y, x, y).finite() && distance(near.x, near.y, x, y).finite(),
        distance(near.x, near.y, x, y).le(distance(o.x, o.y, x, y)),
        distance(o.x, o.y, x, y).plus(Double::ratio(1, 100)).finite(),
    ensures
        c.obstacle_cost(cost, x, y, o).le(c.obstacle_cost(cost, x, y, near)),
        cost.le(c.obstacle_cost(cost, x, y, near)),
        !distance(o.x, o.y, x, y).lt(c.robot_radius.times(Double::of(2)))
            ==> c.obstacle_cost(cost, x, y, o) == cost,
{
    let (f, n) = (distance(o.x, o.y, x, y), distance(near.x, near.y, x, y));
    let e = Double::ratio(1, 100);
    law_distance_is_not_negative(o.x, o.y, x, y);
    law_distance_is_not_negative(near.x, near.y, x, y);
    Double::lemma_ratio_number(1, 100);
    f.lemma_plus(e);
    n.lemma_plus(e);
    f.lemma_plus_nonnegative(e);
    n.lemma_plus_nonnegative(e);
    Double::lemma_plus_monotone(n, f, e, e);
    e.lemma_plus_grows(n);
    e.lemma_plus_commutes(n);
    let w = c.weight_obstacle;
    w.lemma_over_falls(n.plus(e), f.plus(e));
    let (a, b) = (w.over(f.plus(e)), w.over(n.plus(e)));
    cost.lemma_plus_grows(a);
    cost.lemma_plus_grows(b);
    cost.lemma_plus_nonnegative(a);
    cost.lemma_plus_nonnegative(b);
    Double::lemma_plus_monotone(cost, cost, a, b);
}

/// A control costs nothing more where it leads to a reference point and holds the wheels
/// as they were. It costs the more the more the wheels are turned, to either side alike;
/// past the reference it costs the more the faster it is.
pub proof fn law_control_cost(
    c: MpcConfig,
    cost: Double,
    u: ControlInput,
    held: Double,
    v: ControlInput,
    before: Double,
    referenced: bool,
)
    requires
        c.weight_velocity.nonnegative() && c.weight_steer_rate.nonnegative(),
        cost.nonnegative(),
        u.velocity.finite() && v.velocity.finite() && u.velocity.mag() <= v.velocity.mag(),
        u.steering.finite() && held.finite() && v.steering.finite() && before.finite(),
        u.steering.minus(held).mag() <= v.steering.minus(before).mag(),
        v.steering.minus(before).finite() && v.steering.minus(before).square().finite(),
        v.velocity.square().finite(),
    ensures
        cost.le(c.control_cost(cost, u, referenced, held)),
        c.control_cost(cost, u, referenced, held).le(
            c.control_cost(cost, v, referenced, before),
        ),
        referenced && u.steering == held ==> alike(
            c.control_cost(cost, u, referenced, held),
            cost,
        ),
{
    u.steering.lemma_minus(held);
    u.velocity.lemma_taken_away();
    v.velocity.lemma_taken_away();
    let z = Double::zero();
    z.lemma_negate();
    u.velocity.lemma_plus_nothing(z.negate());
    v.velocity.lemma_plus_nothing(z.negate());
    let (f, g) = if referenced {
        (u.velocity.minus(u.velocity), v.velocity.minus(v.velocity))
    } else {
        (u.velocity.minus(z), v.velocity.minus(z))
    };
    if referenced {
        g.lemma_times_zero(g);
    } else {
        g.lemma_square_opposite(v.velocity);
    }
    let (d, e) = (u.steering.minus(held), v.steering.minus(before));
    lemma_square_order(f, g);
    lemma_square_order(d, e);
    c.weight_velocity.lemma_times_monotone(f.square(), g.square());
    c.weight_steer_rate.lemma_times_monotone(d.square(), e.square());
    let (m, n) = (c.weight_velocity.times(f.square()), c.weight_velocity.times(g.square()));
    let (s, t) = (
        c.weight_steer_rate.times(d.square()),
        c.weight_steer_rate.times(e.square()),
    );
    cost.lemma_plus_nonnegative(m);
    cost.lemma_plus_nonnegative(n);
    cost.plus(m).lemma_plus_nonnegative(s);
    cost.plus(n).lemma_plus_nonnegative(t);
    cost.lemma_plus_grows(m);
    Double::lemma_plus_monotone(cost, cost, m, n);
    Double::lemma_plus_monotone(cost.plus(m), cost.plus(n), s, t);
    if cost.plus(m).finite() {
        cost.plus(m).lemma_plus_grows(s);
    } else {
        reveal(Double::spec_plus);
    }
    if referenced && u.steering == held {
        held.lemma_taken_away();
        d.lemma_times_zero(d);
        f.lemma_times_zero(f);
        c.weight_steer_rate.lemma_times_zero(d.square());
        c.weight_velocity.lemma_times_zero(f.square());
        cost.lemma_plus_nothing(m);
        cost.plus(m).lemma_plus_nothing(s);
    }
}

/// The controls that a search starts from are those of the cycle before, one step on.
pub proof fn law_controls_move_up(controls: Seq<ControlInput>, i: int)
    requires
        0 <= i < controls.len(),
    ensures
        shifted(controls).len() == controls.len(),
        i + 1 < controls.len() ==> shifted(controls)[i] == controls[i + 1],
        i + 1 == controls.len() ==> shifted(controls)[i] == controls.last(),
{
}

/// A nudge is to the right for the lower half of the random numbers and to the left for
/// the upper half.
pub proof fn law_nudges_go_both_ways(x: u32)
    ensures
        ({
            &&& !nudge(x).nan()
            &&& unit(x).le(Double::half()) ==> nudge(x).key() <= 0
            &&& Double::half().le(unit(x)) ==> nudge(x).key() >= 0
        }),
{
    let (u, h, t) = (unit(x), Double::half(), Double::ratio(1, 10));
    law_unit(x);
    Double::lemma_ratio_number(1, 10);
    Double::lemma_ratio_le_one(1, 10);
    h.lemma_negate();
    h.lemma_taken_away();
    u.lemma_minus(h);
    let d = u.minus(h);
    if u.le(h) {
        Double::lemma_minus_monotone(u, h, h, h);
    }
    if h.le(u) {
        Double::lemma_minus_monotone(h, u, h, h);
    }
    let z = Double::zero();
    z.lemma_minus(h);
    h.negate().lemma_plus_nothing(z);
    Double::lemma_minus_monotone(z, u, h, h);
    u.lemma_minus_shrinks(h);
    d.lemma_times_keeps_side(t);
}

/// From one reference point to the next it is half of the way at full speed.
pub proof fn law_stride(c: MpcConfig, faster: MpcConfig)
    requires
        c.max_speed.nonnegative() && faster.max_speed.nonnegative() && c.dt.nonnegative(),
        c.max_speed.le(faster.max_speed) && c.dt == faster.dt,
        faster.max_speed.times(faster.dt).finite(),
    ensures
        Double::zero().le(c.stride()) && c.stride().le(faster.stride()),
        c.stride().le(c.max_speed.times(c.dt)),
{
    let (h, one) = (Double::half(), Double::one());
    let (v, w, t) = (c.max_speed, faster.max_speed, c.dt);
    h.lemma_times_monotone(v, w);
    v.lemma_times_shrinks(h);
    w.lemma_times_shrinks(h);
    h.lemma_times_commutes(v);
    h.lemma_times_commutes(w);
    Double::lemma_times_order(h.times(v), h.times(w), t);
    Double::lemma_times_order(h.times(v), v, t);
    t.lemma_times_monotone(h.times(v), h.times(v));
    t.lemma_times_commutes(h.times(v));
}

/// The reference points go along the path: each is at or after the one before it.
pub proof fn law_references_go_on(
    c: MpcConfig,
    path: Seq<PathWaypoint>,
    x: Double,
    y: Double,
    k: nat,
)
    requires
        path.len() > 0,
    ensures
        ({
            let (i, j) = (c.reached(path, x, y, k).1, c.reached(path, x, y, k + 1).1);
            0 <= i <= j < path.len()
        }),
    decreases k,
{
    if k == 0 {
        law_least_of(distances(path, x, y), path.len() as int);
    } else {
        law_references_go_on(c, path, x, y, (k - 1) as nat);
    }
    let (far, i) = c.reached(path, x, y, k);
    lemma_moved_on(path, far.plus(c.stride()), i);
}

proof fn lemma_moved_on(path: Seq<PathWaypoint>, far: Double, i: int)
    requires
        0 <= i < path.len(),
    ensures
        i <= moved_on(path, far, i).1 < path.len(),
    decreases path.len() - i,
{
    if i + 1 < path.len() {
        let len = distance(path[i].x, path[i].y, path[i + 1].x, path[i + 1].y);
        if len.lt(far) {
            lemma_moved_on(path, far.minus(len), i + 1);
        }
    }
}

/// A control within its limits goes the way that it is nudged.
pub proof fn law_nudged_control(c: MpcConfig, u: ControlInput, target: Double, a: u32, b: u32)
    requires
        u.velocity.nonnegative() && u.velocity.le(target),
        u.steering.finite(),
        c.max_steering_angle.negate().le(u.steering) && u.steering.le(c.max_steering_angle),
    ensures
        ({
            let n = c.nudged(u, target, a, b);
            let half = Double::half();
            &&& half.le(unit(a)) ==> u.velocity.le(n.velocity)
            &&& unit(a).le(half) ==> n.velocity.le(u.velocity)
            &&& half.le(unit(b)) ==> u.steering.le(n.steering)
            &&& unit(b).le(half) ==> n.steering.le(u.steering)
        }),
{
    law_nudges_go_both_ways(a);
    law_nudges_go_both_ways(b);
    lemma_nudge(u.velocity, nudge(a));
    lemma_nudge(u.steering, nudge(b));
}

proof fn lemma_nudge(x: Double, d: Double)
    requires
        x.finite() && !d.nan(),
    ensures
        !x.plus(d).nan(),
        d.key() >= 0 ==> x.le(x.plus(d)),
        d.key() <= 0 ==> x.plus(d).le(x),
{
    d.lemma_negate();
    if d.key() >= 0 {
        x.lemma_plus_grows(d);
    }
    if d.key() <= 0 {
        x.lemma_minus_shrinks(d.negate());
    }
}

} // verus!
