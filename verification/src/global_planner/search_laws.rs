//! How the search moves, and what it pays for.
use crate::geometry::distance;
use crate::geometry_laws::law_distance_is_not_negative;
use crate::global_planner::clearance::ClearanceField;
use crate::global_planner::path::{cost_with, pieces, sample, CostPenalties};
use crate::global_planner::search::{
    heading_weight, heuristic, steer_angle, HybridAStar, Node, Task,
};
use crate::global_planner::{PathWaypoint, Pose, SegmentDir};
use crate::ieee::algebra::{alike, opposite};
use crate::ieee::double::{lemma_encode_decode, lemma_encode_zero, Double};
use crate::ieee::laws::{
    lemma_encode_ratio, lemma_rounded_monotone, lemma_rounded_negate, lemma_rounded_zero, rounded,
};
use crate::trig::{
    cosine, law_normalize_angle, lemma_turn, normalize_angle, pi, quarter, sine, tangent, Trig,
};
use vstd::arithmetic::power2::{lemma_pow2_pos, pow2};
use vstd::prelude::*;

verus! {

/// A step of the search goes along the heading halfway through its turn, and ends with the
/// heading after the turn.
pub proof fn law_step_goes_halfway(
    t: Trig,
    x: Double,
    y: Double,
    theta: Double,
    d: Double,
    dtheta: Double,
    half: Double,
    mid: Double,
)
    requires
        theta.finite() && dtheta.finite() && half.finite() && mid.finite(),
        2 * half.value() == dtheta.value(),
        mid.value() == theta.value() + half.value(),
        mid.mag() > 0,
    ensures
        ({
            let (a, b, c) = HybridAStar::swept(t, x, y, theta, d, dtheta);
            &&& a == x.plus(d.times(cosine(t, mid)))
            &&& b == y.plus(d.times(sine(t, mid)))
            &&& c == normalize_angle(theta.plus(dtheta))
        }),
{
    let h = Double::half();
    let p = dtheta.times(h);
    dtheta.lemma_halved(half);
    p.lemma_rounded_value();
    half.lemma_rounded_value();
    theta.lemma_plus(p);
    mid.lemma_rounded_value();
}

impl Double {
    /// Half of a number, where the number has one.
    proof fn lemma_halved(self, half: Double)
        requires
            self.finite() && half.finite(),
            2 * half.value() == self.value(),
        ensures
            self.times(Double::half()).finite(),
            self.times(Double::half()).value() == half.value(),
    {
        reveal(Double::spec_times);
        let h = Double::half();
        let p = pow2(1074);
        lemma_pow2_pos(1074);
        Double::lemma_half();
        let (u, v, w) = (self.units(), half.units(), h.units());
        assert(u == 2 * v);
        assert(u * w == v * p) by (nonlinear_arith)
            requires
                u == 2 * v,
                2 * w == p,
        ;
        lemma_encode_ratio(v, 1, p);
        assert(1 * p == p);
        lemma_encode_decode(half.mag());
        self.lemma_units_positive();
        half.lemma_units_positive();
    }
}

/// A quarter turn of the plane turns a step of the search.
pub proof fn law_step_turns_with_the_plane(
    t: Trig,
    x: Double,
    y: Double,
    theta: Double,
    theta2: Double,
    d: Double,
    dtheta: Double,
)
    requires
        quarter(
            t,
            theta.plus(dtheta.times(Double::half())),
            theta2.plus(dtheta.times(Double::half())),
        ),
    ensures
        ({
            let (a, b, _) = HybridAStar::swept(t, x, y, theta, d, dtheta);
            let (a2, b2, _) = HybridAStar::swept(t, y.negate(), x, theta2, d, dtheta);
            opposite(a2, b) && alike(b2, a)
        }),
{
    let mid = theta.plus(dtheta.times(Double::half()));
    let (c, s) = (cosine(t, mid), sine(t, mid));
    y.lemma_negate();
    s.lemma_negate();
    d.lemma_times_commutes(s);
    d.lemma_times_commutes(s.negate());
    s.lemma_times_negate(d);
    s.times(d).lemma_negate();
    y.negate().lemma_plus_opposite(d.times(s.negate()), y, d.times(s));
}

/// Going forward the heading swings to the side that the wheels are turned to, going back
/// to the other side by as much. Over one wheelbase it swings by the tangent.
pub proof fn law_swing(h: HybridAStar, t: Trig, steer: Double)
    requires
        h.config.step_size.nonnegative(),
        h.config.wheelbase.positive(),
        tangent(t, steer).finite(),
        h.config.step_size.over(h.config.wheelbase).finite(),
    ensures
        ({
            let (ahead, back) = (
                h.swing(t, steer, SegmentDir::Forward),
                h.swing(t, steer, SegmentDir::Reverse),
            );
            let side = tangent(t, steer);
            &&& side.key() >= 0 ==> ahead.key() >= 0
            &&& side.key() <= 0 ==> ahead.key() <= 0
            &&& !ahead.nan()
            &&& opposite(back, ahead)
            &&& h.config.step_size == h.config.wheelbase ==> ahead == side
            &&& h.stride(SegmentDir::Forward) == h.config.step_size
            &&& h.stride(SegmentDir::Reverse) == h.config.step_size.negate()
        }),
{
    let (s, w) = (h.config.step_size, h.config.wheelbase);
    let side = tangent(t, steer);
    let one = Double::one();
    if s == w {
        w.lemma_over_itself();
        side.lemma_times_one();
    }
    s.lemma_times_one();
    one.lemma_negate();
    s.lemma_times_commutes(one.negate());
    one.lemma_times_negate(s);
    s.lemma_negate();
    s.lemma_over_side(w);
    s.lemma_over_negate(w);
    let r = s.over(w);
    r.lemma_negate();
    side.lemma_times_keeps_side(r);
    r.lemma_times_negate(side);
    r.times(side).lemma_negate();
}

/// The steering angles go up from the sharpest right turn.
pub proof fn law_steer_angles(h: HybridAStar, i: u64, j: u64)
    requires
        h.config.num_steer_angles > 1,
        h.config.max_steering_angle.nonnegative(),
        Double::of(2).times(h.config.max_steering_angle).finite(),
        1 <= i <= j,
        Double::of(2).times(h.config.max_steering_angle).times(Double::of(j)).finite(),
        Double::of(h.config.num_steer_angles as u64).minus(Double::one()).positive(),
    ensures
        h.config.max_steering_angle.negate().le(steer_angle(&h.config, i as int)),
        steer_angle(&h.config, i as int).le(steer_angle(&h.config, j as int)),
{
    let m = h.config.max_steering_angle;
    let n = Double::of(h.config.num_steer_angles as u64).minus(Double::one());
    let two = Double::of(2);
    Double::lemma_of(2);
    Double::lemma_of(i);
    Double::lemma_of(j);
    Double::lemma_of_order(i, j);
    m.lemma_negate();
    two.lemma_times_monotone(m, m);
    let w = two.times(m);
    let (a, b) = (w.times(Double::of(i)), w.times(Double::of(j)));
    w.lemma_times_monotone(Double::of(i), Double::of(j));
    Double::lemma_over_monotone(a, b, n);
    m.negate().lemma_plus_grows(a.over(n));
    m.negate().lemma_plus_grows(b.over(n));
    Double::lemma_plus_monotone(m.negate(), m.negate(), a.over(n), b.over(n));
}

/// How far a heading is off that of the goal.
pub open spec fn turned_off(theta: Double, goal: Pose) -> int {
    theta.value() - goal.theta.value()
}

/// The estimate is nothing at the goal with its heading. It grows with the distance and
/// with the angle that is left to turn, to either side alike.
pub proof fn law_heuristic(
    x: Double,
    y: Double,
    theta: Double,
    goal: &Pose,
    x2: Double,
    y2: Double,
    theta2: Double,
    goal2: &Pose,
)
    requires
        theta.finite() && goal.theta.finite() && theta2.finite() && goal2.theta.finite(),
        ({
            let (a, b) = (turned_off(theta, *goal), turned_off(theta2, *goal2));
            &&& -pi().value() <= b <= pi().value()
            &&& -b <= a <= b || b <= a <= -b
        }),
        distance(goal.x, goal.y, x, y).finite() && distance(goal2.x, goal2.y, x2, y2).finite(),
        distance(goal.x, goal.y, x, y).le(distance(goal2.x, goal2.y, x2, y2)),
    ensures
        heuristic(x, y, theta, goal).le(heuristic(x2, y2, theta2, goal2)),
        Double::zero().le(heuristic(x, y, theta, goal)),
        distance(goal.x, goal.y, x, y).mag() == 0 && turned_off(theta, *goal) == 0
            ==> heuristic(x, y, theta, goal).key() == 0,
{
    let (a, b) = (turned_off(theta, *goal), turned_off(theta2, *goal2));
    lemma_off(theta, goal.theta);
    lemma_off(theta2, goal2.theta);
    lemma_rounded_negate(a);
    lemma_rounded_negate(b);
    lemma_rounded_zero();
    if b >= 0 {
        lemma_rounded_monotone(a, b);
        lemma_rounded_monotone(-b, a);
    } else {
        lemma_rounded_monotone(a, -b);
        lemma_rounded_monotone(b, a);
    }
    let (u, v) = (
        normalize_angle(theta.minus(goal.theta)).abs(),
        normalize_angle(theta2.minus(goal2.theta)).abs(),
    );
    let (d, e) = (distance(goal.x, goal.y, x, y), distance(goal2.x, goal2.y, x2, y2));
    law_distance_is_not_negative(goal.x, goal.y, x, y);
    law_distance_is_not_negative(goal2.x, goal2.y, x2, y2);
    let w = heading_weight();
    w.lemma_times_monotone(u, v);
    d.lemma_plus_nonnegative(w.times(u));
    e.lemma_plus_nonnegative(w.times(v));
    Double::lemma_plus_monotone(d, e, w.times(u), w.times(v));
    if d.mag() == 0 && a == 0 {
        w.lemma_times_zero(u);
        d.lemma_plus_nothing(w.times(u));
    }
}

proof fn lemma_off(a: Double, b: Double)
    requires
        a.finite() && b.finite(),
        -pi().value() <= a.value() - b.value() <= pi().value(),
    ensures
        normalize_angle(a.minus(b)).finite(),
        normalize_angle(a.minus(b)).key() == rounded(a.value() - b.value()),
{
    let d = a.value() - b.value();
    a.lemma_minus(b);
    lemma_turn();
    pi().lemma_negate();
    pi().lemma_rounded_value();
    pi().negate().lemma_rounded_value();
    lemma_rounded_monotone(d, pi().value());
    lemma_rounded_monotone(-pi().value(), d);
    law_normalize_angle(a.minus(b));
}

/// Near obstacles a step costs the more the nearer they are, and from the decay distance
/// on it costs nothing more.
pub proof fn law_proximity_cost(
    h: HybridAStar,
    task: Task,
    x: Double,
    y: Double,
    x2: Double,
    y2: Double,
)
    requires
        task.clearance matches Some(f) ==> {
            let (d, e) = (f.distance_at(x, y), f.distance_at(x2, y2));
            d.nonnegative() && e.nonnegative() && e.le(d)
        },
        h.config.clearance_cost_weight.nonnegative() && h.config.step_size.nonnegative(),
        h.config.clearance_cost_weight.times(h.config.step_size).finite(),
        h.config.clearance_decay_m.positive(),
    ensures
        h.proximity_cost(task, x, y).le(h.proximity_cost(task, x2, y2)),
        Double::zero().le(h.proximity_cost(task, x, y)),
        h.config.step_size.mag() == 0 ==> h.proximity_cost(task, x, y).key() == 0,
        task.clearance is None ==> h.proximity_cost(task, x, y) == Double::zero(),
        task.clearance matches Some(f) ==> h.config.clearance_decay_m.le(f.distance_at(x, y))
            ==> h.proximity_cost(task, x, y) == Double::zero(),
{
    if let Some(f) = task.clearance {
        let (d, e) = (f.distance_at(x, y), f.distance_at(x2, y2));
        let m = h.config.clearance_decay_m;
        let one = Double::one();
        let w = h.config.clearance_cost_weight.times(h.config.step_size);
        if h.config.step_size.mag() == 0 {
            h.config.clearance_cost_weight.lemma_times_zero(h.config.step_size);
            if d.lt(m) {
                lemma_share(d, m);
                one.minus(d.over(m)).lemma_times_zero(w);
            }
        }
        h.config.clearance_cost_weight.lemma_times_monotone(
            h.config.step_size,
            h.config.step_size,
        );
        if e.lt(m) {
            lemma_share(e, m);
            if d.lt(m) {
                lemma_share(d, m);
                Double::lemma_over_monotone(e, d, m);
                Double::lemma_minus_monotone(one, one, d.over(m), e.over(m));
                w.lemma_times_monotone(one.minus(d.over(m)), one.minus(e.over(m)));
            } else {
                w.lemma_times_monotone(one.minus(e.over(m)), one.minus(e.over(m)));
            }
        }
    }
}

/// What is left of one after a share of less than one.
proof fn lemma_share(d: Double, m: Double)
    requires
        d.nonnegative() && m.positive(),
        d.lt(m),
    ensures
        Double::one().minus(d.over(m)).nonnegative(),
        d.over(m).finite(),
{
    let one = Double::one();
    m.lemma_over_itself();
    Double::lemma_over_monotone(d, m, m);
    one.lemma_minus(d.over(m));
    one.lemma_minus(one);
    lemma_rounded_zero();
    Double::lemma_minus_monotone(one, one, one, d.over(m));
    one.lemma_minus_shrinks(d.over(m));
}

/// A step forward costs no more than one back, holding a direction no more than changing
/// it, and a straight step no more than one with the wheels turned, to either side alike.
pub proof fn law_step_cost(
    h: HybridAStar,
    task: Task,
    from: SegmentDir,
    dir: SegmentDir,
    steer: Double,
    sharper: Double,
    x: Double,
    y: Double,
)
    requires
        h.config.step_size.nonnegative(),
        Double::one().le(h.config.reverse_cost_multiplier),
        h.config.reverse_cost_multiplier.finite(),
        h.config.step_size.times(h.config.reverse_cost_multiplier).finite(),
        h.config.direction_switch_penalty.nonnegative(),
        Double::zero().le(h.proximity_cost(task, x, y)),
        steer.finite() && sharper.finite() && steer.mag() <= sharper.mag(),
    ensures
        h.step_cost(task, SegmentDir::Forward, SegmentDir::Forward, steer, x, y).le(
            h.step_cost(task, SegmentDir::Reverse, SegmentDir::Reverse, steer, x, y),
        ),
        h.step_cost(task, dir, dir, steer, x, y).le(h.step_cost(task, from, dir, steer, x, y)),
        h.step_cost(task, from, dir, steer, x, y).le(
            h.step_cost(task, from, dir, sharper, x, y),
        ),
        steer.mag() == sharper.mag() ==> h.step_cost(task, from, dir, steer, x, y)
            == h.step_cost(task, from, dir, sharper, x, y),
        Double::zero().le(h.step_cost(task, from, dir, steer, x, y)),
{
    let (s, m) = (h.config.step_size, h.config.reverse_cost_multiplier);
    let (z, one) = (Double::zero(), Double::one());
    let half = Double::half();
    let near = h.proximity_cost(task, x, y);
    let pay = h.config.direction_switch_penalty;
    s.lemma_times_one();
    s.lemma_times_monotone(one, m);
    half.lemma_times_monotone(steer.abs(), sharper.abs());
    let (a, b) = (half.times(steer.abs()), half.times(sharper.abs()));
    let back = s.times(m);
    lemma_order_of_sums(s, back, a, a, near, z, z);
    lemma_order_of_sums(s, s, a, a, near, z, pay);
    lemma_order_of_sums(back, back, a, a, near, z, pay);
    lemma_order_of_sums(s, s, a, b, near, z, z);
    lemma_order_of_sums(s, s, a, b, near, pay, pay);
    lemma_order_of_sums(back, back, a, b, near, z, z);
    lemma_order_of_sums(back, back, a, b, near, pay, pay);
}

proof fn lemma_order_of_sums(
    a: Double,
    b: Double,
    c: Double,
    d: Double,
    e: Double,
    f: Double,
    g: Double,
)
    requires
        Double::zero().le(a) && a.le(b),
        Double::zero().le(c) && c.le(d),
        Double::zero().le(e),
        Double::zero().le(f) && f.le(g),
    ensures
        a.plus(c).plus(e).plus(f).le(b.plus(d).plus(e).plus(g)),
        Double::zero().le(a.plus(c).plus(e).plus(f)),
        Double::zero().le(b.plus(d).plus(e).plus(g)),
{
    a.lemma_plus_nonnegative(c);
    b.lemma_plus_nonnegative(d);
    a.plus(c).lemma_plus_nonnegative(e);
    b.plus(d).lemma_plus_nonnegative(e);
    a.plus(c).plus(e).lemma_plus_nonnegative(f);
    b.plus(d).plus(e).lemma_plus_nonnegative(g);
    Double::lemma_plus_monotone(a, b, c, d);
    Double::lemma_plus_monotone(a.plus(c), b.plus(d), e, e);
    Double::lemma_plus_monotone(a.plus(c).plus(e), b.plus(d).plus(e), f, g);
}

/// Along the search the cost never falls, and the estimate of the whole never falls short
/// of the cost so far.
pub proof fn law_costs_add_up(
    h: HybridAStar,
    t: Trig,
    task: Task,
    node: Node,
    idx: usize,
    steer: Double,
    dir: SegmentDir,
)
    requires
        node.g_cost.nonnegative(),
        ({
            let (x, y, theta) = h.stepped(t, node.x, node.y, node.theta, steer, dir);
            &&& h.step_cost(task, node.dir, dir, steer, x, y).nonnegative()
            &&& Double::zero().le(heuristic(x, y, theta, task.goal))
        }),
        h.child(t, task, node, idx, steer, dir).g_cost.finite(),
    ensures
        ({
            let c = h.child(t, task, node, idx, steer, dir);
            &&& node.g_cost.le(c.g_cost)
            &&& c.g_cost.le(c.f_cost)
            &&& c.parent_idx == Some(idx) && c.steering == steer && c.dir == dir
        }),
{
    let (x, y, theta) = h.stepped(t, node.x, node.y, node.theta, steer, dir);
    let c = h.child(t, task, node, idx, steer, dir);
    node.g_cost.lemma_plus_grows(h.step_cost(task, node.dir, dir, steer, x, y));
    c.g_cost.lemma_plus_grows(heuristic(x, y, theta, task.goal));
}

/// A pose is taken for the nearest point of the search's raster: in each coordinate no more
/// than half a step away, and in its heading likewise. On the other side of the origin the
/// same holds with the sign changed.
pub proof fn law_raster(h: HybridAStar, x: Double, y: Double, theta: Double, dir: SegmentDir)
    requires
        x.over(h.config.xy_resolution).finite() && y.over(h.config.xy_resolution).finite(),
        normalize_angle(theta).over(h.config.theta_resolution).finite(),
        x.over(h.config.xy_resolution).whole() < i32::MAX,
        y.over(h.config.xy_resolution).whole() < i32::MAX,
        normalize_angle(theta).over(h.config.theta_resolution).whole() < i32::MAX,
    ensures
        ({
            let (i, j, k, _) = h.discretize(x, y, theta, dir);
            let one = pow2(1074) as int;
            let (u, v) = (x.over(h.config.xy_resolution), y.over(h.config.xy_resolution));
            let w = normalize_angle(theta).over(h.config.theta_resolution);
            &&& -one <= 2 * (u.value() - i * one) <= one
            &&& -one <= 2 * (v.value() - j * one) <= one
            &&& -one <= 2 * (w.value() - k * one) <= one
            &&& h.discretize(x.negate(), y.negate(), theta, dir).0 == -i
            &&& h.discretize(x.negate(), y.negate(), theta, dir).1 == -j
        }),
{
    let (u, v) = (x.over(h.config.xy_resolution), y.over(h.config.xy_resolution));
    u.law_round();
    v.law_round();
    normalize_angle(theta).over(h.config.theta_resolution).law_round();
    x.lemma_over_negate(h.config.xy_resolution);
    y.lemma_over_negate(h.config.xy_resolution);
}

/// Along a path the cost never falls. Near obstacles it grows by more the nearer they are to
/// the middle of the segment; from the decay distance on it grows as if there were none.
pub proof fn law_path_cost_near_obstacles(
    cost: Double,
    a: PathWaypoint,
    b: PathWaypoint,
    field: &ClearanceField,
    near: &ClearanceField,
    weight: Double,
    decay_m: Double,
    penalties: CostPenalties,
)
    requires
        weight.positive() && decay_m.positive(),
        distance(a.x, a.y, b.x, b.y).finite(),
        weight.times(distance(a.x, a.y, b.x, b.y)).finite(),
        Double::zero().le(cost_with(cost, a, b, None, weight, decay_m, penalties)),
        ({
            let half = Double::half();
            let (x, y) = (a.x.plus(b.x).times(half), a.y.plus(b.y).times(half));
            &&& near.distance_at(x, y).nonnegative() && field.distance_at(x, y).nonnegative()
            &&& near.distance_at(x, y).le(field.distance_at(x, y))
        }),
    ensures
        ({
            let free = cost_with(cost, a, b, None, weight, decay_m, penalties);
            let far = cost_with(cost, a, b, Some(field), weight, decay_m, penalties);
            let close = cost_with(cost, a, b, Some(near), weight, decay_m, penalties);
            let half = Double::half();
            let (x, y) = (a.x.plus(b.x).times(half), a.y.plus(b.y).times(half));
            &&& free.le(far) && far.le(close)
            &&& decay_m.le(field.distance_at(x, y)) ==> far == free
        }),
{
    let half = Double::half();
    let (x, y) = (a.x.plus(b.x).times(half), a.y.plus(b.y).times(half));
    let (d, e) = (field.distance_at(x, y), near.distance_at(x, y));
    let one = Double::one();
    let ds = distance(a.x, a.y, b.x, b.y);
    law_distance_is_not_negative(a.x, a.y, b.x, b.y);
    let w = weight.times(ds);
    weight.lemma_times_monotone(ds, ds);
    let free = cost_with(cost, a, b, None, weight, decay_m, penalties);
    if e.lt(decay_m) {
        lemma_share(e, decay_m);
        let q = w.times(one.minus(e.over(decay_m)));
        w.lemma_times_monotone(one.minus(e.over(decay_m)), one.minus(e.over(decay_m)));
        free.lemma_rises(q);
        if d.lt(decay_m) {
            lemma_share(d, decay_m);
            let p = w.times(one.minus(d.over(decay_m)));
            Double::lemma_over_monotone(e, d, decay_m);
            Double::lemma_minus_monotone(one, one, d.over(decay_m), e.over(decay_m));
            w.lemma_times_monotone(one.minus(d.over(decay_m)), one.minus(e.over(decay_m)));
            free.lemma_rises(p);
            free.lemma_plus_nonnegative(p);
            free.lemma_plus_nonnegative(q);
            Double::lemma_plus_monotone(free, free, p, q);
        }
    }
}

impl Double {
    proof fn lemma_rises(self, o: Double)
        requires
            Double::zero().le(self) && Double::zero().le(o),
        ensures
            self.le(self.plus(o)),
    {
        if self.finite() {
            self.lemma_plus_grows(o);
        } else {
            reveal(Double::spec_plus);
        }
    }
}

/// Going back costs its multiple of the way and a change of direction its penalty, on top
/// of what the path has cost so far.
pub proof fn law_path_cost_of_a_segment(
    cost: Double,
    a: PathWaypoint,
    b: PathWaypoint,
    weight: Double,
    decay_m: Double,
    penalties: CostPenalties,
)
    ensures
        ({
            let ds = distance(a.x, a.y, b.x, b.y);
            let back = ds.times(penalties.reverse_cost_multiplier);
            let pay = penalties.direction_switch_penalty;
            let next = cost_with(cost, a, b, None, weight, decay_m, penalties);
            match (a.dir, b.dir) {
                (SegmentDir::Forward, SegmentDir::Forward) => next == cost.plus(ds),
                (SegmentDir::Reverse, SegmentDir::Forward) => next == cost.plus(ds).plus(pay),
                (SegmentDir::Reverse, SegmentDir::Reverse) => next == cost.plus(back),
                (SegmentDir::Forward, SegmentDir::Reverse) => next == cost.plus(back).plus(pay),
            }
        }),
{
}

/// A pose driven forward and one driven back are never taken for the same.
pub proof fn law_directions_are_told_apart(h: HybridAStar, x: Double, y: Double, theta: Double)
    ensures
        h.discretize(x, y, theta, SegmentDir::Forward) != h.discretize(
            x,
            y,
            theta,
            SegmentDir::Reverse,
        ),
{
    assert(h.discretize(x, y, theta, SegmentDir::Forward).3 == 0u8);
    assert(h.discretize(x, y, theta, SegmentDir::Reverse).3 == 1u8);
}

/// A length is cut into just as many pieces as it takes for none to be longer than the
/// step, and into one at least.
pub proof fn law_pieces(len: Double, step: Double)
    requires
        len.nonnegative() && step.positive(),
        len.over(step).finite() && len.over(step).whole() < u64::MAX,
    ensures
        ({
            let (n, q, one) = (pieces(len, step) as int, len.over(step), pow2(1074) as int);
            &&& n >= 1
            &&& q.value() <= n * one
            &&& n > 1 ==> n * one - one < q.value()
        }),
{
    let q = len.over(step);
    len.lemma_over_side(step);
    q.law_counts();
    lemma_pow2_pos(1074);
    let (c, one) = (q.ceil_count() as int, pow2(1074) as int);
    assert(c < 1 ==> c * one <= one) by (nonlinear_arith)
        requires
            c >= 0,
            one > 0,
    ;
}

/// The first sample of a segment is its start, the last one is a whole step from the start
/// to its end.
pub proof fn law_samples_of_a_segment(a: (Double, Double), b: (Double, Double), n: u64)
    requires
        n >= 1,
        a.0.finite() && a.1.finite(),
        b.0.minus(a.0).finite() && b.1.minus(a.1).finite(),
    ensures
        alike(sample(a, b, 0, n).0, a.0) && alike(sample(a, b, 0, n).1, a.1),
        sample(a, b, n, n).0 == a.0.plus(b.0.minus(a.0)),
        sample(a, b, n, n).1 == a.1.plus(b.1.minus(a.1)),
{
    let (d, e) = (b.0.minus(a.0), b.1.minus(a.1));
    let m = Double::of(n);
    Double::lemma_of(n);
    m.lemma_over_itself();
    d.lemma_times_one();
    e.lemma_times_one();
    let z = Double::of(0).over(m);
    lemma_of_nothing();
    Double::of(0).lemma_over_side(m);
    d.lemma_times_zero(z);
    e.lemma_times_zero(z);
    a.0.lemma_plus_nothing(d.times(z));
    a.1.lemma_plus_nothing(e.times(z));
}

proof fn lemma_of_nothing()
    ensures
        Double::of(0).mag() == 0 && !Double::of(0).nan(),
{
    lemma_encode_zero(1);
}

} // verus!
