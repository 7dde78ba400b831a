//! What the dynamic window holds, what it aims at, and how its choices are weighed.
use crate::geometry::distance;
use crate::global_planner::PathWaypoint;
use crate::ieee::algebra::opposite;
use crate::ieee::double::{decode, lemma_encode_decode, Double};
use crate::ieee::laws::{lemma_encode_ratio, lemma_rounded_monotone, lemma_rounded_negate};
use crate::local_planner::arc::cycle;
use crate::local_planner::dwa::{
    first_beyond, goal_reach, local_goal, spacing, velocity_score, DwaConfig, Query, Window,
};
use crate::local_planner::motion::RobotState;
use vstd::arithmetic::power2::{lemma_pow2_pos, pow2};
use vstd::prelude::*;

verus! {

/// The yaw rates that can be reached hold the present one, stay within the limit, and are
/// no farther from it than one cycle allows. Turning the other way they are the same on
/// the other side.
pub proof fn law_rates(c: DwaConfig, s: RobotState, other: RobotState)
    requires
        c.max_angular_accel.nonnegative(),
        c.max_angular_speed.nonnegative(),
        s.angular_vel.finite(),
        s.angular_vel.abs().le(c.max_angular_speed),
        other.angular_vel == s.angular_vel.negate(),
    ensures
        ({
            let (lo, hi) = Window::rates(c, s);
            let (low, high) = Window::rates(c, other);
            let reach = c.max_angular_accel.times(cycle());
            &&& lo.le(s.angular_vel) && s.angular_vel.le(hi)
            &&& c.max_angular_speed.negate().le(lo) && hi.le(c.max_angular_speed)
            &&& s.angular_vel.minus(reach).le(lo) && hi.le(s.angular_vel.plus(reach))
            &&& opposite(low, hi) && opposite(high, lo)
        }),
{
    let w = s.angular_vel;
    let reach = c.max_angular_accel.times(cycle());
    Double::lemma_ratio_number(1, 10);
    Double::lemma_ratio_le_one(1, 10);
    c.max_angular_accel.lemma_times_shrinks(cycle());
    c.max_angular_speed.lemma_negate();
    w.lemma_negate();
    reach.lemma_negate();
    w.lemma_minus(reach);
    w.lemma_plus(reach);
    w.negate().lemma_minus(reach);
    w.negate().lemma_plus(reach);
    w.lemma_minus_shrinks(reach);
    w.lemma_plus_grows(reach);
    lemma_rounded_negate(w.value() - reach.value());
    lemma_rounded_negate(w.value() + reach.value());
}

/// The samples start at the low end of the window and never go down from one to the next;
/// with two samples the second lies a full window above.
pub proof fn law_samples(c: DwaConfig, s: RobotState, target: Double, i: u64, j: u64)
    requires
        1 <= i <= j,
        ({
            let (v, w) = (Window::speeds(c, s, target), Window::rates(c, s));
            &&& v.0.finite() && v.1.finite() && v.0.le(v.1)
            &&& w.0.finite() && w.1.finite() && w.0.le(w.1)
            &&& v.1.minus(v.0).finite() && w.1.minus(w.0).finite()
        }),
    ensures
        ({
            let window = Window::of(c, s, target);
            let (v, w) = (Window::speeds(c, s, target), Window::rates(c, s));
            &&& window.v_min == v.0 && window.w_min == w.0
            &&& v.0.le(window.v(i)) && window.v(i).le(window.v(j))
            &&& w.0.le(window.w(i)) && window.w(i).le(window.w(j))
            &&& c.v_samples == 2 ==> window.v_step == v.1.minus(v.0)
            &&& c.w_samples == 2 ==> window.w_step == w.1.minus(w.0)
        }),
{
    let window = Window::of(c, s, target);
    let (v, w) = (Window::speeds(c, s, target), Window::rates(c, s));
    lemma_step(v.0, v.1, c.v_samples);
    lemma_step(w.0, w.1, c.w_samples);
    lemma_sample(v.0, window.v_step, i, j);
    lemma_sample(w.0, window.w_step, i, j);
}

proof fn lemma_step(lo: Double, hi: Double, n: usize)
    requires
        lo.finite() && hi.finite() && lo.le(hi),
        hi.minus(lo).finite(),
    ensures
        spacing(lo, hi, n).nonnegative(),
        n == 2 ==> spacing(lo, hi, n) == hi.minus(lo),
{
    let d = hi.minus(lo);
    lo.lemma_taken_away();
    Double::lemma_minus_monotone(lo, hi, lo, lo);
    if n > 1 {
        let m = (n - 1) as u64;
        Double::lemma_of(m);
        d.lemma_over_side(Double::of(m));
        d.lemma_over_shrinks(Double::of(m));
        if n == 2 {
            Double::lemma_one();
            let bits: nat = 0x3ff0_0000_0000_0000;
            assert(Double::one().units() == decode(bits));
            assert(1nat * pow2(1074) == pow2(1074));
            Double::lemma_of_exact(1, 0x3ff0_0000_0000_0000);
            d.lemma_over_one();
        }
    }
}

impl Double {
    pub proof fn lemma_over_one(self)
        requires
            self.finite(),
        ensures
            self.over(Double::one()) == self,
    {
        reveal(Double::spec_over);
        Double::lemma_one();
        lemma_pow2_pos(1074);
        let p = pow2(1074);
        lemma_encode_ratio(self.units(), 1, p);
        lemma_encode_decode(self.mag());
    }
}

proof fn lemma_sample(lo: Double, step: Double, i: u64, j: u64)
    requires
        lo.finite(),
        step.nonnegative(),
        1 <= i <= j,
    ensures
        lo.le(lo.plus(Double::of(i).times(step))),
        lo.plus(Double::of(i).times(step)).le(lo.plus(Double::of(j).times(step))),
{
    Double::lemma_of(i);
    Double::lemma_of(j);
    Double::lemma_of_order(i, j);
    let (a, b) = (Double::of(i), Double::of(j));
    step.lemma_times_monotone(a, b);
    step.lemma_times_commutes(a);
    step.lemma_times_commutes(b);
    lo.lemma_plus_grows(a.times(step));
    lo.lemma_plus_grows(b.times(step));
    Double::lemma_plus_monotone(lo, lo, a.times(step), b.times(step));
}

/// A turn that can be steered can be steered to the other side too, and so can a wider
/// one, and so can it at more speed.
pub proof fn law_steerable(q: Query, v: Double, w: Double, faster: Double, wider: Double)
    requires
        q.config.max_curvature.nonnegative(),
        v.nonnegative() && faster.nonnegative() && v.le(faster),
        w.finite() && wider.finite() && wider.mag() <= w.mag(),
    ensures
        q.steerable(v, w.negate()) == q.steerable(v, w),
        q.steerable(v, w) ==> q.steerable(faster, wider),
        w.mag() == 0 ==> q.steerable(v, w),
{
    let k = q.config.max_curvature;
    let slack = Double::ratio(1, 1_000_000_000);
    Double::lemma_ratio_number(1, 1_000_000_000);
    w.lemma_negate();
    k.lemma_times_monotone(v, faster);
    k.lemma_times_commutes(v);
    k.lemma_times_commutes(faster);
    let (a, b) = (v.times(k), faster.times(k));
    a.lemma_plus_nonnegative(slack);
    b.lemma_plus_nonnegative(slack);
    Double::lemma_plus_monotone(a, b, slack, slack);
}

/// A speed scores the better the nearer it is to the target, from below as from above;
/// the target itself scores one.
pub proof fn law_nearer_speed_scores(v: Double, nearer: Double, target: Double, max: Double)
    requires
        v.finite() && nearer.finite() && target.finite() && max.finite(),
        -(v.value() - target.value()) <= nearer.value() - target.value() <= v.value()
            - target.value() || v.value() - target.value() <= nearer.value() - target.value()
            <= -(v.value() - target.value()),
        v.minus(target).finite(),
    ensures
        velocity_score(v, target, max).le(velocity_score(nearer, target, max)),
        velocity_score(target, target, max) == Double::one(),
{
    let d = max.max(Double::ratio(1, 10));
    Double::lemma_ratio_number(1, 10);
    v.lemma_minus(target);
    nearer.lemma_minus(target);
    let (x, y) = (v.value() - target.value(), nearer.value() - target.value());
    lemma_rounded_negate(x);
    lemma_rounded_negate(y);
    if x >= 0 {
        lemma_rounded_monotone(y, x);
        lemma_rounded_monotone(-x, y);
    } else {
        lemma_rounded_monotone(y, -x);
        lemma_rounded_monotone(x, y);
    }
    let (a, b) = (v.minus(target).abs(), nearer.minus(target).abs());
    assert(b.mag() <= a.mag());
    Double::lemma_over_monotone(b, a, d);
    let one = Double::one();
    one.lemma_less(b.over(d), a.over(d));
    target.lemma_taken_away();
    let z = target.minus(target).abs();
    z.lemma_over_side(d);
    one.lemma_plus_nothing(z.over(d).negate());
}

impl Double {
    proof fn lemma_less(self, a: Double, b: Double)
        requires
            self.finite(),
            Double::zero().le(a) && a.le(b),
        ensures
            self.minus(b).le(self.minus(a)),
    {
        reveal(Double::spec_plus);
        a.lemma_negate();
        b.lemma_negate();
        if b.finite() {
            self.lemma_minus(a);
            self.lemma_minus(b);
            Double::lemma_minus_monotone(self, self, b, a);
        }
    }
}

/// Between two speeds that score alike, the one nearer to the last command is rated no
/// worse.
pub proof fn law_steady_speed_is_rated(
    q: Query,
    p: Query,
    v: Double,
    heading: Double,
    far: Double,
    gap: Double,
)
    requires
        p == (Query { prev_v: p.prev_v, ..q }),
        q.config.weight_continuity.nonnegative(),
        v.finite() && q.prev_v.finite() && p.prev_v.finite() && q.config.max_speed.finite(),
        v.minus(q.prev_v).finite(),
        v.minus(p.prev_v).mag() <= v.minus(q.prev_v).mag(),
        !q.rated(v, heading, far, gap).nan() && !p.rated(v, heading, far, gap).nan(),
    ensures
        q.rated(v, heading, far, gap).le(p.rated(v, heading, far, gap)),
{
    let c = q.config;
    let d = c.max_speed.max(Double::ratio(1, 10));
    Double::lemma_ratio_number(1, 10);
    let (a, b) = (v.minus(q.prev_v).abs(), v.minus(p.prev_v).abs());
    Double::lemma_over_monotone(b, a, d);
    let (x, y) = (c.weight_continuity.times(a.over(d)), c.weight_continuity.times(b.over(d)));
    let rest = c.heading_weight.times(heading).minus(c.distance_weight.times(far)).plus(
        c.velocity_weight.times(velocity_score(v, q.target, c.max_speed)),
    ).plus(c.obstacle_weight.times(gap.min(Double::of(3)).over(Double::of(3))));
    rest.lemma_plus_number(x.negate());
    rest.lemma_plus_number(y.negate());
    x.lemma_negate();
    y.lemma_negate();
    if a.over(d).finite() {
        c.weight_continuity.lemma_times_monotone(b.over(d), a.over(d));
    } else {
        reveal(Double::spec_times);
        assert(x.nan() || x.key() >= y.key() || y.nan());
    }
    Double::lemma_minus_monotone(rest, rest, x, y);
}

/// The reach of the local goal is from one to three metres, grows with the speed, and is
/// the same forward and back.
pub proof fn law_goal_reach(s: RobotState, faster: RobotState)
    requires
        s.linear_vel.finite() && faster.linear_vel.finite(),
        s.linear_vel.mag() <= faster.linear_vel.mag(),
    ensures
        Double::one().le(goal_reach(s)) && goal_reach(s).le(Double::of(3)),
        goal_reach(s).le(goal_reach(faster)),
        s.linear_vel.mag() == faster.linear_vel.mag() ==> goal_reach(s) == goal_reach(faster),
{
    Double::lemma_ratio_number(13, 10);
    Double::lemma_of(3);
    let (a, b) = (s.linear_vel.abs(), faster.linear_vel.abs());
    Double::ratio(13, 10).lemma_times_monotone(a, b);
}

/// The local goal is the first point of the path that is out of reach, and the last one
/// where all are within reach; without a path it is where the robot is.
pub proof fn law_local_goal(s: RobotState, path: Seq<PathWaypoint>, i: int)
    requires
        0 <= i <= path.len(),
        forall|k: int|
            0 <= k < i ==> !goal_reach(s).le(
                #[trigger] distance(s.x, s.y, path[k].x, path[k].y),
            ),
    ensures
        i < path.len() && goal_reach(s).le(distance(s.x, s.y, path[i].x, path[i].y))
            ==> local_goal(s, path) == path[i],
        i == path.len() && i > 0 ==> local_goal(s, path) == path.last(),
        path.len() == 0 ==> local_goal(s, path).x == s.x && local_goal(s, path).y == s.y,
{
    lemma_beyond(s, path, i, 0);
}

proof fn lemma_beyond(s: RobotState, path: Seq<PathWaypoint>, i: int, k: int)
    requires
        0 <= k <= i <= path.len(),
        forall|k: int|
            0 <= k < i ==> !goal_reach(s).le(
                #[trigger] distance(s.x, s.y, path[k].x, path[k].y),
            ),
    ensures
        first_beyond(path, s.x, s.y, goal_reach(s), k) == first_beyond(
            path,
            s.x,
            s.y,
            goal_reach(s),
            i,
        ),
    decreases i - k,
{
    if k < i {
        assert(!goal_reach(s).le(distance(s.x, s.y, path[k].x, path[k].y)));
        lemma_beyond(s, path, i, k + 1);
    }
}

/// The window reaches as fast as one cycle allows, where neither the limit nor the target is
/// lower, and no slower than one cycle allows.
pub proof fn law_window_reaches(c: DwaConfig, s: RobotState, target: Double)
    requires
        c.max_speed.nonnegative() && c.max_acceleration.nonnegative(),
        s.linear_vel.nonnegative() && !target.nan(),
    ensures
        ({
            let (lo, hi) = Window::speeds(c, s, target);
            let reach = c.max_acceleration.times(cycle());
            let (up, down) = (s.linear_vel.plus(reach), s.linear_vel.minus(reach));
            &&& up.le(c.max_speed) && up.le(target) ==> hi == up
            &&& hi.le(up) && hi.le(c.max_speed)
            &&& down.le(Double::zero()) ==> lo.key() == 0 || lo == hi
            &&& Double::zero().le(down) && down.le(hi) ==> lo.key() == down.key()
        }),
{
    let reach = c.max_acceleration.times(cycle());
    let v = s.linear_vel;
    Double::lemma_ratio_number(1, 10);
    Double::lemma_ratio_le_one(1, 10);
    c.max_acceleration.lemma_times_shrinks(cycle());
    v.lemma_plus(reach);
    v.lemma_minus(reach);
    v.lemma_plus_grows(reach);
    v.lemma_minus_shrinks(reach);
}

/// A speed is rated the better the nearer it is to its target, and room beyond three metres
/// counts no more than three.
pub proof fn law_rated_for_speed_and_room(
    q: Query,
    p: Query,
    v: Double,
    heading: Double,
    far: Double,
    gap: Double,
    wider: Double,
)
    requires
        p == (Query { target: p.target, ..q }),
        q.config.velocity_weight.nonnegative(),
        velocity_score(v, q.target, q.config.max_speed).finite(),
        velocity_score(v, p.target, q.config.max_speed).finite(),
        velocity_score(v, q.target, q.config.max_speed).le(
            velocity_score(v, p.target, q.config.max_speed),
        ),
        !q.rated(v, heading, far, gap).nan() && !p.rated(v, heading, far, gap).nan(),
    ensures
        q.rated(v, heading, far, gap).le(p.rated(v, heading, far, gap)),
        Double::of(3).le(gap) && Double::of(3).le(wider) ==> q.rated(v, heading, far, gap)
            == q.rated(v, heading, far, wider),
{
    let c = q.config;
    let (a, b) = (
        velocity_score(v, q.target, c.max_speed),
        velocity_score(v, p.target, c.max_speed),
    );
    a.lemma_times_commutes(c.velocity_weight);
    b.lemma_times_commutes(c.velocity_weight);
    Double::lemma_times_order(a, b, c.velocity_weight);
    let (x, y) = (c.velocity_weight.times(a), c.velocity_weight.times(b));
    let first = c.heading_weight.times(heading).minus(c.distance_weight.times(far));
    let room = c.obstacle_weight.times(gap.min(Double::of(3)).over(Double::of(3)));
    let change = c.weight_continuity.times(
        v.minus(q.prev_v).abs().over(c.max_speed.max(Double::ratio(1, 10))),
    );
    let (s, t) = (first.plus(x), first.plus(y));
    s.plus(room).lemma_plus_number(change.negate());
    t.plus(room).lemma_plus_number(change.negate());
    s.lemma_plus_number(room);
    t.lemma_plus_number(room);
    first.lemma_plus_number(x);
    change.lemma_negate();
    Double::lemma_plus_monotone(first, first, x, y);
    Double::lemma_plus_monotone(s, t, room, room);
    Double::lemma_minus_monotone(s.plus(room), t.plus(room), change, change);
    Double::lemma_of(3);
}

} // verus!
