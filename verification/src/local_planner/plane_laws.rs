//! How motions and sights turn with the plane, for every heading.
use crate::ieee::algebra::{alike, opposite};
use crate::ieee::double::Double;
use crate::ieee::laws::rounded;
use crate::local_planner::arc::{Spot, Stop};
use crate::local_planner::motion::{projected, stepped, straight_rate};
use crate::local_planner::mpc::{ControlInput, MpcConfig};
use crate::local_planner::reverse::backed_step;
use crate::local_planner::{RobotState, TrajPoint};
use crate::trig::{cosine, quarter, sine, tangent, Trig};
use vstd::prelude::*;

verus! {

/// The second pose is the first after a quarter turn of the plane about its origin.
pub open spec fn turned_pose(t: Trig, p: TrajPoint, q: TrajPoint) -> bool {
    quarter(t, p.theta, q.theta) && q.x == p.y.negate() && q.y == p.x
}

/// The points lie a quarter turn apart.
pub open spec fn turned_point(p: TrajPoint, q: TrajPoint) -> bool {
    opposite(q.x, p.y) && alike(q.y, p.x)
}

/// The pose looks along the x axis.
pub open spec fn looks_along_x(t: Trig, theta: Double) -> bool {
    cosine(t, theta) == Double::one() && sine(t, theta) == Double::zero()
}

proof fn lemma_go(x: Double, y: Double, v: Double, c: Double, s: Double, d: Double)
    ensures
        opposite(
            y.negate().plus(v.times(s.negate()).times(d)),
            y.plus(v.times(s).times(d)),
        ),
{
    y.lemma_negate();
    s.lemma_negate();
    s.negate().lemma_times_opposite(v, s, v);
    v.times(s.negate()).lemma_times_opposite(d, v.times(s), d);
    y.negate().lemma_plus_opposite(v.times(s.negate()).times(d), y, v.times(s).times(d));
}

/// A step of motion turns with the heading that it starts from.
pub proof fn law_step_turns_with_the_plane(
    t: Trig,
    p: TrajPoint,
    q: TrajPoint,
    v: Double,
    w: Double,
    dt: Double,
)
    requires
        turned_pose(t, p, q),
    ensures
        turned_point(stepped(t, p, v, w, dt), stepped(t, q, v, w, dt)),
{
    lemma_go(p.x, p.y, v, cosine(t, p.theta), sine(t, p.theta), dt);
}

/// A robot that looks along the x axis moves along it, by speed times time, and turns
/// by yaw rate times time: to the left where the yaw rate is positive.
pub proof fn law_step_goes_ahead(t: Trig, p: TrajPoint, v: Double, w: Double, dt: Double)
    requires
        looks_along_x(t, p.theta),
        p.x.finite() && p.y.finite() && p.theta.finite(),
        v.finite() && dt.finite() && w.times(dt).finite(),
    ensures
        ({
            let q = stepped(t, p, v, w, dt);
            &&& q.x == p.x.plus(v.times(dt))
            &&& alike(q.y, p.y)
            &&& q.theta.key() == rounded(p.theta.value() + w.times(dt).value())
        }),
{
    let z = Double::zero();
    v.lemma_times_one();
    v.lemma_times_zero(z);
    dt.lemma_times_zero(v.times(z));
    p.y.lemma_plus_nothing(v.times(z).times(dt));
    p.theta.lemma_plus(w.times(dt));
}

/// In reverse a step goes the other way.
pub proof fn law_step_back(t: Trig, p: TrajPoint, v: Double, w: Double, dt: Double)
    requires
        p.x == Double::zero() && p.y == Double::zero(),
    ensures
        ({
            let (a, b) = (stepped(t, p, v, w, dt), stepped(t, p, v.negate(), w, dt));
            &&& opposite(b.x, a.x)
            &&& opposite(b.y, a.y)
            &&& b.theta == a.theta
        }),
{
    let (c, s) = (cosine(t, p.theta), sine(t, p.theta));
    let z = Double::zero();
    v.lemma_negate();
    v.negate().lemma_times_opposite(c, v, c);
    v.negate().lemma_times_opposite(s, v, s);
    v.negate().times(c).lemma_times_opposite(dt, v.times(c), dt);
    v.negate().times(s).lemma_times_opposite(dt, v.times(s), dt);
    z.lemma_plus_opposite(v.negate().times(c).times(dt), z, v.times(c).times(dt));
    z.lemma_plus_opposite(v.negate().times(s).times(dt), z, v.times(s).times(dt));
}

/// A projected state turns with the heading that it starts from.
pub proof fn law_projection_turns_with_the_plane(
    t: Trig,
    a: RobotState,
    b: RobotState,
    tau: Double,
)
    requires
        turned_pose(t, a.pose(), b.pose()),
        b.linear_vel == a.linear_vel && b.angular_vel == a.angular_vel,
        quarter(t, projected(t, a, tau).theta, projected(t, b, tau).theta),
    ensures
        turned_point(projected(t, a, tau).pose(), projected(t, b, tau).pose()),
{
    let (v, w) = (a.linear_vel, a.angular_vel);
    let (c0, s0) = (cosine(t, a.theta), sine(t, a.theta));
    a.y.lemma_negate();
    lemma_go(a.x, a.y, v, c0, s0, tau);
    if !tau.le(Double::zero()) && !w.abs().lt(straight_rate()) {
        let th = projected(t, a, tau).theta;
        let (c1, s1) = (cosine(t, th), sine(t, th));
        let r = v.over(w);
        s1.lemma_negate();
        s0.lemma_negate();
        let (ds, dc) = (s1.minus(s0), c1.minus(c0));
        let back = s1.negate().minus(s0.negate());
        s1.negate().lemma_minus_opposite(s0.negate(), s1, s0);
        back.lemma_times_opposite(r, ds, r);
        r.times(back).lemma_negate();
        r.times(ds).lemma_negate();
        r.times(dc).lemma_negate();
        a.x.lemma_plus_alike(r.times(back).negate(), a.x, r.times(ds));
        b.x.lemma_plus_opposite(r.times(dc), a.y, r.times(dc).negate());
    }
}

/// A robot that looks along the x axis is projected along it, or along the arc that
/// bends to the side of its yaw rate.
pub proof fn law_projection_goes_ahead(t: Trig, s: RobotState, tau: Double)
    requires
        looks_along_x(t, s.theta),
        s.x == Double::zero() && s.y == Double::zero(),
        Double::zero().lt(tau) && tau.finite(),
        s.linear_vel.finite() && s.angular_vel.finite(),
    ensures
        ({
            let p = projected(t, s, tau);
            let (v, w) = (s.linear_vel, s.angular_vel);
            let r = v.over(w);
            &&& w.abs().lt(straight_rate()) ==> alike(p.x, v.times(tau)) && p.y.key() == 0
                && !p.y.nan()
            &&& !w.abs().lt(straight_rate()) ==> alike(
                p.x,
                r.times(sine(t, p.theta).minus(Double::zero())),
            ) && alike(p.y, r.times(Double::one().minus(cosine(t, p.theta))))
        }),
{
    let z = Double::zero();
    let (v, w) = (s.linear_vel, s.angular_vel);
    v.lemma_times_one();
    v.lemma_times_zero(z);
    tau.lemma_times_zero(v.times(z));
    z.lemma_plus_nothing(v.times(z).times(tau));
    lemma_from_zero(v.times(tau));
    if !w.abs().lt(straight_rate()) {
        let p = projected(t, s, tau);
        let r = v.over(w);
        let (c, one) = (cosine(t, p.theta), Double::one());
        lemma_from_zero(r.times(sine(t, p.theta).minus(z)));
        c.lemma_minus_swapped(one);
        c.minus(one).lemma_times_opposite(r, one.minus(c), r);
        lemma_from_zero(r.times(c.minus(one)));
    }
}

proof fn lemma_from_zero(a: Double)
    ensures
        alike(Double::zero().plus(a), a),
        opposite(Double::zero().minus(a), a),
{
    a.lemma_negate();
    a.lemma_zero_plus();
    a.negate().lemma_zero_plus();
}

/// The optimiser's robot moves like the one of the other planners, with the yaw rate
/// that its steering gives it.
pub proof fn law_steered_step(c: MpcConfig, t: Trig, p: TrajPoint, u: ControlInput)
    ensures
        c.driven(t, p, u) == stepped(
            t,
            p,
            u.velocity,
            u.velocity.over(c.wheelbase).times(tangent(t, u.steering)),
            c.dt,
        ),
{
}

/// The robot backs up against its heading, which turns as it goes.
pub proof fn law_backing_turns_with_the_plane(
    t: Trig,
    p: TrajPoint,
    q: TrajPoint,
    kappa: Double,
    ds: Double,
)
    requires
        quarter(t, backed_step(t, p, kappa, ds).theta, backed_step(t, q, kappa, ds).theta),
        q.x == p.y.negate() && q.y == p.x,
    ensures
        turned_point(backed_step(t, p, kappa, ds), backed_step(t, q, kappa, ds)),
{
    let th = backed_step(t, p, kappa, ds).theta;
    let (c, s) = (cosine(t, th), sine(t, th));
    p.y.lemma_negate();
    s.lemma_negate();
    s.negate().lemma_times_opposite(ds, s, ds);
    q.x.lemma_minus_opposite(s.negate().times(ds), p.y, s.times(ds));
}

/// Backing up from a heading along the x axis goes back along it, and the heading
/// turns by the curvature times the way: to the left where it is positive.
pub proof fn law_backing_goes_back(t: Trig, p: TrajPoint, kappa: Double, ds: Double)
    requires
        looks_along_x(t, backed_step(t, p, kappa, ds).theta),
        p.x.finite() && p.y.finite() && p.theta.finite(),
        ds.finite() && kappa.times(ds).finite(),
    ensures
        ({
            let q = backed_step(t, p, kappa, ds);
            &&& q.x == p.x.minus(ds)
            &&& alike(q.y, p.y)
            &&& q.theta.key() == rounded(p.theta.value() + kappa.times(ds).value())
        }),
{
    let z = Double::zero();
    ds.lemma_times_one();
    ds.lemma_times_zero(z);
    z.times(ds).lemma_negate();
    p.y.lemma_plus_nothing(z.times(ds).negate());
    p.theta.lemma_plus(kappa.times(ds));
}

/// A stop goes on in the direction of travel, along the heading that it turns to, and
/// turns to the side of the yaw rate, driving forward and in reverse.
pub proof fn law_stop_turns_with_the_plane(t: Trig, stop: Stop, p: Spot, q: Spot, s: Double)
    requires
        quarter(t, stop.next(t, p, s).pose.theta, stop.next(t, q, s).pose.theta),
        q.pose.x == p.pose.y.negate() && q.pose.y == p.pose.x,
        q.t == p.t,
    ensures
        turned_point(stop.next(t, p, s).pose, stop.next(t, q, s).pose),
        stop.next(t, q, s).t == stop.next(t, p, s).t,
{
    let th = stop.next(t, p, s).pose.theta;
    lemma_go(p.pose.x, p.pose.y, stop.v.signum(), cosine(t, th), sine(t, th), stop.ds);
}

pub proof fn law_stop_goes_on(t: Trig, stop: Stop, p: Spot, s: Double)
    requires
        looks_along_x(t, stop.next(t, p, s).pose.theta),
        p.pose.x.finite() && p.pose.y.finite(),
        stop.ds.finite() && stop.v.finite(),
    ensures
        ({
            let q = stop.next(t, p, s).pose;
            &&& q.x == p.pose.x.plus(
                if stop.v.negative() {
                    stop.ds.negate()
                } else {
                    stop.ds
                },
            )
            &&& alike(q.y, p.pose.y)
        }),
{
    let z = Double::zero();
    let one = Double::one();
    let sigma = stop.v.signum();
    let ds = stop.ds;
    ds.lemma_times_one();
    one.lemma_times_one();
    one.lemma_times_negate(one);
    one.lemma_times_negate(ds);
    ds.lemma_negate();
    sigma.lemma_times_zero(z);
    ds.lemma_times_zero(sigma.times(z));
    p.pose.y.lemma_plus_nothing(sigma.times(z).times(ds));
}

/// During a stop the heading turns to the side of the yaw rate, whichever way the
/// robot drives.
pub proof fn law_stop_turns_with_the_yaw_rate(t: Trig, stop: Stop, p: Spot, s: Double)
    requires
        stop.v.finite() && stop.v.mag() > 0 && stop.w.finite(),
        stop.ds.nonnegative(),
        p.pose.theta.finite(),
        !stop.w.over(stop.v).infinite(),
    ensures
        ({
            let (a, b) = (p.pose.theta, stop.next(t, p, s).pose.theta);
            &&& stop.w.key() >= 0 ==> a.le(b)
            &&& stop.w.key() <= 0 ==> b.le(a)
        }),
{
    let sigma = stop.v.signum();
    let k = stop.w.over(stop.v);
    let a = stop.v.abs();
    stop.v.lemma_negate();
    stop.w.lemma_over_negate(stop.v);
    assert(a == stop.v || a == stop.v.negate());
    stop.w.lemma_over_side(a);
    k.lemma_negate();
    stop.w.lemma_negate();
    stop.w.lemma_over_negate(a);
    let turn = sigma.times(k);
    k.lemma_times_one();
    Double::one().lemma_times_negate(k);
    assert(alike(turn, stop.w.over(a)));
    let d = turn.times(stop.ds);
    turn.lemma_negate();
    turn.lemma_times_keeps_side(stop.ds);
    let th = p.pose.theta;
    if d.key() >= 0 {
        th.lemma_plus_grows(d);
    }
    if d.key() <= 0 {
        d.lemma_negate();
        th.lemma_minus_shrinks(d.negate());
    }
}

/// Along a stop the heading turns by the way on the unit circle where the yaw rate is as
/// much as the speed.
pub proof fn law_stop_on_the_unit_circle(t: Trig, stop: Stop, p: Spot, s: Double)
    requires
        stop.v.finite() && stop.v.mag() > 0 && stop.w == stop.v,
        stop.ds.finite(),
    ensures
        stop.next(t, p, s).pose.theta == p.pose.theta.plus(
            if stop.v.negative() {
                stop.ds.negate()
            } else {
                stop.ds
            },
        ),
{
    let one = Double::one();
    stop.v.lemma_over_itself();
    one.lemma_negate();
    one.lemma_times_one();
    one.lemma_times_negate(one);
    stop.ds.lemma_times_one();
    one.lemma_times_negate(stop.ds);
}

} // verus!
