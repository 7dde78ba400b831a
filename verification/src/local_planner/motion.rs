//! The robot's motion: the state it plans from and the poses that a command
//! leads to.
use crate::ieee::double::Double;
use crate::local_planner::VelocityCommand;
use crate::trig::{cos, cosine, functional, sin, sine, trig_of, Circular, Trig};
use vstd::prelude::*;

verus! {

/// A pose of a predicted trajectory.
#[derive(Clone, Copy, Debug)]
pub struct TrajPoint {
    pub x: Double,
    pub y: Double,
    pub theta: Double,
}

impl Default for TrajPoint {
    fn default() -> (r: TrajPoint)
        ensures
            r == (TrajPoint { x: Double::zero(), y: Double::zero(), theta: Double::zero() }),
    {
        TrajPoint { x: Double::zero(), y: Double::zero(), theta: Double::zero() }
    }
}

impl TrajPoint {
    pub open spec fn spec_finite_pose(self) -> bool {
        self.x.is_finite() && self.y.is_finite() && self.theta.is_finite()
    }

    /// All coordinates are finite.
    #[verifier::when_used_as_spec(spec_finite_pose)]
    pub fn finite_pose(self) -> (r: bool)
        ensures
            r == self.spec_finite_pose(),
    {
        self.x.is_finite() && self.y.is_finite() && self.theta.is_finite()
    }
}

/// The robot's pose and velocity.
#[derive(Clone, Copy, Debug)]
pub struct RobotState {
    pub x: Double,
    pub y: Double,
    pub theta: Double,
    pub linear_vel: Double,
    pub angular_vel: Double,
}

impl Default for RobotState {
    fn default() -> (r: RobotState)
        ensures
            r == (RobotState {
                x: Double::zero(),
                y: Double::zero(),
                theta: Double::zero(),
                linear_vel: Double::zero(),
                angular_vel: Double::zero(),
            }),
    {
        RobotState {
            x: Double::zero(),
            y: Double::zero(),
            theta: Double::zero(),
            linear_vel: Double::zero(),
            angular_vel: Double::zero(),
        }
    }
}

impl RobotState {
    pub open spec fn spec_pose(self) -> TrajPoint {
        TrajPoint { x: self.x, y: self.y, theta: self.theta }
    }

    /// The pose alone.
    #[verifier::when_used_as_spec(spec_pose)]
    pub fn pose(self) -> (r: TrajPoint)
        ensures
            r == self.spec_pose(),
    {
        TrajPoint { x: self.x, y: self.y, theta: self.theta }
    }
}

/// Yaw rate (rad/s) below which a motion counts as straight.
pub open spec fn spec_straight_rate() -> Double {
    Double::spec_ratio(1, 1_000_000)
}

#[verifier::when_used_as_spec(spec_straight_rate)]
pub fn straight_rate() -> (r: Double)
    ensures
        r == spec_straight_rate(),
{
    Double::ratio(1, 1_000_000)
}

/// The state after `tau` seconds at its own twist: along an arc, or straight
/// on where it does not turn. No time, or less, changes nothing.
pub open spec fn projected(tr: Trig, s: RobotState, tau: Double) -> RobotState {
    let (v, w) = (s.linear_vel, s.angular_vel);
    if tau.le(Double::zero()) {
        s
    } else if w.abs().lt(straight_rate()) {
        RobotState {
            x: s.x.plus(v.times(cosine(tr, s.theta)).times(tau)),
            y: s.y.plus(v.times(sine(tr, s.theta)).times(tau)),
            ..s
        }
    } else {
        let r = v.over(w);
        let ahead = s.theta.plus(w.times(tau));
        RobotState {
            x: s.x.plus(r.times(sine(tr, ahead).minus(sine(tr, s.theta)))),
            y: s.y.minus(r.times(cosine(tr, ahead).minus(cosine(tr, s.theta)))),
            theta: ahead,
            ..s
        }
    }
}

/// Projects a state along its twist: what the robot will have reached when the
/// command that is planned now takes hold.
pub fn project_state<M: Fn(Circular, Double, Double) -> Double>(
    m: &M,
    s: &RobotState,
    tau: Double,
) -> (r: RobotState)
    requires
        functional(m),
    ensures
        r == projected(trig_of(m), *s, tau),
{
    if tau.le(Double::zero()) {
        return *s;
    }
    let (v, w) = (s.linear_vel, s.angular_vel);
    if w.abs().lt(straight_rate()) {
        RobotState {
            x: s.x.plus(v.times(cos(m, s.theta)).times(tau)),
            y: s.y.plus(v.times(sin(m, s.theta)).times(tau)),
            theta: s.theta,
            linear_vel: v,
            angular_vel: w,
        }
    } else {
        let r = v.over(w);
        let ahead = s.theta.plus(w.times(tau));
        RobotState {
            x: s.x.plus(r.times(sin(m, ahead).minus(sin(m, s.theta)))),
            y: s.y.minus(r.times(cos(m, ahead).minus(cos(m, s.theta)))),
            theta: ahead,
            linear_vel: v,
            angular_vel: w,
        }
    }
}

/// The pose after one step of `dt` seconds at speed `v` and yaw rate `w`.
pub open spec fn stepped(tr: Trig, p: TrajPoint, v: Double, w: Double, dt: Double) -> TrajPoint {
    TrajPoint {
        x: p.x.plus(v.times(cosine(tr, p.theta)).times(dt)),
        y: p.y.plus(v.times(sine(tr, p.theta)).times(dt)),
        theta: p.theta.plus(w.times(dt)),
    }
}

/// One step of a motion.
pub fn step<M: Fn(Circular, Double, Double) -> Double>(
    m: &M,
    p: TrajPoint,
    v: Double,
    w: Double,
    dt: Double,
) -> (r: TrajPoint)
    requires
        functional(m),
    ensures
        r == stepped(trig_of(m), p, v, w, dt),
{
    TrajPoint {
        x: p.x.plus(v.times(cos(m, p.theta)).times(dt)),
        y: p.y.plus(v.times(sin(m, p.theta)).times(dt)),
        theta: p.theta.plus(w.times(dt)),
    }
}

/// The next `n` poses of a motion, up to the first that is not finite.
pub open spec fn unrolled(
    tr: Trig,
    p: TrajPoint,
    v: Double,
    w: Double,
    dt: Double,
    n: nat,
) -> Seq<TrajPoint>
    decreases n,
{
    let q = stepped(tr, p, v, w, dt);
    if n == 0 || !q.finite_pose() {
        seq![]
    } else {
        seq![q] + unrolled(tr, q, v, w, dt, (n - 1) as nat)
    }
}

/// The trajectory of a command: its poses every `dt` seconds over `horizon`
/// seconds, cut off before a pose that is not finite; nothing where one of the
/// two is not positive.
pub open spec fn trajectory_of(
    tr: Trig,
    state: RobotState,
    cmd: VelocityCommand,
    horizon: Double,
    dt: Double,
) -> Seq<TrajPoint> {
    if horizon.le(Double::zero()) || dt.le(Double::zero()) {
        seq![]
    } else {
        unrolled(
            tr,
            state.pose(),
            cmd.linear_x,
            cmd.angular_z,
            dt,
            horizon.over(dt).floor_count() as nat,
        )
    }
}

/// Integrates a command from a state.
pub fn rollout<M: Fn(Circular, Double, Double) -> Double>(
    m: &M,
    state: &RobotState,
    cmd: &VelocityCommand,
    horizon: Double,
    dt: Double,
) -> (r: Vec<TrajPoint>)
    requires
        functional(m),
    ensures
        r@ == trajectory_of(trig_of(m), *state, *cmd, horizon, dt),
{
    let mut out: Vec<TrajPoint> = Vec::new();
    if horizon.le(Double::zero()) || dt.le(Double::zero()) {
        return out;
    }
    let steps: u64 = horizon.over(dt).floor_count();
    let mut p = state.pose();
    let mut left: u64 = steps;
    let ghost tr = trig_of(m);
    let ghost all = trajectory_of(tr, *state, *cmd, horizon, dt);
    assert(out@ + all == all);
    while left > 0
        invariant
            functional(m),
            tr == trig_of(m),
            all == trajectory_of(tr, *state, *cmd, horizon, dt),
            all == out@ + unrolled(tr, p, cmd.linear_x, cmd.angular_z, dt, left as nat),
        decreases left,
    {
        let ghost rest = unrolled(tr, p, cmd.linear_x, cmd.angular_z, dt, left as nat);
        p = step(m, p, cmd.linear_x, cmd.angular_z, dt);
        if !p.finite_pose() {
            assert(out@ + rest == out@);
            return out;
        }
        left = left - 1;
        proof {
            let tail = unrolled(tr, p, cmd.linear_x, cmd.angular_z, dt, left as nat);
            assert(rest == seq![p] + tail);
            assert(out@ + rest == out@.push(p) + tail);
        }
        out.push(p);
    }
    proof {
        let rest = unrolled(tr, p, cmd.linear_x, cmd.angular_z, dt, left as nat);
        assert(out@ + rest == out@);
    }
    out
}

/// A projection leaves the twist as it is, and no time leaves all as it is.
/// Without a turn the heading stays.
pub proof fn law_projection(tr: Trig, s: RobotState, tau: Double)
    ensures
        projected(tr, s, tau).linear_vel == s.linear_vel,
        projected(tr, s, tau).angular_vel == s.angular_vel,
        tau.le(Double::zero()) ==> projected(tr, s, tau) == s,
        s.angular_vel.abs().lt(straight_rate()) ==> projected(tr, s, tau).theta == s.theta,
{
}

} // verus!
