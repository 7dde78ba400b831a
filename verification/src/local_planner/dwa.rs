//! Dynamic-window local planner.
use crate::fault::{
    first_fault, lemma_no_fault, nonnegative, positive, report, rule_pair, verdict, ConfigError,
    Quantity,
};
use crate::geometry::distance;
use crate::global_planner::{PathWaypoint, SegmentDir};
use crate::ieee::double::Double;
use crate::local_planner::arc::{
    at_rest, braking_trail, cycle, gap, horizon_end, horizon_trail, infinity, least_along,
};
use crate::local_planner::motion::{RobotState, TrajPoint};
use crate::local_planner::obstacle::Obstacle;
use crate::local_planner::VelocityCommand;
use crate::trig::{
    atan2, bearing, functional, normalize_angle, pi, trig_of, Circular, Trig,
};
use vstd::prelude::*;

pub use crate::local_planner::arc::{
    simulate_arc, simulate_committed_stop, substeps_for, wedged_allowance, ArcRollout,
};

verus! {

#[derive(Clone, Copy, Debug)]
pub struct DwaConfig {
    /// m/s
    pub max_speed: Double,
    /// rad/s
    pub max_angular_speed: Double,
    /// m/s^2
    pub max_acceleration: Double,
    /// Deceleration (m/s^2) on which the check of a stop relies.
    pub max_deceleration: Double,
    /// rad/s^2
    pub max_angular_accel: Double,
    /// Seconds of motion that are simulated.
    pub sim_time: Double,
    /// Step (s) of the simulation.
    pub sim_dt: Double,
    /// Number of speeds that are sampled.
    pub v_samples: usize,
    /// Number of yaw rates that are sampled.
    pub w_samples: usize,
    pub heading_weight: Double,
    pub distance_weight: Double,
    pub velocity_weight: Double,
    pub obstacle_weight: Double,
    /// Weight of the change of speed from the command before.
    pub weight_continuity: Double,
    /// Radius (m) of the robot for collision checks.
    pub robot_radius: Double,
    /// Fraction of the margin above the footprint that remains in recovery.
    pub recovery_margin_scale: Double,
    /// Fraction of that margin that is required at a crawl.
    pub margin_low_speed_scale: Double,
    /// Seconds of a moving obstacle's travel that are kept clear besides.
    pub moving_obstacle_margin_gain: Double,
    /// Growth of the margin (m per m/s) above 1 m/s.
    pub high_speed_margin_gain: Double,
    /// Largest curvature (1/m) that can be driven.
    pub max_curvature: Double,
}

pub fn default_v_samples() -> (r: usize)
    ensures
        r == 13,
{
    13
}

pub fn default_w_samples() -> (r: usize)
    ensures
        r == 15,
{
    15
}

impl Default for DwaConfig {
    fn default() -> (r: DwaConfig)
        ensures
            r == DwaConfig::standard(),
    {
        DwaConfig {
            max_speed: Double::ratio(22, 10),
            max_angular_speed: Double::ratio(45, 10),
            max_acceleration: Double::ratio(25, 10),
            max_deceleration: Double::of(3),
            max_angular_accel: Double::of(8),
            sim_time: Double::ratio(15, 10),
            sim_dt: Double::ratio(1, 10),
            v_samples: default_v_samples(),
            w_samples: default_w_samples(),
            heading_weight: Double::one(),
            distance_weight: Double::half(),
            velocity_weight: Double::ratio(3, 10),
            obstacle_weight: Double::of(2),
            weight_continuity: Double::ratio(1, 10),
            robot_radius: Double::ratio(24, 100),
            recovery_margin_scale: Double::ratio(8, 10),
            margin_low_speed_scale: Double::ratio(4, 10),
            moving_obstacle_margin_gain: Double::ratio(4, 10),
            high_speed_margin_gain: Double::ratio(6, 100),
            max_curvature: Double::of(2),
        }
    }
}

impl DwaConfig {
    /// The configuration where nothing else is given.
    pub open spec fn standard() -> DwaConfig {
        DwaConfig {
            max_speed: Double::ratio(22, 10),
            max_angular_speed: Double::ratio(45, 10),
            max_acceleration: Double::ratio(25, 10),
            max_deceleration: Double::of(3),
            max_angular_accel: Double::of(8),
            sim_time: Double::ratio(15, 10),
            sim_dt: Double::ratio(1, 10),
            v_samples: 13,
            w_samples: 15,
            heading_weight: Double::one(),
            distance_weight: Double::half(),
            velocity_weight: Double::ratio(3, 10),
            obstacle_weight: Double::of(2),
            weight_continuity: Double::ratio(1, 10),
            robot_radius: Double::ratio(24, 100),
            recovery_margin_scale: Double::ratio(8, 10),
            margin_low_speed_scale: Double::ratio(4, 10),
            moving_obstacle_margin_gain: Double::ratio(4, 10),
            high_speed_margin_gain: Double::ratio(6, 100),
            max_curvature: Double::of(2),
        }
    }

    /// The limits on speed and yaw rate are limits.
    pub open spec fn limits(self) -> bool {
        Double::zero().le(self.max_speed) && Double::zero().le(self.max_angular_speed)
    }

    /// Limits, times and the radius are positive, a step fits into the
    /// simulation, the window has two samples each way, and the margins are
    /// not negative.
    pub open spec fn valid(self) -> bool {
        &&& self.max_speed.positive()
        &&& self.max_acceleration.positive()
        &&& self.max_deceleration.positive()
        &&& self.max_angular_speed.positive()
        &&& self.max_angular_accel.positive()
        &&& self.sim_time.positive()
        &&& self.sim_dt.positive()
        &&& self.robot_radius.positive()
        &&& self.max_curvature.positive()
        &&& self.sim_dt.le(self.sim_time)
        &&& self.v_samples >= 2
        &&& self.w_samples >= 2
        &&& self.recovery_margin_scale.nonnegative()
        &&& self.margin_low_speed_scale.nonnegative()
        &&& self.moving_obstacle_margin_gain.nonnegative()
        &&& self.high_speed_margin_gain.nonnegative()
    }

    pub open spec fn checks(self) -> Seq<Option<ConfigError>> {
        seq![
            positive(self.max_speed, "dwa.max_speed must be > 0, got {}"),
            positive(self.max_acceleration, "dwa.max_acceleration must be > 0, got {}"),
            positive(self.max_deceleration, "dwa.max_deceleration must be > 0, got {}"),
            positive(self.max_angular_speed, "dwa.max_angular_speed must be > 0, got {}"),
            positive(self.max_angular_accel, "dwa.max_angular_accel must be > 0, got {}"),
            positive(self.sim_time, "dwa.sim_time must be > 0, got {}"),
            positive(self.sim_dt, "dwa.sim_dt must be > 0, got {}"),
            positive(self.robot_radius, "dwa.robot_radius must be > 0, got {}"),
            positive(self.max_curvature, "dwa.max_curvature must be > 0, got {}"),
            rule_pair(
                !self.sim_time.lt(self.sim_dt),
                "dwa.sim_dt ({}) must not exceed dwa.sim_time ({})",
                Quantity::Wide(self.sim_dt),
                Quantity::Wide(self.sim_time),
            ),
            rule_pair(
                self.v_samples >= 2 && self.w_samples >= 2,
                "dwa.v_samples/w_samples must be >= 2, got {}/{}",
                Quantity::Count(self.v_samples as u64),
                Quantity::Count(self.w_samples as u64),
            ),
            nonnegative(
                self.recovery_margin_scale,
                "dwa.recovery_margin_scale must be >= 0 and finite, got {}",
            ),
            nonnegative(
                self.margin_low_speed_scale,
                "dwa.margin_low_speed_scale must be >= 0 and finite, got {}",
            ),
            nonnegative(
                self.moving_obstacle_margin_gain,
                "dwa.moving_obstacle_margin_gain must be >= 0 and finite, got {}",
            ),
            nonnegative(
                self.high_speed_margin_gain,
                "dwa.high_speed_margin_gain must be >= 0 and finite, got {}",
            ),
        ]
    }

    /// Refuses values that would break the planner.
    pub fn validate(&self) -> (r: Result<(), ConfigError>)
        ensures
            r is Ok <==> self.valid(),
            r == verdict(first_fault(self.checks())),
    {
        let checks = vec![
            positive(self.max_speed, "dwa.max_speed must be > 0, got {}"),
            positive(self.max_acceleration, "dwa.max_acceleration must be > 0, got {}"),
            positive(self.max_deceleration, "dwa.max_deceleration must be > 0, got {}"),
            positive(self.max_angular_speed, "dwa.max_angular_speed must be > 0, got {}"),
            positive(self.max_angular_accel, "dwa.max_angular_accel must be > 0, got {}"),
            positive(self.sim_time, "dwa.sim_time must be > 0, got {}"),
            positive(self.sim_dt, "dwa.sim_dt must be > 0, got {}"),
            positive(self.robot_radius, "dwa.robot_radius must be > 0, got {}"),
            positive(self.max_curvature, "dwa.max_curvature must be > 0, got {}"),
            rule_pair(
                !self.sim_time.lt(self.sim_dt),
                "dwa.sim_dt ({}) must not exceed dwa.sim_time ({})",
                Quantity::Wide(self.sim_dt),
                Quantity::Wide(self.sim_time),
            ),
            rule_pair(
                self.v_samples >= 2 && self.w_samples >= 2,
                "dwa.v_samples/w_samples must be >= 2, got {}/{}",
                Quantity::Count(self.v_samples as u64),
                Quantity::Count(self.w_samples as u64),
            ),
            nonnegative(
                self.recovery_margin_scale,
                "dwa.recovery_margin_scale must be >= 0 and finite, got {}",
            ),
            nonnegative(
                self.margin_low_speed_scale,
                "dwa.margin_low_speed_scale must be >= 0 and finite, got {}",
            ),
            nonnegative(
                self.moving_obstacle_margin_gain,
                "dwa.moving_obstacle_margin_gain must be >= 0 and finite, got {}",
            ),
            nonnegative(
                self.high_speed_margin_gain,
                "dwa.high_speed_margin_gain must be >= 0 and finite, got {}",
            ),
        ];
        proof {
            let c = self.checks();
            assert(checks@ == c);
            lemma_no_fault(c);
            assert(c[0] is None && c[1] is None && c[2] is None && c[3] is None && c[4] is None
                && c[5] is None && c[6] is None && c[7] is None && c[8] is None && c[9] is None
                && c[10] is None && c[11] is None && c[12] is None && c[13] is None
                && c[14] is None <==> self.valid());
        }
        report(checks)
    }
}

/// Radius (m) of the circle around the robot's body. No relaxation of a margin
/// goes below it.
pub open spec fn spec_robot_footprint_radius() -> Double {
    Double::spec_ratio(19, 100)
}

#[verifier::when_used_as_spec(spec_robot_footprint_radius)]
pub fn robot_footprint_radius() -> (r: Double)
    ensures
        r == spec_robot_footprint_radius(),
{
    Double::ratio(19, 100)
}

/// How far (0 to 1) a speed is on the way from the crawl at 0.1 m/s to the
/// cruise at 0.3 m/s.
pub open spec fn spec_cruise_fraction(v: Double) -> Double {
    v.abs().minus(Double::ratio(1, 10)).over(
        Double::ratio(3, 10).minus(Double::ratio(1, 10)),
    ).clamp(Double::zero(), Double::one())
}

#[verifier::when_used_as_spec(spec_cruise_fraction)]
pub fn cruise_fraction(v: Double) -> (r: Double)
    ensures
        r == spec_cruise_fraction(v),
{
    v.abs().minus(Double::ratio(1, 10)).over(
        Double::ratio(3, 10).minus(Double::ratio(1, 10)),
    ).clamp(Double::zero(), Double::one())
}

/// The radius that is required at speed `v`: the footprint, the margin above it
/// scaled down towards the crawl, and what is added above 1 m/s.
pub open spec fn spec_speed_scaled_radius(
    v: Double,
    base_radius: Double,
    low_speed_scale: Double,
    high_speed_gain: Double,
) -> Double {
    let margin = base_radius.minus(robot_footprint_radius()).max(Double::zero());
    let scale = low_speed_scale.plus(
        Double::one().minus(low_speed_scale).times(cruise_fraction(v)),
    ).max(Double::zero());
    let extra = high_speed_gain.max(Double::zero()).times(
        v.abs().minus(Double::one()).max(Double::zero()),
    );
    robot_footprint_radius().plus(margin.times(scale)).plus(extra)
}

#[verifier::when_used_as_spec(spec_speed_scaled_radius)]
pub fn speed_scaled_radius(
    v: Double,
    base_radius: Double,
    low_speed_scale: Double,
    high_speed_gain: Double,
) -> (r: Double)
    ensures
        r == spec_speed_scaled_radius(v, base_radius, low_speed_scale, high_speed_gain),
{
    let margin = base_radius.minus(robot_footprint_radius()).max(Double::zero());
    let scale = low_speed_scale.plus(
        Double::one().minus(low_speed_scale).times(cruise_fraction(v)),
    ).max(Double::zero());
    let extra = high_speed_gain.max(Double::zero()).times(
        v.abs().minus(Double::one()).max(Double::zero()),
    );
    robot_footprint_radius().plus(margin.times(scale)).plus(extra)
}

/// Index of the first waypoint, from the `i`-th on, that is at least `reach`
/// metres away; the length of the path where there is none.
pub open spec fn first_beyond(
    path: Seq<PathWaypoint>,
    x: Double,
    y: Double,
    reach: Double,
    i: int,
) -> int
    decreases path.len() - i,
{
    if i >= path.len() {
        path.len() as int
    } else if reach.le(distance(x, y, path[i].x, path[i].y)) {
        i
    } else {
        first_beyond(path, x, y, reach, i + 1)
    }
}

/// How far (m) ahead the local goal lies: 1.3 s of travel, from 1 m to 3 m.
pub open spec fn spec_goal_reach(state: RobotState) -> Double {
    Double::ratio(13, 10).times(state.linear_vel.abs()).clamp(Double::one(), Double::of(3))
}

#[verifier::when_used_as_spec(spec_goal_reach)]
pub fn goal_reach(state: RobotState) -> (r: Double)
    ensures
        r == spec_goal_reach(state),
{
    proof {
        Double::lemma_of(3);
    }
    Double::ratio(13, 10).times(state.linear_vel.abs()).clamp(Double::one(), Double::of(3))
}

/// The local goal: the first waypoint that far ahead, else the last one, else
/// the robot's own pose.
pub open spec fn local_goal(state: RobotState, path: Seq<PathWaypoint>) -> PathWaypoint {
    let i = first_beyond(path, state.x, state.y, goal_reach(state), 0);
    if i < path.len() {
        path[i]
    } else if path.len() > 0 {
        path.last()
    } else {
        PathWaypoint {
            x: state.x,
            y: state.y,
            theta: state.theta,
            steering: Double::zero(),
            dir: SegmentDir::Forward,
        }
    }
}

/// Finds the local goal on the path.
pub fn find_local_goal(state: &RobotState, path: &[PathWaypoint]) -> (r: PathWaypoint)
    ensures
        r == local_goal(*state, path@),
{
    let reach = goal_reach(*state);
    let mut i: usize = 0;
    while i < path.len()
        invariant
            i <= path@.len(),
            reach == goal_reach(*state),
            first_beyond(path@, state.x, state.y, reach, 0) == first_beyond(
                path@,
                state.x,
                state.y,
                reach,
                i as int,
            ),
        decreases path@.len() - i,
    {
        if reach.le(distance(state.x, state.y, path[i].x, path[i].y)) {
            return path[i];
        }
        i = i + 1;
    }
    if path.len() > 0 {
        path[path.len() - 1]
    } else {
        PathWaypoint {
            x: state.x,
            y: state.y,
            theta: state.theta,
            steering: Double::zero(),
            dir: SegmentDir::Forward,
        }
    }
}

/// How well a pose faces the goal: from 1, right at it, to 0.
pub open spec fn facing(tr: Trig, p: TrajPoint, goal: PathWaypoint) -> Double {
    let to_goal = bearing(tr, goal.y.minus(p.y), goal.x.minus(p.x));
    Double::one().minus(normalize_angle(to_goal.minus(p.theta)).abs().over(pi()))
}

/// How well a pose faces the goal.
pub fn heading_cost<M: Fn(Circular, Double, Double) -> Double>(
    m: &M,
    p: TrajPoint,
    goal: &PathWaypoint,
) -> (r: Double)
    requires
        functional(m),
    ensures
        r == facing(trig_of(m), p, *goal),
{
    let to_goal = atan2(m, goal.y.minus(p.y), goal.x.minus(p.x));
    Double::one().minus(normalize_angle(to_goal.minus(p.theta)).abs().over(pi()))
}

/// Preference of a speed: 1 at the target, less the further away from it.
pub open spec fn spec_velocity_score(v: Double, target: Double, max_speed: Double) -> Double {
    Double::one().minus(v.minus(target).abs().over(max_speed.max(Double::ratio(1, 10))))
}

#[verifier::when_used_as_spec(spec_velocity_score)]
pub fn velocity_score(v: Double, target: Double, max_speed: Double) -> (r: Double)
    ensures
        r == spec_velocity_score(v, target, max_speed),
{
    Double::one().minus(v.minus(target).abs().over(max_speed.max(Double::ratio(1, 10))))
}

/// What a command is sought for.
#[derive(Clone, Copy, Debug)]
pub struct Query<'a> {
    pub config: DwaConfig,
    pub state: RobotState,
    pub obstacles: &'a [Obstacle],
    pub goal: PathWaypoint,
    /// Speed (m/s) to reach.
    pub target: Double,
    /// Speed (m/s) of the command before.
    pub prev_v: Double,
    /// Radius (m) of the robot for collision checks.
    pub radius: Double,
}

/// The speeds and yaw rates within reach of one cycle.
#[derive(Clone, Copy, Debug)]
pub struct Window {
    pub v_min: Double,
    pub v_step: Double,
    pub w_min: Double,
    pub w_step: Double,
}

/// Size of the steps that lead from `lo` to `hi` over `n` samples.
pub open spec fn spec_spacing(lo: Double, hi: Double, n: usize) -> Double {
    if n > 1 {
        hi.minus(lo).over(Double::of((n - 1) as u64))
    } else {
        Double::zero()
    }
}

#[verifier::when_used_as_spec(spec_spacing)]
pub fn spacing(lo: Double, hi: Double, n: usize) -> (r: Double)
    ensures
        r == spec_spacing(lo, hi, n),
{
    if n > 1 {
        hi.minus(lo).over(Double::of((n - 1) as u64))
    } else {
        Double::zero()
    }
}

impl Window {
    pub open spec fn spec_speeds(c: DwaConfig, s: RobotState, target: Double) -> (Double, Double) {
        let reach = c.max_acceleration.times(cycle());
        let slow = s.linear_vel.minus(reach).max(Double::zero());
        let fast = s.linear_vel.plus(reach).clamp(Double::zero(), c.max_speed);
        let hi = fast.min(target.max(slow));
        (slow.min(hi), hi)
    }

    /// The least and the largest speed within reach. The target bounds them,
    /// but not below what braking reaches.
    #[verifier::when_used_as_spec(spec_speeds)]
    pub fn speeds(c: DwaConfig, s: RobotState, target: Double) -> (r: (Double, Double))
        requires
            c.limits(),
        ensures
            r == Window::spec_speeds(c, s, target),
    {
        let reach = c.max_acceleration.times(cycle());
        let slow = s.linear_vel.minus(reach).max(Double::zero());
        let fast = s.linear_vel.plus(reach).clamp(Double::zero(), c.max_speed);
        let hi = fast.min(target.max(slow));
        (slow.min(hi), hi)
    }

    pub open spec fn spec_rates(c: DwaConfig, s: RobotState) -> (Double, Double) {
        let reach = c.max_angular_accel.times(cycle());
        (
            s.angular_vel.minus(reach).max(c.max_angular_speed.negate()),
            s.angular_vel.plus(reach).min(c.max_angular_speed),
        )
    }

    /// The least and the largest yaw rate within reach.
    #[verifier::when_used_as_spec(spec_rates)]
    pub fn rates(c: DwaConfig, s: RobotState) -> (r: (Double, Double))
        ensures
            r == Window::spec_rates(c, s),
    {
        let reach = c.max_angular_accel.times(cycle());
        (
            s.angular_vel.minus(reach).max(c.max_angular_speed.negate()),
            s.angular_vel.plus(reach).min(c.max_angular_speed),
        )
    }

    pub open spec fn spec_of(c: DwaConfig, s: RobotState, target: Double) -> Window {
        let (v_min, v_max) = Window::speeds(c, s, target);
        let (w_min, w_max) = Window::rates(c, s);
        Window {
            v_min,
            v_step: spacing(v_min, v_max, c.v_samples),
            w_min,
            w_step: spacing(w_min, w_max, c.w_samples),
        }
    }

    /// The window around a state.
    #[verifier::when_used_as_spec(spec_of)]
    pub fn of(c: DwaConfig, s: RobotState, target: Double) -> (r: Window)
        requires
            c.limits(),
        ensures
            r == Window::spec_of(c, s, target),
    {
        let (v_min, v_max) = Window::speeds(c, s, target);
        let (w_min, w_max) = Window::rates(c, s);
        Window {
            v_min,
            v_step: spacing(v_min, v_max, c.v_samples),
            w_min,
            w_step: spacing(w_min, w_max, c.w_samples),
        }
    }

    pub open spec fn spec_v(self, i: u64) -> Double {
        self.v_min.plus(Double::of(i).times(self.v_step))
    }

    /// The `i`-th speed.
    #[verifier::when_used_as_spec(spec_v)]
    pub fn v(self, i: u64) -> (r: Double)
        ensures
            r == self.spec_v(i),
    {
        self.v_min.plus(Double::of(i).times(self.v_step))
    }

    pub open spec fn spec_w(self, i: u64) -> Double {
        self.w_min.plus(Double::of(i).times(self.w_step))
    }

    /// The `i`-th yaw rate.
    #[verifier::when_used_as_spec(spec_w)]
    pub fn w(self, i: u64) -> (r: Double)
        ensures
            r == self.spec_w(i),
    {
        self.w_min.plus(Double::of(i).times(self.w_step))
    }
}

/// A command that was considered, and its score.
#[derive(Clone, Copy, Debug)]
pub struct Pick {
    pub v: Double,
    pub w: Double,
    pub score: Double,
}

impl<'a> Query<'a> {
    pub open spec fn spec_required(self, v: Double) -> Double {
        speed_scaled_radius(
            v,
            self.radius,
            self.config.margin_low_speed_scale,
            self.config.high_speed_margin_gain,
        )
    }

    /// Net distance (m) to keep at a speed.
    #[verifier::when_used_as_spec(spec_required)]
    pub fn required(self, v: Double) -> (r: Double)
        ensures
            r == self.spec_required(v),
    {
        speed_scaled_radius(
            v,
            self.radius,
            self.config.margin_low_speed_scale,
            self.config.high_speed_margin_gain,
        )
    }

    pub open spec fn spec_steerable(self, v: Double, w: Double) -> bool {
        !v.times(self.config.max_curvature).plus(Double::ratio(1, 1_000_000_000)).lt(w.abs())
    }

    /// The steering can drive the command's arc.
    #[verifier::when_used_as_spec(spec_steerable)]
    pub fn steerable(self, v: Double, w: Double) -> (r: bool)
        ensures
            r == self.spec_steerable(v, w),
    {
        !v.times(self.config.max_curvature).plus(Double::ratio(1, 1_000_000_000)).lt(w.abs())
    }

    /// Least net distance over the horizon.
    pub open spec fn arc_gap(self, tr: Trig, v: Double, w: Double) -> Double {
        least_along(
            tr,
            self.obstacles@,
            self.config.moving_obstacle_margin_gain,
            horizon_trail(tr, self.config, self.state, v, w),
            infinity(),
        )
    }

    /// Least net distance over the stop that follows.
    pub open spec fn stop_gap(self, tr: Trig, v: Double, w: Double) -> Double {
        least_along(
            tr,
            self.obstacles@,
            self.config.moving_obstacle_margin_gain,
            braking_trail(tr, self.config, self.state, v, w),
            infinity(),
        )
    }

    /// The command can be steered, and keeps the required distance over the
    /// horizon and over the stop that follows.
    pub open spec fn feasible(self, tr: Trig, v: Double, w: Double) -> bool {
        &&& self.steerable(v, w)
        &&& !self.arc_gap(tr, v, w).lt(self.required(v))
        &&& !self.stop_gap(tr, v, w).lt(self.required(v))
    }

    pub open spec fn spec_rated(self, v: Double, heading: Double, far: Double, gap: Double) -> Double {
        let c = self.config;
        let change = v.minus(self.prev_v).abs().over(c.max_speed.max(Double::ratio(1, 10)));
        c.heading_weight.times(heading).minus(c.distance_weight.times(far)).plus(
            c.velocity_weight.times(velocity_score(v, self.target, c.max_speed)),
        ).plus(
            c.obstacle_weight.times(gap.min(Double::of(3)).over(Double::of(3))),
        ).minus(c.weight_continuity.times(change))
    }

    /// The weighted sum of what speaks for and against a command: how well it
    /// faces the goal, how far away it ends, its speed, its distance from
    /// obstacles, and the change of speed.
    #[verifier::when_used_as_spec(spec_rated)]
    pub fn rated(self, v: Double, heading: Double, far: Double, gap: Double) -> (r: Double)
        ensures
            r == self.spec_rated(v, heading, far, gap),
    {
        let c = self.config;
        let change = v.minus(self.prev_v).abs().over(c.max_speed.max(Double::ratio(1, 10)));
        c.heading_weight.times(heading).minus(c.distance_weight.times(far)).plus(
            c.velocity_weight.times(velocity_score(v, self.target, c.max_speed)),
        ).plus(
            c.obstacle_weight.times(gap.min(Double::of(3)).over(Double::of(3))),
        ).minus(c.weight_continuity.times(change))
    }

    /// The score of a command.
    pub open spec fn score(self, tr: Trig, v: Double, w: Double) -> Double {
        let end = horizon_end(tr, self.config, self.state, v, w).pose;
        self.rated(
            v,
            facing(tr, end, self.goal),
            distance(self.goal.x, self.goal.y, end.x, end.y),
            self.arc_gap(tr, v, w),
        )
    }

    /// The `vi`-th speed with the `wi`-th yaw rate.
    pub open spec fn sample(self, tr: Trig, window: Window, vi: int, wi: int) -> Pick {
        let (v, w) = (window.v(vi as u64), window.w(wi as u64));
        Pick { v, w, score: self.score(tr, v, w) }
    }

    /// That sample can be driven.
    pub open spec fn open(self, tr: Trig, window: Window, vi: int, wi: int) -> bool {
        self.feasible(tr, window.v(vi as u64), window.w(wi as u64))
    }

    /// What is found among the samples before the `wi`-th yaw rate of the
    /// `vi`-th speed: the first of the feasible samples with the highest
    /// score, and whether one of them moves.
    pub open spec fn found(self, tr: Trig, window: Window, vi: int, wi: int) -> (
        Option<Pick>,
        bool,
    )
        decreases vi, wi,
    {
        if wi > 0 {
            let before = self.found(tr, window, vi, wi - 1);
            let p = self.sample(tr, window, vi, wi - 1);
            if self.open(tr, window, vi, wi - 1) {
                (
                    if before.0 is None || before.0->0.score.lt(p.score) {
                        Some(p)
                    } else {
                        before.0
                    },
                    before.1 || at_rest().lt(p.v),
                )
            } else {
                before
            }
        } else if vi > 0 {
            self.found(tr, window, vi - 1, self.config.w_samples as int)
        } else {
            (None, false)
        }
    }

    /// Judges one command: `None` where it cannot be driven.
    fn judge<M: Fn(Circular, Double, Double) -> Double>(self, m: &M, v: Double, w: Double) -> (r:
        Option<Pick>)
        requires
            functional(m),
        ensures
            r is Some <==> self.feasible(trig_of(m), v, w),
            r is Some ==> r->0 == (Pick { v, w, score: self.score(trig_of(m), v, w) }),
    {
        if !self.steerable(v, w) {
            return None;
        }
        let roll = simulate_arc(m, &self.config, &self.state, v, w, self.obstacles);
        let required = self.required(v);
        if roll.min_obstacle_dist.lt(required) || roll.braking_min_dist.lt(required) {
            return None;
        }
        let end = TrajPoint { x: roll.end_x, y: roll.end_y, theta: roll.end_theta };
        let score = self.rated(
            v,
            heading_cost(m, end, &self.goal),
            distance(self.goal.x, self.goal.y, end.x, end.y),
            roll.min_obstacle_dist,
        );
        Some(Pick { v, w, score })
    }

    /// Searches the window.
    pub fn search<M: Fn(Circular, Double, Double) -> Double>(self, m: &M, window: Window) -> (r: (
        Option<Pick>,
        bool,
    ))
        requires
            functional(m),
        ensures
            r == self.found(trig_of(m), window, self.config.v_samples as int, 0),
    {
        let ghost tr = trig_of(m);
        let mut best: Option<Pick> = None;
        let mut moves = false;
        let mut vi: usize = 0;
        while vi < self.config.v_samples
            invariant
                functional(m),
                tr == trig_of(m),
                vi <= self.config.v_samples,
                (best, moves) == self.found(tr, window, vi as int, 0),
            decreases self.config.v_samples - vi,
        {
            let v = window.v(vi as u64);
            let mut wi: usize = 0;
            while wi < self.config.w_samples
                invariant
                    functional(m),
                    tr == trig_of(m),
                    wi <= self.config.w_samples,
                    v == window.v(vi as u64),
                    (best, moves) == self.found(tr, window, vi as int, wi as int),
                decreases self.config.w_samples - wi,
            {
                let p = self.judge(m, v, window.w(wi as u64));
                if let Some(p) = p {
                    if at_rest().lt(p.v) {
                        moves = true;
                    }
                    let better = match best {
                        None => true,
                        Some(b) => b.score.lt(p.score),
                    };
                    if better {
                        best = Some(p);
                    }
                }
                wi = wi + 1;
            }
            vi = vi + 1;
        }
        (best, moves)
    }
}

/// The planner. It remembers the speed of the last command, to which the next
/// one is compared.
#[derive(Debug)]
pub struct DwaPlanner {
    pub config: DwaConfig,
    pub prev_cmd_v: Option<Double>,
}

/// The command among those of the window, and where it has none that moves,
/// the one that sets off from a standstill.
pub open spec fn decided(tr: Trig, q: Query) -> VelocityCommand {
    let window = Window::of(q.config, q.state, q.target);
    let (best, moves) = q.found(tr, window, q.config.v_samples as int, 0);
    let start = q.setting_off(tr);
    if q.state.linear_vel.abs().lt(Double::ratio(5, 100)) && !moves && Double::zero().lt(q.target)
        && start is Some {
        start->0
    } else if best is Some {
        VelocityCommand {
            linear_x: best->0.v,
            angular_z: best->0.w,
            confidence: Double::ratio(9, 10).narrow(),
        }
    } else {
        infeasible_stop()
    }
}

/// The stop where nothing can be driven.
pub open spec fn spec_infeasible_stop() -> VelocityCommand {
    VelocityCommand {
        linear_x: Double::zero(),
        angular_z: Double::zero(),
        confidence: Double::ratio(1, 10).narrow(),
    }
}

#[verifier::when_used_as_spec(spec_infeasible_stop)]
pub fn infeasible_stop() -> (r: VelocityCommand)
    ensures
        r == spec_infeasible_stop(),
{
    VelocityCommand {
        linear_x: Double::zero(),
        angular_z: Double::zero(),
        confidence: Double::ratio(1, 10).narrow(),
    }
}

impl DwaPlanner {
    pub fn new(config: DwaConfig) -> (r: DwaPlanner)
        ensures
            r == (DwaPlanner { config, prev_cmd_v: None }),
    {
        DwaPlanner { config, prev_cmd_v: None }
    }

    pub open spec fn relaxed(self) -> Double {
        robot_footprint_radius().plus(
            self.config.robot_radius.minus(robot_footprint_radius()).max(Double::zero()).times(
                self.config.recovery_margin_scale,
            ),
        )
    }

    /// Radius (m) for recovery: only a part of the margin above the footprint.
    pub fn relaxed_radius(&self) -> (r: Double)
        ensures
            r == self.relaxed(),
    {
        robot_footprint_radius().plus(
            self.config.robot_radius.minus(robot_footprint_radius()).max(Double::zero()).times(
                self.config.recovery_margin_scale,
            ),
        )
    }

    /// What the planner is asked, with a radius for the collision checks.
    pub open spec fn query<'a>(
        self,
        state: RobotState,
        path: Seq<PathWaypoint>,
        obstacles: &'a [Obstacle],
        desired_speed: Double,
        radius: Double,
    ) -> Query<'a> {
        Query {
            config: self.config,
            state,
            obstacles,
            goal: local_goal(state, path),
            target: desired_speed.clamp(Double::zero(), self.config.max_speed),
            prev_v: match self.prev_cmd_v {
                Some(v) => v,
                None => state.linear_vel,
            },
            radius,
        }
    }

    /// Plans the next command.
    pub fn compute<M: Fn(Circular, Double, Double) -> Double>(
        &mut self,
        m: &M,
        state: &RobotState,
        path: &[PathWaypoint],
        obstacles: &[Obstacle],
        desired_speed: Double,
    ) -> (r: VelocityCommand)
        requires
            functional(m),
            old(self).config.limits(),
        ensures
            r == decided(
                trig_of(m),
                old(self).query(
                    *state,
                    path@,
                    obstacles,
                    desired_speed,
                    old(self).config.robot_radius,
                ),
            ),
            *final(self) == (DwaPlanner {
                config: old(self).config,
                prev_cmd_v: Some(r.linear_x),
            }),
    {
        let radius = self.config.robot_radius;
        self.compute_with_radius(m, state, path, obstacles, desired_speed, radius)
    }

    /// Plans the next command with a given radius for the collision checks.
    pub fn compute_with_radius<M: Fn(Circular, Double, Double) -> Double>(
        &mut self,
        m: &M,
        state: &RobotState,
        path: &[PathWaypoint],
        obstacles: &[Obstacle],
        desired_speed: Double,
        collision_radius: Double,
    ) -> (r: VelocityCommand)
        requires
            functional(m),
            old(self).config.limits(),
        ensures
            r == decided(
                trig_of(m),
                old(self).query(*state, path@, obstacles, desired_speed, collision_radius),
            ),
            *final(self) == (DwaPlanner {
                config: old(self).config,
                prev_cmd_v: Some(r.linear_x),
            }),
    {
        let q = Query {
            config: self.config,
            state: *state,
            obstacles,
            goal: find_local_goal(state, path),
            target: desired_speed.clamp(Double::zero(), self.config.max_speed),
            prev_v: match self.prev_cmd_v {
                Some(v) => v,
                None => state.linear_vel,
            },
            radius: collision_radius,
        };
        let window = Window::of(q.config, q.state, q.target);
        let (best, moves) = q.search(m, window);
        let mut cmd = match best {
            Some(p) => VelocityCommand {
                linear_x: p.v,
                angular_z: p.w,
                confidence: Double::ratio(9, 10).narrow(),
            },
            None => infeasible_stop(),
        };
        if state.linear_vel.abs().lt(Double::ratio(5, 100)) && !moves && Double::zero().lt(
            q.target,
        ) {
            if let Some(start) = q.standstill_escape(m) {
                cmd = start;
            }
        }
        self.prev_cmd_v = Some(cmd.linear_x);
        cmd
    }

    /// Takes note of a command that another planner gave.
    pub fn note_external_command(&mut self, v: Double)
        ensures
            *final(self) == (DwaPlanner { config: old(self).config, prev_cmd_v: Some(v) }),
    {
        self.prev_cmd_v = Some(v);
    }
}

} // verus!
