//! Pure pursuit: the arc to a point ahead on the path, at a speed from which
//! every bend and every stop ahead can still be met, and only where the arc is
//! verified to stay clear.
use crate::fault::{
    first_fault, lemma_no_fault, nonnegative, positive, report, rule_pair, verdict, ConfigError,
    Quantity,
};
use crate::geometry::distance;
use crate::global_planner::smoother::menger_curvature;
use crate::global_planner::{PathWaypoint, SegmentDir};
use crate::ieee::double::Double;
use crate::local_planner::arc::{
    allowance, braking_trail, committed_trail, cycle, horizon_trail, infinity, own_least,
    simulate_arc, simulate_committed_stop, wedged_allowance,
};
use crate::local_planner::dwa::{first_beyond, speed_scaled_radius, DwaConfig};
use crate::local_planner::motion::RobotState;
use crate::local_planner::obstacle::Obstacle;
use crate::local_planner::reverse::{see, seen};
use crate::local_planner::run::{
    active_run, cusp_arrival, first_run, nearest, nearest_index, remaining, remaining_run_distance,
};
use crate::local_planner::VelocityCommand;
use crate::trig::{
    atan2, bearing, functional, normalize_angle, pi, sin, sine, tan, tangent, trig_of, Circular,
    Trig,
};
use vstd::prelude::*;
use vstd::slice::slice_subrange;

verus! {

#[derive(Clone, Copy, Debug)]
pub struct PursuitConfig {
    /// Seconds of travel to look ahead.
    pub k_v: Double,
    /// Bounds (m) of the lookahead.
    pub lookahead_min: Double,
    pub lookahead_max: Double,
    /// Lateral acceleration (m/s^2) that limits the speed in a bend.
    pub a_lat_max: Double,
    /// Speed limit (m/s) in reverse.
    pub reverse_speed_cap: Double,
    /// Speed (m/s) below which no bend slows the robot down.
    pub v_turn_min: Double,
    /// How much the tightest bend ahead shortens the lookahead; 0 for not.
    pub curvature_lookahead_gain: Double,
    /// How much the bearing of the target shortens the lookahead; 0 for not.
    pub heading_error_lookahead_gain: Double,
}

impl Default for PursuitConfig {
    fn default() -> (r: PursuitConfig)
        ensures
            r == PursuitConfig::standard(),
    {
        PursuitConfig {
            k_v: Double::one(),
            lookahead_min: Double::ratio(6, 10),
            lookahead_max: Double::ratio(25, 10),
            a_lat_max: Double::of(2),
            reverse_speed_cap: Double::ratio(4, 10),
            v_turn_min: Double::ratio(2, 10),
            curvature_lookahead_gain: Double::ratio(6, 10),
            heading_error_lookahead_gain: Double::one(),
        }
    }
}

impl PursuitConfig {
    /// The configuration where nothing else is given.
    pub open spec fn standard() -> PursuitConfig {
        PursuitConfig {
            k_v: Double::one(),
            lookahead_min: Double::ratio(6, 10),
            lookahead_max: Double::ratio(25, 10),
            a_lat_max: Double::of(2),
            reverse_speed_cap: Double::ratio(4, 10),
            v_turn_min: Double::ratio(2, 10),
            curvature_lookahead_gain: Double::ratio(6, 10),
            heading_error_lookahead_gain: Double::one(),
        }
    }

    /// The bounds of the lookahead are in order, limits are positive and gains
    /// are not negative.
    pub open spec fn valid(self) -> bool {
        &&& self.k_v.nonnegative()
        &&& self.lookahead_min.positive()
        &&& self.lookahead_max.finite()
        &&& self.lookahead_min.le(self.lookahead_max)
        &&& self.a_lat_max.positive()
        &&& self.reverse_speed_cap.positive()
        &&& self.v_turn_min.positive()
        &&& self.curvature_lookahead_gain.nonnegative()
        &&& self.heading_error_lookahead_gain.nonnegative()
    }

    pub open spec fn checks(self) -> Seq<Option<ConfigError>> {
        seq![
            nonnegative(self.k_v, "pursuit.k_v must be >= 0 and finite, got {}"),
            positive(self.lookahead_min, "pursuit.lookahead_min must be > 0, got {}"),
            rule_pair(
                self.lookahead_min.le(self.lookahead_max) && self.lookahead_max.is_finite(),
                "pursuit.lookahead_max ({}) must be >= pursuit.lookahead_min ({})",
                Quantity::Wide(self.lookahead_max),
                Quantity::Wide(self.lookahead_min),
            ),
            positive(self.a_lat_max, "pursuit.a_lat_max must be > 0, got {}"),
            positive(self.reverse_speed_cap, "pursuit.reverse_speed_cap must be > 0, got {}"),
            positive(self.v_turn_min, "pursuit.v_turn_min must be > 0, got {}"),
            nonnegative(
                self.curvature_lookahead_gain,
                "pursuit.curvature_lookahead_gain must be >= 0 and finite, got {}",
            ),
            nonnegative(
                self.heading_error_lookahead_gain,
                "pursuit.heading_error_lookahead_gain must be >= 0 and finite, got {}",
            ),
        ]
    }

    /// Refuses values that would break the pursuit.
    pub fn validate(&self) -> (r: Result<(), ConfigError>)
        ensures
            r is Ok <==> self.valid(),
            r == verdict(first_fault(self.checks())),
    {
        let checks = vec![
            nonnegative(self.k_v, "pursuit.k_v must be >= 0 and finite, got {}"),
            positive(self.lookahead_min, "pursuit.lookahead_min must be > 0, got {}"),
            rule_pair(
                self.lookahead_min.le(self.lookahead_max) && self.lookahead_max.is_finite(),
                "pursuit.lookahead_max ({}) must be >= pursuit.lookahead_min ({})",
                Quantity::Wide(self.lookahead_max),
                Quantity::Wide(self.lookahead_min),
            ),
            positive(self.a_lat_max, "pursuit.a_lat_max must be > 0, got {}"),
            positive(self.reverse_speed_cap, "pursuit.reverse_speed_cap must be > 0, got {}"),
            positive(self.v_turn_min, "pursuit.v_turn_min must be > 0, got {}"),
            nonnegative(
                self.curvature_lookahead_gain,
                "pursuit.curvature_lookahead_gain must be >= 0 and finite, got {}",
            ),
            nonnegative(
                self.heading_error_lookahead_gain,
                "pursuit.heading_error_lookahead_gain must be >= 0 and finite, got {}",
            ),
        ];
        proof {
            let c = self.checks();
            assert(checks@ == c);
            lemma_no_fault(c);
            assert(c[0] is None && c[1] is None && c[2] is None && c[3] is None && c[4] is None
                && c[5] is None && c[6] is None && c[7] is None <==> self.valid());
        }
        report(checks)
    }
}

/// Lookahead (m) at a speed.
pub open spec fn spec_lookahead_distance(v: Double, config: &PursuitConfig) -> Double {
    config.k_v.times(v.abs()).clamp(config.lookahead_min, config.lookahead_max)
}

#[verifier::when_used_as_spec(spec_lookahead_distance)]
pub fn lookahead_distance(v: Double, config: &PursuitConfig) -> (r: Double)
    requires
        config.lookahead_min.le(config.lookahead_max),
    ensures
        r == spec_lookahead_distance(v, config),
{
    config.k_v.times(v.abs()).clamp(config.lookahead_min, config.lookahead_max)
}

/// The lookahead shortened by the tightest bend ahead, down to the lower bound.
pub open spec fn spec_curvature_scaled_lookahead(
    l_base: Double,
    kappa_max: Double,
    gain: Double,
    lookahead_min: Double,
) -> Double {
    l_base.over(Double::one().plus(gain.times(kappa_max.abs()).times(l_base))).clamp(
        lookahead_min.min(l_base),
        l_base,
    )
}

#[verifier::when_used_as_spec(spec_curvature_scaled_lookahead)]
pub fn curvature_scaled_lookahead(
    l_base: Double,
    kappa_max: Double,
    gain: Double,
    lookahead_min: Double,
) -> (r: Double)
    ensures
        r == spec_curvature_scaled_lookahead(l_base, kappa_max, gain, lookahead_min),
{
    l_base.over(Double::one().plus(gain.times(kappa_max.abs()).times(l_base))).within(
        lookahead_min.min(l_base),
        l_base,
    )
}

/// What the bends ahead ask for.
#[derive(Clone, Copy, Debug)]
pub struct ProfileScan {
    /// Speed (m/s) from which each of them can still be met.
    pub speed_cap: Double,
    /// Curvature (1/m) of the tightest within the lookahead.
    pub kappa_max_ahead: Double,
}

/// Milliseconds between two reports of a refused arc.
pub const BLOCKED_LOG_INTERVAL_MS: u64 = 500;

/// Whether a refused arc may be reported at a time, given that of the last
/// report (ms).
pub fn blocked_log_permitted(now: u64, last: u64) -> (r: bool)
    ensures
        r <==> now - last >= BLOCKED_LOG_INTERVAL_MS,
{
    now >= last && now - last >= BLOCKED_LOG_INTERVAL_MS
}

/// Time (ms) of the last report once a refused arc has come up for one.
pub open spec fn spec_reported(now: u64, last: u64) -> u64 {
    if now - last >= BLOCKED_LOG_INTERVAL_MS {
        now
    } else {
        last
    }
}

/// Whether a refused arc is reported at a time, and the time of the last report
/// after that.
pub fn report_blocked(now: u64, last: u64) -> (r: (bool, u64))
    ensures
        r.0 <==> now - last >= BLOCKED_LOG_INTERVAL_MS,
        r.1 == spec_reported(now, last),
{
    if blocked_log_permitted(now, last) {
        (true, now)
    } else {
        (false, last)
    }
}

/// A command of the pursuit.
#[derive(Clone, Copy, Debug)]
pub struct PursuitCommand {
    pub command: VelocityCommand,
    /// The command reverses, or stops at a change of direction, as planned.
    pub maneuver: bool,
}

/// The part of the verification that refused an arc.
#[derive(Clone, Copy, Debug, PartialEq, Eq, Structural)]
pub enum BlockedPhase {
    /// The arc over the horizon, past obstacles at rest.
    Horizon,
    /// The stop that follows it.
    BrakingExt,
    /// The stop that the command commits to, among obstacles in motion.
    CommittedStop,
}

impl BlockedPhase {
    pub open spec fn name(self) -> &'static str {
        match self {
            BlockedPhase::Horizon => "horizon",
            BlockedPhase::BrakingExt => "braking-ext",
            BlockedPhase::CommittedStop => "committed-stop",
        }
    }

    /// The name of the phase.
    pub fn as_str(&self) -> (r: &'static str)
        ensures
            r@ == self.name()@,
    {
        match self {
            BlockedPhase::Horizon => "horizon",
            BlockedPhase::BrakingExt => "braking-ext",
            BlockedPhase::CommittedStop => "committed-stop",
        }
    }
}

/// A refused arc: at which speed, for which obstacle and by how much.
#[derive(Clone, Copy, Debug)]
pub struct BlockedStep {
    /// Speed (m/s) of the command, negative in reverse.
    pub speed_step: Double,
    pub obs_x: Double,
    pub obs_y: Double,
    pub obs_speed: Double,
    /// Least net distance (m) of the obstacle.
    pub net_clearance: Double,
    /// Net distance (m) that it had to keep.
    pub required: Double,
    pub phase: BlockedPhase,
}

/// Why the pursuit gives no command.
#[derive(Clone, Copy, Debug)]
pub enum PursuitDefer {
    /// The arc was refused at every speed. Tells the last refusal; there is
    /// none where no speed could be tried.
    Blocked(Option<BlockedStep>),
    /// The target lies behind.
    TargetBehind,
    /// What remains of the path is too short for an arc.
    PathExhausted,
    /// There is no path.
    NoPath,
    /// A stop is asked for.
    StopRequested,
    /// No speed in the direction of the run is within reach.
    ReverseRampOut,
}

impl PursuitDefer {
    pub open spec fn name(self) -> &'static str {
        match self {
            PursuitDefer::Blocked(_) => "Blocked",
            PursuitDefer::TargetBehind => "TargetBehind",
            PursuitDefer::PathExhausted => "PathExhausted",
            PursuitDefer::NoPath => "NoPath",
            PursuitDefer::StopRequested => "StopRequested",
            PursuitDefer::ReverseRampOut => "ReverseRampOut",
        }
    }

    /// The name of the reason.
    pub fn as_str(&self) -> (r: &'static str)
        ensures
            r@ == self.name()@,
    {
        match self {
            PursuitDefer::Blocked(_) => "Blocked",
            PursuitDefer::TargetBehind => "TargetBehind",
            PursuitDefer::PathExhausted => "PathExhausted",
            PursuitDefer::NoPath => "NoPath",
            PursuitDefer::StopRequested => "StopRequested",
            PursuitDefer::ReverseRampOut => "ReverseRampOut",
        }
    }
}

/// Speed (m/s) up to which the robot counts as stopped at a change of
/// direction: 0.05.
pub open spec fn spec_cusp_stop_speed() -> Double {
    Double::spec_ratio(5, 100)
}

#[verifier::when_used_as_spec(spec_cusp_stop_speed)]
pub fn cusp_stop_speed() -> (r: Double)
    ensures
        r == spec_cusp_stop_speed(),
{
    Double::ratio(5, 100)
}

/// A speed (m/s), distance (m), angle (rad) or curvature (1/m) that counts as
/// none: 1e-6.
pub open spec fn spec_negligible() -> Double {
    Double::spec_ratio(1, 1_000_000)
}

#[verifier::when_used_as_spec(spec_negligible)]
pub fn negligible() -> (r: Double)
    ensures
        r == spec_negligible(),
{
    Double::ratio(1, 1_000_000)
}

/// Tolerance (m, m/s, 1/m) of a comparison: 1e-9.
pub open spec fn spec_tolerance() -> Double {
    Double::spec_ratio(1, 1_000_000_000)
}

#[verifier::when_used_as_spec(spec_tolerance)]
pub fn tolerance() -> (r: Double)
    ensures
        r == spec_tolerance(),
{
    Double::ratio(1, 1_000_000_000)
}

/// The run that is pursued.
#[derive(Clone, Copy, Debug)]
pub struct Leg {
    /// Its first and last waypoint.
    pub start: usize,
    pub end: usize,
    pub dir: SegmentDir,
}

/// The pursuit of a path.
#[derive(Clone, Copy, Debug)]
pub struct PursuitPlanner {
    pub config: PursuitConfig,
    /// The limits of the robot, and what a verified command keeps clear of.
    pub dwa: DwaConfig,
    /// Wheelbase (m).
    pub wheelbase: Double,
}

/// What the pursuit aims at: the arc and the speed on it.
#[derive(Clone, Copy, Debug)]
pub struct Aim {
    pub kappa: Double,
    pub speed: Double,
}

/// A waypoint with its distance.
pub type Target = (PathWaypoint, Double);

/// The least margin of an arc, and what refuses it.
#[derive(Clone, Copy, Debug)]
pub struct Margin {
    pub worst: Double,
    pub binding: Option<BlockedStep>,
}

impl PursuitPlanner {
    /// The planner with its limits, the lookahead bounds and the arc limit in
    /// order.
    pub open spec fn ready(self) -> bool {
        &&& self.dwa.limits()
        &&& Double::zero().le(self.dwa.max_curvature)
        &&& self.config.lookahead_min.le(self.config.lookahead_max)
    }

    pub fn new(config: PursuitConfig, dwa: DwaConfig, wheelbase: Double) -> (r: PursuitPlanner)
        requires
            Double::zero().lt(wheelbase),
        ensures
            r == (PursuitPlanner { config, dwa, wheelbase }),
    {
        PursuitPlanner { config, dwa, wheelbase }
    }

    pub open spec fn ramp(self, prev_cmd_v: Double) -> PursuitCommand {
        let slower = prev_cmd_v.abs().minus(self.dwa.max_deceleration.times(cycle())).max(
            Double::zero(),
        );
        PursuitCommand {
            command: VelocityCommand {
                linear_x: prev_cmd_v.signum().times(slower),
                angular_z: Double::zero(),
                confidence: Double::ratio(9, 10).narrow(),
            },
            maneuver: true,
        }
    }

    /// One cycle of braking to a stop, straight on.
    pub fn stop_ramp(&self, prev_cmd_v: Double) -> (r: PursuitCommand)
        ensures
            r == self.ramp(prev_cmd_v),
    {
        let slower = prev_cmd_v.abs().minus(self.dwa.max_deceleration.times(cycle())).max(
            Double::zero(),
        );
        PursuitCommand {
            command: VelocityCommand {
                linear_x: prev_cmd_v.signum().times(slower),
                angular_z: Double::zero(),
                confidence: Double::ratio(9, 10).narrow(),
            },
            maneuver: true,
        }
    }

    /// Curvature (1/m) of a run at its `i`-th waypoint: that of the steering
    /// angle where there is one, else that of the circle through the waypoint
    /// and its neighbours; none at an end of the run.
    pub open spec fn bend(self, tr: Trig, run: Seq<PathWaypoint>, i: int) -> Double {
        if negligible().lt(run[i].steering.abs()) {
            tangent(tr, run[i].steering).over(self.wheelbase).abs()
        } else if i == 0 || i + 1 >= run.len() {
            Double::zero()
        } else {
            menger_curvature(
                (run[i - 1].x, run[i - 1].y),
                (run[i].x, run[i].y),
                (run[i + 1].x, run[i + 1].y),
            ).abs()
        }
    }

    /// The curvature of a run at a waypoint.
    pub fn waypoint_curvature<M: Fn(Circular, Double, Double) -> Double>(
        &self,
        m: &M,
        run: &[PathWaypoint],
        i: usize,
    ) -> (r: Double)
        requires
            functional(m),
            i < run@.len(),
        ensures
            r == self.bend(trig_of(m), run@, i as int),
    {
        if negligible().lt(run[i].steering.abs()) {
            return tan(m, run[i].steering).over(self.wheelbase).abs();
        }
        if i == 0 || run.len() - i <= 1 {
            return Double::zero();
        }
        menger_curvature(
            (run[i - 1].x, run[i - 1].y),
            (run[i].x, run[i].y),
            (run[i + 1].x, run[i + 1].y),
        ).abs()
    }

    /// Speed (m/s) now from which the bend of curvature `kappa` can be met
    /// after `arc` metres, one cycle of which are gone before the brakes act.
    pub open spec fn spec_bend_speed(
        self,
        kappa: Double,
        arc: Double,
        leg_speed: Double,
        v_now: Double,
    ) -> Double {
        let limit = self.config.a_lat_max.over(kappa.max(negligible())).sqrt().max(
            self.config.v_turn_min,
        ).min(leg_speed);
        let s = arc.minus(v_now.times(cycle())).max(Double::zero());
        limit.square().plus(Double::of(2).times(self.dwa.max_deceleration).times(s)).sqrt()
    }

    #[verifier::when_used_as_spec(spec_bend_speed)]
    pub fn bend_speed(self, kappa: Double, arc: Double, leg_speed: Double, v_now: Double) -> (r:
        Double)
        ensures
            r == self.spec_bend_speed(kappa, arc, leg_speed, v_now),
    {
        let limit = self.config.a_lat_max.over(kappa.max(negligible())).sqrt().max(
            self.config.v_turn_min,
        ).min(leg_speed);
        let s = arc.minus(v_now.times(cycle())).max(Double::zero());
        limit.square().plus(Double::of(2).times(self.dwa.max_deceleration).times(s)).sqrt()
    }

    /// How far (m) ahead bends matter: the braking distance and a half, at
    /// least 3 m.
    pub open spec fn spec_bend_horizon(self, v_now: Double) -> Double {
        v_now.square().over(Double::of(2).times(self.dwa.max_deceleration)).plus(
            Double::half(),
        ).max(Double::of(3))
    }

    #[verifier::when_used_as_spec(spec_bend_horizon)]
    pub fn bend_horizon(self, v_now: Double) -> (r: Double)
        ensures
            r == self.spec_bend_horizon(v_now),
    {
        v_now.square().over(Double::of(2).times(self.dwa.max_deceleration)).plus(
            Double::half(),
        ).max(Double::of(3))
    }

    /// The scan with the bend at one waypoint, `arc` metres ahead.
    pub open spec fn spec_noted(
        self,
        scan: ProfileScan,
        kappa: Double,
        arc: Double,
        leg_speed: Double,
        v_now: Double,
        l_base: Double,
    ) -> ProfileScan {
        ProfileScan {
            kappa_max_ahead: if arc.le(l_base) && scan.kappa_max_ahead.lt(kappa) {
                kappa
            } else {
                scan.kappa_max_ahead
            },
            speed_cap: if arc.le(self.bend_horizon(v_now)) {
                scan.speed_cap.min(self.bend_speed(kappa, arc, leg_speed, v_now))
            } else {
                scan.speed_cap
            },
        }
    }

    #[verifier::when_used_as_spec(spec_noted)]
    pub fn noted(
        self,
        scan: ProfileScan,
        kappa: Double,
        arc: Double,
        leg_speed: Double,
        v_now: Double,
        l_base: Double,
    ) -> (r: ProfileScan)
        ensures
            r == self.spec_noted(scan, kappa, arc, leg_speed, v_now, l_base),
    {
        ProfileScan {
            kappa_max_ahead: if arc.le(l_base) && scan.kappa_max_ahead.lt(kappa) {
                kappa
            } else {
                scan.kappa_max_ahead
            },
            speed_cap: if arc.le(self.bend_horizon(v_now)) {
                scan.speed_cap.min(self.bend_speed(kappa, arc, leg_speed, v_now))
            } else {
                scan.speed_cap
            },
        }
    }

    /// The scan from the `i`-th waypoint on, which lies `arc` metres ahead.
    pub open spec fn scanned(
        self,
        tr: Trig,
        run: Seq<PathWaypoint>,
        leg_speed: Double,
        v_now: Double,
        l_base: Double,
        i: int,
        arc: Double,
        scan: ProfileScan,
    ) -> ProfileScan
        decreases run.len() - i,
    {
        let next = self.noted(scan, self.bend(tr, run, i), arc, leg_speed, v_now, l_base);
        let ahead = arc.plus(distance(run[i].x, run[i].y, run[i + 1].x, run[i + 1].y));
        if i + 1 >= run.len() || self.bend_horizon(v_now).max(l_base).lt(ahead) {
            next
        } else {
            self.scanned(tr, run, leg_speed, v_now, l_base, i + 1, ahead, next)
        }
    }

    /// What the bends of a run ahead of a point ask for.
    pub open spec fn profile(
        self,
        tr: Trig,
        run: Seq<PathWaypoint>,
        x: Double,
        y: Double,
        leg_speed: Double,
        v_now: Double,
        l_base: Double,
    ) -> ProfileScan {
        let none = ProfileScan { speed_cap: infinity(), kappa_max_ahead: Double::zero() };
        if run.len() == 0 {
            none
        } else {
            self.scanned(
                tr,
                run,
                leg_speed,
                v_now,
                l_base,
                nearest(run, x, y),
                Double::zero(),
                none,
            )
        }
    }

    /// Scans the bends of a run ahead of a point.
    pub fn curvature_profile<M: Fn(Circular, Double, Double) -> Double>(
        &self,
        m: &M,
        run: &[PathWaypoint],
        x: Double,
        y: Double,
        leg_speed: Double,
        v_now: Double,
        l_base: Double,
    ) -> (r: ProfileScan)
        requires
            functional(m),
        ensures
            r == self.profile(trig_of(m), run@, x, y, leg_speed, v_now, l_base),
    {
        let ghost tr = trig_of(m);
        let mut scan = ProfileScan { speed_cap: infinity(), kappa_max_ahead: Double::zero() };
        if run.len() == 0 {
            return scan;
        }
        let mut i = nearest_index(run, x, y);
        let far = self.bend_horizon(v_now).max(l_base);
        let mut arc = Double::zero();
        let ghost all = self.profile(tr, run@, x, y, leg_speed, v_now, l_base);
        loop
            invariant
                functional(m),
                tr == trig_of(m),
                i < run@.len(),
                far == self.bend_horizon(v_now).max(l_base),
                all == self.profile(tr, run@, x, y, leg_speed, v_now, l_base),
                all == self.scanned(
                    tr,
                    run@,
                    leg_speed,
                    v_now,
                    l_base,
                    i as int,
                    arc,
                    scan,
                ),
            decreases run@.len() - i,
        {
            let kappa = self.waypoint_curvature(m, run, i);
            scan = self.noted(scan, kappa, arc, leg_speed, v_now, l_base);
            if run.len() - i <= 1 {
                return scan;
            }
            arc = arc.plus(distance(run[i].x, run[i].y, run[i + 1].x, run[i + 1].y));
            if far.lt(arc) {
                return scan;
            }
            i = i + 1;
        }
    }

    /// The point to steer for: the first waypoint, from the nearest on, that is
    /// `l` metres away, else the end of the run. An end that is too near gives
    /// none: on the last run, half the least lookahead.
    pub open spec fn target(
        self,
        run: Seq<PathWaypoint>,
        x: Double,
        y: Double,
        terminal: bool,
        l: Double,
    ) -> Option<Target> {
        let i = first_beyond(run, x, y, l, nearest(run, x, y));
        let end = run.last();
        let far = distance(x, y, end.x, end.y);
        if run.len() == 0 {
            None
        } else if i < run.len() {
            Some((run[i], distance(x, y, run[i].x, run[i].y)))
        } else if terminal && far.lt(self.config.lookahead_min.times(Double::half())) {
            None
        } else if far.lt(negligible()) {
            None
        } else {
            Some((end, far))
        }
    }

    /// Finds the point to steer for.
    pub fn find_target(
        &self,
        run: &[PathWaypoint],
        x: Double,
        y: Double,
        terminal: bool,
        l: Double,
    ) -> (r: Option<Target>)
        ensures
            r == self.target(run@, x, y, terminal, l),
    {
        if run.len() == 0 {
            return None;
        }
        let mut i = nearest_index(run, x, y);
        while i < run.len()
            invariant
                i <= run@.len(),
                first_beyond(run@, x, y, l, nearest(run@, x, y)) == first_beyond(
                    run@,
                    x,
                    y,
                    l,
                    i as int,
                ),
            decreases run@.len() - i,
        {
            let far = distance(x, y, run[i].x, run[i].y);
            if l.le(far) {
                return Some((run[i], far));
            }
            i = i + 1;
        }
        let end = run[run.len() - 1];
        let far = distance(x, y, end.x, end.y);
        if terminal && far.lt(self.config.lookahead_min.times(Double::half())) {
            return None;
        }
        if far.lt(negligible()) {
            return None;
        }
        Some((end, far))
    }
}

/// The obstacle at rest where it is now.
pub open spec fn spec_pinned(o: Obstacle) -> Obstacle {
    Obstacle { vx: Double::zero(), vy: Double::zero(), ..o }
}

#[verifier::when_used_as_spec(spec_pinned)]
pub fn pinned(o: Obstacle) -> (r: Obstacle)
    ensures
        r == spec_pinned(o),
{
    Obstacle {
        x: o.x,
        y: o.y,
        vx: Double::zero(),
        vy: Double::zero(),
        radius: o.radius,
        half_x: o.half_x,
        half_y: o.half_y,
        heading: o.heading,
    }
}

/// The obstacles at rest where they are now.
pub open spec fn all_pinned(obstacles: Seq<Obstacle>) -> Seq<Obstacle> {
    Seq::new(obstacles.len(), |i: int| pinned(obstacles[i]))
}

/// The robot as it drives a run: in reverse, one that faces the other way and
/// drives forward.
pub open spec fn spec_driving(state: RobotState, dir: SegmentDir) -> RobotState {
    match dir {
        SegmentDir::Forward => state,
        SegmentDir::Reverse => RobotState {
            theta: normalize_angle(state.theta.plus(pi())),
            linear_vel: state.linear_vel.negate(),
            ..state
        },
    }
}

#[verifier::when_used_as_spec(spec_driving)]
pub fn driving(state: RobotState, dir: SegmentDir) -> (r: RobotState)
    ensures
        r == spec_driving(state, dir),
{
    match dir {
        SegmentDir::Forward => state,
        SegmentDir::Reverse => RobotState {
            x: state.x,
            y: state.y,
            theta: normalize_angle(state.theta.plus(pi())),
            linear_vel: state.linear_vel.negate(),
            angular_vel: state.angular_vel,
        },
    }
}

/// The robot is still moving against the direction.
pub open spec fn spec_against(dir: SegmentDir, state: RobotState, prev_cmd_v: Double) -> bool {
    dir.sign().times(prev_cmd_v).lt(negligible().negate()) || dir.sign().times(
        state.linear_vel,
    ).lt(cusp_stop_speed().negate())
}

#[verifier::when_used_as_spec(spec_against)]
pub fn against(dir: SegmentDir, state: RobotState, prev_cmd_v: Double) -> (r: bool)
    ensures
        r == spec_against(dir, state, prev_cmd_v),
{
    dir.sign().times(prev_cmd_v).lt(negligible().negate()) || dir.sign().times(
        state.linear_vel,
    ).lt(cusp_stop_speed().negate())
}

/// The robot, or its last command, still moves.
pub open spec fn spec_moving(state: RobotState, prev_cmd_v: Double) -> bool {
    cusp_stop_speed().lt(state.linear_vel.abs()) || cusp_stop_speed().lt(prev_cmd_v.abs())
}

#[verifier::when_used_as_spec(spec_moving)]
pub fn moving(state: RobotState, prev_cmd_v: Double) -> (r: bool)
    ensures
        r == spec_moving(state, prev_cmd_v),
{
    cusp_stop_speed().lt(state.linear_vel.abs()) || cusp_stop_speed().lt(prev_cmd_v.abs())
}

/// The first run of the path is driven to its end, and another follows.
pub open spec fn at_cusp(path: Seq<PathWaypoint>, state: RobotState) -> bool {
    let end = first_run(path).0;
    end + 1 < path.len() && remaining(path.subrange(0, end + 1), state.x, state.y).lt(
        cusp_arrival(),
    )
}

/// The run that is pursued: the first, or the second where the first is driven
/// to its end. None where the robot first has to come to a stop: at that end,
/// or because it moves against the run.
pub open spec fn leg_of(
    path: Seq<PathWaypoint>,
    state: RobotState,
    prev_cmd_v: Double,
) -> Option<Leg> {
    let (end, dir) = first_run(path);
    let leg = if at_cusp(path, state) {
        let (more, next) = first_run(path.subrange(end, path.len() as int));
        Leg { start: end as usize, end: (end + more) as usize, dir: next }
    } else {
        Leg { start: 0, end: end as usize, dir }
    };
    if (at_cusp(path, state) && moving(state, prev_cmd_v)) || against(
        leg.dir,
        state,
        prev_cmd_v,
    ) {
        None
    } else {
        Some(leg)
    }
}

/// Finds the run that is pursued.
pub fn choose_leg(path: &[PathWaypoint], state: &RobotState, prev_cmd_v: Double) -> (r: Option<
    Leg,
>)
    requires
        path@.len() > 0,
    ensures
        r == leg_of(path@, *state, prev_cmd_v),
        r is Some ==> r->0.start <= r->0.end < path@.len(),
{
    let (end, dir) = active_run(path);
    let mut leg = Leg { start: 0, end, dir };
    if path.len() - end > 1 {
        let run = slice_subrange(path, 0, end + 1);
        if remaining_run_distance(run, state.x, state.y).lt(cusp_arrival()) {
            if moving(*state, prev_cmd_v) {
                return None;
            }
            let rest = slice_subrange(path, end, path.len());
            let (more, next) = active_run(rest);
            leg = Leg { start: end, end: end + more, dir: next };
        }
    }
    if against(leg.dir, *state, prev_cmd_v) {
        return None;
    }
    Some(leg)
}

/// Fractions of the speed that are tried one after the other, and then a crawl
/// of 0.1 m/s.
pub open spec fn spec_speed_step(speed: Double, i: u64) -> Double {
    if i == 0 {
        speed.times(Double::one())
    } else if i == 1 {
        speed.times(Double::ratio(8, 10))
    } else if i == 2 {
        speed.times(Double::ratio(6, 10))
    } else if i == 3 {
        speed.times(Double::ratio(4, 10))
    } else {
        Double::ratio(1, 10)
    }
}

#[verifier::when_used_as_spec(spec_speed_step)]
pub fn speed_step(speed: Double, i: u64) -> (r: Double)
    ensures
        r == spec_speed_step(speed, i),
{
    if i == 0 {
        speed.times(Double::one())
    } else if i == 1 {
        speed.times(Double::ratio(8, 10))
    } else if i == 2 {
        speed.times(Double::ratio(6, 10))
    } else if i == 3 {
        speed.times(Double::ratio(4, 10))
    } else {
        Double::ratio(1, 10)
    }
}

/// Number of the speeds that are tried.
pub const SPEED_STEPS: u64 = 5;

/// A speed was tried before.
pub open spec fn tried_before(tried: Seq<Double>, v: Double) -> bool {
    exists|k: int|
        0 <= k < tried.len() && (#[trigger] tried[k]).minus(v).abs().lt(tolerance())
}

fn was_tried(tried: &Vec<Double>, v: Double) -> (r: bool)
    ensures
        r == tried_before(tried@, v),
{
    let mut k: usize = 0;
    while k < tried.len()
        invariant
            k <= tried@.len(),
            forall|j: int|
                0 <= j < k ==> !(#[trigger] tried@[j]).minus(v).abs().lt(tolerance()),
        decreases tried@.len() - k,
    {
        if tried[k].minus(v).abs().lt(tolerance()) {
            assert(tried@[k as int].minus(v).abs().lt(tolerance()));
            return true;
        }
        k = k + 1;
    }
    false
}

/// What is pursued, and from where.
#[derive(Clone, Copy, Debug)]
pub struct Chase<'a> {
    pub planner: PursuitPlanner,
    pub state: RobotState,
    pub obstacles: &'a [Obstacle],
    pub dir: SegmentDir,
    pub aim: Aim,
    /// Bounds (m/s) of the speed within reach, in the direction of the run.
    pub v_lo: Double,
    pub v_hi: Double,
}

impl<'a> Chase<'a> {
    pub open spec fn spec_yaw(self, v: Double) -> Double {
        let limit = self.planner.dwa.max_angular_speed;
        self.aim.kappa.times(v).clamp(limit.negate(), limit)
    }

    /// Yaw rate on the arc at a speed.
    #[verifier::when_used_as_spec(spec_yaw)]
    pub fn yaw(self, v: Double) -> (r: Double)
        requires
            self.planner.ready(),
        ensures
            r == self.spec_yaw(v),
    {
        let limit = self.planner.dwa.max_angular_speed;
        self.aim.kappa.times(v).clamp(limit.negate(), limit)
    }

    pub open spec fn spec_required(self, v_cmd: Double) -> Double {
        let c = self.planner.dwa;
        speed_scaled_radius(
            v_cmd,
            c.robot_radius,
            c.margin_low_speed_scale,
            c.high_speed_margin_gain,
        )
    }

    /// Net distance (m) to keep at a speed.
    #[verifier::when_used_as_spec(spec_required)]
    pub fn required(self, v_cmd: Double) -> (r: Double)
        ensures
            r == self.spec_required(v_cmd),
    {
        let c = self.planner.dwa;
        speed_scaled_radius(
            v_cmd,
            c.robot_radius,
            c.margin_low_speed_scale,
            c.high_speed_margin_gain,
        )
    }

    /// By how much the net distance of the obstacle at rest, over the arc and
    /// the stop that follows, exceeds what is allowed.
    pub open spec fn static_margin(self, tr: Trig, v_cmd: Double, w: Double, o: Obstacle) -> Double {
        self.static_gap(tr, v_cmd, w, o).minus(
            allowance(
                tr,
                self.state,
                pinned(o),
                self.required(v_cmd),
                self.planner.dwa.moving_obstacle_margin_gain,
            ),
        )
    }

    pub open spec fn static_gap(self, tr: Trig, v_cmd: Double, w: Double, o: Obstacle) -> Double {
        let c = self.planner.dwa;
        own_least(
            tr,
            pinned(o),
            c.moving_obstacle_margin_gain,
            horizon_trail(tr, c, self.state, v_cmd, w) + braking_trail(
                tr,
                c,
                self.state,
                v_cmd,
                w,
            ),
            infinity(),
        )
    }

    /// The same over that stop alone.
    pub open spec fn braking_gap(self, tr: Trig, v_cmd: Double, w: Double, o: Obstacle) -> Double {
        let c = self.planner.dwa;
        own_least(
            tr,
            pinned(o),
            c.moving_obstacle_margin_gain,
            braking_trail(tr, c, self.state, v_cmd, w),
            infinity(),
        )
    }

    pub open spec fn committed_gap(self, tr: Trig, v_cmd: Double, w: Double, o: Obstacle) -> Double {
        let c = self.planner.dwa;
        own_least(
            tr,
            o,
            c.moving_obstacle_margin_gain,
            committed_trail(tr, c, self.state, v_cmd, w),
            infinity(),
        )
    }

    /// By how much the net distance of the obstacle in motion, while the
    /// command is in effect and over the stop from there, exceeds what is
    /// allowed.
    pub open spec fn committed_margin(
        self,
        tr: Trig,
        v_cmd: Double,
        w: Double,
        o: Obstacle,
    ) -> Double {
        self.committed_gap(tr, v_cmd, w, o).minus(
            allowance(
                tr,
                self.state,
                o,
                self.required(v_cmd),
                self.planner.dwa.moving_obstacle_margin_gain,
            ),
        )
    }

    /// The lesser of the two margins of an obstacle.
    pub open spec fn margin(self, tr: Trig, v_cmd: Double, w: Double, o: Obstacle) -> Double {
        let still = self.static_margin(tr, v_cmd, w, o);
        let moved = self.committed_margin(tr, v_cmd, w, o);
        if still.le(moved) {
            still
        } else {
            moved
        }
    }

    /// The report of the lesser margin.
    pub open spec fn step_report(
        self,
        tr: Trig,
        v_cmd: Double,
        w: Double,
        o: Obstacle,
    ) -> BlockedStep {
        let gain = self.planner.dwa.moving_obstacle_margin_gain;
        let need = self.required(v_cmd);
        let still = self.static_margin(tr, v_cmd, w, o).le(
            self.committed_margin(tr, v_cmd, w, o),
        );
        BlockedStep {
            speed_step: v_cmd,
            obs_x: o.x,
            obs_y: o.y,
            obs_speed: o.speed(),
            net_clearance: if still {
                self.static_gap(tr, v_cmd, w, o)
            } else {
                self.committed_gap(tr, v_cmd, w, o)
            },
            required: if still {
                allowance(tr, self.state, pinned(o), need, gain)
            } else {
                allowance(tr, self.state, o, need, gain)
            },
            phase: if !still {
                BlockedPhase::CommittedStop
            } else if self.braking_gap(tr, v_cmd, w, o).le(
                self.static_gap(tr, v_cmd, w, o).plus(Double::ratio(1, 1_000_000_000_000)),
            ) {
                BlockedPhase::BrakingExt
            } else {
                BlockedPhase::Horizon
            },
        }
    }

    /// The least margin of the first `n` obstacles, and its report.
    pub open spec fn least_margin(self, tr: Trig, v_cmd: Double, w: Double, n: int) -> Margin
        decreases n,
    {
        if n <= 0 {
            Margin { worst: infinity(), binding: None }
        } else {
            let before = self.least_margin(tr, v_cmd, w, n - 1);
            let o = self.obstacles@[n - 1];
            let margin = self.margin(tr, v_cmd, w, o);
            if margin.lt(before.worst) {
                Margin { worst: margin, binding: Some(self.step_report(tr, v_cmd, w, o)) }
            } else {
                before
            }
        }
    }

    /// The margin of a speed in the direction of the run.
    pub open spec fn margin_at(self, tr: Trig, v: Double) -> Margin {
        self.least_margin(
            tr,
            self.dir.sign().times(v),
            self.yaw(v),
            self.obstacles@.len() as int,
        )
    }

    /// The `i`-th speed that is tried, within reach.
    pub open spec fn speed(self, i: u64) -> Double {
        speed_step(self.aim.speed, i).clamp(self.v_lo, self.v_hi)
    }

    /// The command at a speed. The confidence goes by the margin: from 0.6 at
    /// none to 0.9 at 0.3 m.
    pub open spec fn spec_command(self, v: Double, worst: Double) -> PursuitCommand {
        let (floor, top) = (Double::ratio(6, 10), Double::ratio(9, 10));
        let share = worst.over(Double::ratio(3, 10)).clamp(Double::zero(), Double::one());
        PursuitCommand {
            command: VelocityCommand {
                linear_x: self.dir.sign().times(v),
                angular_z: self.yaw(v),
                confidence: floor.plus(top.minus(floor).times(share)).narrow(),
            },
            maneuver: self.dir == SegmentDir::Reverse,
        }
    }

    #[verifier::when_used_as_spec(spec_command)]
    pub fn command(self, v: Double, worst: Double) -> (r: PursuitCommand)
        requires
            self.planner.ready(),
        ensures
            r == self.spec_command(v, worst),
    {
        let (floor, top) = (Double::ratio(6, 10), Double::ratio(9, 10));
        let share = worst.over(Double::ratio(3, 10)).clamp(Double::zero(), Double::one());
        PursuitCommand {
            command: VelocityCommand {
                linear_x: self.dir.sign().times(v),
                angular_z: self.yaw(v),
                confidence: floor.plus(top.minus(floor).times(share)).narrow(),
            },
            maneuver: self.dir == SegmentDir::Reverse,
        }
    }

    /// Tries the speeds from the `i`-th on: the first whose least margin is not
    /// negative. Speeds that are none, or were tried before, are left out.
    pub open spec fn ladder(
        self,
        tr: Trig,
        i: u64,
        tried: Seq<Double>,
        last: Option<BlockedStep>,
    ) -> Result<PursuitCommand, PursuitDefer>
        decreases SPEED_STEPS - i,
    {
        let v = self.speed(i);
        let found = self.margin_at(tr, v);
        if i >= SPEED_STEPS {
            Err(PursuitDefer::Blocked(last))
        } else if v.le(negligible()) || tried_before(tried, v) {
            self.ladder(tr, (i + 1) as u64, tried, last)
        } else if tolerance().negate().le(found.worst) {
            Ok(self.command(v, found.worst))
        } else {
            self.ladder(
                tr,
                (i + 1) as u64,
                tried.push(v),
                if found.binding is Some {
                    found.binding
                } else {
                    last
                },
            )
        }
    }

    /// The least margin of a command, and its report.
    fn verify<M: Fn(Circular, Double, Double) -> Double>(
        self,
        m: &M,
        v_cmd: Double,
        w: Double,
        pinned_obstacles: &Vec<Obstacle>,
    ) -> (r: Margin)
        requires
            functional(m),
            pinned_obstacles@ == all_pinned(self.obstacles@),
        ensures
            r == self.least_margin(trig_of(m), v_cmd, w, self.obstacles@.len() as int),
    {
        let ghost tr = trig_of(m);
        let c = self.planner.dwa;
        let gain = c.moving_obstacle_margin_gain;
        let roll = simulate_arc(m, &c, &self.state, v_cmd, w, pinned_obstacles.as_slice());
        let committed = simulate_committed_stop(m, &c, &self.state, v_cmd, w, self.obstacles);
        let need = self.required(v_cmd);
        let ghost arc = horizon_trail(tr, c, self.state, v_cmd, w);
        let ghost stop = braking_trail(tr, c, self.state, v_cmd, w);
        let mut worst = infinity();
        let mut binding: Option<BlockedStep> = None;
        let mut i: usize = 0;
        while i < self.obstacles.len()
            invariant
                functional(m),
                tr == trig_of(m),
                c == self.planner.dwa,
                gain == c.moving_obstacle_margin_gain,
                need == self.required(v_cmd),
                pinned_obstacles@ == all_pinned(self.obstacles@),
                arc == horizon_trail(tr, c, self.state, v_cmd, w),
                stop == braking_trail(tr, c, self.state, v_cmd, w),
                roll.per_obstacle_min@.len() == self.obstacles@.len(),
                roll.per_obstacle_braking_min@.len() == self.obstacles@.len(),
                committed@.len() == self.obstacles@.len(),
                forall|j: int|
                    0 <= j < self.obstacles@.len() ==> #[trigger] roll.per_obstacle_min@[j]
                        == own_least(tr, pinned_obstacles@[j], gain, arc + stop, infinity()),
                forall|j: int|
                    0 <= j < self.obstacles@.len()
                        ==> #[trigger] roll.per_obstacle_braking_min@[j] == own_least(
                        tr,
                        pinned_obstacles@[j],
                        gain,
                        stop,
                        infinity(),
                    ),
                forall|j: int|
                    0 <= j < self.obstacles@.len() ==> #[trigger] committed@[j] == own_least(
                        tr,
                        self.obstacles@[j],
                        gain,
                        committed_trail(tr, c, self.state, v_cmd, w),
                        infinity(),
                    ),
                i <= self.obstacles@.len(),
                (Margin { worst, binding }) == self.least_margin(tr, v_cmd, w, i as int),
            decreases self.obstacles@.len() - i,
        {
            let o = self.obstacles[i];
            let allow_static = wedged_allowance(m, &self.state, &pinned_obstacles[i], need, gain);
            let allow_moved = wedged_allowance(m, &self.state, &o, need, gain);
            let net_static = roll.per_obstacle_min[i];
            let net_moved = committed[i];
            let still = net_static.minus(allow_static);
            let moved = net_moved.minus(allow_moved);
            let at_rest = still.le(moved);
            let margin = if at_rest {
                still
            } else {
                moved
            };
            if margin.lt(worst) {
                worst = margin;
                let phase = if !at_rest {
                    BlockedPhase::CommittedStop
                } else if roll.per_obstacle_braking_min[i].le(
                    net_static.plus(Double::ratio(1, 1_000_000_000_000)),
                ) {
                    BlockedPhase::BrakingExt
                } else {
                    BlockedPhase::Horizon
                };
                binding = Some(
                    BlockedStep {
                        speed_step: v_cmd,
                        obs_x: o.x,
                        obs_y: o.y,
                        obs_speed: o.speed(),
                        net_clearance: if at_rest {
                            net_static
                        } else {
                            net_moved
                        },
                        required: if at_rest {
                            allow_static
                        } else {
                            allow_moved
                        },
                        phase,
                    },
                );
            }
            i = i + 1;
        }
        Margin { worst, binding }
    }

    /// Steps the speed down until the command is verified.
    pub fn step_down<M: Fn(Circular, Double, Double) -> Double>(self, m: &M) -> (r: Result<
        PursuitCommand,
        PursuitDefer,
    >)
        requires
            functional(m),
            self.planner.ready(),
        ensures
            r == self.ladder(trig_of(m), 0, seq![], None),
    {
        let ghost tr = trig_of(m);
        let mut still: Vec<Obstacle> = Vec::new();
        while still.len() < self.obstacles.len()
            invariant
                still@.len() <= self.obstacles@.len(),
                forall|j: int|
                    0 <= j < still@.len() ==> #[trigger] still@[j] == pinned(self.obstacles@[j]),
            decreases self.obstacles@.len() - still@.len(),
        {
            let o = self.obstacles[still.len()];
            still.push(pinned(o));
        }
        assert(still@ == all_pinned(self.obstacles@));
        let mut tried: Vec<Double> = Vec::new();
        let mut last: Option<BlockedStep> = None;
        let mut i: u64 = 0;
        assert(tried@ == Seq::<Double>::empty());
        while i < SPEED_STEPS
            invariant
                functional(m),
                self.planner.ready(),
                tr == trig_of(m),
                still@ == all_pinned(self.obstacles@),
                i <= SPEED_STEPS,
                self.ladder(tr, 0, seq![], None) == self.ladder(tr, i, tried@, last),
            decreases SPEED_STEPS - i,
        {
            let v = speed_step(self.aim.speed, i).within(self.v_lo, self.v_hi);
            if !(v.le(negligible()) || was_tried(&tried, v)) {
                let found = self.verify(m, self.dir.sign().times(v), self.yaw(v), &still);
                if tolerance().negate().le(found.worst) {
                    return Ok(self.command(v, found.worst));
                }
                tried.push(v);
                if found.binding.is_some() {
                    last = found.binding;
                }
            }
            i = i + 1;
        }
        Err(PursuitDefer::Blocked(last))
    }
}

/// A point to steer for in the robot's frame, and its distance.
#[derive(Clone, Copy, Debug)]
pub struct Sight {
    pub lx: Double,
    pub ly: Double,
    pub chord: Double,
}

impl PursuitPlanner {
    /// How the robot sees a point to steer for.
    pub open spec fn sight(self, tr: Trig, vstate: RobotState, t: Target) -> Sight {
        let (lx, ly) = seen(tr, vstate, t.0.x, t.0.y);
        Sight { lx, ly, chord: t.1 }
    }

    fn look<M: Fn(Circular, Double, Double) -> Double>(&self, m: &M, vstate: &RobotState, t: Target) -> (r:
        Sight)
        requires
            functional(m),
        ensures
            r == self.sight(trig_of(m), *vstate, t),
    {
        let (lx, ly) = see(m, vstate, t.0.x, t.0.y);
        Sight { lx, ly, chord: t.1 }
    }

    /// The lookahead shortened by the bearing of the target.
    pub open spec fn spec_nearer(self, lookahead: Double, alpha: Double) -> Double {
        lookahead.over(
            Double::one().plus(self.config.heading_error_lookahead_gain.times(alpha.abs())),
        ).clamp(self.config.lookahead_min.min(lookahead), lookahead)
    }

    #[verifier::when_used_as_spec(spec_nearer)]
    pub fn nearer(self, lookahead: Double, alpha: Double) -> (r: Double)
        ensures
            r == self.spec_nearer(lookahead, alpha),
    {
        lookahead.over(
            Double::one().plus(self.config.heading_error_lookahead_gain.times(alpha.abs())),
        ).within(self.config.lookahead_min.min(lookahead), lookahead)
    }

    /// A target off to the side is sought again with a lookahead shortened by
    /// its bearing; the one that is found then counts where it lies ahead.
    pub open spec fn refined(
        self,
        tr: Trig,
        vstate: RobotState,
        run: Seq<PathWaypoint>,
        terminal: bool,
        lookahead: Double,
        first: Sight,
    ) -> Sight {
        let alpha = bearing(tr, first.ly, first.lx);
        let l = self.nearer(lookahead, alpha);
        let again = self.target(run, vstate.x, vstate.y, terminal, l);
        if Double::zero().lt(self.config.heading_error_lookahead_gain) && Double::ratio(1, 10).lt(
            alpha.abs(),
        ) && l.lt(first.chord) && again is Some && Double::zero().lt(
            self.sight(tr, vstate, again->0).lx,
        ) {
            self.sight(tr, vstate, again->0)
        } else {
            first
        }
    }

    /// Curvature of the arc to the target, within the limit; the reason where
    /// there is none.
    pub open spec fn steering(
        self,
        tr: Trig,
        vstate: RobotState,
        run: Seq<PathWaypoint>,
        terminal: bool,
        lookahead: Double,
    ) -> Result<Double, PursuitDefer> {
        let t = self.target(run, vstate.x, vstate.y, terminal, lookahead);
        if t is None {
            Err(PursuitDefer::PathExhausted)
        } else {
            let first = self.sight(tr, vstate, t->0);
            let s = self.refined(tr, vstate, run, terminal, lookahead, first);
            if first.lx.le(Double::zero()) {
                Err(PursuitDefer::TargetBehind)
            } else {
                let limit = self.dwa.max_curvature;
                Ok(
                    Double::of(2).times(sine(tr, bearing(tr, s.ly, s.lx))).over(s.chord).clamp(
                        limit.negate(),
                        limit,
                    ),
                )
            }
        }
    }

    /// Steers for the target.
    pub fn steer<M: Fn(Circular, Double, Double) -> Double>(
        &self,
        m: &M,
        vstate: &RobotState,
        run: &[PathWaypoint],
        terminal: bool,
        lookahead: Double,
    ) -> (r: Result<Double, PursuitDefer>)
        requires
            functional(m),
            self.ready(),
        ensures
            r == self.steering(trig_of(m), *vstate, run@, terminal, lookahead),
    {
        let t = match self.find_target(run, vstate.x, vstate.y, terminal, lookahead) {
            None => {
                return Err(PursuitDefer::PathExhausted);
            },
            Some(t) => t,
        };
        let mut s = self.look(m, vstate, t);
        if s.lx.le(Double::zero()) {
            return Err(PursuitDefer::TargetBehind);
        }
        let alpha = atan2(m, s.ly, s.lx);
        if Double::zero().lt(self.config.heading_error_lookahead_gain) && Double::ratio(1, 10).lt(
            alpha.abs(),
        ) {
            let l = self.nearer(lookahead, alpha);
            if l.lt(s.chord) {
                if let Some(again) = self.find_target(run, vstate.x, vstate.y, terminal, l) {
                    let s2 = self.look(m, vstate, again);
                    if Double::zero().lt(s2.lx) {
                        s = s2;
                    }
                }
            }
        }
        let limit = self.dwa.max_curvature;
        let bend = sin(m, atan2(m, s.ly, s.lx));
        Ok(Double::of(2).times(bend).over(s.chord).clamp(limit.negate(), limit))
    }

    /// Speed (m/s) asked for on a leg: within the limit, and in reverse within
    /// that for reverse.
    pub open spec fn spec_leg_speed(self, desired_speed: Double, dir: SegmentDir) -> Double {
        let v = desired_speed.clamp(Double::zero(), self.dwa.max_speed);
        match dir {
            SegmentDir::Forward => v,
            SegmentDir::Reverse => v.min(self.config.reverse_speed_cap),
        }
    }

    #[verifier::when_used_as_spec(spec_leg_speed)]
    pub fn leg_speed(self, desired_speed: Double, dir: SegmentDir) -> (r: Double)
        requires
            self.ready(),
        ensures
            r == self.spec_leg_speed(desired_speed, dir),
    {
        let v = desired_speed.clamp(Double::zero(), self.dwa.max_speed);
        match dir {
            SegmentDir::Forward => v,
            SegmentDir::Reverse => v.min(self.config.reverse_speed_cap),
        }
    }

    /// That speed, bounded by the bend of the arc and the bends ahead.
    pub open spec fn spec_bounded(self, leg_speed: Double, kappa: Double, cap: Double) -> Double {
        let v = if tolerance().lt(kappa.abs()) {
            leg_speed.min(
                self.config.a_lat_max.over(kappa.abs()).sqrt().max(self.config.v_turn_min),
            )
        } else {
            leg_speed
        };
        v.min(cap)
    }

    #[verifier::when_used_as_spec(spec_bounded)]
    pub fn bounded(self, leg_speed: Double, kappa: Double, cap: Double) -> (r: Double)
        ensures
            r == self.spec_bounded(leg_speed, kappa, cap),
    {
        let v = if tolerance().lt(kappa.abs()) {
            leg_speed.min(
                self.config.a_lat_max.over(kappa.abs()).sqrt().max(self.config.v_turn_min),
            )
        } else {
            leg_speed
        };
        v.min(cap)
    }

    /// Speed (m/s) from which the robot stops within the distance left before
    /// a change of direction.
    pub open spec fn spec_stop_speed(self, left: Double) -> Double {
        Double::of(2).times(self.dwa.max_deceleration).times(
            left.minus(Double::half().times(cusp_arrival())).max(Double::zero()),
        ).sqrt()
    }

    #[verifier::when_used_as_spec(spec_stop_speed)]
    pub fn stop_speed(self, left: Double) -> (r: Double)
        ensures
            r == self.spec_stop_speed(left),
    {
        Double::of(2).times(self.dwa.max_deceleration).times(
            left.minus(Double::half().times(cusp_arrival())).max(Double::zero()),
        ).sqrt()
    }

    /// Speeds (m/s) that the next cycle reaches from `prev`: the least and the
    /// largest.
    pub open spec fn spec_reach(self, prev: Double) -> (Double, Double) {
        let hi = prev.plus(self.dwa.max_acceleration.times(cycle())).min(self.dwa.max_speed);
        (prev.minus(self.dwa.max_deceleration.times(cycle())).clamp(Double::zero(), hi), hi)
    }

    #[verifier::when_used_as_spec(spec_reach)]
    pub fn reach(self, prev: Double) -> (r: (Double, Double))
        ensures
            r == self.spec_reach(prev),
    {
        let hi = prev.plus(self.dwa.max_acceleration.times(cycle())).min(self.dwa.max_speed);
        (prev.minus(self.dwa.max_deceleration.times(cycle())).within(Double::zero(), hi), hi)
    }

    /// Speed (m/s) of the last command in the direction of a run.
    pub open spec fn spec_prev_travel(self, dir: SegmentDir, prev_cmd_v: Double) -> Double {
        dir.sign().times(prev_cmd_v).max(Double::zero())
    }

    #[verifier::when_used_as_spec(spec_prev_travel)]
    pub fn prev_travel(self, dir: SegmentDir, prev_cmd_v: Double) -> (r: Double)
        ensures
            r == self.spec_prev_travel(dir, prev_cmd_v),
    {
        dir.sign().times(prev_cmd_v).max(Double::zero())
    }

    /// What the bends ahead on a leg ask for.
    pub open spec fn ahead(
        self,
        tr: Trig,
        state: RobotState,
        run: Seq<PathWaypoint>,
        dir: SegmentDir,
        desired_speed: Double,
        prev_cmd_v: Double,
    ) -> ProfileScan {
        let v = driving(state, dir).linear_vel;
        self.profile(
            tr,
            run,
            state.x,
            state.y,
            self.leg_speed(desired_speed, dir),
            self.prev_travel(dir, prev_cmd_v).max(v.max(Double::zero())),
            lookahead_distance(v, &self.config),
        )
    }

    /// The lookahead on a leg.
    pub open spec fn leg_lookahead(
        self,
        tr: Trig,
        state: RobotState,
        run: Seq<PathWaypoint>,
        dir: SegmentDir,
        desired_speed: Double,
        prev_cmd_v: Double,
    ) -> Double {
        curvature_scaled_lookahead(
            lookahead_distance(driving(state, dir).linear_vel, &self.config),
            self.ahead(tr, state, run, dir, desired_speed, prev_cmd_v).kappa_max_ahead,
            self.config.curvature_lookahead_gain,
            self.config.lookahead_min,
        )
    }

    /// Speed on the arc of curvature `kappa`: bounded by bends and, where
    /// another run follows, by the stop before it.
    pub open spec fn governed(
        self,
        tr: Trig,
        state: RobotState,
        run: Seq<PathWaypoint>,
        dir: SegmentDir,
        more: bool,
        kappa: Double,
        desired_speed: Double,
        prev_cmd_v: Double,
    ) -> Double {
        let v = self.bounded(
            self.leg_speed(desired_speed, dir),
            kappa,
            self.ahead(tr, state, run, dir, desired_speed, prev_cmd_v).speed_cap,
        );
        if more {
            v.min(self.stop_speed(remaining(run, state.x, state.y)))
        } else {
            v
        }
    }

    /// The command on a leg.
    pub open spec fn on_leg(
        self,
        tr: Trig,
        state: RobotState,
        path: Seq<PathWaypoint>,
        leg: Leg,
        obstacles: &[Obstacle],
        desired_speed: Double,
        prev_cmd_v: Double,
    ) -> Result<PursuitCommand, PursuitDefer> {
        let run = path.subrange(leg.start as int, leg.end + 1);
        let more = leg.end + 1 < path.len();
        let lookahead = self.leg_lookahead(
            tr,
            state,
            run,
            leg.dir,
            desired_speed,
            prev_cmd_v,
        );
        match self.steering(tr, driving(state, leg.dir), run, !more, lookahead) {
            Err(reason) => Err(reason),
            Ok(kappa) => {
                let speed = self.governed(
                    tr,
                    state,
                    run,
                    leg.dir,
                    more,
                    kappa,
                    desired_speed,
                    prev_cmd_v,
                );
                let (v_lo, v_hi) = self.reach(self.prev_travel(leg.dir, prev_cmd_v));
                if more && speed.le(negligible()) {
                    Ok(self.ramp(prev_cmd_v))
                } else if v_hi.le(Double::zero()) {
                    Err(PursuitDefer::ReverseRampOut)
                } else {
                    let chase = Chase {
                        planner: self,
                        state,
                        obstacles,
                        dir: leg.dir,
                        aim: Aim { kappa, speed },
                        v_lo,
                        v_hi,
                    };
                    chase.ladder(tr, 0, seq![], None)
                }
            },
        }
    }

    /// The command of the pursuit, or why there is none. At the end of a run,
    /// and while the robot moves against its run, it brakes to a stop.
    pub open spec fn pursued(
        self,
        tr: Trig,
        state: RobotState,
        path: Seq<PathWaypoint>,
        obstacles: &[Obstacle],
        desired_speed: Double,
        prev_cmd_v: Double,
    ) -> Result<PursuitCommand, PursuitDefer> {
        if path.len() == 0 {
            Err(PursuitDefer::NoPath)
        } else if desired_speed.le(Double::zero()) {
            Err(PursuitDefer::StopRequested)
        } else {
            match leg_of(path, state, prev_cmd_v) {
                None => Ok(self.ramp(prev_cmd_v)),
                Some(leg) => self.on_leg(
                    tr,
                    state,
                    path,
                    leg,
                    obstacles,
                    desired_speed,
                    prev_cmd_v,
                ),
            }
        }
    }

    /// Plans the next command on a path. `prev_cmd_v` is the speed (m/s) of
    /// the last command, negative in reverse.
    pub fn compute<M: Fn(Circular, Double, Double) -> Double>(
        &self,
        m: &M,
        state: &RobotState,
        path: &[PathWaypoint],
        obstacles: &[Obstacle],
        desired_speed: Double,
        prev_cmd_v: Double,
    ) -> (r: Result<PursuitCommand, PursuitDefer>)
        requires
            functional(m),
            self.ready(),
        ensures
            r == self.pursued(
                trig_of(m),
                *state,
                path@,
                obstacles,
                desired_speed,
                prev_cmd_v,
            ),
    {
        if path.len() == 0 {
            return Err(PursuitDefer::NoPath);
        }
        if desired_speed.le(Double::zero()) {
            return Err(PursuitDefer::StopRequested);
        }
        let leg = match choose_leg(path, state, prev_cmd_v) {
            None => {
                return Ok(self.stop_ramp(prev_cmd_v));
            },
            Some(leg) => leg,
        };
        let run = slice_subrange(path, leg.start, leg.end + 1);
        let more = path.len() - leg.end > 1;
        let vstate = driving(*state, leg.dir);
        let leg_speed = self.leg_speed(desired_speed, leg.dir);
        let prev_travel = self.prev_travel(leg.dir, prev_cmd_v);
        let v_now = prev_travel.max(vstate.linear_vel.max(Double::zero()));
        let l_base = lookahead_distance(vstate.linear_vel, &self.config);
        let scan = self.curvature_profile(m, run, state.x, state.y, leg_speed, v_now, l_base);
        let lookahead = curvature_scaled_lookahead(
            l_base,
            scan.kappa_max_ahead,
            self.config.curvature_lookahead_gain,
            self.config.lookahead_min,
        );
        let kappa = match self.steer(m, &vstate, run, !more, lookahead) {
            Err(reason) => {
                return Err(reason);
            },
            Ok(kappa) => kappa,
        };
        let mut speed = self.bounded(leg_speed, kappa, scan.speed_cap);
        if more {
            speed = speed.min(
                self.stop_speed(remaining_run_distance(run, state.x, state.y)),
            );
            if speed.le(negligible()) {
                return Ok(self.stop_ramp(prev_cmd_v));
            }
        }
        let (v_lo, v_hi) = self.reach(prev_travel);
        if v_hi.le(Double::zero()) {
            return Err(PursuitDefer::ReverseRampOut);
        }
        let chase = Chase {
            planner: *self,
            state: *state,
            obstacles,
            dir: leg.dir,
            aim: Aim { kappa, speed },
            v_lo,
            v_hi,
        };
        chase.step_down(m)
    }
}

} // verus!
