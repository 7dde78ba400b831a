//! Tracking of a run over a receding horizon: speed and curvature are chosen
//! together, from candidates that each hold one curvature and then return to
//! the run, and that are verified to stay clear.
use crate::fault::{
    first_fault, lemma_no_fault, nonnegative, positive, report, rule, verdict, ConfigError,
    Quantity,
};
use crate::geometry::{distance, distance_squared};
use crate::global_planner::path::pieces;
use crate::global_planner::smoother::menger_curvature;
use crate::global_planner::PathWaypoint;
use crate::ieee::double::Double;
use crate::local_planner::arc::{check_spacing, reaction_distance};
use crate::local_planner::dwa::{speed_scaled_radius, DwaConfig};
use crate::local_planner::motion::{step, stepped, RobotState, TrajPoint};
use crate::local_planner::obstacle::Obstacle;
use crate::local_planner::pursuit::{negligible, tolerance};
use crate::local_planner::run::length_from;
use crate::local_planner::VelocityCommand;
use crate::trig::{atan2, bearing, functional, pi, trig_of, turn, Circular, Trig};
use vstd::prelude::*;

verus! {

#[derive(Clone, Copy, Debug)]
pub struct TrackingMpcConfig {
    pub enabled: bool,
    /// Steps of the horizon.
    pub horizon_steps: usize,
    /// Length (s) of a step.
    pub dt: Double,
    /// Seconds for which a candidate holds its own curvature.
    pub phase1_s: Double,
    /// Weight of the lateral offset.
    pub w_lat: Double,
    /// Weight of the heading error.
    pub w_head: Double,
    /// Weight of the deviation from the reference speed.
    pub w_speed: Double,
    /// Weight of a change of curvature between steps.
    pub w_dkappa: Double,
    /// Weight of a change of curvature between cycles.
    pub w_kappa_cont: Double,
    /// Distance (m) from the end of the run at which the pursuit takes over.
    pub finish_m: Double,
    /// Lateral acceleration (m/s^2) that limits the reference speed in a bend.
    pub a_lat_max: Double,
}

pub fn default_enabled() -> (r: bool)
    ensures
        r,
{
    true
}

pub fn default_horizon_steps() -> (r: usize)
    ensures
        r == 14,
{
    14
}

impl Default for TrackingMpcConfig {
    fn default() -> (r: TrackingMpcConfig)
        ensures
            r == TrackingMpcConfig::standard(),
    {
        TrackingMpcConfig {
            enabled: default_enabled(),
            horizon_steps: default_horizon_steps(),
            dt: Double::ratio(1, 10),
            phase1_s: Double::ratio(4, 10),
            w_lat: Double::of(6),
            w_head: Double::ratio(15, 10),
            w_speed: Double::one(),
            w_dkappa: Double::ratio(6, 10),
            w_kappa_cont: Double::half(),
            finish_m: Double::half(),
            a_lat_max: Double::ratio(15, 10),
        }
    }
}

impl TrackingMpcConfig {
    /// The configuration where nothing else is given.
    pub open spec fn standard() -> TrackingMpcConfig {
        TrackingMpcConfig {
            enabled: true,
            horizon_steps: 14,
            dt: Double::ratio(1, 10),
            phase1_s: Double::ratio(4, 10),
            w_lat: Double::of(6),
            w_head: Double::ratio(15, 10),
            w_speed: Double::one(),
            w_dkappa: Double::ratio(6, 10),
            w_kappa_cont: Double::half(),
            finish_m: Double::half(),
            a_lat_max: Double::ratio(15, 10),
        }
    }

    /// The horizon has 1 to 100 steps, times, distances and limits are
    /// positive and weights are not negative.
    pub open spec fn valid(self) -> bool {
        &&& 1 <= self.horizon_steps <= 100
        &&& self.dt.positive()
        &&& self.phase1_s.positive()
        &&& self.finish_m.positive()
        &&& self.a_lat_max.positive()
        &&& self.w_lat.nonnegative()
        &&& self.w_head.nonnegative()
        &&& self.w_speed.nonnegative()
        &&& self.w_dkappa.nonnegative()
        &&& self.w_kappa_cont.nonnegative()
    }

    pub open spec fn checks(self) -> Seq<Option<ConfigError>> {
        seq![
            rule(
                1 <= self.horizon_steps && self.horizon_steps <= 100,
                "tracking_mpc.horizon_steps must be in 1..=100, got {}",
                Quantity::Count(self.horizon_steps as u64),
            ),
            positive(self.dt, "tracking_mpc.dt must be > 0, got {}"),
            positive(self.phase1_s, "tracking_mpc.phase1_s must be > 0, got {}"),
            positive(self.finish_m, "tracking_mpc.finish_m must be > 0, got {}"),
            positive(self.a_lat_max, "tracking_mpc.a_lat_max must be > 0, got {}"),
            nonnegative(self.w_lat, "tracking_mpc.w_lat must be >= 0, got {}"),
            nonnegative(self.w_head, "tracking_mpc.w_head must be >= 0, got {}"),
            nonnegative(self.w_speed, "tracking_mpc.w_speed must be >= 0, got {}"),
            nonnegative(self.w_dkappa, "tracking_mpc.w_dkappa must be >= 0, got {}"),
            nonnegative(self.w_kappa_cont, "tracking_mpc.w_kappa_cont must be >= 0, got {}"),
        ]
    }

    /// Refuses values that would break the tracking.
    pub fn validate(&self) -> (r: Result<(), ConfigError>)
        ensures
            r is Ok <==> self.valid(),
            r == verdict(first_fault(self.checks())),
    {
        let checks = vec![
            rule(
                1 <= self.horizon_steps && self.horizon_steps <= 100,
                "tracking_mpc.horizon_steps must be in 1..=100, got {}",
                Quantity::Count(self.horizon_steps as u64),
            ),
            positive(self.dt, "tracking_mpc.dt must be > 0, got {}"),
            positive(self.phase1_s, "tracking_mpc.phase1_s must be > 0, got {}"),
            positive(self.finish_m, "tracking_mpc.finish_m must be > 0, got {}"),
            positive(self.a_lat_max, "tracking_mpc.a_lat_max must be > 0, got {}"),
            nonnegative(self.w_lat, "tracking_mpc.w_lat must be >= 0, got {}"),
            nonnegative(self.w_head, "tracking_mpc.w_head must be >= 0, got {}"),
            nonnegative(self.w_speed, "tracking_mpc.w_speed must be >= 0, got {}"),
            nonnegative(self.w_dkappa, "tracking_mpc.w_dkappa must be >= 0, got {}"),
            nonnegative(self.w_kappa_cont, "tracking_mpc.w_kappa_cont must be >= 0, got {}"),
        ];
        proof {
            let c = self.checks();
            assert(checks@ == c);
            lemma_no_fault(c);
            assert(c[0] is None && c[1] is None && c[2] is None && c[3] is None && c[4] is None
                && c[5] is None && c[6] is None && c[7] is None && c[8] is None && c[9] is None
                <==> self.valid());
        }
        report(checks)
    }
}

/// Where a point lies along a run.
#[derive(Clone, Copy, Debug)]
pub struct Projection {
    /// Offset (m) to the left of the run.
    pub e_lat: Double,
    /// Heading (rad) of the run there.
    pub tangent: Double,
    /// Length (m) of the run from there to its end.
    pub s_remaining: Double,
}

/// The point of a segment nearest to a point: the fraction of the segment at
/// which it lies, and the square of its distance.
pub open spec fn spec_foot(a: PathWaypoint, b: PathWaypoint, x: Double, y: Double) -> (
    Double,
    Double,
) {
    let (dx, dy) = (b.x.minus(a.x), b.y.minus(a.y));
    let len2 = dx.square().plus(dy.square());
    let t = if Double::ratio(1, 1_000_000_000_000).lt(len2) {
        x.minus(a.x).times(dx).plus(y.minus(a.y).times(dy)).over(len2).clamp(
            Double::zero(),
            Double::one(),
        )
    } else {
        Double::zero()
    };
    (t, distance_squared(a.x.plus(t.times(dx)), a.y.plus(t.times(dy)), x, y))
}

#[verifier::when_used_as_spec(spec_foot)]
pub fn foot(a: PathWaypoint, b: PathWaypoint, x: Double, y: Double) -> (r: (Double, Double))
    ensures
        r == spec_foot(a, b, x, y),
{
    let (dx, dy) = (b.x.minus(a.x), b.y.minus(a.y));
    let len2 = dx.square().plus(dy.square());
    let t = if Double::ratio(1, 1_000_000_000_000).lt(len2) {
        x.minus(a.x).times(dx).plus(y.minus(a.y).times(dy)).over(len2).clamp(
            Double::zero(),
            Double::one(),
        )
    } else {
        Double::zero()
    };
    (t, distance_squared(a.x.plus(t.times(dx)), a.y.plus(t.times(dy)), x, y))
}

/// The first of the first `n` segments of a run that is nearest to a point.
pub open spec fn nearest_segment(run: Seq<PathWaypoint>, x: Double, y: Double, n: int) -> int
    decreases n,
{
    if n <= 1 {
        0
    } else {
        let before = nearest_segment(run, x, y, n - 1);
        if foot(run[n - 1], run[n], x, y).1.lt(foot(run[before], run[before + 1], x, y).1) {
            n - 1
        } else {
            before
        }
    }
}

/// Where a point lies along a run; none where the run has no segment, or the
/// nearest of them has no length.
pub open spec fn projection(tr: Trig, run: Seq<PathWaypoint>, x: Double, y: Double) -> Option<
    Projection,
> {
    let k = nearest_segment(run, x, y, run.len() - 1);
    let (a, b) = (run[k], run[k + 1]);
    let (dx, dy) = (b.x.minus(a.x), b.y.minus(a.y));
    let len = distance(a.x, a.y, b.x, b.y);
    let t = foot(a, b, x, y).0;
    let (px, py) = (a.x.plus(t.times(dx)), a.y.plus(t.times(dy)));
    if run.len() < 2 || len.lt(tolerance()) {
        None
    } else {
        Some(
            Projection {
                e_lat: dx.times(y.minus(py)).minus(dy.times(x.minus(px))).over(len),
                tangent: bearing(tr, dy, dx),
                s_remaining: length_from(run, k + 1, Double::one().minus(t).times(len)),
            },
        )
    }
}

/// Finds where a point lies along a run.
pub fn project<M: Fn(Circular, Double, Double) -> Double>(
    m: &M,
    run: &[PathWaypoint],
    x: Double,
    y: Double,
) -> (r: Option<Projection>)
    requires
        functional(m),
    ensures
        r == projection(trig_of(m), run@, x, y),
{
    let n = run.len();
    if n < 2 {
        return None;
    }
    let mut k: usize = 0;
    let mut best = foot(run[0], run[1], x, y);
    let mut i: usize = 1;
    while i < n - 1
        invariant
            n == run@.len(),
            1 <= i <= n - 1,
            k < i,
            k == nearest_segment(run@, x, y, i as int),
            best == foot(run@[k as int], run@[k + 1], x, y),
        decreases n - i,
    {
        let here = foot(run[i], run[i + 1], x, y);
        if here.1.lt(best.1) {
            k = i;
            best = here;
        }
        i = i + 1;
    }
    let (a, b) = (run[k], run[k + 1]);
    let (dx, dy) = (b.x.minus(a.x), b.y.minus(a.y));
    let len = distance(a.x, a.y, b.x, b.y);
    if len.lt(tolerance()) {
        return None;
    }
    let t = best.0;
    let (px, py) = (a.x.plus(t.times(dx)), a.y.plus(t.times(dy)));
    let mut left = Double::one().minus(t).times(len);
    let mut j = k + 1;
    while j < n - 1
        invariant
            n == run@.len(),
            k + 1 <= j <= n - 1,
            length_from(run@, k + 1, Double::one().minus(t).times(len)) == length_from(
                run@,
                j as int,
                left,
            ),
        decreases n - j,
    {
        left = left.plus(distance(run[j].x, run[j].y, run[j + 1].x, run[j + 1].y));
        j = j + 1;
    }
    Some(
        Projection {
            e_lat: dx.times(y.minus(py)).minus(dy.times(x.minus(px))).over(len),
            tangent: atan2(m, dy, dx),
            s_remaining: left,
        },
    )
}

/// An angle brought to `[-pi, pi]` by its remainder.
pub open spec fn spec_wrap(a: Double) -> Double {
    let r = a.rem(turn());
    if pi().lt(r) {
        r.minus(turn())
    } else if r.lt(pi().negate()) {
        r.plus(turn())
    } else {
        r
    }
}

#[verifier::when_used_as_spec(spec_wrap)]
pub fn wrap(a: Double) -> (r: Double)
    ensures
        r == spec_wrap(a),
{
    let r = a.rem(turn());
    if pi().lt(r) {
        r.minus(turn())
    } else if r.lt(pi().negate()) {
        r.plus(turn())
    } else {
        r
    }
}

/// The reference along a run: its length, and the speed at each waypoint. In a
/// bend that is bounded by the lateral acceleration, at the end it is zero
/// where the robot is to stop there, and everywhere it is such that braking
/// comfortably meets what follows.
#[derive(Clone, Copy, Debug)]
pub struct Reference<'a> {
    pub run: &'a [PathWaypoint],
    pub leg_speed: Double,
    pub a_lat_max: Double,
    pub decel: Double,
    pub stop_at_end: bool,
}

impl<'a> Reference<'a> {
    /// Length of the run up to its `i`-th waypoint.
    pub open spec fn along(self, i: int) -> Double
        decreases i,
    {
        if i <= 0 {
            Double::zero()
        } else {
            let (a, b) = (self.run@[i - 1], self.run@[i]);
            self.along(i - 1).plus(distance(a.x, a.y, b.x, b.y))
        }
    }

    /// Length of the run.
    pub open spec fn total(self) -> Double {
        self.along(self.run@.len() - 1)
    }

    /// Speed in the bend at the `i`-th waypoint.
    pub open spec fn bend_speed(self, i: int) -> Double {
        let (a, b, c) = (self.run@[i - 1], self.run@[i], self.run@[i + 1]);
        let k = menger_curvature((a.x, a.y), (b.x, b.y), (c.x, c.y)).abs();
        if 0 < i < self.run@.len() - 1 && negligible().lt(k) {
            self.leg_speed.min(self.a_lat_max.over(k).sqrt().max(Double::ratio(2, 10)))
        } else {
            self.leg_speed
        }
    }

    /// Reference speed at the `i`-th waypoint.
    pub open spec fn speed(self, i: int) -> Double
        decreases self.run@.len() - i,
    {
        if i >= self.run@.len() - 1 {
            if self.stop_at_end {
                Double::zero()
            } else {
                self.leg_speed
            }
        } else {
            let ds = self.along(i + 1).minus(self.along(i));
            self.bend_speed(i).min(
                self.speed(i + 1).square().plus(
                    Double::of(2).times(self.decel).times(ds),
                ).sqrt(),
            )
        }
    }

    /// The last of the first `n` waypoints that does not lie beyond `s`.
    pub open spec fn segment(self, s: Double, n: int) -> int
        decreases n,
    {
        if n <= 1 {
            0
        } else if !s.lt(self.along(n - 1)) {
            n - 1
        } else {
            self.segment(s, n - 1)
        }
    }

    /// Reference speed after `s` metres of the run.
    pub open spec fn speed_at(self, s: Double) -> Double {
        let s = s.clamp(Double::zero(), self.total());
        let i = self.segment(s, self.run@.len() - 1);
        let len = self.along(i + 1).minus(self.along(i)).max(tolerance());
        let t = s.minus(self.along(i)).over(len).clamp(Double::zero(), Double::one());
        self.speed(i).plus(t.times(self.speed(i + 1).minus(self.speed(i))))
    }
}

/// The reference of a run, tabulated.
#[derive(Debug)]
pub struct RefFrame<'a> {
    pub reference: Reference<'a>,
    pub cum_s: Vec<Double>,
    pub v_cap: Vec<Double>,
}

impl<'a> RefFrame<'a> {
    /// The tables hold the lengths and speeds of the reference.
    pub open spec fn wf(self) -> bool {
        let n = self.reference.run@.len();
        &&& n >= 2
        &&& self.cum_s@.len() == n
        &&& self.v_cap@.len() == n
        &&& forall|i: int| 0 <= i < n ==> #[trigger] self.cum_s@[i] == self.reference.along(i)
        &&& forall|i: int| 0 <= i < n ==> #[trigger] self.v_cap@[i] == self.reference.speed(i)
    }

    /// Tabulates a reference; none where the run has no length.
    pub fn build(reference: Reference<'a>) -> (r: Option<RefFrame<'a>>)
        ensures
            r is Some <==> reference.run@.len() >= 2 && !reference.total().lt(negligible()),
            r is Some ==> r->0.reference == reference && r->0.wf(),
    {
        let run = reference.run;
        let n = run.len();
        if n < 2 {
            return None;
        }
        let mut cum_s: Vec<Double> = vec![Double::zero()];
        let mut v_cap: Vec<Double> = vec![reference.leg_speed];
        let mut i: usize = 1;
        while i < n
            invariant
                n == run@.len(),
                run == reference.run,
                n >= 2,
                1 <= i <= n,
                cum_s@.len() == i,
                v_cap@.len() == i,
                forall|j: int| 0 <= j < i ==> #[trigger] cum_s@[j] == reference.along(j),
                forall|j: int| 0 <= j < i ==> #[trigger] v_cap@[j] == reference.bend_speed(j),
            decreases n - i,
        {
            let (a, b) = (run[i - 1], run[i]);
            let before = cum_s[i - 1];
            cum_s.push(before.plus(distance(a.x, a.y, b.x, b.y)));
            let mut cap = reference.leg_speed;
            if i < n - 1 {
                let c = run[i + 1];
                let k = menger_curvature((a.x, a.y), (b.x, b.y), (c.x, c.y)).abs();
                if negligible().lt(k) {
                    cap = cap.min(
                        reference.a_lat_max.over(k).sqrt().max(Double::ratio(2, 10)),
                    );
                }
            }
            v_cap.push(cap);
            i = i + 1;
        }
        if cum_s[n - 1].lt(negligible()) {
            return None;
        }
        if reference.stop_at_end {
            v_cap.set(n - 1, Double::zero());
        }
        let mut k: usize = n - 1;
        while k > 0
            invariant
                n == run@.len(),
                run == reference.run,
                n >= 2,
                k <= n - 1,
                cum_s@.len() == n,
                v_cap@.len() == n,
                forall|j: int| 0 <= j < n ==> #[trigger] cum_s@[j] == reference.along(j),
                forall|j: int| 0 <= j < k ==> #[trigger] v_cap@[j] == reference.bend_speed(j),
                forall|j: int| k <= j < n ==> #[trigger] v_cap@[j] == reference.speed(j),
            decreases k,
        {
            k = k - 1;
            let ds = cum_s[k + 1].minus(cum_s[k]);
            let ahead = v_cap[k + 1];
            let here = v_cap[k];
            v_cap.set(
                k,
                here.min(
                    ahead.square().plus(Double::of(2).times(reference.decel).times(ds)).sqrt(),
                ),
            );
        }
        Some(RefFrame { reference, cum_s, v_cap })
    }

    /// The reference speed after `s` metres of the run.
    pub fn cap_at(&self, s: Double) -> (r: Double)
        requires
            self.wf(),
        ensures
            r == self.reference.speed_at(s),
    {
        let n = self.cum_s.len();
        let s = s.within(Double::zero(), self.cum_s[n - 1]);
        let mut i: usize = n - 2;
        while i > 0 && s.lt(self.cum_s[i])
            invariant
                self.wf(),
                n == self.reference.run@.len(),
                i <= n - 2,
                self.reference.segment(s, n - 1) == self.reference.segment(s, i + 1),
            decreases i,
        {
            i = i - 1;
        }
        let len = self.cum_s[i + 1].minus(self.cum_s[i]).max(tolerance());
        let t = s.minus(self.cum_s[i]).over(len).clamp(Double::zero(), Double::one());
        self.v_cap[i].plus(t.times(self.v_cap[i + 1].minus(self.v_cap[i])))
    }
}

/// Nothing is nearer to a point at a time than is required.
pub open spec fn clear(
    tr: Trig,
    obstacles: Seq<Obstacle>,
    gain: Double,
    x: Double,
    y: Double,
    t: Double,
    required: Double,
) -> bool {
    forall|i: int|
        0 <= i < obstacles.len() ==> !(#[trigger] obstacles[i]).net(tr, gain, x, y, t).lt(required)
}

/// Checks that nothing is nearer to a point at a time than is required.
pub fn clear_at<M: Fn(Circular, Double, Double) -> Double>(
    m: &M,
    obstacles: &[Obstacle],
    gain: Double,
    x: Double,
    y: Double,
    t: Double,
    required: Double,
) -> (r: bool)
    requires
        functional(m),
    ensures
        r == clear(trig_of(m), obstacles@, gain, x, y, t, required),
{
    let mut i: usize = 0;
    while i < obstacles.len()
        invariant
            functional(m),
            i <= obstacles@.len(),
            forall|j: int|
                0 <= j < i ==> !(#[trigger] obstacles@[j]).net(trig_of(m), gain, x, y, t).lt(
                    required,
                ),
        decreases obstacles@.len() - i,
    {
        if obstacles[i].net_clearance(m, gain, x, y, t).lt(required) {
            assert(obstacles@[i as int].net(trig_of(m), gain, x, y, t).lt(required));
            return false;
        }
        i = i + 1;
    }
    true
}

/// Curvature that leads back to the run: it steers against the lateral offset
/// and, within 0.8 rad, against the heading error; none where the run has no
/// direction.
pub open spec fn feedback(
    tr: Trig,
    run: Seq<PathWaypoint>,
    max_curvature: Double,
    p: TrajPoint,
) -> Double {
    match projection(tr, run, p.x, p.y) {
        None => Double::zero(),
        Some(q) => {
            let most = Double::ratio(8, 10);
            let psi = wrap(p.theta.minus(q.tangent)).clamp(most.negate(), most);
            Double::of(3).negate().times(q.e_lat).minus(
                Double::ratio(346, 100).times(psi),
            ).clamp(max_curvature.negate(), max_curvature)
        },
    }
}

/// The curvature that leads back to the run.
pub fn feedback_kappa<M: Fn(Circular, Double, Double) -> Double>(
    m: &M,
    run: &[PathWaypoint],
    max_curvature: Double,
    p: TrajPoint,
) -> (r: Double)
    requires
        functional(m),
        Double::zero().le(max_curvature),
    ensures
        r == feedback(trig_of(m), run@, max_curvature, p),
{
    match project(m, run, p.x, p.y) {
        None => Double::zero(),
        Some(q) => {
            let most = Double::ratio(8, 10);
            let psi = wrap(p.theta.minus(q.tangent)).within(most.negate(), most);
            Double::of(3).negate().times(q.e_lat).minus(
                Double::ratio(346, 100).times(psi),
            ).clamp(max_curvature.negate(), max_curvature)
        },
    }
}

/// A candidate: it holds the curvature `kappa1` and the acceleration `accel`
/// for `phase1` steps, and then returns to the run at the reference speed.
#[derive(Clone, Copy, Debug)]
pub struct Candidate<'a> {
    pub config: TrackingMpcConfig,
    pub dwa: DwaConfig,
    pub obstacles: &'a [Obstacle],
    pub reference: Reference<'a>,
    pub start: TrajPoint,
    pub v0: Double,
    pub phase1: usize,
    pub kappa1: Double,
    pub accel: Double,
}

/// How far a candidate has come.
#[derive(Clone, Copy, Debug)]
pub struct Roll {
    pub pose: TrajPoint,
    pub v: Double,
    pub t: Double,
    pub kappa: Double,
    pub cost: Double,
    pub first: Option<VelocityCommand>,
}

impl<'a> Candidate<'a> {
    /// The limits of the robot are limits.
    pub open spec fn ready(self) -> bool {
        self.dwa.limits() && Double::zero().le(self.dwa.max_curvature)
    }

    pub open spec fn spec_required(self, v: Double) -> Double {
        speed_scaled_radius(
            v,
            self.dwa.robot_radius,
            self.dwa.margin_low_speed_scale,
            self.dwa.high_speed_margin_gain,
        )
    }

    /// Net distance (m) to keep at a speed.
    #[verifier::when_used_as_spec(spec_required)]
    pub fn required(self, v: Double) -> (r: Double)
        ensures
            r == self.spec_required(v),
    {
        speed_scaled_radius(
            v,
            self.dwa.robot_radius,
            self.dwa.margin_low_speed_scale,
            self.dwa.high_speed_margin_gain,
        )
    }

    pub open spec fn spec_yaw(self, kappa: Double, v: Double) -> Double {
        let limit = self.dwa.max_angular_speed;
        kappa.times(v).clamp(limit.negate(), limit)
    }

    /// Yaw rate of a curvature at a speed.
    #[verifier::when_used_as_spec(spec_yaw)]
    pub fn yaw(self, kappa: Double, v: Double) -> (r: Double)
        requires
            self.ready(),
        ensures
            r == self.spec_yaw(kappa, v),
    {
        let limit = self.dwa.max_angular_speed;
        kappa.times(v).clamp(limit.negate(), limit)
    }

    /// Nothing is too near at a pose and time.
    pub open spec fn open(self, tr: Trig, p: TrajPoint, t: Double, required: Double) -> bool {
        clear(
            tr,
            self.obstacles@,
            self.dwa.moving_obstacle_margin_gain,
            p.x,
            p.y,
            t,
            required,
        )
    }

    /// The speed after the speed `v` with the acceleration `a`, where the
    /// reference is `vr`: not above the reference, but never braked harder
    /// than the limit.
    pub open spec fn spec_next_speed(self, v: Double, a: Double, vr: Double) -> Double {
        let dt = self.config.dt;
        let cap = vr.max(v.minus(self.dwa.max_deceleration.times(dt))).max(Double::zero());
        v.plus(a.times(dt)).clamp(Double::zero(), cap)
    }

    #[verifier::when_used_as_spec(spec_next_speed)]
    pub fn next_speed(self, v: Double, a: Double, vr: Double) -> (r: Double)
        ensures
            r == self.spec_next_speed(v, a, vr),
    {
        let dt = self.config.dt;
        let cap = vr.max(v.minus(self.dwa.max_deceleration.times(dt))).max(Double::zero());
        v.plus(a.times(dt)).clamp(Double::zero(), cap)
    }

    /// The speed `next` after `v` is above the reference without full braking.
    pub open spec fn spec_dawdles(self, v: Double, next: Double, vr: Double) -> bool {
        vr.plus(negligible()).lt(next) && v.minus(
            self.dwa.max_deceleration.times(self.config.dt).times(Double::ratio(99, 100)),
        ).plus(tolerance()).lt(next)
    }

    #[verifier::when_used_as_spec(spec_dawdles)]
    pub fn dawdles(self, v: Double, next: Double, vr: Double) -> (r: bool)
        ensures
            r == self.spec_dawdles(v, next, vr),
    {
        vr.plus(negligible()).lt(next) && v.minus(
            self.dwa.max_deceleration.times(self.config.dt).times(Double::ratio(99, 100)),
        ).plus(tolerance()).lt(next)
    }

    /// What a step costs: lateral offset, heading error, deviation from the
    /// reference speed and change of curvature, squared and weighted.
    pub open spec fn spec_price(
        self,
        e_lat: Double,
        psi: Double,
        dv: Double,
        dk: Double,
    ) -> Double {
        self.config.w_lat.times(e_lat).times(e_lat).plus(
            self.config.w_head.times(psi).times(psi),
        ).plus(self.config.w_speed.times(dv).times(dv)).plus(
            self.config.w_dkappa.times(dk).times(dk),
        )
    }

    #[verifier::when_used_as_spec(spec_price)]
    pub fn price(self, e_lat: Double, psi: Double, dv: Double, dk: Double) -> (r: Double)
        ensures
            r == self.spec_price(e_lat, psi, dv, dk),
    {
        self.config.w_lat.times(e_lat).times(e_lat).plus(
            self.config.w_head.times(psi).times(psi),
        ).plus(self.config.w_speed.times(dv).times(dv)).plus(
            self.config.w_dkappa.times(dk).times(dk),
        )
    }

    /// Pose and time after `k` steps of `dt` seconds at `v` and `w`; none where
    /// something comes too near on the way.
    pub open spec fn swept(
        self,
        tr: Trig,
        p: TrajPoint,
        t: Double,
        v: Double,
        w: Double,
        dt: Double,
        k: nat,
    ) -> Option<(TrajPoint, Double)>
        decreases k,
    {
        if k == 0 {
            Some((p, t))
        } else {
            match self.swept(tr, p, t, v, w, dt, (k - 1) as nat) {
                None => None,
                Some((q, s)) => {
                    let (q, s) = (stepped(tr, q, v, w, dt), s.plus(dt));
                    if self.open(tr, q, s, self.required(v)) {
                        Some((q, s))
                    } else {
                        None
                    }
                },
            }
        }
    }

    /// One step further; none where it leaves the run, does not brake in time,
    /// or comes too near to something.
    pub open spec fn next(self, tr: Trig, i: int, r: Roll) -> Option<Roll> {
        let run = self.reference.run@;
        let here = projection(tr, run, r.pose.x, r.pose.y);
        let vr = self.reference.speed_at(self.reference.total().minus(here->0.s_remaining));
        let a = if i < self.phase1 {
            self.accel
        } else {
            vr.minus(r.v).over(self.config.dt).clamp(
                self.dwa.max_deceleration.negate(),
                self.dwa.max_acceleration,
            )
        };
        let v = self.next_speed(r.v, a, vr);
        let kappa = if i < self.phase1 {
            self.kappa1
        } else {
            feedback(tr, run, self.dwa.max_curvature, r.pose)
        };
        let w = self.yaw(kappa, v);
        let n = pieces(v.times(self.config.dt), check_spacing());
        let to = self.swept(
            tr,
            r.pose,
            r.t,
            v,
            w,
            self.config.dt.over(Double::of(n)),
            n as nat,
        );
        if here is None || self.dawdles(r.v, v, vr) || to is None {
            None
        } else {
            let (p, t) = to->0;
            match projection(tr, run, p.x, p.y) {
                None => None,
                Some(there) => Some(
                    Roll {
                        pose: p,
                        v,
                        t,
                        kappa,
                        cost: r.cost.plus(
                            self.price(
                                there.e_lat,
                                wrap(p.theta.minus(there.tangent)),
                                v.minus(vr),
                                kappa.minus(r.kappa),
                            ),
                        ),
                        first: if r.first is Some {
                            r.first
                        } else {
                            Some(
                                VelocityCommand {
                                    linear_x: v,
                                    angular_z: w,
                                    confidence: Double::ratio(9, 10).narrow(),
                                },
                            )
                        },
                    },
                ),
            }
        }
    }

    /// The candidate after `k` steps.
    pub open spec fn rolled(self, tr: Trig, k: nat) -> Option<Roll>
        decreases k,
    {
        if k == 0 {
            Some(
                Roll {
                    pose: self.start,
                    v: self.v0,
                    t: Double::zero(),
                    kappa: self.kappa1,
                    cost: Double::zero(),
                    first: None,
                },
            )
        } else {
            match self.rolled(tr, (k - 1) as nat) {
                None => None,
                Some(r) => self.next(tr, k - 1, r),
            }
        }
    }

    /// Speed and distance after one step of a stop.
    pub open spec fn spec_slowed(self, v: Double, travel: Double) -> (Double, Double, Double) {
        let sub = check_spacing().over(v).min(Double::ratio(5, 100));
        let far = travel.plus(v.times(sub));
        let slow = if Double::zero().lt(far) {
            v.minus(self.dwa.max_deceleration.times(sub)).max(Double::zero())
        } else {
            v
        };
        (sub, slow, far)
    }

    #[verifier::when_used_as_spec(spec_slowed)]
    pub fn slowed(self, v: Double, travel: Double) -> (r: (Double, Double, Double))
        ensures
            r == self.spec_slowed(v, travel),
    {
        let sub = check_spacing().over(v).min(Double::ratio(5, 100));
        let far = travel.plus(v.times(sub));
        let slow = if Double::zero().lt(far) {
            v.minus(self.dwa.max_deceleration.times(sub)).max(Double::zero())
        } else {
            v
        };
        (sub, slow, far)
    }

    /// The stop from a pose stays clear: at speed until `travel` is made up
    /// for, and then braking. It ends where a step of it changes nothing any
    /// more in the precision of the numbers.
    pub open spec fn stops_clear(
        self,
        tr: Trig,
        p: TrajPoint,
        t: Double,
        v: Double,
        w: Double,
        travel: Double,
        required: Double,
    ) -> bool
        decreases v.key() + 0x7ff0_0000_0000_0000, 0x7ff0_0000_0000_0000 - travel.key(),
    {
        let (sub, slow, far) = self.slowed(v, travel);
        let q = stepped(tr, p, v, w, sub);
        if !Double::ratio(1, 1000).lt(v) {
            true
        } else if !self.open(tr, q, t.plus(sub), required) {
            false
        } else if slow.lt(v) || (slow == v && travel.lt(far)) {
            self.stops_clear(tr, q, t.plus(sub), slow, w, far, required)
        } else {
            true
        }
    }

    /// The candidate after all its steps, where they and the stop from there
    /// stay clear.
    pub open spec fn outcome(self, tr: Trig) -> Option<Roll> {
        match self.rolled(tr, self.config.horizon_steps as nat) {
            None => None,
            Some(r) => if r.first is Some && (!negligible().lt(r.v) || self.stops_clear(
                tr,
                r.pose,
                r.t,
                r.v,
                self.yaw(r.kappa, r.v),
                reaction_distance().negate(),
                self.required(r.v),
            )) {
                Some(r)
            } else {
                None
            },
        }
    }

    /// The poses of the candidate.
    pub open spec fn poses(self, tr: Trig) -> Seq<TrajPoint> {
        Seq::new(
            self.config.horizon_steps as nat,
            |i: int| self.rolled(tr, (i + 1) as nat)->0.pose,
        )
    }

    fn sweep<M: Fn(Circular, Double, Double) -> Double>(
        self,
        m: &M,
        p: TrajPoint,
        t: Double,
        v: Double,
        w: Double,
        dt: Double,
        n: u64,
    ) -> (r: Option<(TrajPoint, Double)>)
        requires
            functional(m),
        ensures
            r == self.swept(trig_of(m), p, t, v, w, dt, n as nat),
    {
        let ghost tr = trig_of(m);
        let gain = self.dwa.moving_obstacle_margin_gain;
        let need = self.required(v);
        let (mut q, mut s) = (p, t);
        let mut blocked = false;
        let mut k: u64 = 0;
        while k < n
            invariant
                functional(m),
                tr == trig_of(m),
                gain == self.dwa.moving_obstacle_margin_gain,
                need == self.required(v),
                k <= n,
                self.swept(tr, p, t, v, w, dt, k as nat) == if blocked {
                    None::<(TrajPoint, Double)>
                } else {
                    Some((q, s))
                },
            decreases n - k,
        {
            if !blocked {
                q = step(m, q, v, w, dt);
                s = s.plus(dt);
                blocked = !clear_at(m, self.obstacles, gain, q.x, q.y, s, need);
            }
            k = k + 1;
        }
        if blocked {
            None
        } else {
            Some((q, s))
        }
    }

    /// Takes the candidate one step further.
    fn advance<M: Fn(Circular, Double, Double) -> Double>(
        self,
        m: &M,
        frame: &RefFrame<'a>,
        i: usize,
        r: Roll,
    ) -> (res: Option<Roll>)
        requires
            functional(m),
            self.ready(),
            frame.wf(),
            frame.reference == self.reference,
        ensures
            res == self.next(trig_of(m), i as int, r),
    {
        let run = self.reference.run;
        let here = match project(m, run, r.pose.x, r.pose.y) {
            None => {
                return None;
            },
            Some(here) => here,
        };
        let n = frame.cum_s.len();
        let vr = frame.cap_at(frame.cum_s[n - 1].minus(here.s_remaining));
        let a = if i < self.phase1 {
            self.accel
        } else {
            vr.minus(r.v).over(self.config.dt).within(
                self.dwa.max_deceleration.negate(),
                self.dwa.max_acceleration,
            )
        };
        let v = self.next_speed(r.v, a, vr);
        if self.dawdles(r.v, v, vr) {
            return None;
        }
        let kappa = if i < self.phase1 {
            self.kappa1
        } else {
            feedback_kappa(m, run, self.dwa.max_curvature, r.pose)
        };
        let w = self.yaw(kappa, v);
        let n_sub = pieces(v.times(self.config.dt), check_spacing());
        let sub = self.config.dt.over(Double::of(n_sub));
        let (p, t) = match self.sweep(m, r.pose, r.t, v, w, sub, n_sub) {
            None => {
                return None;
            },
            Some(to) => to,
        };
        let there = match project(m, run, p.x, p.y) {
            None => {
                return None;
            },
            Some(there) => there,
        };
        let first = match r.first {
            Some(c) => c,
            None => VelocityCommand {
                linear_x: v,
                angular_z: w,
                confidence: Double::ratio(9, 10).narrow(),
            },
        };
        let cost = r.cost.plus(
            self.price(
                there.e_lat,
                wrap(p.theta.minus(there.tangent)),
                v.minus(vr),
                kappa.minus(r.kappa),
            ),
        );
        Some(Roll { pose: p, v, t, kappa, cost, first: Some(first) })
    }

    /// Checks the stop from the end of the candidate.
    fn stop_is_clear<M: Fn(Circular, Double, Double) -> Double>(self, m: &M, r: Roll) -> (res: bool)
        requires
            functional(m),
            self.ready(),
        ensures
            res == self.stops_clear(
                trig_of(m),
                r.pose,
                r.t,
                r.v,
                self.yaw(r.kappa, r.v),
                reaction_distance().negate(),
                self.required(r.v),
            ),
    {
        let ghost tr = trig_of(m);
        let gain = self.dwa.moving_obstacle_margin_gain;
        let w = self.yaw(r.kappa, r.v);
        let need = self.required(r.v);
        let (mut p, mut t, mut v, mut travel) = (
            r.pose,
            r.t,
            r.v,
            reaction_distance().negate(),
        );
        let ghost all = self.stops_clear(tr, p, t, v, w, travel, need);
        while Double::ratio(1, 1000).lt(v)
            invariant
                functional(m),
                tr == trig_of(m),
                gain == self.dwa.moving_obstacle_margin_gain,
                all == self.stops_clear(tr, p, t, v, w, travel, need),
                all == self.stops_clear(
                    tr,
                    r.pose,
                    r.t,
                    r.v,
                    self.yaw(r.kappa, r.v),
                    reaction_distance().negate(),
                    self.required(r.v),
                ),
            decreases v.key() + 0x7ff0_0000_0000_0000, 0x7ff0_0000_0000_0000 - travel.key(),
        {
            let (sub, slow, far) = self.slowed(v, travel);
            p = step(m, p, v, w, sub);
            t = t.plus(sub);
            if !clear_at(m, self.obstacles, gain, p.x, p.y, t, need) {
                return false;
            }
            if !(slow.lt(v) || (slow.bits == v.bits && travel.lt(far))) {
                return true;
            }
            v = slow;
            travel = far;
        }
        true
    }

    /// Integrates the candidate: what it comes to and its poses.
    pub fn rollout<M: Fn(Circular, Double, Double) -> Double>(self, m: &M, frame: &RefFrame<'a>) -> (res:
        Option<(Roll, Vec<TrajPoint>)>)
        requires
            functional(m),
            self.ready(),
            frame.wf(),
            frame.reference == self.reference,
        ensures
            res is Some <==> self.outcome(trig_of(m)) is Some,
            res is Some ==> Some((res->0).0) == self.outcome(trig_of(m)) && (res->0).1@ == self.poses(
                trig_of(m),
            ),
    {
        let ghost tr = trig_of(m);
        let mut r = Roll {
            pose: self.start,
            v: self.v0,
            t: Double::zero(),
            kappa: self.kappa1,
            cost: Double::zero(),
            first: None,
        };
        let mut poses: Vec<TrajPoint> = Vec::new();
        let steps = self.config.horizon_steps;
        let mut i: usize = 0;
        while i < steps
            invariant
                functional(m),
                self.ready(),
                frame.wf(),
                frame.reference == self.reference,
                tr == trig_of(m),
                steps == self.config.horizon_steps,
                i <= steps,
                self.rolled(tr, i as nat) == Some(r),
                poses@.len() == i,
                forall|j: int|
                    0 <= j < i ==> #[trigger] poses@[j] == self.rolled(
                        tr,
                        (j + 1) as nat,
                    )->0.pose,
            decreases steps - i,
        {
            match self.advance(m, frame, i, r) {
                None => {
                    proof {
                        self.lemma_stuck(tr, (i + 1) as nat, steps as nat);
                    }
                    return None;
                },
                Some(next) => {
                    r = next;
                },
            }
            assert(self.rolled(tr, (i + 1) as nat) == Some(r));
            poses.push(r.pose);
            i = i + 1;
        }
        if r.first.is_none() {
            return None;
        }
        if negligible().lt(r.v) && !self.stop_is_clear(m, r) {
            return None;
        }
        assert(poses@ == self.poses(tr));
        Some((r, poses))
    }

    /// A candidate that got stuck stays stuck.
    proof fn lemma_stuck(self, tr: Trig, i: nat, n: nat)
        requires
            i <= n,
            self.rolled(tr, i) is None,
        ensures
            self.rolled(tr, n) is None,
        decreases n - i,
    {
        if i < n {
            assert(self.rolled(tr, i + 1) is None);
            self.lemma_stuck(tr, i + 1, n);
        }
    }
}

/// Number of curvatures times number of accelerations that are tried.
pub const CANDIDATES: u64 = 21;

/// Fractions of the largest curvature by which the candidates depart from the
/// one that leads back to the run.
pub open spec fn spec_kappa_offset(i: u64) -> Double {
    if i == 0 {
        Double::half().negate()
    } else if i == 1 {
        Double::ratio(25, 100).negate()
    } else if i == 2 {
        Double::ratio(1, 10).negate()
    } else if i == 3 {
        Double::zero()
    } else if i == 4 {
        Double::ratio(1, 10)
    } else if i == 5 {
        Double::ratio(25, 100)
    } else {
        Double::half()
    }
}

#[verifier::when_used_as_spec(spec_kappa_offset)]
pub fn kappa_offset(i: u64) -> (r: Double)
    ensures
        r == spec_kappa_offset(i),
{
    if i == 0 {
        Double::half().negate()
    } else if i == 1 {
        Double::ratio(25, 100).negate()
    } else if i == 2 {
        Double::ratio(1, 10).negate()
    } else if i == 3 {
        Double::zero()
    } else if i == 4 {
        Double::ratio(1, 10)
    } else if i == 5 {
        Double::ratio(25, 100)
    } else {
        Double::half()
    }
}

/// A command with its poses, as contracts speak of it.
pub open spec fn outline(r: Option<(VelocityCommand, Vec<TrajPoint>)>) -> Option<
    (VelocityCommand, Seq<TrajPoint>),
> {
    match r {
        None => None,
        Some((c, t)) => Some((c, t@)),
    }
}

/// The tracking of a run. It remembers the curvature it chose last.
#[derive(Clone, Copy, Debug)]
pub struct TrackingMpc {
    pub config: TrackingMpcConfig,
    pub dwa: DwaConfig,
    pub prev_kappa1: Option<Double>,
}

impl TrackingMpc {
    pub fn new(config: TrackingMpcConfig, dwa: DwaConfig) -> (r: TrackingMpc)
        ensures
            r == (TrackingMpc { config, dwa, prev_kappa1: None }),
    {
        TrackingMpc { config, dwa, prev_kappa1: None }
    }

    /// The limits of the robot are limits, and the horizon has a step.
    pub open spec fn ready(self) -> bool {
        &&& self.dwa.limits()
        &&& Double::zero().le(self.dwa.max_curvature)
        &&& self.config.horizon_steps >= 1
    }

    pub open spec fn spec_leg_speed(self, desired_speed: Double) -> Double {
        desired_speed.clamp(Double::zero(), self.dwa.max_speed)
    }

    /// Speed (m/s) asked for, within the limit.
    #[verifier::when_used_as_spec(spec_leg_speed)]
    pub fn leg_speed(self, desired_speed: Double) -> (r: Double)
        requires
            self.ready(),
        ensures
            r == self.spec_leg_speed(desired_speed),
    {
        desired_speed.clamp(Double::zero(), self.dwa.max_speed)
    }

    pub open spec fn spec_reference<'a>(
        self,
        run: &'a [PathWaypoint],
        desired_speed: Double,
        stop_at_end: bool,
    ) -> Reference<'a> {
        Reference {
            run,
            leg_speed: self.leg_speed(desired_speed),
            a_lat_max: self.config.a_lat_max,
            decel: Double::ratio(7, 10).times(self.dwa.max_deceleration),
            stop_at_end,
        }
    }

    /// The reference along a run. Comfortable braking is 0.7 of the limit.
    #[verifier::when_used_as_spec(spec_reference)]
    pub fn reference<'a>(
        self,
        run: &'a [PathWaypoint],
        desired_speed: Double,
        stop_at_end: bool,
    ) -> (r: Reference<'a>)
        requires
            self.ready(),
        ensures
            r == self.spec_reference(run, desired_speed, stop_at_end),
    {
        Reference {
            run,
            leg_speed: self.leg_speed(desired_speed),
            a_lat_max: self.config.a_lat_max,
            decel: Double::ratio(7, 10).times(self.dwa.max_deceleration),
            stop_at_end,
        }
    }

    pub open spec fn spec_rolls_back(state: RobotState, prev_cmd_v: Double) -> bool {
        prev_cmd_v.lt(negligible().negate()) || state.linear_vel.lt(
            Double::ratio(5, 100).negate(),
        )
    }

    /// The robot, or its last command, goes in reverse.
    #[verifier::when_used_as_spec(spec_rolls_back)]
    pub fn rolls_back(state: RobotState, prev_cmd_v: Double) -> (r: bool)
        ensures
            r == TrackingMpc::spec_rolls_back(state, prev_cmd_v),
    {
        prev_cmd_v.lt(negligible().negate()) || state.linear_vel.lt(
            Double::ratio(5, 100).negate(),
        )
    }

    /// The tracking takes the run on: it is enabled, the run has a length and
    /// is not driven against, its end is not near, and a speed is asked for.
    pub open spec fn engages(
        self,
        tr: Trig,
        state: RobotState,
        reference: Reference,
        prev_cmd_v: Double,
    ) -> bool {
        let here = projection(tr, reference.run@, state.x, state.y);
        &&& self.config.enabled
        &&& reference.run@.len() >= 2
        &&& !TrackingMpc::rolls_back(state, prev_cmd_v)
        &&& here is Some
        &&& !here->0.s_remaining.lt(self.config.finish_m)
        &&& !reference.leg_speed.le(Double::zero())
        &&& !reference.total().lt(negligible())
    }

    pub open spec fn spec_phase1(self) -> usize {
        let n = self.config.phase1_s.over(self.config.dt).round_count();
        if n < 1 {
            1
        } else if n > self.config.horizon_steps {
            self.config.horizon_steps
        } else {
            n as usize
        }
    }

    /// Steps for which a candidate holds its curvature.
    #[verifier::when_used_as_spec(spec_phase1)]
    pub fn phase1(self) -> (r: usize)
        requires
            self.ready(),
        ensures
            r == self.spec_phase1(),
    {
        let n = self.config.phase1_s.over(self.config.dt).round_count();
        if n < 1 {
            1
        } else if n > self.config.horizon_steps as u64 {
            self.config.horizon_steps
        } else {
            n as usize
        }
    }

    pub open spec fn spec_candidate<'a>(
        self,
        state: RobotState,
        obstacles: &'a [Obstacle],
        reference: Reference<'a>,
        prev_cmd_v: Double,
        seed: Double,
        k: u64,
    ) -> Candidate<'a> {
        let limit = self.dwa.max_curvature;
        Candidate {
            config: self.config,
            dwa: self.dwa,
            obstacles,
            reference,
            start: state.pose(),
            v0: prev_cmd_v.max(Double::zero()).max(state.linear_vel.max(Double::zero())),
            phase1: self.phase1(),
            kappa1: seed.plus(kappa_offset(k / 3).times(limit)).clamp(limit.negate(), limit),
            accel: if k % 3 == 0 {
                self.dwa.max_acceleration
            } else if k % 3 == 1 {
                Double::zero()
            } else {
                self.dwa.max_deceleration.negate()
            },
        }
    }

    /// The `k`-th candidate: a curvature near `seed`, and full acceleration,
    /// none, or full braking.
    #[verifier::when_used_as_spec(spec_candidate)]
    pub fn candidate<'a>(
        self,
        state: RobotState,
        obstacles: &'a [Obstacle],
        reference: Reference<'a>,
        prev_cmd_v: Double,
        seed: Double,
        k: u64,
    ) -> (r: Candidate<'a>)
        requires
            self.ready(),
        ensures
            r == self.spec_candidate(state, obstacles, reference, prev_cmd_v, seed, k),
    {
        let limit = self.dwa.max_curvature;
        Candidate {
            config: self.config,
            dwa: self.dwa,
            obstacles,
            reference,
            start: state.pose(),
            v0: prev_cmd_v.max(Double::zero()).max(state.linear_vel.max(Double::zero())),
            phase1: self.phase1(),
            kappa1: seed.plus(kappa_offset(k / 3).times(limit)).clamp(limit.negate(), limit),
            accel: if k % 3 == 0 {
                self.dwa.max_acceleration
            } else if k % 3 == 1 {
                Double::zero()
            } else {
                self.dwa.max_deceleration.negate()
            },
        }
    }

    pub open spec fn spec_total(self, cost: Double, kappa1: Double) -> Double {
        cost.plus(
            match self.prev_kappa1 {
                None => Double::zero(),
                Some(k) => self.config.w_kappa_cont.times(kappa1.minus(k).square()),
            },
        )
    }

    /// The cost of a candidate with that of a change of curvature from the
    /// last cycle.
    #[verifier::when_used_as_spec(spec_total)]
    pub fn total(self, cost: Double, kappa1: Double) -> (r: Double)
        ensures
            r == self.spec_total(cost, kappa1),
    {
        cost.plus(
            match self.prev_kappa1 {
                None => Double::zero(),
                Some(k) => self.config.w_kappa_cont.times(kappa1.minus(k).square()),
            },
        )
    }

    /// The candidate `k` around the curvature that leads back to the run.
    pub open spec fn nth<'a>(
        self,
        tr: Trig,
        state: RobotState,
        obstacles: &'a [Obstacle],
        reference: Reference<'a>,
        prev_cmd_v: Double,
        k: int,
    ) -> Candidate<'a> {
        self.candidate(
            state,
            obstacles,
            reference,
            prev_cmd_v,
            feedback(tr, reference.run@, self.dwa.max_curvature, state.pose()),
            k as u64,
        )
    }

    /// Total cost of the candidate `k`.
    pub open spec fn cost_of<'a>(
        self,
        tr: Trig,
        state: RobotState,
        obstacles: &'a [Obstacle],
        reference: Reference<'a>,
        prev_cmd_v: Double,
        k: int,
    ) -> Double {
        let c = self.nth(tr, state, obstacles, reference, prev_cmd_v, k);
        self.total(c.outcome(tr)->0.cost, c.kappa1)
    }

    /// Of the first `n` candidates that stay clear, the first with the least
    /// total cost.
    pub open spec fn best<'a>(
        self,
        tr: Trig,
        state: RobotState,
        obstacles: &'a [Obstacle],
        reference: Reference<'a>,
        prev_cmd_v: Double,
        n: int,
    ) -> Option<int>
        decreases n,
    {
        if n <= 0 {
            None
        } else {
            let before = self.best(tr, state, obstacles, reference, prev_cmd_v, n - 1);
            let c = self.nth(tr, state, obstacles, reference, prev_cmd_v, n - 1);
            if c.outcome(tr) is Some && (before is None || self.cost_of(
                tr,
                state,
                obstacles,
                reference,
                prev_cmd_v,
                n - 1,
            ).lt(self.cost_of(tr, state, obstacles, reference, prev_cmd_v, before->0))) {
                Some(n - 1)
            } else {
                before
            }
        }
    }

    /// The candidate that is chosen; none where the tracking does not take the
    /// run on, or no candidate stays clear.
    pub open spec fn choice<'a>(
        self,
        tr: Trig,
        state: RobotState,
        run: &'a [PathWaypoint],
        obstacles: &'a [Obstacle],
        desired_speed: Double,
        prev_cmd_v: Double,
        stop_at_end: bool,
    ) -> Option<Candidate<'a>> {
        let reference = self.reference(run, desired_speed, stop_at_end);
        let best = self.best(tr, state, obstacles, reference, prev_cmd_v, CANDIDATES as int);
        if self.engages(tr, state, reference, prev_cmd_v) && best is Some {
            Some(self.nth(tr, state, obstacles, reference, prev_cmd_v, best->0))
        } else {
            None
        }
    }

    /// Its first command and its poses.
    pub open spec fn chosen<'a>(
        self,
        tr: Trig,
        state: RobotState,
        run: &'a [PathWaypoint],
        obstacles: &'a [Obstacle],
        desired_speed: Double,
        prev_cmd_v: Double,
        stop_at_end: bool,
    ) -> Option<(VelocityCommand, Seq<TrajPoint>)> {
        match self.choice(
            tr,
            state,
            run,
            obstacles,
            desired_speed,
            prev_cmd_v,
            stop_at_end,
        ) {
            None => None,
            Some(c) => Some((c.outcome(tr)->0.first->0, c.poses(tr))),
        }
    }

    /// The tracking after that: it remembers the curvature that was chosen, and
    /// forgets it where it took the run on and nothing was.
    pub open spec fn after<'a>(
        self,
        tr: Trig,
        state: RobotState,
        run: &'a [PathWaypoint],
        obstacles: &'a [Obstacle],
        desired_speed: Double,
        prev_cmd_v: Double,
        stop_at_end: bool,
    ) -> TrackingMpc {
        let reference = self.reference(run, desired_speed, stop_at_end);
        if !self.engages(tr, state, reference, prev_cmd_v) {
            self
        } else {
            TrackingMpc {
                prev_kappa1: match self.choice(
                    tr,
                    state,
                    run,
                    obstacles,
                    desired_speed,
                    prev_cmd_v,
                    stop_at_end,
                ) {
                    None => None,
                    Some(c) => Some(c.kappa1),
                },
                ..self
            }
        }
    }

    /// Chooses the next command on a run, and the poses it is planned to lead
    /// to. None where the tracking does not take the run on, or no candidate
    /// stays clear.
    pub fn compute<M: Fn(Circular, Double, Double) -> Double>(
        &mut self,
        m: &M,
        state: &RobotState,
        run: &[PathWaypoint],
        obstacles: &[Obstacle],
        desired_speed: Double,
        prev_cmd_v: Double,
        stop_at_end: bool,
    ) -> (r: Option<(VelocityCommand, Vec<TrajPoint>)>)
        requires
            functional(m),
            old(self).ready(),
        ensures
            outline(r) == old(self).chosen(
                trig_of(m),
                *state,
                run,
                obstacles,
                desired_speed,
                prev_cmd_v,
                stop_at_end,
            ),
            *final(self) == old(self).after(
                trig_of(m),
                *state,
                run,
                obstacles,
                desired_speed,
                prev_cmd_v,
                stop_at_end,
            ),
    {
        let ghost tr = trig_of(m);
        let ghost o = *self;
        if !self.config.enabled || run.len() < 2 {
            return None;
        }
        if TrackingMpc::rolls_back(*state, prev_cmd_v) {
            return None;
        }
        match project(m, run, state.x, state.y) {
            None => {
                return None;
            },
            Some(here) => {
                if here.s_remaining.lt(self.config.finish_m) {
                    return None;
                }
            },
        }
        let reference = self.reference(run, desired_speed, stop_at_end);
        if reference.leg_speed.le(Double::zero()) {
            return None;
        }
        let frame = match RefFrame::build(reference) {
            None => {
                return None;
            },
            Some(frame) => frame,
        };
        let seed = feedback_kappa(m, run, self.dwa.max_curvature, state.pose());
        let mut best: Option<(Double, VelocityCommand, Double, Vec<TrajPoint>)> = None;
        let ghost mut pick: Option<int> = None;
        let mut k: u64 = 0;
        while k < CANDIDATES
            invariant
                functional(m),
                *self == o,
                o.ready(),
                tr == trig_of(m),
                reference == o.reference(run, desired_speed, stop_at_end),
                frame.wf(),
                frame.reference == reference,
                seed == feedback(tr, run@, o.dwa.max_curvature, state.pose()),
                k <= CANDIDATES,
                pick == o.best(tr, *state, obstacles, reference, prev_cmd_v, k as int),
                best is Some <==> pick is Some,
                best is Some ==> ({
                    let c = o.nth(tr, *state, obstacles, reference, prev_cmd_v, pick->0);
                    &&& c.outcome(tr) is Some
                    &&& (best->0).0 == o.cost_of(
                        tr,
                        *state,
                        obstacles,
                        reference,
                        prev_cmd_v,
                        pick->0,
                    )
                    &&& Some((best->0).1) == c.outcome(tr)->0.first
                    &&& (best->0).2 == c.kappa1
                    &&& (best->0).3@ == c.poses(tr)
                }),
            decreases CANDIDATES - k,
        {
            let c = self.candidate(*state, obstacles, reference, prev_cmd_v, seed, k);
            if let Some((roll, poses)) = c.rollout(m, &frame) {
                let total = self.total(roll.cost, c.kappa1);
                let better = match &best {
                    None => true,
                    Some(b) => total.lt(b.0),
                };
                if better {
                    if let Some(first) = roll.first {
                        best = Some((total, first, c.kappa1, poses));
                        proof {
                            pick = Some(k as int);
                        }
                    }
                }
            }
            k = k + 1;
        }
        match best {
            None => {
                self.prev_kappa1 = None;
                None
            },
            Some((_, cmd, kappa1, poses)) => {
                self.prev_kappa1 = Some(kappa1);
                Some((cmd, poses))
            },
        }
    }
}

} // verus!
