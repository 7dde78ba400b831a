//! A short-horizon optimiser for tight manoeuvres: it perturbs its last
//! solution and keeps what costs less.
use crate::geometry::{distance, distance_squared};
use crate::global_planner::path::{distances, least_of, nearest_waypoint_index};
use crate::global_planner::PathWaypoint;
use crate::ieee::double::{
    exponent, lemma_decode_zero, lemma_encode_decode, lemma_encode_zero, significand, Double,
};
use crate::ieee::laws::{lemma_encode_monotone_ratio, lemma_rounded_monotone};
use crate::local_planner::motion::{RobotState, TrajPoint};
use crate::local_planner::obstacle::Obstacle;
use crate::local_planner::VelocityCommand;
use crate::trig::{
    cos, cosine, functional, normalize_angle, sin, sine, tan, tangent, trig_of, Circular, Trig,
};
use vstd::arithmetic::power2::{
    lemma2_to64, lemma2_to64_rest, lemma_pow2_adds, lemma_pow2_pos, lemma_pow2_unfold, pow2,
};
use vstd::prelude::*;

verus! {

#[derive(Clone, Copy, Debug)]
pub struct MpcConfig {
    /// Number of steps that are predicted.
    pub horizon: usize,
    /// Length (s) of a step.
    pub dt: Double,
    pub max_speed: Double,
    pub max_angular_speed: Double,
    pub wheelbase: Double,
    pub max_steering_angle: Double,
    /// Number of perturbations that are tried.
    pub iterations: usize,
    pub robot_radius: Double,
    pub weight_position: Double,
    pub weight_heading: Double,
    pub weight_velocity: Double,
    pub weight_steer_rate: Double,
    pub weight_obstacle: Double,
}

pub fn default_horizon() -> (r: usize)
    ensures
        r == 5,
{
    5
}

pub fn default_iterations() -> (r: usize)
    ensures
        r == 10,
{
    10
}

impl Default for MpcConfig {
    fn default() -> (r: MpcConfig)
        ensures
            r == MpcConfig::standard(),
    {
        MpcConfig {
            horizon: default_horizon(),
            dt: Double::ratio(2, 10),
            max_speed: Double::one(),
            max_angular_speed: Double::ratio(15, 10),
            wheelbase: Double::ratio(2, 10),
            max_steering_angle: Double::ratio(48, 100),
            iterations: default_iterations(),
            robot_radius: Double::ratio(2, 10),
            weight_position: Double::of(5),
            weight_heading: Double::of(2),
            weight_velocity: Double::one(),
            weight_steer_rate: Double::of(3),
            weight_obstacle: Double::of(10),
        }
    }
}

impl MpcConfig {
    /// The configuration where nothing else is given.
    pub open spec fn standard() -> MpcConfig {
        MpcConfig {
            horizon: 5,
            dt: Double::ratio(2, 10),
            max_speed: Double::one(),
            max_angular_speed: Double::ratio(15, 10),
            wheelbase: Double::ratio(2, 10),
            max_steering_angle: Double::ratio(48, 100),
            iterations: 10,
            robot_radius: Double::ratio(2, 10),
            weight_position: Double::of(5),
            weight_heading: Double::of(2),
            weight_velocity: Double::one(),
            weight_steer_rate: Double::of(3),
            weight_obstacle: Double::of(10),
        }
    }
}

/// Speed (m/s) and steering angle (rad) of a step.
#[derive(Clone, Copy, Debug)]
pub struct ControlInput {
    pub velocity: Double,
    pub steering: Double,
}

/// The next state of the noise: one round of a 32-bit xorshift.
pub open spec fn spec_stir(x: u32) -> u32 {
    let a = x ^ (x << 13);
    let b = a ^ (a >> 17);
    b ^ (b << 5)
}

#[verifier::when_used_as_spec(spec_stir)]
pub fn stir(x: u32) -> (r: u32)
    ensures
        r == spec_stir(x),
{
    let a = x ^ (x << 13);
    let b = a ^ (a >> 17);
    b ^ (b << 5)
}

/// The noise does not dry up: from a state other than zero it does not reach
/// zero.
pub proof fn law_noise_goes_on(x: u32)
    requires
        x != 0,
    ensures
        stir(x) != 0,
{
    let a = x ^ (x << 13);
    let b = a ^ (a >> 17);
    assert(a != 0) by (bit_vector)
        requires
            a == x ^ (x << 13),
            x != 0,
    ;
    assert(b != 0) by (bit_vector)
        requires
            b == a ^ (a >> 17),
            a != 0,
    ;
    assert(b ^ (b << 5) != 0) by (bit_vector)
        requires
            b != 0,
    ;
}

/// The number in `[0, 1)` that a state stands for.
pub open spec fn spec_unit(x: u32) -> Double {
    Double::ratio(x as u64, 0x1_0000_0000)
}

#[verifier::when_used_as_spec(spec_unit)]
pub fn unit(x: u32) -> (r: Double)
    ensures
        r == spec_unit(x),
{
    Double::ratio(x as u64, 0x1_0000_0000)
}

/// It is not negative, and less than one.
pub proof fn law_unit(x: u32)
    ensures
        Double::zero().le(unit(x)),
        unit(x).lt(Double::one()),
{
    lemma2_to64();
    lemma2_to64_rest();
    let p = pow2(1074);
    let top: nat = 0xffff_ffff;
    lemma_pow2_pos(1074);
    lemma_pow2_adds(21, 1053);
    lemma_pow2_adds(21, 1021);
    lemma_pow2_adds(32, 1042);
    lemma_pow2_adds(52, 1054);
    lemma_pow2_adds(32, 1074);
    assert(exponent(0x41ef_ffff_ffe0_0000) == 1053);
    assert(significand(0x41ef_ffff_ffe0_0000) == top * pow2(21));
    assert(exponent(0x41f0_0000_0000_0000) == 1054);
    assert(significand(0x41f0_0000_0000_0000) == pow2(52));
    assert(exponent(0x3fef_ffff_ffe0_0000) == 1021);
    assert(significand(0x3fef_ffff_ffe0_0000) == top * pow2(21));
    assert((top * pow2(21)) * pow2(1053) == top * (pow2(21) * pow2(1053)) && (top * pow2(21))
        * pow2(1021) == top * (pow2(21) * pow2(1021))) by (nonlinear_arith);
    Double::lemma_of_exact(0xffff_ffff, 0x41ef_ffff_ffe0_0000);
    Double::lemma_of_exact(0x1_0000_0000, 0x41f0_0000_0000_0000);
    let below = Double { bits: 0x3fef_ffff_ffe0_0000 };
    lemma_encode_decode(below.mag());
    reveal(Double::spec_over);
    lemma_encode_zero(1);
    lemma_encode_zero(0x1_0000_0000 * p);
    lemma_decode_zero();
    assert(0 * p == 0) by (nonlinear_arith);
    if x > 0 {
        Double::lemma_of_order(x as u64, 0xffff_ffff);
        let (a, q) = (Double::of(x as u64).units(), pow2(1042));
        assert((a * p) * 1 <= (top * q) * (0x1_0000_0000 * p)) by (nonlinear_arith)
            requires
                a <= top * p,
                p == 0x1_0000_0000 * q,
        ;
        lemma_encode_monotone_ratio(a * p, 0x1_0000_0000 * p, top * q, 1);
    }
}

/// A perturbation: at most 0.05 either way.
pub open spec fn spec_nudge(x: u32) -> Double {
    unit(x).minus(Double::half()).times(Double::ratio(1, 10))
}

#[verifier::when_used_as_spec(spec_nudge)]
pub fn nudge(x: u32) -> (r: Double)
    ensures
        r == spec_nudge(x),
{
    unit(x).minus(Double::half()).times(Double::ratio(1, 10))
}

/// The optimiser, its last solution, and the state of its noise.
#[derive(Debug)]
pub struct SimpleMpc {
    pub config: MpcConfig,
    pub prev_controls: Vec<ControlInput>,
    pub noise: u32,
}

/// The waypoint that `far` metres along the path from the `i`-th waypoint
/// lead to, and what is left of them there.
pub open spec fn moved_on(path: Seq<PathWaypoint>, far: Double, i: int) -> (Double, int)
    decreases path.len() - i,
{
    if i + 1 >= path.len() {
        (far, i)
    } else {
        let len = distance(path[i].x, path[i].y, path[i + 1].x, path[i + 1].y);
        if len.lt(far) {
            moved_on(path, far.minus(len), i + 1)
        } else {
            (far, i)
        }
    }
}

/// A cost, and the pose at which it arose.
#[derive(Clone, Copy, Debug)]
pub struct Tally {
    pub pose: TrajPoint,
    pub cost: Double,
}

impl MpcConfig {
    /// The limits on yaw rate and steering are limits.
    pub open spec fn limits(self) -> bool {
        Double::zero().le(self.max_angular_speed) && Double::zero().le(self.max_steering_angle)
    }

    /// There is something to optimise: limits, a speed within them, and steps.
    pub open spec fn optimises(self) -> bool {
        self.limits() && Double::zero().le(self.max_speed) && self.horizon >= 1
    }

    pub open spec fn spec_stride(self) -> Double {
        Double::half().times(self.max_speed).times(self.dt)
    }

    /// Distance (m) between reference points.
    #[verifier::when_used_as_spec(spec_stride)]
    pub fn stride(self) -> (r: Double)
        ensures
            r == self.spec_stride(),
    {
        Double::half().times(self.max_speed).times(self.dt)
    }

    /// After `k` strides from the waypoint nearest to a point: what is left of
    /// the last, and the waypoint reached.
    pub open spec fn reached(self, path: Seq<PathWaypoint>, x: Double, y: Double, k: nat) -> (
        Double,
        int,
    )
        decreases k,
    {
        if k == 0 {
            (Double::zero(), least_of(distances(path, x, y), path.len() as int).0)
        } else {
            let (far, i) = self.reached(path, x, y, (k - 1) as nat);
            moved_on(path, far.plus(self.stride()), i)
        }
    }

    /// The reference points of the steps.
    pub open spec fn reference_points(
        self,
        path: Seq<PathWaypoint>,
        x: Double,
        y: Double,
    ) -> Seq<PathWaypoint> {
        Seq::new(
            self.horizon as nat,
            |k: int| path[self.reached(path, x, y, (k + 1) as nat).1],
        )
    }

    /// Finds the reference points of the steps.
    pub fn find_reference_points(&self, state: &RobotState, path: &[PathWaypoint]) -> (r: Vec<
        PathWaypoint,
    >)
        requires
            path@.len() > 0,
        ensures
            r@ == self.reference_points(path@, state.x, state.y),
    {
        let mut out: Vec<PathWaypoint> = Vec::new();
        let mut i = nearest_waypoint_index(path, state.x, state.y);
        let mut far = Double::zero();
        while out.len() < self.horizon
            invariant
                i < path@.len(),
                out@.len() <= self.horizon,
                (far, i as int) == self.reached(path@, state.x, state.y, out@.len()),
                forall|k: int|
                    0 <= k < out@.len() ==> #[trigger] out@[k] == path@[self.reached(
                        path@,
                        state.x,
                        state.y,
                        (k + 1) as nat,
                    ).1],
            decreases self.horizon - out@.len(),
        {
            far = far.plus(self.stride());
            let ghost to = moved_on(path@, far, i as int);
            let mut going = true;
            while going
                invariant
                    i < path@.len(),
                    to == moved_on(path@, far, i as int),
                    !going ==> to == (far, i as int),
                decreases path@.len() - i, (if going { 1int } else { 0int }),
            {
                if path.len() - i <= 1 {
                    going = false;
                } else {
                    let len = distance(path[i].x, path[i].y, path[i + 1].x, path[i + 1].y);
                    if len.lt(far) {
                        far = far.minus(len);
                        i = i + 1;
                    } else {
                        going = false;
                    }
                }
            }
            out.push(path[i]);
        }
        out
    }

    /// The pose after a step, by the bicycle model.
    pub open spec fn driven(self, tr: Trig, p: TrajPoint, c: ControlInput) -> TrajPoint {
        TrajPoint {
            x: p.x.plus(c.velocity.times(cosine(tr, p.theta)).times(self.dt)),
            y: p.y.plus(c.velocity.times(sine(tr, p.theta)).times(self.dt)),
            theta: p.theta.plus(
                c.velocity.over(self.wheelbase).times(tangent(tr, c.steering)).times(self.dt),
            ),
        }
    }

    /// Cost of an obstacle at a distance: none from two radii on.
    pub open spec fn spec_obstacle_cost(self, cost: Double, x: Double, y: Double, o: Obstacle) -> Double {
        let far = distance(o.x, o.y, x, y);
        if far.lt(self.robot_radius.times(Double::of(2))) {
            cost.plus(self.weight_obstacle.over(far.plus(Double::ratio(1, 100))))
        } else {
            cost
        }
    }

    #[verifier::when_used_as_spec(spec_obstacle_cost)]
    pub fn obstacle_cost(self, cost: Double, x: Double, y: Double, o: Obstacle) -> (r: Double)
        ensures
            r == self.spec_obstacle_cost(cost, x, y, o),
    {
        let far = distance(o.x, o.y, x, y);
        if far.lt(self.robot_radius.times(Double::of(2))) {
            cost.plus(self.weight_obstacle.over(far.plus(Double::ratio(1, 100))))
        } else {
            cost
        }
    }

    /// The cost with that of the first `n` obstacles.
    pub open spec fn obstacles_cost(
        self,
        cost: Double,
        p: TrajPoint,
        obstacles: Seq<Obstacle>,
        n: int,
    ) -> Double
        decreases n,
    {
        if n <= 0 {
            cost
        } else {
            self.obstacle_cost(
                self.obstacles_cost(cost, p, obstacles, n - 1),
                p.x,
                p.y,
                obstacles[n - 1],
            )
        }
    }

    /// The cost with that of the distance and heading from a reference point.
    pub open spec fn spec_reference_cost(self, cost: Double, p: TrajPoint, r: PathWaypoint) -> Double {
        cost.plus(self.weight_position.times(distance_squared(r.x, r.y, p.x, p.y))).plus(
            self.weight_heading.times(normalize_angle(p.theta.minus(r.theta)).square()),
        )
    }

    #[verifier::when_used_as_spec(spec_reference_cost)]
    pub fn reference_cost(self, cost: Double, p: TrajPoint, r: PathWaypoint) -> (res: Double)
        ensures
            res == self.spec_reference_cost(cost, p, r),
    {
        cost.plus(self.weight_position.times(distance_squared(r.x, r.y, p.x, p.y))).plus(
            self.weight_heading.times(normalize_angle(p.theta.minus(r.theta)).square()),
        )
    }

    /// The cost with that of the speed, where there is no reference point to
    /// go with it, and of the change of steering.
    pub open spec fn spec_control_cost(
        self,
        cost: Double,
        c: ControlInput,
        referenced: bool,
        prev_steer: Double,
    ) -> Double {
        let wanted = if referenced {
            c.velocity
        } else {
            Double::zero()
        };
        cost.plus(self.weight_velocity.times(c.velocity.minus(wanted).square())).plus(
            self.weight_steer_rate.times(c.steering.minus(prev_steer).square()),
        )
    }

    #[verifier::when_used_as_spec(spec_control_cost)]
    pub fn control_cost(
        self,
        cost: Double,
        c: ControlInput,
        referenced: bool,
        prev_steer: Double,
    ) -> (r: Double)
        ensures
            r == self.spec_control_cost(cost, c, referenced, prev_steer),
    {
        let wanted = if referenced {
            c.velocity
        } else {
            Double::zero()
        };
        cost.plus(self.weight_velocity.times(c.velocity.minus(wanted).square())).plus(
            self.weight_steer_rate.times(c.steering.minus(prev_steer).square()),
        )
    }

    /// Pose and cost after the first `n` steps.
    pub open spec fn tally(
        self,
        tr: Trig,
        start: TrajPoint,
        controls: Seq<ControlInput>,
        refs: Seq<PathWaypoint>,
        obstacles: Seq<Obstacle>,
        n: int,
    ) -> Tally
        decreases n,
    {
        if n <= 0 {
            Tally { pose: start, cost: Double::zero() }
        } else {
            let before = self.tally(tr, start, controls, refs, obstacles, n - 1);
            let i = n - 1;
            let pose = self.driven(tr, before.pose, controls[i]);
            let placed = if i < refs.len() {
                self.reference_cost(before.cost, pose, refs[i])
            } else {
                before.cost
            };
            let prev_steer = if i == 0 {
                Double::zero()
            } else {
                controls[i - 1].steering
            };
            let steered = self.control_cost(placed, controls[i], i < refs.len(), prev_steer);
            Tally {
                pose,
                cost: self.obstacles_cost(
                    steered,
                    pose,
                    obstacles,
                    obstacles.len() as int,
                ),
            }
        }
    }

    /// Cost of a sequence of controls.
    pub open spec fn cost(
        self,
        tr: Trig,
        start: TrajPoint,
        controls: Seq<ControlInput>,
        refs: Seq<PathWaypoint>,
        obstacles: Seq<Obstacle>,
    ) -> Double {
        self.tally(tr, start, controls, refs, obstacles, controls.len() as int).cost
    }

    /// The cost of a sequence of controls.
    pub fn evaluate_cost<M: Fn(Circular, Double, Double) -> Double>(
        &self,
        m: &M,
        state: &RobotState,
        controls: &Vec<ControlInput>,
        refs: &Vec<PathWaypoint>,
        obstacles: &[Obstacle],
    ) -> (r: Double)
        requires
            functional(m),
        ensures
            r == self.cost(trig_of(m), state.pose(), controls@, refs@, obstacles@),
    {
        let ghost tr = trig_of(m);
        let mut p = state.pose();
        let mut prev_steer = Double::zero();
        let mut cost = Double::zero();
        let mut i: usize = 0;
        while i < controls.len()
            invariant
                functional(m),
                tr == trig_of(m),
                i <= controls@.len(),
                (Tally { pose: p, cost }) == self.tally(
                    tr,
                    state.pose(),
                    controls@,
                    refs@,
                    obstacles@,
                    i as int,
                ),
                prev_steer == if i == 0 {
                    Double::zero()
                } else {
                    controls@[i - 1].steering
                },
            decreases controls@.len() - i,
        {
            let c = controls[i];
            p = TrajPoint {
                x: p.x.plus(c.velocity.times(cos(m, p.theta)).times(self.dt)),
                y: p.y.plus(c.velocity.times(sin(m, p.theta)).times(self.dt)),
                theta: p.theta.plus(
                    c.velocity.over(self.wheelbase).times(tan(m, c.steering)).times(self.dt),
                ),
            };
            let referenced = i < refs.len();
            if referenced {
                cost = self.reference_cost(cost, p, refs[i]);
            }
            cost = self.control_cost(cost, c, referenced, prev_steer);
            prev_steer = c.steering;
            let ghost steered = cost;
            let mut j: usize = 0;
            while j < obstacles.len()
                invariant
                    j <= obstacles@.len(),
                    cost == self.obstacles_cost(steered, p, obstacles@, j as int),
                decreases obstacles@.len() - j,
            {
                cost = self.obstacle_cost(cost, p.x, p.y, obstacles[j]);
                j = j + 1;
            }
            i = i + 1;
        }
        cost
    }

    pub open spec fn spec_nudged(self, c: ControlInput, target: Double, a: u32, b: u32) -> ControlInput {
        ControlInput {
            velocity: c.velocity.plus(nudge(a)).clamp(Double::zero(), target),
            steering: c.steering.plus(nudge(b)).clamp(
                self.max_steering_angle.negate(),
                self.max_steering_angle,
            ),
        }
    }

    /// A control perturbed by two states of the noise, within the limits.
    #[verifier::when_used_as_spec(spec_nudged)]
    pub fn nudged(self, c: ControlInput, target: Double, a: u32, b: u32) -> (r: ControlInput)
        requires
            self.limits(),
            Double::zero().le(target),
        ensures
            r == self.spec_nudged(c, target, a, b),
    {
        ControlInput {
            velocity: c.velocity.plus(nudge(a)).clamp(Double::zero(), target),
            steering: c.steering.plus(nudge(b)).clamp(
                self.max_steering_angle.negate(),
                self.max_steering_angle,
            ),
        }
    }

    /// The noise after the first `n` controls are perturbed.
    pub open spec fn noise_after(noise: u32, n: nat) -> u32
        decreases n,
    {
        if n == 0 {
            noise
        } else {
            stir(stir(MpcConfig::noise_after(noise, (n - 1) as nat)))
        }
    }

    /// The controls, each perturbed by the noise as it goes on.
    pub open spec fn perturbed(
        self,
        controls: Seq<ControlInput>,
        target: Double,
        noise: u32,
    ) -> Seq<ControlInput> {
        Seq::new(
            controls.len(),
            |i: int|
                {
                    let a = stir(MpcConfig::noise_after(noise, i as nat));
                    self.nudged(controls[i], target, a, stir(a))
                },
        )
    }

    fn perturb(&self, controls: &Vec<ControlInput>, target: Double, noise: u32) -> (r: (
        Vec<ControlInput>,
        u32,
    ))
        requires
            self.limits(),
            Double::zero().le(target),
        ensures
            r.0@ == self.perturbed(controls@, target, noise),
            r.1 == MpcConfig::noise_after(noise, controls@.len()),
    {
        let mut out: Vec<ControlInput> = Vec::new();
        let mut x = noise;
        while out.len() < controls.len()
            invariant
                self.limits(),
                Double::zero().le(target),
                out@.len() <= controls@.len(),
                x == MpcConfig::noise_after(noise, out@.len()),
                forall|i: int|
                    0 <= i < out@.len() ==> #[trigger] out@[i] == self.perturbed(
                        controls@,
                        target,
                        noise,
                    )[i],
            decreases controls@.len() - out@.len(),
        {
            let a = stir(x);
            let b = stir(a);
            let c = controls[out.len()];
            out.push(self.nudged(c, target, a, b));
            x = b;
        }
        (out, x)
    }
}

/// The controls moved on by a step, the last one kept.
pub open spec fn shifted(controls: Seq<ControlInput>) -> Seq<ControlInput> {
    controls.drop_first().push(controls.last())
}

/// How far the search has come.
#[verifier::ext_equal]
pub struct Trial {
    pub controls: Seq<ControlInput>,
    pub cost: Double,
    pub noise: u32,
}

impl SimpleMpc {
    pub fn new(config: MpcConfig) -> (r: SimpleMpc)
        ensures
            r.config == config,
            r.prev_controls@ == Seq::new(
                config.horizon as nat,
                |i: int| ControlInput { velocity: Double::zero(), steering: Double::zero() },
            ),
            r.noise == 12345,
    {
        let mut prev_controls: Vec<ControlInput> = Vec::new();
        while prev_controls.len() < config.horizon
            invariant
                prev_controls@.len() <= config.horizon,
                forall|i: int|
                    0 <= i < prev_controls@.len() ==> #[trigger] prev_controls@[i] == (
                    ControlInput { velocity: Double::zero(), steering: Double::zero() }),
            decreases config.horizon - prev_controls@.len(),
        {
            prev_controls.push(
                ControlInput { velocity: Double::zero(), steering: Double::zero() },
            );
        }
        SimpleMpc { config, prev_controls, noise: 12345 }
    }

    /// The limits are limits, and there is a control for each step.
    pub open spec fn ready(self) -> bool {
        self.config.limits() && self.prev_controls@.len() == self.config.horizon
            && self.config.horizon >= 1
    }

    /// The search after `k` perturbations: each starts from the best so far,
    /// and takes its place where it costs less.
    pub open spec fn tried(
        self,
        tr: Trig,
        start: TrajPoint,
        refs: Seq<PathWaypoint>,
        obstacles: Seq<Obstacle>,
        target: Double,
        k: nat,
    ) -> Trial
        decreases k,
    {
        let c = self.config;
        if k == 0 {
            let controls = shifted(self.prev_controls@);
            Trial {
                controls,
                cost: c.cost(tr, start, controls, refs, obstacles),
                noise: self.noise,
            }
        } else {
            let b = self.tried(tr, start, refs, obstacles, target, (k - 1) as nat);
            let next = c.perturbed(b.controls, target, b.noise);
            let cost = c.cost(tr, start, next, refs, obstacles);
            let noise = MpcConfig::noise_after(b.noise, b.controls.len());
            if cost.lt(b.cost) {
                Trial { controls: next, cost, noise }
            } else {
                Trial { noise, ..b }
            }
        }
    }

    /// What the search comes to.
    pub open spec fn found(
        self,
        tr: Trig,
        state: RobotState,
        path: Seq<PathWaypoint>,
        obstacles: Seq<Obstacle>,
        desired_speed: Double,
    ) -> Trial {
        self.tried(
            tr,
            state.pose(),
            self.config.reference_points(path, state.x, state.y),
            obstacles,
            desired_speed.min(self.config.max_speed),
            self.config.iterations as nat,
        )
    }

    /// The command of the first control. The confidence goes down with the
    /// cost.
    pub open spec fn command(self, tr: Trig, first: ControlInput, cost: Double) -> VelocityCommand {
        let c = self.config;
        VelocityCommand {
            linear_x: first.velocity,
            angular_z: first.velocity.times(tangent(tr, first.steering)).over(c.wheelbase).clamp(
                c.max_angular_speed.negate(),
                c.max_angular_speed,
            ),
            confidence: Double::one().minus(cost.over(Double::of(100))).clamp(
                Double::ratio(1, 10),
                Double::one(),
            ).narrow(),
        }
    }

    /// Plans the next command.
    pub fn compute<M: Fn(Circular, Double, Double) -> Double>(
        &mut self,
        m: &M,
        state: &RobotState,
        path: &[PathWaypoint],
        obstacles: &[Obstacle],
        desired_speed: Double,
    ) -> (r: VelocityCommand)
        requires
            functional(m),
            old(self).ready(),
            path@.len() > 0,
            Double::zero().le(desired_speed.min(old(self).config.max_speed)),
        ensures
            ({
                let tr = trig_of(m);
                let t = old(self).found(tr, *state, path@, obstacles@, desired_speed);
                &&& r == old(self).command(tr, t.controls[0], t.cost)
                &&& final(self).config == old(self).config
                &&& final(self).prev_controls@ == t.controls
                &&& final(self).noise == t.noise
                &&& final(self).ready()
            }),
    {
        let ghost tr = trig_of(m);
        let ghost o = *self;
        let c = self.config;
        let target = desired_speed.min(c.max_speed);
        let refs = c.find_reference_points(state, path);
        let n = self.prev_controls.len();
        let mut controls: Vec<ControlInput> = Vec::new();
        let mut j: usize = 1;
        while j < n
            invariant
                n == self.prev_controls@.len(),
                1 <= j <= n,
                controls@ == self.prev_controls@.subrange(1, j as int),
            decreases n - j,
        {
            controls.push(self.prev_controls[j]);
            assert(self.prev_controls@.subrange(1, j + 1) == self.prev_controls@.subrange(
                1,
                j as int,
            ).push(self.prev_controls@[j as int]));
            j = j + 1;
        }
        controls.push(self.prev_controls[n - 1]);
        assert(controls@ == shifted(o.prev_controls@));
        let mut noise = self.noise;
        let mut best = c.evaluate_cost(m, state, &controls, &refs, obstacles);
        let mut k: usize = 0;
        while k < c.iterations
            invariant
                functional(m),
                tr == trig_of(m),
                o.ready(),
                c == o.config,
                target == desired_speed.min(c.max_speed),
                Double::zero().le(target),
                refs@ == c.reference_points(path@, state.x, state.y),
                k <= c.iterations,
                controls@.len() == c.horizon,
                (Trial { controls: controls@, cost: best, noise }) == o.tried(
                    tr,
                    state.pose(),
                    refs@,
                    obstacles@,
                    target,
                    k as nat,
                ),
            decreases c.iterations - k,
        {
            let (next, stirred) = c.perturb(&controls, target, noise);
            noise = stirred;
            let cost = c.evaluate_cost(m, state, &next, &refs, obstacles);
            if cost.lt(best) {
                best = cost;
                controls = next;
            }
            k = k + 1;
        }
        let first = controls[0];
        let yaw = first.velocity.times(tan(m, first.steering)).over(c.wheelbase);
        proof {
            Double::lemma_ratio_le_one(1, 10);
        }
        let r = VelocityCommand {
            linear_x: first.velocity,
            angular_z: yaw.clamp(c.max_angular_speed.negate(), c.max_angular_speed),
            confidence: Double::one().minus(best.over(Double::of(100))).clamp(
                Double::ratio(1, 10),
                Double::one(),
            ).narrow(),
        };
        self.prev_controls = controls;
        self.noise = noise;
        r
    }
}

/// A solution never costs more than the one it started from.
pub proof fn law_search_improves(
    p: SimpleMpc,
    tr: Trig,
    start: TrajPoint,
    refs: Seq<PathWaypoint>,
    obstacles: Seq<Obstacle>,
    target: Double,
    k: nat,
)
    ensures
        ({
            let t = p.tried(tr, start, refs, obstacles, target, k);
            let warm = p.config.cost(tr, start, shifted(p.prev_controls@), refs, obstacles);
            &&& t.cost == p.config.cost(tr, start, t.controls, refs, obstacles)
            &&& t.cost == warm || t.cost.lt(warm)
        }),
    decreases k,
{
    if k > 0 {
        law_search_improves(p, tr, start, refs, obstacles, target, (k - 1) as nat);
    }
}

/// A perturbation is a finite number of at most one half either way.
proof fn lemma_nudge(x: u32)
    ensures
        nudge(x).finite(),
        -Double::half().key() <= nudge(x).key() <= Double::half().key(),
{
    law_unit(x);
    let (u, h) = (unit(x), Double::half());
    let d = u.minus(h);
    Double::lemma_one();
    lemma2_to64_rest();
    lemma_pow2_adds(52, 1021);
    lemma_pow2_unfold(1074);
    assert(exponent(0x3fe0_0000_0000_0000) == 1021);
    assert(significand(0x3fe0_0000_0000_0000) == pow2(52));
    assert(Double::one().value() == 2 * h.value());
    u.lemma_rounded_value();
    h.lemma_rounded_value();
    h.negate().lemma_rounded_value();
    u.lemma_order(Double::one());
    u.lemma_minus(h);
    lemma_rounded_monotone(-h.value(), u.value() - h.value());
    lemma_rounded_monotone(u.value() - h.value(), h.value());
    Double::lemma_ratio_le_one(1, 10);
    Double::lemma_ratio_nonnegative(1, 10);
    d.lemma_times_within(Double::ratio(1, 10));
}

impl MpcConfig {
    /// The control keeps within the limits on speed and steering.
    pub open spec fn allows(self, c: ControlInput) -> bool {
        &&& Double::zero().le(c.velocity) && c.velocity.le(self.max_speed)
        &&& self.max_steering_angle.negate().le(c.steering)
        &&& c.steering.le(self.max_steering_angle)
    }

    pub open spec fn allows_all(self, controls: Seq<ControlInput>) -> bool {
        forall|i: int| 0 <= i < controls.len() ==> #[trigger] self.allows(controls[i])
    }

    proof fn lemma_nudged(self, c: ControlInput, target: Double, a: u32, b: u32)
        requires
            self.limits(),
            self.allows(c),
            Double::zero().le(target) && target.le(self.max_speed),
        ensures
            self.allows(self.nudged(c, target, a, b)),
    {
        lemma_nudge(a);
        lemma_nudge(b);
        reveal(Double::spec_plus);
        if c.velocity.finite() {
            c.velocity.lemma_plus(nudge(a));
        }
        if c.steering.finite() {
            c.steering.lemma_plus(nudge(b));
        }
    }
}

/// Where the last solution keeps within the limits, so does the next, and with
/// it the command: its speed and its yaw rate, unless that is no number.
pub proof fn law_limits_are_kept(
    p: SimpleMpc,
    tr: Trig,
    state: RobotState,
    path: Seq<PathWaypoint>,
    obstacles: Seq<Obstacle>,
    desired_speed: Double,
)
    requires
        p.ready(),
        p.config.allows_all(p.prev_controls@),
        Double::zero().le(desired_speed.min(p.config.max_speed)),
    ensures
        ({
            let t = p.found(tr, state, path, obstacles, desired_speed);
            let r = p.command(tr, t.controls[0], t.cost);
            let w = p.config.max_angular_speed;
            &&& t.controls.len() == p.config.horizon
            &&& p.config.allows_all(t.controls)
            &&& Double::zero().le(r.linear_x) && r.linear_x.le(p.config.max_speed)
            &&& r.angular_z.nan() || (w.negate().le(r.angular_z) && r.angular_z.le(w))
        }),
{
    let target = desired_speed.min(p.config.max_speed);
    let refs = p.config.reference_points(path, state.x, state.y);
    assert(target.le(p.config.max_speed)) by {
        assert(p.config.allows(p.prev_controls@[0]));
    }
    lemma_tried_allowed(p, tr, state.pose(), refs, obstacles, target, p.config.iterations as nat);
    let t = p.found(tr, state, path, obstacles, desired_speed);
    assert(p.config.allows(t.controls[0]));
}

proof fn lemma_tried_allowed(
    p: SimpleMpc,
    tr: Trig,
    start: TrajPoint,
    refs: Seq<PathWaypoint>,
    obstacles: Seq<Obstacle>,
    target: Double,
    k: nat,
)
    requires
        p.ready(),
        p.config.allows_all(p.prev_controls@),
        Double::zero().le(target) && target.le(p.config.max_speed),
    ensures
        p.tried(tr, start, refs, obstacles, target, k).controls.len() == p.config.horizon,
        p.config.allows_all(p.tried(tr, start, refs, obstacles, target, k).controls),
    decreases k,
{
    let c = p.config;
    let t = p.tried(tr, start, refs, obstacles, target, k);
    if k == 0 {
        let n = p.prev_controls@.len();
        assert forall|i: int| 0 <= i < t.controls.len() implies #[trigger] c.allows(
            t.controls[i],
        ) by {
            assert(c.allows(p.prev_controls@[if i + 1 < n {
                i + 1
            } else {
                n - 1
            }]));
        }
    } else {
        lemma_tried_allowed(p, tr, start, refs, obstacles, target, (k - 1) as nat);
        let b = p.tried(tr, start, refs, obstacles, target, (k - 1) as nat);
        let next = c.perturbed(b.controls, target, b.noise);
        assert forall|i: int| 0 <= i < next.len() implies #[trigger] c.allows(next[i]) by {
            let a = stir(MpcConfig::noise_after(b.noise, i as nat));
            assert(c.allows(b.controls[i]));
            c.lemma_nudged(b.controls[i], target, a, stir(a));
        }
    }
}

} // verus!
