//! The reverse manoeuvre out of a blockage: which arc it takes, and whether
//! the way back is clear.
use crate::global_planner::path::{law_least_of, least_of, pieces};
use crate::ieee::double::Double;
use crate::ieee::laws::lemma_rounded_monotone;
use crate::local_planner::motion::{RobotState, TrajPoint};
use crate::local_planner::obstacle::Obstacle;
use crate::local_planner::VelocityCommand;
use crate::trig::{cos, cosine, functional, sin, sine, trig_of, Circular, Trig};
use vstd::prelude::*;

verus! {

/// An obstacle that forbids a reverse manoeuvre.
#[derive(Clone, Copy, Debug)]
pub struct RearBlocker {
    pub x: Double,
    pub y: Double,
    /// Least distance (m) of the robot's centre from the obstacle's surface
    /// along the way back.
    pub surface_dist: Double,
}

/// Clearance that a reverse manoeuvre keeps.
#[derive(Clone, Copy, Debug)]
pub struct RearMargins {
    /// Radius (m) of the robot.
    pub robot_radius: Double,
    /// Distance (m) to keep besides.
    pub margin: Double,
    /// Seconds of an obstacle's own travel to keep besides.
    pub moving_gain: Double,
}

/// Distance (m) between checks along the way back.
pub open spec fn spec_sweep_step() -> Double {
    Double::spec_ratio(2, 100)
}

#[verifier::when_used_as_spec(spec_sweep_step)]
pub fn sweep_step() -> (r: Double)
    ensures
        r == spec_sweep_step(),
{
    Double::ratio(2, 100)
}

/// Tolerance (m) of the comparison of two distances.
pub open spec fn spec_slack() -> Double {
    Double::spec_ratio(1, 1_000_000_000)
}

#[verifier::when_used_as_spec(spec_slack)]
pub fn slack() -> (r: Double)
    ensures
        r == spec_slack(),
{
    Double::ratio(1, 1_000_000_000)
}

/// The pose after `ds` metres in reverse with curvature `kappa`.
pub open spec fn backed_step(tr: Trig, p: TrajPoint, kappa: Double, ds: Double) -> TrajPoint {
    let th = p.theta.plus(kappa.times(ds));
    TrajPoint {
        x: p.x.minus(cosine(tr, th).times(ds)),
        y: p.y.minus(sine(tr, th).times(ds)),
        theta: th,
    }
}

/// The pose after `k` such steps.
pub open spec fn backed(tr: Trig, p: TrajPoint, kappa: Double, ds: Double, k: nat) -> TrajPoint
    decreases k,
{
    if k == 0 {
        p
    } else {
        backed_step(tr, backed(tr, p, kappa, ds, (k - 1) as nat), kappa, ds)
    }
}

/// The way back: how many checks, and how far apart.
pub open spec fn sweep(reverse_dist: Double) -> (u64, Double) {
    let n = pieces(reverse_dist, sweep_step());
    (n, reverse_dist.over(Double::of(n)))
}

/// Distances of the poses along the way back from the obstacle's surface.
pub open spec fn swept_distances(
    tr: Trig,
    state: RobotState,
    obs: Obstacle,
    kappa: Double,
    reverse_dist: Double,
) -> Seq<Double> {
    let (n, ds) = sweep(reverse_dist);
    Seq::new(
        n as nat,
        |k: int|
            {
                let p = backed(tr, state.pose(), kappa, ds, (k + 1) as nat);
                obs.surface_distance(tr, p.x, p.y, Double::zero())
            },
    )
}

/// The least of them.
pub open spec fn closest_swept(
    tr: Trig,
    state: RobotState,
    obs: Obstacle,
    kappa: Double,
    reverse_dist: Double,
) -> Double {
    let d = swept_distances(tr, state, obs, kappa, reverse_dist);
    least_of(d, d.len() as int).1
}

/// Distance to keep from the obstacle: the margins, but no more than there is
/// at the start.
pub open spec fn rear_allowance(
    tr: Trig,
    state: RobotState,
    obs: Obstacle,
    g: RearMargins,
) -> Double {
    g.robot_radius.plus(g.margin).plus(g.moving_gain.times(obs.speed())).min(
        obs.surface_distance(tr, state.x, state.y, Double::zero()),
    )
}

/// The obstacle forbids the way back.
pub open spec fn vetoes(
    tr: Trig,
    state: RobotState,
    obs: Obstacle,
    g: RearMargins,
    kappa: Double,
    reverse_dist: Double,
) -> bool {
    closest_swept(tr, state, obs, kappa, reverse_dist).lt(
        rear_allowance(tr, state, obs, g).minus(slack()),
    )
}

/// Of the first `n` obstacles, the one that forbids the way back from the
/// least distance, and the first such.
pub open spec fn worst_blocker(
    tr: Trig,
    state: RobotState,
    obstacles: Seq<Obstacle>,
    g: RearMargins,
    kappa: Double,
    reverse_dist: Double,
    n: int,
) -> Option<RearBlocker>
    decreases n,
{
    if n <= 0 {
        None
    } else {
        let before = worst_blocker(tr, state, obstacles, g, kappa, reverse_dist, n - 1);
        let obs = obstacles[n - 1];
        let d = closest_swept(tr, state, obs, kappa, reverse_dist);
        if vetoes(tr, state, obs, g, kappa, reverse_dist) && (before is None || d.lt(
            before->0.surface_dist,
        )) {
            Some(RearBlocker { x: obs.x, y: obs.y, surface_dist: d })
        } else {
            before
        }
    }
}

/// The obstacle that forbids the manoeuvre; none forbids one of no length.
pub open spec fn blocker_of(
    tr: Trig,
    state: RobotState,
    obstacles: Seq<Obstacle>,
    g: RearMargins,
    reverse_dist: Double,
    kappa: Double,
) -> Option<RearBlocker> {
    if reverse_dist.le(Double::zero()) {
        None
    } else {
        worst_blocker(tr, state, obstacles, g, kappa, reverse_dist, obstacles.len() as int)
    }
}

/// A way back is clear exactly where no obstacle forbids it. The obstacle that
/// is named otherwise does forbid it, and none that does is nearer.
pub proof fn law_blocker(
    tr: Trig,
    state: RobotState,
    obstacles: Seq<Obstacle>,
    g: RearMargins,
    kappa: Double,
    reverse_dist: Double,
    n: int,
)
    requires
        0 <= n <= obstacles.len(),
    ensures
        ({
            let b = worst_blocker(tr, state, obstacles, g, kappa, reverse_dist, n);
            &&& b is None <==> forall|i: int|
                0 <= i < n ==> !vetoes(
                    tr,
                    state,
                    #[trigger] obstacles[i],
                    g,
                    kappa,
                    reverse_dist,
                )
            &&& b is Some ==> exists|i: int|
                0 <= i < n && vetoes(tr, state, #[trigger] obstacles[i], g, kappa, reverse_dist)
                    && b->0 == (RearBlocker {
                    x: obstacles[i].x,
                    y: obstacles[i].y,
                    surface_dist: closest_swept(tr, state, obstacles[i], kappa, reverse_dist),
                })
            &&& b is Some ==> forall|i: int|
                0 <= i < n && vetoes(tr, state, #[trigger] obstacles[i], g, kappa, reverse_dist)
                    ==> !closest_swept(tr, state, obstacles[i], kappa, reverse_dist).lt(
                    b->0.surface_dist,
                )
        }),
    decreases n,
{
    if n > 0 {
        law_blocker(tr, state, obstacles, g, kappa, reverse_dist, n - 1);
        let before = worst_blocker(tr, state, obstacles, g, kappa, reverse_dist, n - 1);
        let b = worst_blocker(tr, state, obstacles, g, kappa, reverse_dist, n);
        let last = obstacles[n - 1];
        if b is Some && b != before {
            assert(vetoes(tr, state, obstacles[n - 1], g, kappa, reverse_dist));
        }
        if before is Some {
            let i = choose|i: int|
                0 <= i < n - 1 && vetoes(
                    tr,
                    state,
                    #[trigger] obstacles[i],
                    g,
                    kappa,
                    reverse_dist,
                ) && before->0 == (RearBlocker {
                    x: obstacles[i].x,
                    y: obstacles[i].y,
                    surface_dist: closest_swept(tr, state, obstacles[i], kappa, reverse_dist),
                });
            assert(vetoes(tr, state, obstacles[i], g, kappa, reverse_dist));
        }
        if vetoes(tr, state, last, g, kappa, reverse_dist) {
            assert(!closest_swept(tr, state, last, kappa, reverse_dist).lt(b->0.surface_dist));
        }
    }
}

/// An obstacle that the robot does not come closer to on the way back cannot
/// forbid it, however close it is: the robot may always back out.
pub proof fn law_backing_out(
    tr: Trig,
    state: RobotState,
    obs: Obstacle,
    g: RearMargins,
    kappa: Double,
    reverse_dist: Double,
)
    requires
        ({
            let d0 = obs.surface_distance(tr, state.x, state.y, Double::zero());
            let d = swept_distances(tr, state, obs, kappa, reverse_dist);
            d0.finite() && forall|k: int| 0 <= k < d.len() ==> !(#[trigger] d[k]).lt(d0)
        }),
    ensures
        !vetoes(tr, state, obs, g, kappa, reverse_dist),
{
    let d0 = obs.surface_distance(tr, state.x, state.y, Double::zero());
    let d = swept_distances(tr, state, obs, kappa, reverse_dist);
    law_least_of(d, d.len() as int);
    let (i, low) = least_of(d, d.len() as int);
    assert(!low.lt(d0));
    let a = rear_allowance(tr, state, obs, g);
    assert(!a.nan() && a.key() <= d0.key());
    lemma_slack(a);
}

/// Less the tolerance, a distance is not larger.
pub proof fn lemma_slack(a: Double)
    ensures
        a.minus(slack()).nan() || a.minus(slack()).le(a),
{
    let e = slack();
    Double::lemma_ratio_le_one(1, 1_000_000_000);
    if a.finite() {
        a.lemma_minus(e);
        a.lemma_rounded_value();
        e.lemma_rounded_value();
        lemma_rounded_monotone(a.value() - e.value(), a.value());
    } else {
        reveal(Double::spec_plus);
    }
}

/// The least distance of the robot from the obstacle along the way back.
fn swept<M: Fn(Circular, Double, Double) -> Double>(
    m: &M,
    state: &RobotState,
    obs: &Obstacle,
    kappa: Double,
    reverse_dist: Double,
) -> (r: Double)
    requires
        functional(m),
    ensures
        r == closest_swept(trig_of(m), *state, *obs, kappa, reverse_dist),
{
    let n = pieces(reverse_dist, sweep_step());
    let ds = reverse_dist.over(Double::of(n));
    let mut p = state.pose();
    let mut min_d = Double { bits: 0x7ff0_0000_0000_0000 };
    let mut k: u64 = 0;
    let ghost tr = trig_of(m);
    let ghost d = swept_distances(tr, *state, *obs, kappa, reverse_dist);
    while k < n
        invariant
            functional(m),
            tr == trig_of(m),
            (n, ds) == sweep(reverse_dist),
            d == swept_distances(tr, *state, *obs, kappa, reverse_dist),
            k <= n,
            p == backed(tr, state.pose(), kappa, ds, k as nat),
            min_d == least_of(d, k as int).1,
        decreases n - k,
    {
        let th = p.theta.plus(kappa.times(ds));
        p = TrajPoint {
            x: p.x.minus(cos(m, th).times(ds)),
            y: p.y.minus(sin(m, th).times(ds)),
            theta: th,
        };
        let near = obs.net_distance_at(m, p.x, p.y, Double::zero());
        assert(p == backed(tr, state.pose(), kappa, ds, (k + 1) as nat));
        assert(d[k as int] == near);
        if near.lt(min_d) {
            min_d = near;
        }
        k = k + 1;
    }
    min_d
}

/// Checks the way back along the arc of curvature `kappa`: the obstacle that
/// comes nearest among those that forbid it, if any does.
pub fn reverse_arc_blocker<M: Fn(Circular, Double, Double) -> Double>(
    m: &M,
    state: &RobotState,
    obstacles: &[Obstacle],
    robot_radius: Double,
    margin: Double,
    moving_margin_gain: Double,
    reverse_dist: Double,
    kappa: Double,
) -> (r: Option<RearBlocker>)
    requires
        functional(m),
    ensures
        ({
            let g = RearMargins { robot_radius, margin, moving_gain: moving_margin_gain };
            &&& r == blocker_of(trig_of(m), *state, obstacles@, g, reverse_dist, kappa)
            &&& r is None <==> reverse_dist.le(Double::zero()) || forall|i: int|
                0 <= i < obstacles@.len() ==> !vetoes(
                    trig_of(m),
                    *state,
                    #[trigger] obstacles@[i],
                    g,
                    kappa,
                    reverse_dist,
                )
        }),
{
    let ghost g = RearMargins { robot_radius, margin, moving_gain: moving_margin_gain };
    if reverse_dist.le(Double::zero()) {
        return None;
    }
    let mut worst: Option<RearBlocker> = None;
    let mut i: usize = 0;
    let ghost tr = trig_of(m);
    while i < obstacles.len()
        invariant
            functional(m),
            tr == trig_of(m),
            g == (RearMargins { robot_radius, margin, moving_gain: moving_margin_gain }),
            i <= obstacles@.len(),
            worst == worst_blocker(tr, *state, obstacles@, g, kappa, reverse_dist, i as int),
        decreases obstacles@.len() - i,
    {
        let obs = obstacles[i];
        let threshold = robot_radius.plus(margin).plus(moving_margin_gain.times(obs.speed()));
        let allow = threshold.min(obs.net_distance_at(m, state.x, state.y, Double::zero()));
        let min_d = swept(m, state, &obs, kappa, reverse_dist);
        if min_d.lt(allow.minus(slack())) {
            let nearer = match worst {
                None => true,
                Some(w) => min_d.lt(w.surface_dist),
            };
            if nearer {
                worst = Some(RearBlocker { x: obs.x, y: obs.y, surface_dist: min_d });
            }
        }
        i = i + 1;
    }
    proof {
        law_blocker(tr, *state, obstacles@, g, kappa, reverse_dist, obstacles@.len() as int);
    }
    worst
}

/// Whether the robot can back straight out by `reverse_dist` metres.
pub fn rear_corridor_clear<M: Fn(Circular, Double, Double) -> Double>(
    m: &M,
    state: &RobotState,
    obstacles: &[Obstacle],
    robot_radius: Double,
    margin: Double,
    moving_margin_gain: Double,
    reverse_dist: Double,
) -> (r: bool)
    requires
        functional(m),
    ensures
        ({
            let g = RearMargins { robot_radius, margin, moving_gain: moving_margin_gain };
            r <==> reverse_dist.le(Double::zero()) || forall|i: int|
                0 <= i < obstacles@.len() ==> !vetoes(
                    trig_of(m),
                    *state,
                    #[trigger] obstacles@[i],
                    g,
                    Double::zero(),
                    reverse_dist,
                )
        }),
{
    reverse_arc_blocker(
        m,
        state,
        obstacles,
        robot_radius,
        margin,
        moving_margin_gain,
        reverse_dist,
        Double::zero(),
    ).is_none()
}

/// Surface distance (m) beyond which an obstacle does not steer the escape.
pub open spec fn spec_frontal_range() -> Double {
    Double::spec_one()
}

#[verifier::when_used_as_spec(spec_frontal_range)]
pub fn frontal_range() -> (r: Double)
    ensures
        r == spec_frontal_range(),
{
    Double::one()
}

/// Coordinates of a point in the robot's frame.
pub open spec fn seen(tr: Trig, state: RobotState, x: Double, y: Double) -> (Double, Double) {
    let (dx, dy) = (x.minus(state.x), y.minus(state.y));
    let (c, s) = (cosine(tr, state.theta), sine(tr, state.theta));
    (dx.times(c).plus(dy.times(s)), dx.negate().times(s).plus(dy.times(c)))
}

/// The coordinates of a point in the robot's frame.
pub fn see<M: Fn(Circular, Double, Double) -> Double>(
    m: &M,
    state: &RobotState,
    x: Double,
    y: Double,
) -> (r: (Double, Double))
    requires
        functional(m),
    ensures
        r == seen(trig_of(m), *state, x, y),
{
    let (dx, dy) = (x.minus(state.x), y.minus(state.y));
    let (c, s) = (cos(m, state.theta), sin(m, state.theta));
    (dx.times(c).plus(dy.times(s)), dx.negate().times(s).plus(dy.times(c)))
}

/// Side (1 left, -1 right, 0 none) and distance of the nearest of the first
/// `n` obstacles that stand in front of the robot, off its axis and in range.
pub open spec fn frontal(
    tr: Trig,
    state: RobotState,
    obstacles: Seq<Obstacle>,
    n: int,
) -> (Double, Double)
    decreases n,
{
    if n <= 0 {
        (Double::zero(), Double { bits: 0x7ff0_0000_0000_0000 })
    } else {
        let before = frontal(tr, state, obstacles, n - 1);
        let obs = obstacles[n - 1];
        let (lx, ly) = seen(tr, state, obs.x, obs.y);
        let d = obs.surface_distance(tr, state.x, state.y, Double::zero());
        if !lx.le(Double::zero()) && d.lt(frontal_range()) && d.lt(before.1) && slack().lt(
            ly.abs(),
        ) {
            (ly.signum(), d)
        } else {
            before
        }
    }
}

/// Yaw rates that are tried, in this order: away from the obstacle ahead,
/// straight, towards it; straight alone where there is none.
pub open spec fn escape_rates(side: Double, rate: Double) -> Seq<Double> {
    if side.same(Double::zero()) {
        seq![Double::zero()]
    } else {
        seq![side.negate().times(rate), Double::zero(), side.times(rate)]
    }
}

/// The obstacle that forbids the `i`-th of them.
pub open spec fn rate_blocker(
    tr: Trig,
    state: RobotState,
    obstacles: Seq<Obstacle>,
    g: RearMargins,
    reverse_dist: Double,
    speed: Double,
    rates: Seq<Double>,
    i: int,
) -> Option<RearBlocker> {
    blocker_of(tr, state, obstacles, g, reverse_dist, rates[i].over(speed))
}

/// Of what forbids the first `n` rates, the nearest, and the first such.
pub open spec fn nearest_blocker(
    tr: Trig,
    state: RobotState,
    obstacles: Seq<Obstacle>,
    g: RearMargins,
    reverse_dist: Double,
    speed: Double,
    rates: Seq<Double>,
    n: int,
) -> Option<RearBlocker>
    decreases n,
{
    if n <= 0 {
        None
    } else {
        let before = nearest_blocker(
            tr,
            state,
            obstacles,
            g,
            reverse_dist,
            speed,
            rates,
            n - 1,
        );
        let b = rate_blocker(tr, state, obstacles, g, reverse_dist, speed, rates, n - 1);
        if before is None || (b is Some && b->0.surface_dist.lt(before->0.surface_dist)) {
            b
        } else {
            before
        }
    }
}

/// Plans the way out in reverse: the first of the rates whose way back is
/// clear, else the nearest obstacle that forbids one of them.
pub fn plan_reverse_escape<M: Fn(Circular, Double, Double) -> Double>(
    m: &M,
    state: &RobotState,
    obstacles: &[Obstacle],
    robot_radius: Double,
    margin: Double,
    moving_margin_gain: Double,
    reverse_dist: Double,
    speed: Double,
    max_curvature: Double,
) -> (r: Result<VelocityCommand, RearBlocker>)
    requires
        functional(m),
        Double::zero().lt(speed),
    ensures
        ({
            let tr = trig_of(m);
            let g = RearMargins { robot_radius, margin, moving_gain: moving_margin_gain };
            let side = frontal(tr, *state, obstacles@, obstacles@.len() as int).0;
            let rates = escape_rates(side, speed.times(max_curvature));
            let free = |i: int|
                rate_blocker(tr, *state, obstacles@, g, reverse_dist, speed, rates, i) is None;
            match r {
                Ok(c) => exists|i: int|
                    0 <= i < rates.len() && #[trigger] free(i) && (forall|j: int|
                        0 <= j < i ==> !#[trigger] free(j)) && c == (VelocityCommand {
                        linear_x: speed.negate(),
                        angular_z: rates[i],
                        confidence: Double::ratio(9, 10).narrow(),
                    }),
                Err(b) => (forall|j: int| 0 <= j < rates.len() ==> !#[trigger] free(j)) && Some(b)
                    == nearest_blocker(
                    tr,
                    *state,
                    obstacles@,
                    g,
                    reverse_dist,
                    speed,
                    rates,
                    rates.len() as int,
                ),
            }
        }),
{
    let ghost tr = trig_of(m);
    let ghost g = RearMargins { robot_radius, margin, moving_gain: moving_margin_gain };
    let mut side = Double::zero();
    let mut nearest = Double { bits: 0x7ff0_0000_0000_0000 };
    let mut i: usize = 0;
    while i < obstacles.len()
        invariant
            functional(m),
            tr == trig_of(m),
            i <= obstacles@.len(),
            (side, nearest) == frontal(tr, *state, obstacles@, i as int),
        decreases obstacles@.len() - i,
    {
        let obs = obstacles[i];
        let (lx, ly) = see(m, state, obs.x, obs.y);
        if !lx.le(Double::zero()) {
            let d = obs.net_distance_at(m, state.x, state.y, Double::zero());
            if d.lt(frontal_range()) && d.lt(nearest) && slack().lt(ly.abs()) {
                nearest = d;
                side = ly.signum();
            }
        }
        i = i + 1;
    }
    let rate = speed.times(max_curvature);
    let rates = if side.same(Double::zero()) {
        vec![Double::zero()]
    } else {
        vec![side.negate().times(rate), Double::zero(), side.times(rate)]
    };
    let ghost all = escape_rates(side, rate);
    assert(rates@ == all);
    let ghost free = |i: int|
        rate_blocker(tr, *state, obstacles@, g, reverse_dist, speed, all, i) is None;
    let mut worst = RearBlocker {
        x: Double::zero(),
        y: Double::zero(),
        surface_dist: Double { bits: 0x7ff0_0000_0000_0000 },
    };
    let mut k: usize = 0;
    while k < rates.len()
        invariant
            functional(m),
            tr == trig_of(m),
            g == (RearMargins { robot_radius, margin, moving_gain: moving_margin_gain }),
            side == frontal(tr, *state, obstacles@, obstacles@.len() as int).0,
            rate == speed.times(max_curvature),
            all == escape_rates(side, rate),
            rates@ == all,
            free == (|i: int|
                rate_blocker(tr, *state, obstacles@, g, reverse_dist, speed, all, i) is None),
            k <= rates@.len(),
            forall|j: int| 0 <= j < k ==> !#[trigger] free(j),
            nearest_blocker(tr, *state, obstacles@, g, reverse_dist, speed, all, k as int) == if k
                == 0 {
                None::<RearBlocker>
            } else {
                Some(worst)
            },
        decreases rates@.len() - k,
    {
        let w = rates[k];
        let b = reverse_arc_blocker(
            m,
            state,
            obstacles,
            robot_radius,
            margin,
            moving_margin_gain,
            reverse_dist,
            w.over(speed),
        );
        assert(b == rate_blocker(
            tr,
            *state,
            obstacles@,
            g,
            reverse_dist,
            speed,
            all,
            k as int,
        ));
        match b {
            None => {
                assert(free(k as int));
                return Ok(
                    VelocityCommand {
                        linear_x: speed.negate(),
                        angular_z: w,
                        confidence: Double::ratio(9, 10).narrow(),
                    },
                );
            },
            Some(b) => {
                assert(!free(k as int));
                if k == 0 || b.surface_dist.lt(worst.surface_dist) {
                    worst = b;
                }
            },
        }
        k = k + 1;
    }
    Err(worst)
}

} // verus!
