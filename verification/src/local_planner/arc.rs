//! The rollouts by which a command is verified: an arc driven over the horizon
//! and then braked to a stop, and the stop that a command commits to.
use crate::global_planner::path::pieces;
use crate::ieee::double::Double;
use crate::local_planner::dwa::DwaConfig;
use crate::local_planner::motion::{step, stepped, RobotState, TrajPoint};
use crate::local_planner::obstacle::Obstacle;
use crate::trig::{cos, cosine, functional, sin, sine, trig_of, Circular, Trig};
use vstd::prelude::*;

verus! {

/// The number above all others.
pub open spec fn spec_infinity() -> Double {
    Double { bits: 0x7ff0_0000_0000_0000 }
}

#[verifier::when_used_as_spec(spec_infinity)]
pub fn infinity() -> (r: Double)
    ensures
        r == spec_infinity(),
{
    Double { bits: 0x7ff0_0000_0000_0000 }
}

/// Distance (m) between collision checks at any speed: 0.05.
pub open spec fn spec_check_spacing() -> Double {
    Double { bits: 0x3fa9_9999_9999_999a }
}

#[verifier::when_used_as_spec(spec_check_spacing)]
pub fn check_spacing() -> (r: Double)
    ensures
        r == spec_check_spacing(),
{
    Double { bits: 0x3fa9_9999_9999_999a }
}

/// Distance (m) that is covered before the brakes take hold: 0.15.
pub open spec fn spec_reaction_distance() -> Double {
    Double::spec_ratio(15, 100)
}

#[verifier::when_used_as_spec(spec_reaction_distance)]
pub fn reaction_distance() -> (r: Double)
    ensures
        r == spec_reaction_distance(),
{
    Double::ratio(15, 100)
}

/// Speed (m/s) at which the time of a stop is counted at least: 0.05.
pub open spec fn spec_slowest() -> Double {
    Double::spec_ratio(5, 100)
}

#[verifier::when_used_as_spec(spec_slowest)]
pub fn slowest() -> (r: Double)
    ensures
        r == spec_slowest(),
{
    Double::ratio(5, 100)
}

/// Below this (m/s) a command does not move: 1e-9.
pub open spec fn spec_at_rest() -> Double {
    Double::spec_ratio(1, 1_000_000_000)
}

#[verifier::when_used_as_spec(spec_at_rest)]
pub fn at_rest() -> (r: Double)
    ensures
        r == spec_at_rest(),
{
    Double::ratio(1, 1_000_000_000)
}

/// Seconds of a control cycle: 0.1.
pub open spec fn spec_cycle() -> Double {
    Double::spec_ratio(1, 10)
}

#[verifier::when_used_as_spec(spec_cycle)]
pub fn cycle() -> (r: Double)
    ensures
        r == spec_cycle(),
{
    Double::ratio(1, 10)
}

/// Control cycles until another command can replace one: one each for the pose
/// to be seen, the command to be planned and the chassis to act, and one for
/// which the command then stands.
pub const COMMIT_CYCLES: u64 = 4;

/// Steps into which `dt` seconds at speed `v` are divided so that collisions
/// are checked often enough.
pub open spec fn spec_substeps_for(v: Double, dt: Double) -> u64 {
    pieces(v.abs().times(dt), check_spacing())
}

#[verifier::when_used_as_spec(spec_substeps_for)]
pub fn substeps_for(v: Double, dt: Double) -> (r: u64)
    ensures
        r == spec_substeps_for(v, dt),
        r >= 1,
{
    pieces(v.abs().times(dt), check_spacing())
}

/// A pose and the time (s) at which it is reached.
#[derive(Clone, Copy, Debug)]
pub struct Spot {
    pub pose: TrajPoint,
    pub t: Double,
}

impl RobotState {
    pub open spec fn spec_spot(self) -> Spot {
        Spot { pose: self.pose(), t: Double::zero() }
    }

    /// Where the robot is now.
    #[verifier::when_used_as_spec(spec_spot)]
    pub fn spot(self) -> (r: Spot)
        ensures
            r == self.spec_spot(),
    {
        Spot { pose: self.pose(), t: Double::zero() }
    }
}

/// Where `n` steps of `dt` seconds at `v` and `w` lead.
pub open spec fn driven(tr: Trig, s: Spot, v: Double, w: Double, dt: Double, n: nat) -> Spot
    decreases n,
{
    if n == 0 {
        s
    } else {
        let p = driven(tr, s, v, w, dt, (n - 1) as nat);
        Spot { pose: stepped(tr, p.pose, v, w, dt), t: p.t.plus(dt) }
    }
}

/// The spots that these steps lead to.
pub open spec fn drive(tr: Trig, s: Spot, v: Double, w: Double, dt: Double, n: nat) -> Seq<Spot> {
    Seq::new(n, |k: int| driven(tr, s, v, w, dt, (k + 1) as nat))
}

/// The lesser of two numbers; the first where they do not compare.
pub open spec fn spec_lower(m: Double, d: Double) -> Double {
    if d.lt(m) {
        d
    } else {
        m
    }
}

#[verifier::when_used_as_spec(spec_lower)]
pub fn lower(m: Double, d: Double) -> (r: Double)
    ensures
        r == spec_lower(m, d),
{
    if d.lt(m) {
        d
    } else {
        m
    }
}

/// Net distance of the obstacle at a spot.
pub open spec fn gap(tr: Trig, obs: Obstacle, gain: Double, s: Spot) -> Double {
    obs.net(tr, gain, s.pose.x, s.pose.y, s.t)
}

/// The least net distance of the first `n` obstacles at a spot, and `from`.
pub open spec fn least_gap(
    tr: Trig,
    obstacles: Seq<Obstacle>,
    gain: Double,
    s: Spot,
    from: Double,
    n: int,
) -> Double
    decreases n,
{
    if n <= 0 {
        from
    } else {
        lower(
            least_gap(tr, obstacles, gain, s, from, n - 1),
            gap(tr, obstacles[n - 1], gain, s),
        )
    }
}

/// The least net distance of any obstacle along a trail, and `from`.
pub open spec fn least_along(
    tr: Trig,
    obstacles: Seq<Obstacle>,
    gain: Double,
    trail: Seq<Spot>,
    from: Double,
) -> Double
    decreases trail.len(),
{
    if trail.len() == 0 {
        from
    } else {
        least_gap(
            tr,
            obstacles,
            gain,
            trail.last(),
            least_along(tr, obstacles, gain, trail.drop_last(), from),
            obstacles.len() as int,
        )
    }
}

/// The least net distance of one obstacle along a trail, and `from`.
pub open spec fn own_least(
    tr: Trig,
    obs: Obstacle,
    gain: Double,
    trail: Seq<Spot>,
    from: Double,
) -> Double
    decreases trail.len(),
{
    if trail.len() == 0 {
        from
    } else {
        lower(
            own_least(tr, obs, gain, trail.drop_last(), from),
            gap(tr, obs, gain, trail.last()),
        )
    }
}

/// Nothing is less than infinity but what is not a number is passed over.
proof fn lemma_own_least(tr: Trig, obs: Obstacle, gain: Double, trail: Seq<Spot>, from: Double)
    requires
        !from.nan(),
    ensures
        !own_least(tr, obs, gain, trail, infinity()).nan(),
        own_least(tr, obs, gain, trail, from) == lower(
            from,
            own_least(tr, obs, gain, trail, infinity()),
        ),
    decreases trail.len(),
{
    if trail.len() > 0 {
        lemma_own_least(tr, obs, gain, trail.drop_last(), from);
    }
}

/// The least along two trails, one after the other.
proof fn lemma_own_least_joined(
    tr: Trig,
    obs: Obstacle,
    gain: Double,
    first: Seq<Spot>,
    second: Seq<Spot>,
    from: Double,
)
    ensures
        own_least(tr, obs, gain, first + second, from) == own_least(
            tr,
            obs,
            gain,
            second,
            own_least(tr, obs, gain, first, from),
        ),
    decreases second.len(),
{
    if second.len() == 0 {
        assert(first + second == first);
    } else {
        assert((first + second).drop_last() == first + second.drop_last());
        lemma_own_least_joined(tr, obs, gain, first, second.drop_last(), from);
    }
}

/// The obstacle keeps the net distance `d` along the trail.
pub open spec fn keeps(
    tr: Trig,
    obs: Obstacle,
    gain: Double,
    trail: Seq<Spot>,
    d: Double,
) -> bool {
    forall|k: int| 0 <= k < trail.len() ==> !gap(tr, obs, gain, #[trigger] trail[k]).lt(d)
}

/// The least net distance of an obstacle along a trail is not below a bound
/// exactly where no spot of the trail is nearer.
pub proof fn law_own_least(tr: Trig, obs: Obstacle, gain: Double, trail: Seq<Spot>, d: Double)
    requires
        !d.nan(),
    ensures
        !own_least(tr, obs, gain, trail, infinity()).nan(),
        own_least(tr, obs, gain, trail, infinity()).lt(d) <==> !keeps(tr, obs, gain, trail, d),
    decreases trail.len(),
{
    if trail.len() > 0 {
        let front = trail.drop_last();
        law_own_least(tr, obs, gain, front, d);
        if keeps(tr, obs, gain, front, d) && !gap(tr, obs, gain, trail.last()).lt(d) {
            assert forall|k: int| 0 <= k < trail.len() implies !gap(
                tr,
                obs,
                gain,
                #[trigger] trail[k],
            ).lt(d) by {
                if k < front.len() {
                    assert(trail[k] == front[k]);
                }
            }
        }
        if !keeps(tr, obs, gain, front, d) {
            let k = choose|k: int|
                0 <= k < front.len() && gap(tr, obs, gain, #[trigger] front[k]).lt(d);
            assert(trail[k] == front[k]);
        }
    }
}

/// The least net distance of all obstacles along a trail is not below a bound
/// exactly where none of them is nearer at any spot of it.
pub proof fn law_least_along(
    tr: Trig,
    obstacles: Seq<Obstacle>,
    gain: Double,
    trail: Seq<Spot>,
    d: Double,
)
    requires
        !d.nan(),
    ensures
        !least_along(tr, obstacles, gain, trail, infinity()).nan(),
        least_along(tr, obstacles, gain, trail, infinity()).lt(d) <==> exists|i: int|
            0 <= i < obstacles.len() && !keeps(tr, #[trigger] obstacles[i], gain, trail, d),
    decreases trail.len(),
{
    if trail.len() > 0 {
        let front = trail.drop_last();
        let low = least_along(tr, obstacles, gain, front, infinity());
        law_least_along(tr, obstacles, gain, front, d);
        lemma_least_gap(tr, obstacles, gain, trail.last(), low, d, obstacles.len() as int);
        assert forall|i: int| 0 <= i < obstacles.len() implies (!keeps(
            tr,
            #[trigger] obstacles[i],
            gain,
            trail,
            d,
        ) <==> !keeps(tr, obstacles[i], gain, front, d) || gap(
            tr,
            obstacles[i],
            gain,
            trail.last(),
        ).lt(d)) by {
            law_own_least(tr, obstacles[i], gain, trail, d);
            law_own_least(tr, obstacles[i], gain, front, d);
        }
    }
}

proof fn lemma_least_gap(
    tr: Trig,
    obstacles: Seq<Obstacle>,
    gain: Double,
    s: Spot,
    from: Double,
    d: Double,
    n: int,
)
    requires
        !d.nan(),
        !from.nan(),
        0 <= n <= obstacles.len(),
    ensures
        !least_gap(tr, obstacles, gain, s, from, n).nan(),
        least_gap(tr, obstacles, gain, s, from, n).lt(d) <==> from.lt(d) || exists|i: int|
            0 <= i < n && gap(tr, #[trigger] obstacles[i], gain, s).lt(d),
    decreases n,
{
    if n > 0 {
        lemma_least_gap(tr, obstacles, gain, s, from, d, n - 1);
        if gap(tr, obstacles[n - 1], gain, s).lt(d) {
            assert(gap(tr, obstacles[n - 1], gain, s).lt(d));
        }
    }
}

/// Without obstacles there is nothing near.
proof fn lemma_nothing_near(tr: Trig, obstacles: Seq<Obstacle>, gain: Double, trail: Seq<Spot>)
    requires
        obstacles.len() == 0,
    ensures
        least_along(tr, obstacles, gain, trail, infinity()) == infinity(),
    decreases trail.len(),
{
    if trail.len() > 0 {
        lemma_nothing_near(tr, obstacles, gain, trail.drop_last());
    }
}

/// What is left of the speed `v` after braking over `s` metres.
pub open spec fn spec_speed_left(v: Double, decel: Double, s: Double) -> Double {
    v.square().minus(Double::of(2).times(decel).times(s)).max(Double::zero()).sqrt()
}

#[verifier::when_used_as_spec(spec_speed_left)]
pub fn speed_left(v: Double, decel: Double, s: Double) -> (r: Double)
    ensures
        r == spec_speed_left(v, decel, s),
{
    v.square().minus(Double::of(2).times(decel).times(s)).max(Double::zero()).sqrt()
}

/// A stop on the arc of `v` and `w`: first `reaction` metres at speed, then
/// braking at `decel`. It is checked at `n` spots, `ds` metres apart.
#[derive(Clone, Copy, Debug)]
pub struct Stop {
    pub v: Double,
    pub w: Double,
    pub decel: Double,
    pub reaction: Double,
    pub n: u64,
    pub ds: Double,
}

impl Stop {
    pub open spec fn spec_plan(v: Double, w: Double, decel: Double, reaction: Double) -> Stop {
        let len = v.square().over(Double::of(2).times(decel)).plus(reaction);
        let n = pieces(len, check_spacing());
        Stop { v, w, decel, reaction, n, ds: len.over(Double::of(n)) }
    }

    /// The stop of a command.
    #[verifier::when_used_as_spec(spec_plan)]
    pub fn plan(v: Double, w: Double, decel: Double, reaction: Double) -> (r: Stop)
        ensures
            r == Stop::spec_plan(v, w, decel, reaction),
    {
        let len = v.square().over(Double::of(2).times(decel)).plus(reaction);
        let n = pieces(len, check_spacing());
        Stop { v, w, decel, reaction, n, ds: len.over(Double::of(n)) }
    }

    /// The next spot, at distance `s` along the stop. The curvature of the arc
    /// stays as it is while the speed goes down.
    pub open spec fn next(self, tr: Trig, p: Spot, s: Double) -> Spot {
        let sigma = self.v.signum();
        let theta = p.pose.theta.plus(sigma.times(self.w.over(self.v)).times(self.ds));
        let speed = speed_left(
            self.v,
            self.decel,
            s.minus(self.reaction).max(Double::zero()),
        ).max(slowest());
        Spot {
            pose: TrajPoint {
                x: p.pose.x.plus(sigma.times(cosine(tr, theta)).times(self.ds)),
                y: p.pose.y.plus(sigma.times(sine(tr, theta)).times(self.ds)),
                theta,
            },
            t: p.t.plus(self.ds.over(speed)),
        }
    }

    /// Where `k` steps of the stop lead, and how far along it that is.
    pub open spec fn reached(self, tr: Trig, from: Spot, k: nat) -> (Spot, Double)
        decreases k,
    {
        if k == 0 {
            (from, Double::zero())
        } else {
            let (p, s) = self.reached(tr, from, (k - 1) as nat);
            let along = s.plus(self.ds);
            (self.next(tr, p, along), along)
        }
    }

    /// The spots of the stop.
    pub open spec fn trail(self, tr: Trig, from: Spot) -> Seq<Spot> {
        Seq::new(self.n as nat, |k: int| self.reached(tr, from, (k + 1) as nat).0)
    }

    /// The next spot.
    pub fn advance<M: Fn(Circular, Double, Double) -> Double>(
        self,
        m: &M,
        p: Spot,
        s: Double,
    ) -> (r: Spot)
        requires
            functional(m),
        ensures
            r == self.next(trig_of(m), p, s),
    {
        let sigma = self.v.signum();
        let theta = p.pose.theta.plus(sigma.times(self.w.over(self.v)).times(self.ds));
        let speed = speed_left(
            self.v,
            self.decel,
            s.minus(self.reaction).max(Double::zero()),
        ).max(slowest());
        Spot {
            pose: TrajPoint {
                x: p.pose.x.plus(sigma.times(cos(m, theta)).times(self.ds)),
                y: p.pose.y.plus(sigma.times(sin(m, theta)).times(self.ds)),
                theta,
            },
            t: p.t.plus(self.ds.over(speed)),
        }
    }
}

/// The steps of the arc over the horizon: how many, and how long each.
pub open spec fn horizon_steps(config: DwaConfig, v: Double) -> (nat, Double) {
    let n = substeps_for(v, config.sim_dt);
    (
        config.sim_time.over(config.sim_dt).floor_count() as nat * n as nat,
        config.sim_dt.over(Double::of(n)),
    )
}

/// The arc over the horizon.
pub open spec fn horizon_trail(
    tr: Trig,
    config: DwaConfig,
    state: RobotState,
    v: Double,
    w: Double,
) -> Seq<Spot> {
    let (n, dt) = horizon_steps(config, v);
    drive(tr, state.spot(), v, w, dt, n)
}

/// Where the arc ends.
pub open spec fn horizon_end(
    tr: Trig,
    config: DwaConfig,
    state: RobotState,
    v: Double,
    w: Double,
) -> Spot {
    let (n, dt) = horizon_steps(config, v);
    driven(tr, state.spot(), v, w, dt, n)
}

/// A stop is worth checking: there is motion, and it can be braked.
pub open spec fn spec_brakes(config: DwaConfig, v: Double) -> bool {
    at_rest().lt(v.abs()) && Double::zero().lt(config.max_deceleration)
}

#[verifier::when_used_as_spec(spec_brakes)]
pub fn brakes(config: DwaConfig, v: Double) -> (r: bool)
    ensures
        r == spec_brakes(config, v),
{
    at_rest().lt(v.abs()) && Double::zero().lt(config.max_deceleration)
}

/// The stop from the end of the arc.
pub open spec fn braking_trail(
    tr: Trig,
    config: DwaConfig,
    state: RobotState,
    v: Double,
    w: Double,
) -> Seq<Spot> {
    if brakes(config, v) {
        Stop::plan(v, w, config.max_deceleration, reaction_distance()).trail(
            tr,
            horizon_end(tr, config, state, v, w),
        )
    } else {
        seq![]
    }
}

/// Where a command can have led by the time another replaces it.
pub open spec fn commit_steps(v: Double) -> (nat, Double) {
    let n = substeps_for(v, cycle());
    (COMMIT_CYCLES as nat * n as nat, cycle().over(Double::of(n)))
}

/// The arc while the command is in effect, and the stop from there.
pub open spec fn committed_trail(
    tr: Trig,
    config: DwaConfig,
    state: RobotState,
    v: Double,
    w: Double,
) -> Seq<Spot> {
    let (n, dt) = commit_steps(v);
    let held = drive(tr, state.spot(), v, w, dt, n);
    if brakes(config, v) {
        held + Stop::plan(v, w, config.max_deceleration, Double::zero()).trail(
            tr,
            driven(tr, state.spot(), v, w, dt, n),
        )
    } else {
        held
    }
}

/// What the rollout of an arc shows.
#[derive(Debug)]
pub struct ArcRollout {
    /// Pose at the end of the horizon.
    pub end_x: Double,
    pub end_y: Double,
    pub end_theta: Double,
    /// Least net distance of any obstacle over the horizon.
    pub min_obstacle_dist: Double,
    /// Least net distance of any obstacle over the stop that follows.
    pub braking_min_dist: Double,
    /// Least net distance of each obstacle over both.
    pub per_obstacle_min: Vec<Double>,
    /// Least net distance of each obstacle over the stop alone.
    pub per_obstacle_braking_min: Vec<Double>,
}

/// The least of the net distances at a spot.
fn watch<M: Fn(Circular, Double, Double) -> Double>(
    m: &M,
    obstacles: &[Obstacle],
    gain: Double,
    s: Spot,
    from: Double,
    own: &mut Vec<Double>,
) -> (r: Double)
    requires
        functional(m),
        old(own)@.len() == obstacles@.len(),
    ensures
        r == least_gap(trig_of(m), obstacles@, gain, s, from, obstacles@.len() as int),
        final(own)@.len() == obstacles@.len(),
        forall|i: int|
            0 <= i < obstacles@.len() ==> #[trigger] final(own)@[i] == lower(
                old(own)@[i],
                gap(trig_of(m), obstacles@[i], gain, s),
            ),
{
    let mut low = from;
    let mut i: usize = 0;
    while i < obstacles.len()
        invariant
            functional(m),
            i <= obstacles@.len(),
            own@.len() == obstacles@.len(),
            old(own)@.len() == obstacles@.len(),
            low == least_gap(trig_of(m), obstacles@, gain, s, from, i as int),
            forall|j: int|
                0 <= j < i ==> #[trigger] own@[j] == lower(
                    old(own)@[j],
                    gap(trig_of(m), obstacles@[j], gain, s),
                ),
            forall|j: int| i <= j < obstacles@.len() ==> #[trigger] own@[j] == old(own)@[j],
        decreases obstacles@.len() - i,
    {
        let d = obstacles[i].net_clearance(m, gain, s.pose.x, s.pose.y, s.t);
        low = lower(low, d);
        let kept = own[i];
        own.set(i, lower(kept, d));
        i = i + 1;
    }
    low
}

/// A list of `n` infinities.
fn infinities(n: usize) -> (r: Vec<Double>)
    ensures
        r@ == Seq::new(n as nat, |i: int| infinity()),
{
    let mut v: Vec<Double> = Vec::new();
    while v.len() < n
        invariant
            v@.len() <= n,
            forall|i: int| 0 <= i < v@.len() ==> #[trigger] v@[i] == infinity(),
        decreases n - v@.len(),
    {
        v.push(infinity());
    }
    v
}

/// Each obstacle's least net distance along a trail is in the list.
pub open spec fn tallied(
    tr: Trig,
    obstacles: Seq<Obstacle>,
    gain: Double,
    trail: Seq<Spot>,
    from: Seq<Double>,
    own: Seq<Double>,
) -> bool {
    &&& own.len() == obstacles.len()
    &&& forall|i: int|
        0 <= i < own.len() ==> #[trigger] own[i] == own_least(
            tr,
            obstacles[i],
            gain,
            trail,
            from[i],
        )
}

/// Drives an arc and takes the least distances along it: the spot it leads to
/// and the least over all obstacles.
fn drive_watching<M: Fn(Circular, Double, Double) -> Double>(
    m: &M,
    obstacles: &[Obstacle],
    gain: Double,
    v: Double,
    w: Double,
    dt: Double,
    n: u128,
    from: Spot,
    own: &mut Vec<Double>,
) -> (r: (Spot, Double))
    requires
        functional(m),
        old(own)@.len() == obstacles@.len(),
    ensures
        r.0 == driven(trig_of(m), from, v, w, dt, n as nat),
        r.1 == least_along(
            trig_of(m),
            obstacles@,
            gain,
            drive(trig_of(m), from, v, w, dt, n as nat),
            infinity(),
        ),
        tallied(
            trig_of(m),
            obstacles@,
            gain,
            drive(trig_of(m), from, v, w, dt, n as nat),
            old(own)@,
            final(own)@,
        ),
{
    let ghost tr = trig_of(m);
    let mut s = from;
    let mut low = infinity();
    let mut k: u128 = 0;
    assert(drive(tr, from, v, w, dt, 0) == Seq::<Spot>::empty());
    while k < n
        invariant
            functional(m),
            tr == trig_of(m),
            k <= n,
            old(own)@.len() == obstacles@.len(),
            s == driven(tr, from, v, w, dt, k as nat),
            low == least_along(
                tr,
                obstacles@,
                gain,
                drive(tr, from, v, w, dt, k as nat),
                infinity(),
            ),
            tallied(
                tr,
                obstacles@,
                gain,
                drive(tr, from, v, w, dt, k as nat),
                old(own)@,
                own@,
            ),
        decreases n - k,
    {
        s = Spot { pose: step(m, s.pose, v, w, dt), t: s.t.plus(dt) };
        low = watch(m, obstacles, gain, s, low, own);
        proof {
            let trail = drive(tr, from, v, w, dt, (k + 1) as nat);
            assert(trail.drop_last() == drive(tr, from, v, w, dt, k as nat));
            assert(trail.last() == s);
        }
        k = k + 1;
    }
    (s, low)
}

/// Brakes to a stop and takes the least distances along it.
fn stop_watching<M: Fn(Circular, Double, Double) -> Double>(
    m: &M,
    obstacles: &[Obstacle],
    gain: Double,
    stop: Stop,
    from: Spot,
    own: &mut Vec<Double>,
) -> (r: Double)
    requires
        functional(m),
        old(own)@.len() == obstacles@.len(),
    ensures
        r == least_along(
            trig_of(m),
            obstacles@,
            gain,
            stop.trail(trig_of(m), from),
            infinity(),
        ),
        tallied(
            trig_of(m),
            obstacles@,
            gain,
            stop.trail(trig_of(m), from),
            old(own)@,
            final(own)@,
        ),
{
    let ghost tr = trig_of(m);
    let ghost spots = |k: int| stop.reached(tr, from, (k + 1) as nat).0;
    let mut p = from;
    let mut along = Double::zero();
    let mut low = infinity();
    let mut k: u64 = 0;
    assert(Seq::new(0, spots) == Seq::<Spot>::empty());
    while k < stop.n
        invariant
            functional(m),
            tr == trig_of(m),
            spots == (|k: int| stop.reached(tr, from, (k + 1) as nat).0),
            k <= stop.n,
            old(own)@.len() == obstacles@.len(),
            (p, along) == stop.reached(tr, from, k as nat),
            low == least_along(tr, obstacles@, gain, Seq::new(k as nat, spots), infinity()),
            tallied(tr, obstacles@, gain, Seq::new(k as nat, spots), old(own)@, own@),
        decreases stop.n - k,
    {
        along = along.plus(stop.ds);
        p = stop.advance(m, p, along);
        low = watch(m, obstacles, gain, p, low, own);
        proof {
            let trail = Seq::new((k + 1) as nat, spots);
            assert(trail.drop_last() == Seq::new(k as nat, spots));
            assert(trail.last() == p);
        }
        k = k + 1;
    }
    assert(Seq::new(k as nat, spots) == stop.trail(tr, from));
    low
}

/// Rolls out the arc of a command: over the horizon, and then braked to a
/// stop. Where the robot ends up, and how near it comes to the obstacles.
pub fn simulate_arc<M: Fn(Circular, Double, Double) -> Double>(
    m: &M,
    config: &DwaConfig,
    state: &RobotState,
    v: Double,
    w: Double,
    obstacles: &[Obstacle],
) -> (r: ArcRollout)
    requires
        functional(m),
    ensures
        ({
            let tr = trig_of(m);
            let gain = config.moving_obstacle_margin_gain;
            let arc = horizon_trail(tr, *config, *state, v, w);
            let stop = braking_trail(tr, *config, *state, v, w);
            let end = horizon_end(tr, *config, *state, v, w).pose;
            &&& (r.end_x, r.end_y, r.end_theta) == (end.x, end.y, end.theta)
            &&& r.min_obstacle_dist == least_along(tr, obstacles@, gain, arc, infinity())
            &&& r.braking_min_dist == least_along(tr, obstacles@, gain, stop, infinity())
            &&& r.per_obstacle_min@.len() == obstacles@.len()
            &&& r.per_obstacle_braking_min@.len() == obstacles@.len()
            &&& forall|i: int|
                0 <= i < obstacles@.len() ==> #[trigger] r.per_obstacle_min@[i] == own_least(
                    tr,
                    obstacles@[i],
                    gain,
                    arc + stop,
                    infinity(),
                )
            &&& forall|i: int|
                0 <= i < obstacles@.len() ==> #[trigger] r.per_obstacle_braking_min@[i]
                    == own_least(tr, obstacles@[i], gain, stop, infinity())
        }),
{
    let ghost tr = trig_of(m);
    let gain = config.moving_obstacle_margin_gain;
    let steps: u64 = config.sim_time.over(config.sim_dt).floor_count();
    let n_sub = substeps_for(v, config.sim_dt);
    let sub_dt = config.sim_dt.over(Double::of(n_sub));
    assert(0 <= steps * n_sub <= u128::MAX) by (nonlinear_arith)
        requires
            0 <= steps <= u64::MAX,
            0 <= n_sub <= u64::MAX,
    ;
    let total: u128 = steps as u128 * n_sub as u128;
    let mut own = infinities(obstacles.len());
    let (end, low) = drive_watching(
        m,
        obstacles,
        gain,
        v,
        w,
        sub_dt,
        total,
        state.spot(),
        &mut own,
    );
    let ghost after_arc = own@;
    let ghost arc = horizon_trail(tr, *config, *state, v, w);
    let ghost stop = braking_trail(tr, *config, *state, v, w);
    assert(horizon_steps(*config, v) == (total as nat, sub_dt));
    let mut braking = infinities(obstacles.len());
    let mut braking_low = infinity();
    if brakes(*config, v) && obstacles.len() > 0 {
        let plan = Stop::plan(v, w, config.max_deceleration, reaction_distance());
        braking_low = stop_watching(m, obstacles, gain, plan, end, &mut braking);
        let mut i: usize = 0;
        while i < obstacles.len()
            invariant
                i <= obstacles@.len(),
                own@.len() == obstacles@.len(),
                braking@.len() == obstacles@.len(),
                after_arc.len() == obstacles@.len(),
                forall|j: int|
                    0 <= j < i ==> #[trigger] own@[j] == lower(after_arc[j], braking@[j]),
                forall|j: int| i <= j < obstacles@.len() ==> #[trigger] own@[j] == after_arc[j],
            decreases obstacles@.len() - i,
        {
            let kept = own[i];
            own.set(i, lower(kept, braking[i]));
            i = i + 1;
        }
    }
    proof {
        assert forall|i: int| 0 <= i < obstacles@.len() implies #[trigger] own@[i] == own_least(
            tr,
            obstacles@[i],
            gain,
            arc + stop,
            infinity(),
        ) by {
            let a = own_least(tr, obstacles@[i], gain, arc, infinity());
            lemma_own_least(tr, obstacles@[i], gain, arc, infinity());
            lemma_own_least(tr, obstacles@[i], gain, stop, a);
            lemma_own_least_joined(tr, obstacles@[i], gain, arc, stop, infinity());
            assert(after_arc[i] == a);
        }
        if obstacles@.len() == 0 {
            lemma_nothing_near(tr, obstacles@, gain, stop);
        }
    }
    ArcRollout {
        end_x: end.pose.x,
        end_y: end.pose.y,
        end_theta: end.pose.theta,
        min_obstacle_dist: low,
        braking_min_dist: braking_low,
        per_obstacle_min: own,
        per_obstacle_braking_min: braking,
    }
}

/// How near each obstacle comes while a command is in effect and the robot
/// then brakes to a stop on the same arc.
pub fn simulate_committed_stop<M: Fn(Circular, Double, Double) -> Double>(
    m: &M,
    config: &DwaConfig,
    state: &RobotState,
    v: Double,
    w: Double,
    obstacles: &[Obstacle],
) -> (r: Vec<Double>)
    requires
        functional(m),
    ensures
        r@.len() == obstacles@.len(),
        forall|i: int|
            0 <= i < obstacles@.len() ==> #[trigger] r@[i] == own_least(
                trig_of(m),
                obstacles@[i],
                config.moving_obstacle_margin_gain,
                committed_trail(trig_of(m), *config, *state, v, w),
                infinity(),
            ),
{
    let ghost tr = trig_of(m);
    let gain = config.moving_obstacle_margin_gain;
    let n_sub = substeps_for(v, cycle());
    let sub_dt = cycle().over(Double::of(n_sub));
    let total: u128 = COMMIT_CYCLES as u128 * n_sub as u128;
    let mut own = infinities(obstacles.len());
    let (end, _) = drive_watching(
        m,
        obstacles,
        gain,
        v,
        w,
        sub_dt,
        total,
        state.spot(),
        &mut own,
    );
    assert(commit_steps(v) == (total as nat, sub_dt));
    let ghost held = drive(tr, state.spot(), v, w, sub_dt, total as nat);
    if brakes(*config, v) {
        let plan = Stop::plan(v, w, config.max_deceleration, Double::zero());
        let _ = stop_watching(m, obstacles, gain, plan, end, &mut own);
        proof {
            assert forall|i: int| 0 <= i < obstacles@.len() implies #[trigger] own@[i]
                == own_least(
                tr,
                obstacles@[i],
                gain,
                held + plan.trail(tr, end),
                infinity(),
            ) by {
                lemma_own_least_joined(
                    tr,
                    obstacles@[i],
                    gain,
                    held,
                    plan.trail(tr, end),
                    infinity(),
                );
            }
        }
    }
    own
}

/// The distance to keep from an obstacle, but no more than there is now: what
/// the robot is already too close to must not forbid it to move away.
pub fn wedged_allowance<M: Fn(Circular, Double, Double) -> Double>(
    m: &M,
    state: &RobotState,
    obs: &Obstacle,
    required: Double,
    moving_margin_gain: Double,
) -> (r: Double)
    requires
        functional(m),
    ensures
        r == allowance(trig_of(m), *state, *obs, required, moving_margin_gain),
{
    required.min(obs.net_clearance(m, moving_margin_gain, state.x, state.y, Double::zero()))
}

/// The distance to keep from an obstacle, given how close it is.
pub open spec fn allowance(
    tr: Trig,
    state: RobotState,
    obs: Obstacle,
    required: Double,
    gain: Double,
) -> Double {
    required.min(obs.net(tr, gain, state.x, state.y, Double::zero()))
}

/// The allowance never asks for more than is required, nor for more than there
/// is. Where there is enough, it asks for what is required.
pub proof fn law_allowance(
    tr: Trig,
    state: RobotState,
    obs: Obstacle,
    required: Double,
    gain: Double,
)
    requires
        !required.nan(),
    ensures
        ({
            let a = allowance(tr, state, obs, required, gain);
            let now = obs.net(tr, gain, state.x, state.y, Double::zero());
            &&& a.le(required)
            &&& !now.nan() ==> a.le(now)
            &&& !now.lt(required) ==> a == required
        }),
{
}

} // verus!
