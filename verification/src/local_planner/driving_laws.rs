//! Setting off, stopping, the way that is left, and who drives.
use crate::geometry::distance;
use crate::global_planner::path::pieces;
use crate::global_planner::{PathWaypoint, SegmentDir};
use crate::ieee::algebra::alike;
use crate::ieee::double::{decode, lemma_decode_zero, Double};
use crate::local_planner::arc::{
    at_rest, brakes, check_spacing, cycle, slowest, speed_left, substeps_for, Spot, Stop,
};
use crate::local_planner::dwa::{facing, robot_footprint_radius, DwaConfig, DwaPlanner, Query};
use crate::local_planner::motion::RobotState;
use crate::local_planner::obstacle::Obstacle;
use crate::local_planner::planner::{bends_tightly, tight_between, Executor, LocalPlanner};
use crate::local_planner::reverse::{
    blocker_of, rate_blocker, rear_allowance, sweep, RearMargins,
};
use crate::local_planner::run::{first_run, length_from, nearest, remaining};
use crate::local_planner::standstill::{Profile, SetOff};
use crate::trig::Trig;
use vstd::arithmetic::div_mod::lemma_div_is_ordered;
use vstd::arithmetic::power2::{lemma_pow2_pos, pow2};
use vstd::prelude::*;

verus! {

/// The curvatures that are tried from a standstill go up from the sharpest right turn.
pub proof fn law_first_curvatures(q: Query, i: u64, j: u64)
    requires
        q.config.max_curvature.nonnegative(),
        Double::of(2).times(q.config.max_curvature).finite(),
        1 <= i <= j,
        Double::of(2).times(q.config.max_curvature).times(Double::of(j)).finite(),
    ensures
        q.config.max_curvature.negate().le(q.curvature(i)),
        q.curvature(i).le(q.curvature(j)),
{
    let m = q.config.max_curvature;
    let n = Double::of((q.curvatures() - 1) as u64);
    Double::lemma_of((q.curvatures() - 1) as u64);
    let two = Double::of(2);
    Double::lemma_of(2);
    Double::lemma_of(i);
    Double::lemma_of(j);
    Double::lemma_of_order(i, j);
    m.lemma_negate();
    two.lemma_times_monotone(m, m);
    let w = two.times(m);
    let (a, b) = (w.times(Double::of(i)), w.times(Double::of(j)));
    w.lemma_times_monotone(Double::of(i), Double::of(j));
    Double::lemma_over_monotone(a, b, n);
    m.negate().lemma_plus_grows(a.over(n));
    m.negate().lemma_plus_grows(b.over(n));
    Double::lemma_plus_monotone(m.negate(), m.negate(), a.over(n), b.over(n));
}

/// The first command from a standstill is no faster than the target and no faster than
/// one cycle allows; its confidence grows with the room that is spare.
pub proof fn law_first_command(q: Query, s: SetOff, roomier: SetOff)
    requires
        !q.target.nan() && !q.state.linear_vel.nan(),
        q.config.max_acceleration.nonnegative(),
        s.spare.finite() && roomier.spare.finite() && s.spare.le(roomier.spare),
    ensures
        q.first_cycle(s).linear_x.le(q.target),
        q.first_cycle(s).linear_x.le(
            q.state.linear_vel.max(Double::zero()).plus(
                q.config.max_acceleration.times(cycle()),
            ),
        ),
        q.first_cycle(s).confidence.le(q.first_cycle(roomier).confidence),
{
    let unit = Double::ratio(3, 10);
    let span = Double::ratio(6, 10);
    Double::lemma_ratio_number(3, 10);
    Double::lemma_ratio_number(6, 10);
    Double::lemma_ratio_number(1, 10);
    q.config.max_acceleration.lemma_times_monotone(cycle(), cycle());
    q.state.linear_vel.max(Double::zero()).lemma_plus_nonnegative(
        q.config.max_acceleration.times(cycle()),
    );
    Double::lemma_over_order(s.spare, roomier.spare, unit);
    s.spare.lemma_over_side(unit);
    roomier.spare.lemma_over_side(unit);
    let (z, one) = (Double::zero(), Double::one());
    let (a, b) = (s.spare.over(unit).clamp(z, one), roomier.spare.over(unit).clamp(z, one));
    span.lemma_times_monotone(a, b);
    let (x, y) = (span.times(a), span.times(b));
    unit.lemma_plus_nonnegative(x);
    unit.lemma_plus_nonnegative(y);
    Double::lemma_plus_monotone(unit, unit, x, y);
    Double::lemma_narrow_monotone(unit.plus(x), unit.plus(y));
}

/// Of two ways to set off, the one that keeps more room and ends facing the goal more
/// scores no worse.
pub proof fn law_setting_off_scores(q: Query, tr: Trig, i: int, j: int)
    requires
        ({
            let n = q.sim_steps() as nat;
            let (a, b) = (
                q.profile(tr, q.curvature(i as u64), n),
                q.profile(tr, q.curvature(j as u64), n),
            );
            &&& a.clear.le(b.clear)
            &&& facing(tr, a.spot.pose, q.goal).nonnegative()
            &&& facing(tr, b.spot.pose, q.goal).nonnegative()
            &&& facing(tr, a.spot.pose, q.goal).le(facing(tr, b.spot.pose, q.goal))
        }),
        !q.set_off(tr, i).score.nan() && !q.set_off(tr, j).score.nan(),
    ensures
        q.set_off(tr, i).score.le(q.set_off(tr, j).score),
{
    let n = q.sim_steps() as nat;
    let (a, b) = (
        q.profile(tr, q.curvature(i as u64), n),
        q.profile(tr, q.curvature(j as u64), n),
    );
    let part = Double::ratio(2, 10);
    Double::lemma_ratio_number(2, 10);
    let (f, g) = (facing(tr, a.spot.pose, q.goal), facing(tr, b.spot.pose, q.goal));
    part.lemma_times_monotone(f, g);
    let one = Double::one();
    Double::lemma_plus_monotone(a.clear.min(one), b.clear.min(one), part.times(f), part.times(g));
}

/// While it sets off the robot never exceeds its target.
pub proof fn law_setting_off_keeps_the_target(q: Query, tr: Trig, kappa: Double, k: nat)
    requires
        k >= 1,
        !q.target.nan(),
    ensures
        q.profile(tr, kappa, k).v.le(q.target),
        q.profile(tr, kappa, 0).v == q.state.linear_vel.max(Double::zero()),
{
    let b = q.profile(tr, kappa, (k - 1) as nat);
    let dt = q.config.sim_dt;
    let v = b.v.plus(q.config.max_acceleration.times(dt)).min(q.target);
    let n = substeps_for(v, dt);
    lemma_rolled_speed(
        q,
        tr,
        Profile { v, ..b },
        q.yaw(kappa, v),
        q.required(v),
        dt.over(Double::of(n)),
        n as nat,
    );
}

proof fn lemma_rolled_speed(
    q: Query,
    tr: Trig,
    p: Profile,
    w: Double,
    required: Double,
    dt: Double,
    k: nat,
)
    ensures
        q.rolled(tr, p, w, required, dt, k).v == p.v,
{
}

/// Braking, the speed falls with the way, from no more than it was to a standstill, and is
/// the higher the faster it was, forward or back.
pub proof fn law_speed_falls_while_braking(
    v: Double,
    slower: Double,
    decel: Double,
    s: Double,
    more: Double,
)
    requires
        v.finite() && slower.finite() && slower.mag() <= v.mag() && v.square().finite(),
        decel.nonnegative() && Double::of(2).times(decel).finite(),
        s.nonnegative() && more.nonnegative() && s.le(more),
        Double::of(2).times(decel).times(more).finite(),
    ensures
        speed_left(slower, decel, more).le(speed_left(v, decel, s)),
        Double::zero().le(speed_left(slower, decel, more)),
        speed_left(v.negate(), decel, s) == speed_left(v, decel, s),
        v.square().le(Double::of(2).times(decel).times(s)) ==> speed_left(v, decel, s).key()
            == 0,
{
    let z = Double::zero();
    let two = Double::of(2);
    Double::lemma_of(2);
    v.lemma_negate();
    v.lemma_times_negate(v);
    v.lemma_square_opposite(v.negate());
    let (x, y) = (slower.abs(), v.abs());
    slower.lemma_square_opposite(x);
    v.lemma_square_opposite(y);
    x.lemma_times_monotone(x, y);
    y.lemma_times_monotone(x, y);
    x.lemma_times_commutes(y);
    two.lemma_times_monotone(decel, decel);
    let b = two.times(decel);
    b.lemma_times_monotone(s, more);
    let (p, q) = (b.times(s), b.times(more));
    v.square().lemma_minus(p);
    slower.square().lemma_minus(q);
    Double::lemma_minus_monotone(slower.square(), v.square(), q, p);
    Double::lemma_sqrt_monotone(
        slower.square().minus(q).max(z),
        v.square().minus(p).max(z),
    );
    if v.square().le(p) {
        p.lemma_taken_away();
        Double::lemma_minus_monotone(v.square(), p, p, p);
        v.square().minus(p).max(z).lemma_no_root();
    }
}

impl Double {
    proof fn lemma_no_root(self)
        requires
            self.mag() == 0,
        ensures
            self.sqrt().key() == 0,
    {
        reveal(Double::spec_sqrt);
    }
}

/// A stop planned backward covers the same way in the same pieces as one forward.
pub proof fn law_stop_both_ways(v: Double, w: Double, decel: Double, reaction: Double)
    ensures
        ({
            let (a, b) = (
                Stop::plan(v, w, decel, reaction),
                Stop::plan(v.negate(), w, decel, reaction),
            );
            a.n == b.n && a.ds == b.ds
        }),
{
    v.lemma_times_negate(v);
}

/// As long as the reaction lasts, a stop passes in the time of its first speed.
pub proof fn law_reaction_keeps_the_speed(stop: Stop, tr: Trig, p: Spot, s: Double, u: Double)
    requires
        s.finite() && u.finite() && stop.reaction.finite(),
        s.le(stop.reaction) && u.le(stop.reaction),
    ensures
        stop.next(tr, p, s).t == stop.next(tr, p, u).t,
{
    let (z, r) = (Double::zero(), stop.reaction);
    r.lemma_taken_away();
    s.lemma_minus(r);
    u.lemma_minus(r);
    Double::lemma_minus_monotone(s, r, r, r);
    Double::lemma_minus_monotone(u, r, r, r);
    let (a, b) = (s.minus(r).max(z), u.minus(r).max(z));
    lemma_speed_at_once(stop.v, stop.decel, a, b);
}

proof fn lemma_speed_at_once(v: Double, decel: Double, a: Double, b: Double)
    requires
        a.mag() == 0 && b.mag() == 0,
    ensures
        speed_left(v, decel, a) == speed_left(v, decel, b),
{
    let x = Double::of(2).times(decel);
    let (p, q) = (x.times(a), x.times(b));
    if x.finite() {
        x.lemma_times_zero(a);
        x.lemma_times_zero(b);
    } else {
        reveal(Double::spec_times);
    }
    v.lemma_square_opposite(v);
    lemma_taking_nothing(v.square(), p, q);
}

proof fn lemma_taking_nothing(s: Double, p: Double, q: Double)
    requires
        !s.negative(),
        p.nan() == q.nan() && (!p.nan() ==> p.mag() == 0 && q.mag() == 0),
    ensures
        s.minus(p).max(Double::zero()).sqrt() == s.minus(q).max(Double::zero()).sqrt(),
{
    reveal(Double::spec_plus);
    reveal(Double::spec_sqrt);
    if !p.nan() {
        p.lemma_negate();
        q.lemma_negate();
        if s.finite() {
            s.lemma_plus_nothing(p.negate());
            s.lemma_plus_nothing(q.negate());
        }
    }
}

/// The robot is checked in as many pieces backward as forward, and brakes from either
/// direction; at rest it has nothing to brake.
pub proof fn law_checked_both_ways(c: DwaConfig, v: Double, dt: Double)
    ensures
        substeps_for(v.negate(), dt) == substeps_for(v, dt),
        brakes(c, v.negate()) == brakes(c, v),
        v.mag() == 0 ==> !brakes(c, v),
        c.max_deceleration.positive() && at_rest().lt(v) ==> brakes(c, v),
{
    Double::lemma_ratio_number(1, 1_000_000_000);
    v.lemma_negate();
}

/// The faster the robot goes and the later it reacts, the more pieces its stop has.
pub proof fn law_longer_stops(
    v: Double,
    faster: Double,
    w: Double,
    decel: Double,
    reaction: Double,
    later: Double,
)
    requires
        v.finite() && faster.finite() && v.mag() <= faster.mag() && faster.square().finite(),
        Double::of(2).times(decel).positive(),
        reaction.nonnegative() && later.nonnegative() && reaction.le(later),
        ({
            let len = faster.square().over(Double::of(2).times(decel)).plus(later);
            len.finite() && len.over(check_spacing()).finite() && len.over(
                check_spacing(),
            ).whole() < u64::MAX && faster.square().over(Double::of(2).times(decel)).finite()
        }),
    ensures
        Stop::plan(v, w, decel, reaction).n <= Stop::plan(faster, w, decel, later).n,
{
    let b = Double::of(2).times(decel);
    let (x, y) = (v.abs(), faster.abs());
    v.lemma_square_opposite(x);
    faster.lemma_square_opposite(y);
    x.lemma_times_monotone(x, y);
    y.lemma_times_monotone(x, y);
    x.lemma_times_commutes(y);
    Double::lemma_over_monotone(v.square(), faster.square(), b);
    let (s, t) = (v.square().over(b), faster.square().over(b));
    s.lemma_plus_nonnegative(reaction);
    t.lemma_plus_nonnegative(later);
    Double::lemma_plus_monotone(s, t, reaction, later);
    let (m, n) = (s.plus(reaction), t.plus(later));
    Double::lemma_over_monotone(m, n, check_spacing());
    let (c, d) = (m.over(check_spacing()), n.over(check_spacing()));
    c.lemma_order(d);
    c.lemma_pieces_order(d);
}

impl Double {
    proof fn lemma_pieces_order(self, o: Double)
        requires
            self.finite() && o.finite(),
            0 <= self.key() <= o.key(),
            o.whole() < u64::MAX,
        ensures
            self.ceil_count() <= o.ceil_count(),
    {
        let p = pow2(1074) as int;
        lemma_pow2_pos(1074);
        self.lemma_order(o);
        lemma_decode_zero();
        lemma_div_is_ordered(self.units() as int, o.units() as int, p);
        self.law_counts();
        o.law_counts();
        let (a, b) = (self.ceil_count() as int, o.ceil_count() as int);
        assert(a <= b) by (nonlinear_arith)
            requires
                a * p - p < b * p,
                p > 0,
        ;
    }
}

/// A stop in one piece covers the way that braking takes after the reaction; a piece that
/// is as long as the speed takes one second.
pub proof fn law_pieces_of_a_stop(
    tr: Trig,
    v: Double,
    w: Double,
    decel: Double,
    reaction: Double,
    stop: Stop,
    p: Spot,
    s: Double,
)
    requires
        v.square().over(Double::of(2).times(decel)).plus(reaction).finite(),
        stop.ds == speed_left(
            stop.v,
            stop.decel,
            s.minus(stop.reaction).max(Double::zero()),
        ).max(slowest()),
        stop.ds.finite(),
    ensures
        Stop::plan(v, w, decel, reaction).n == 1 ==> Stop::plan(v, w, decel, reaction).ds
            == v.square().over(Double::of(2).times(decel)).plus(reaction),
        stop.next(tr, p, s).t == p.t.plus(Double::one()),
{
    lemma_one_piece(v.square().over(Double::of(2).times(decel)).plus(reaction));
    Double::lemma_ratio_number(5, 100);
    stop.ds.lemma_over_itself();
}

proof fn lemma_one_piece(d: Double)
    requires
        d.finite(),
    ensures
        d.over(Double::of(1)) == d,
{
    let bits: nat = 0x3ff0_0000_0000_0000;
    Double::lemma_one();
    assert(Double::one().units() == decode(bits));
    assert(1nat * pow2(1074) == pow2(1074));
    Double::lemma_of_exact(1, 0x3ff0_0000_0000_0000);
    d.lemma_over_one();
}

/// Over one second the robot is checked as often as its way at its speed asks for; a
/// horizon of one step is one step; a reverse in one piece is driven whole.
pub proof fn law_steps_and_pieces(q: Query, v: Double, dist: Double)
    requires
        v.finite() && dist.finite(),
        q.config.sim_time == q.config.sim_dt && q.config.sim_dt.positive(),
    ensures
        substeps_for(v, Double::one()) == pieces(v.abs(), check_spacing()),
        q.sim_steps() == 1,
        sweep(dist).0 == 1 ==> sweep(dist).1 == dist,
{
    v.abs().lemma_times_one();
    q.config.sim_dt.lemma_over_itself();
    let one = Double::one();
    Double::lemma_one();
    lemma_pow2_pos(1074);
    let (p, n) = (pow2(1074) as int, one.floor_count() as int);
    assert(one.whole() == 1) by {
        assert(p / p == 1) by (nonlinear_arith)
            requires
                p > 0,
        ;
    }
    one.law_counts();
    assert(n == 1) by (nonlinear_arith)
        requires
            n * p <= p < n * p + p,
            p > 0,
    ;
    lemma_one_piece(dist);
}

/// Time passes along a stop.
pub proof fn law_time_passes(stop: Stop, tr: Trig, p: Spot, s: Double)
    requires
        p.t.finite(),
        stop.ds.nonnegative(),
        !speed_left(stop.v, stop.decel, s.minus(stop.reaction).max(Double::zero())).infinite(),
    ensures
        p.t.le(stop.next(tr, p, s).t),
{
    Double::lemma_ratio_number(5, 100);
    let speed = speed_left(
        stop.v,
        stop.decel,
        s.minus(stop.reaction).max(Double::zero()),
    ).max(slowest());
    Double::lemma_over_monotone(stop.ds, stop.ds, speed);
    p.t.lemma_plus_grows(stop.ds.over(speed));
}

/// One more waypoint lengthens the way that is left by its distance from the last, as long
/// as it is not the nearest one.
pub proof fn law_way_left_adds_up(run: Seq<PathWaypoint>, w: PathWaypoint, x: Double, y: Double)
    requires
        run.len() > 0,
        nearest(run.push(w), x, y) == nearest(run, x, y),
        0 <= nearest(run, x, y) < run.len(),
    ensures
        remaining(run.push(w), x, y) == remaining(run, x, y).plus(
            distance(run.last().x, run.last().y, w.x, w.y),
        ),
{
    let k = nearest(run, x, y);
    lemma_length(run, w, k, distance(x, y, run[k].x, run[k].y));
}

proof fn lemma_length(run: Seq<PathWaypoint>, w: PathWaypoint, i: int, d: Double)
    requires
        0 <= i < run.len(),
    ensures
        length_from(run.push(w), i, d) == length_from(run, i, d).plus(
            distance(run.last().x, run.last().y, w.x, w.y),
        ),
    decreases run.len() - i,
{
    let e = distance(run[i].x, run[i].y, run.push(w)[i + 1].x, run.push(w)[i + 1].y);
    if i + 1 < run.len() {
        lemma_length(run, w, i + 1, d.plus(e));
    } else {
        assert(length_from(run.push(w), i + 1, d.plus(e)) == d.plus(e));
    }
}

/// The way that is left from the last waypoint, where no other is nearer, is the distance
/// to it.
pub proof fn law_way_left_ends(run: Seq<PathWaypoint>, x: Double, y: Double)
    requires
        run.len() > 0,
        nearest(run, x, y) == run.len() - 1,
    ensures
        remaining(run, x, y) == distance(x, y, run.last().x, run.last().y),
{
}

/// The turn back that is checked behind the robot bends to the side of its yaw rate.
pub proof fn law_backing_bends_with_the_rate(
    tr: Trig,
    state: RobotState,
    obstacles: Seq<Obstacle>,
    g: RearMargins,
    reverse_dist: Double,
    speed: Double,
    rates: Seq<Double>,
    i: int,
)
    requires
        0 <= i < rates.len(),
        rates[i].finite(),
        speed.positive(),
    ensures
        exists|kappa: Double|
            rate_blocker(tr, state, obstacles, g, reverse_dist, speed, rates, i)
                == #[trigger] blocker_of(tr, state, obstacles, g, reverse_dist, kappa) && (
            rates[i].key() >= 0 ==> kappa.key() >= 0) && (rates[i].key() <= 0 ==> kappa.key()
                <= 0) && !kappa.nan() && (rates[i] == speed ==> kappa == Double::one()),
{
    let kappa = rates[i].over(speed);
    rates[i].lemma_over_side(speed);
    if rates[i] == speed {
        speed.lemma_over_itself();
    }
    assert(rate_blocker(tr, state, obstacles, g, reverse_dist, speed, rates, i) == blocker_of(
        tr,
        state,
        obstacles,
        g,
        reverse_dist,
        kappa,
    ));
}

/// Behind the robot more room is asked for the larger the robot, the wider the margin and
/// the faster the obstacle, but never more than there is now.
pub proof fn law_room_behind(
    tr: Trig,
    state: RobotState,
    obs: Obstacle,
    g: RearMargins,
    more: RearMargins,
)
    requires
        g.robot_radius.nonnegative() && g.margin.nonnegative() && g.moving_gain.nonnegative(),
        more.robot_radius.nonnegative() && more.margin.nonnegative(),
        more.moving_gain.nonnegative(),
        g.robot_radius.le(more.robot_radius) && g.margin.le(more.margin),
        g.moving_gain.le(more.moving_gain),
        obs.speed().finite() && !obs.speed().negative(),
        !obs.surface_distance(tr, state.x, state.y, Double::zero()).nan(),
    ensures
        ({
            let now = obs.surface_distance(tr, state.x, state.y, Double::zero());
            let a = rear_allowance(tr, state, obs, g);
            &&& a.le(rear_allowance(tr, state, obs, more))
            &&& a.le(now)
            &&& now.le(g.robot_radius) ==> alike(a, now)
        }),
{
    let v = obs.speed();
    v.lemma_times_monotone(g.moving_gain, more.moving_gain);
    v.lemma_times_commutes(g.moving_gain);
    v.lemma_times_commutes(more.moving_gain);
    let (a, b) = (g.robot_radius.plus(g.margin), more.robot_radius.plus(more.margin));
    let (c, d) = (g.moving_gain.times(v), more.moving_gain.times(v));
    g.robot_radius.lemma_plus_nonnegative(g.margin);
    more.robot_radius.lemma_plus_nonnegative(more.margin);
    a.lemma_plus_nonnegative(c);
    b.lemma_plus_nonnegative(d);
    Double::lemma_plus_monotone(g.robot_radius, more.robot_radius, g.margin, more.margin);
    Double::lemma_plus_monotone(a, b, c, d);
    g.robot_radius.lemma_plus_grows(g.margin);
    if a.finite() {
        a.lemma_plus_grows(c);
    } else {
        reveal(Double::spec_plus);
    }
}

/// In a recovery the margin shrinks with its scale: at one it is the usual one.
pub proof fn law_relaxed_margin(p: DwaPlanner, q: DwaPlanner)
    requires
        p.config.robot_radius == q.config.robot_radius && p.config.robot_radius.finite(),
        p.config.recovery_margin_scale.nonnegative(),
        q.config.recovery_margin_scale.nonnegative(),
        p.config.recovery_margin_scale.le(q.config.recovery_margin_scale),
        p.config.robot_radius.minus(robot_footprint_radius()).finite(),
    ensures
        p.relaxed().le(q.relaxed()),
        q.config.recovery_margin_scale == Double::one() ==> q.relaxed()
            == robot_footprint_radius().plus(
            q.config.robot_radius.minus(robot_footprint_radius()).max(Double::zero()),
        ),
        p.config.recovery_margin_scale.mag() == 0 ==> alike(
            p.relaxed(),
            robot_footprint_radius(),
        ),
{
    let fp = robot_footprint_radius();
    Double::lemma_ratio_number(19, 100);
    let m = p.config.robot_radius.minus(fp).max(Double::zero());
    let (a, b) = (p.config.recovery_margin_scale, q.config.recovery_margin_scale);
    m.lemma_times_monotone(a, b);
    fp.lemma_plus_nonnegative(m.times(a));
    fp.lemma_plus_nonnegative(m.times(b));
    Double::lemma_plus_monotone(fp, fp, m.times(a), m.times(b));
    m.lemma_times_one();
    if a.mag() == 0 {
        m.lemma_times_zero(a);
        fp.lemma_plus_nothing(m.times(a));
    }
}

/// Two waypoints bend tightly at a lower limit if they do at a higher one, and the more so
/// the farther their headings are apart; with one heading they do not bend.
pub proof fn law_tight_bends(
    a: PathWaypoint,
    b: PathWaypoint,
    c: PathWaypoint,
    limit: Double,
    lower: Double,
)
    requires
        c.x == b.x && c.y == b.y,
        a.theta.finite() && b.theta.finite() && c.theta.finite(),
        b.theta.minus(a.theta).mag() <= c.theta.minus(a.theta).mag(),
        c.theta.minus(a.theta).finite(),
        distance(a.x, a.y, b.x, b.y).finite(),
        !limit.nan() && lower.le(limit),
    ensures
        tight_between(a, b, limit) ==> tight_between(a, c, lower),
        b.theta == a.theta && Double::zero().le(limit) ==> !tight_between(a, b, limit),
{
    let d = distance(a.x, a.y, b.x, b.y);
    let (x, y) = (b.theta.minus(a.theta).abs(), c.theta.minus(a.theta).abs());
    Double::lemma_ratio_number(1, 100);
    if Double::ratio(1, 100).lt(d) {
        Double::lemma_over_monotone(x, y, d);
        if b.theta == a.theta {
            a.theta.lemma_taken_away();
            x.lemma_over_side(d);
        }
    }
}

/// The tracker drives where it has a plan, which it never has for a way that leads back.
/// Next comes the pursuit. Where that declines on a way that leads forward, a tight bend
/// is the optimiser's and the rest is the window's.
pub proof fn law_who_drives<'a>(
    p: LocalPlanner,
    tr: Trig,
    state: RobotState,
    path: &'a [PathWaypoint],
    obstacles: &'a [Obstacle],
    desired: Double,
)
    requires
        path@.len() > 0,
    ensures
        ({
            let followed = p.followed_plan(tr, state, path, obstacles, desired);
            let says = p.pursuit_says(tr, state, path@, obstacles, desired);
            let (plan, reason) = p.next_plan(tr, state, path, obstacles, desired);
            let tight = bends_tightly(path@, p.config.mpc_trigger_curvature);
            let back = first_run(path@).1 == SegmentDir::Reverse;
            &&& back ==> followed is None
            &&& followed matches Some(f) ==> plan.command == f.0 && plan.executor
                == Executor::Mpc && reason is None
            &&& followed is None && says is Ok ==> plan.command == says->Ok_0.command
                && plan.planned_maneuver == says->Ok_0.maneuver && plan.executor
                == Executor::Pursuit && reason is None
            &&& followed is None && says is Err && !back ==> plan.executor == (if tight {
                Executor::Mpc
            } else {
                Executor::Dwa
            }) && !plan.planned_maneuver
        }),
{
    reveal(LocalPlanner::followed_plan);
}

} // verus!
