//! How the speeds and reaches of the pursuit follow bends, room and rest.
use crate::global_planner::smoother::menger_curvature;
use crate::global_planner::{PathWaypoint, SegmentDir};
use crate::ieee::algebra::alike;
use crate::ieee::double::Double;
use crate::local_planner::arc::cycle;
use crate::local_planner::motion::RobotState;
use crate::local_planner::pursuit::{
    against, curvature_scaled_lookahead, cusp_stop_speed, lookahead_distance, moving, negligible,
    speed_step, tolerance, Chase, ProfileScan, PursuitConfig, PursuitPlanner, Sight,
};
use crate::local_planner::run::cusp_arrival;
use crate::local_planner::tracking_mpc::Reference;
use crate::trig::{bearing, tangent, Trig};
use vstd::prelude::*;

verus! {

/// The speed of a turn whose lateral acceleration is `a`.
spec fn turning(a: Double, kappa: Double) -> Double {
    a.over(kappa).sqrt()
}

/// The sharper a bend, the slower it is taken.
proof fn lemma_turning(a: Double, k: Double, sharper: Double)
    requires
        a.nonnegative(),
        k.positive() && sharper.positive(),
        k.le(sharper),
    ensures
        turning(a, sharper).le(turning(a, k)),
        Double::zero().le(turning(a, sharper)),
{
    a.lemma_over_falls(k, sharper);
    Double::lemma_sqrt_monotone(a.over(sharper), a.over(k));
}

/// The speed on a leg never exceeds what is asked for or what the path ahead allows. It
/// falls as the curvature grows, to either side alike.
pub proof fn law_turns_are_taken_slower(
    p: PursuitPlanner,
    leg: Double,
    kappa: Double,
    sharper: Double,
    cap: Double,
)
    requires
        p.config.a_lat_max.nonnegative() && !p.config.v_turn_min.nan(),
        kappa.finite() && sharper.finite(),
        kappa.mag() <= sharper.mag(),
        !leg.nan() && !cap.nan(),
    ensures
        p.bounded(leg, sharper, cap).le(p.bounded(leg, kappa, cap)),
        p.bounded(leg, kappa, cap).le(leg) && p.bounded(leg, kappa, cap).le(cap),
        p.bounded(leg, kappa.negate(), cap) == p.bounded(leg, kappa, cap),
        leg.min(p.config.v_turn_min).min(cap).le(p.bounded(leg, kappa, cap)),
{
    Double::lemma_ratio_number(1, 1_000_000_000);
    kappa.lemma_negate();
    let (a, b) = (kappa.abs(), sharper.abs());
    if tolerance().lt(a) {
        lemma_turning(p.config.a_lat_max, a, b);
        lemma_turning(p.config.a_lat_max, a, a);
    }
    if tolerance().lt(b) {
        lemma_turning(p.config.a_lat_max, b, b);
    }
}

/// The reference of the tracker is slower in a sharper bend.
pub proof fn law_reference_slows_in_bends(r: Reference, i: int, s: Reference, j: int)
    requires
        0 < i < r.run@.len() - 1 && 0 < j < s.run@.len() - 1,
        r.a_lat_max == s.a_lat_max && r.leg_speed == s.leg_speed,
        r.a_lat_max.nonnegative() && !r.leg_speed.nan(),
        ({
            let (a, b, c) = (r.run@[i - 1], r.run@[i], r.run@[i + 1]);
            let (d, e, f) = (s.run@[j - 1], s.run@[j], s.run@[j + 1]);
            let k = menger_curvature((a.x, a.y), (b.x, b.y), (c.x, c.y));
            let l = menger_curvature((d.x, d.y), (e.x, e.y), (f.x, f.y));
            k.finite() && l.finite() && k.mag() <= l.mag()
        }),
    ensures
        s.bend_speed(j).le(r.bend_speed(i)),
        r.bend_speed(i).le(r.leg_speed),
{
    let (a, b, c) = (r.run@[i - 1], r.run@[i], r.run@[i + 1]);
    let (d, e, f) = (s.run@[j - 1], s.run@[j], s.run@[j + 1]);
    let k = menger_curvature((a.x, a.y), (b.x, b.y), (c.x, c.y)).abs();
    let l = menger_curvature((d.x, d.y), (e.x, e.y), (f.x, f.y)).abs();
    Double::lemma_ratio_number(1, 1_000_000);
    Double::lemma_ratio_number(2, 10);
    if negligible().lt(k) {
        lemma_turning(r.a_lat_max, k, l);
        lemma_turning(r.a_lat_max, k, k);
    }
    if negligible().lt(l) {
        lemma_turning(r.a_lat_max, l, l);
    }
}

/// A bend ahead asks for less speed the sharper it is, the nearer it is, and the faster
/// the robot goes before it brakes.
pub proof fn law_bends_ahead(
    p: PursuitPlanner,
    leg: Double,
    kappa: Double,
    arc: Double,
    v: Double,
    sharper: Double,
    nearer: Double,
    faster: Double,
)
    requires
        p.config.a_lat_max.nonnegative() && p.config.v_turn_min.nonnegative(),
        p.dwa.max_deceleration.nonnegative(),
        Double::of(2).times(p.dwa.max_deceleration).finite(),
        leg.nonnegative(),
        kappa.nonnegative() && sharper.nonnegative() && kappa.le(sharper),
        nearer.nonnegative() && arc.nonnegative() && nearer.le(arc),
        v.nonnegative() && faster.nonnegative() && v.le(faster),
    ensures
        p.bend_speed(sharper, nearer, leg, faster).le(p.bend_speed(kappa, arc, leg, v)),
{
    let tiny = negligible();
    Double::lemma_ratio_number(1, 1_000_000);
    Double::lemma_ratio_number(1, 10);
    Double::lemma_ratio_le_one(1, 10);
    Double::lemma_of(2);
    let (k, l) = (kappa.max(tiny), sharper.max(tiny));
    lemma_turning(p.config.a_lat_max, k, l);
    lemma_turning(p.config.a_lat_max, k, k);
    let turn = p.config.v_turn_min;
    let a = turning(p.config.a_lat_max, l).max(turn).min(leg);
    let b = turning(p.config.a_lat_max, k).max(turn).min(leg);
    a.lemma_times_monotone(a, b);
    b.lemma_times_monotone(a, b);
    a.lemma_times_commutes(b);
    assert(a.square().le(b.square()));
    v.lemma_times_commutes(cycle());
    faster.lemma_times_commutes(cycle());
    cycle().lemma_times_monotone(v, faster);
    v.lemma_times_within(cycle());
    faster.lemma_times_within(cycle());
    let (c, d) = (v.times(cycle()), faster.times(cycle()));
    arc.lemma_minus(c);
    nearer.lemma_minus(d);
    arc.lemma_minus_shrinks(c);
    nearer.lemma_minus_shrinks(d);
    Double::lemma_minus_monotone(nearer, arc, d, c);
    let z = Double::zero();
    let (s, t) = (nearer.minus(d).max(z), arc.minus(c).max(z));
    let brake = Double::of(2).times(p.dwa.max_deceleration);
    Double::of(2).lemma_times_monotone(p.dwa.max_deceleration, p.dwa.max_deceleration);
    brake.lemma_times_monotone(s, t);
    a.square().lemma_plus_nonnegative(brake.times(s));
    b.square().lemma_plus_nonnegative(brake.times(t));
    Double::lemma_plus_monotone(a.square(), b.square(), brake.times(s), brake.times(t));
    Double::lemma_sqrt_monotone(
        a.square().plus(brake.times(s)),
        b.square().plus(brake.times(t)),
    );
}

/// Before a change of direction the speed falls with the way that is left, to a standstill
/// where the change counts as reached.
pub proof fn law_stops_in_time(p: PursuitPlanner, left: Double, less: Double)
    requires
        p.dwa.max_deceleration.nonnegative(),
        Double::of(2).times(p.dwa.max_deceleration).finite(),
        left.nonnegative() && less.nonnegative() && less.le(left),
    ensures
        p.stop_speed(less).le(p.stop_speed(left)),
        Double::zero().le(p.stop_speed(less)),
        left.le(Double::half().times(cusp_arrival())) ==> p.stop_speed(left).key() == 0,
{
    let z = Double::zero();
    let gap = Double::half().times(cusp_arrival());
    Double::lemma_ratio_number(12, 100);
    Double::lemma_of(2);
    Double::lemma_ratio_le_one(12, 100);
    Double::half().lemma_times_shrinks(cusp_arrival());
    left.lemma_minus(gap);
    less.lemma_minus(gap);
    left.lemma_minus_shrinks(gap);
    less.lemma_minus_shrinks(gap);
    Double::lemma_minus_monotone(less, left, gap, gap);
    let (s, t) = (less.minus(gap).max(z), left.minus(gap).max(z));
    let brake = Double::of(2).times(p.dwa.max_deceleration);
    Double::of(2).lemma_times_monotone(p.dwa.max_deceleration, p.dwa.max_deceleration);
    brake.lemma_times_monotone(s, t);
    Double::lemma_sqrt_monotone(brake.times(s), brake.times(t));
    if left.le(gap) {
        gap.lemma_taken_away();
        Double::lemma_minus_monotone(left, gap, gap, gap);
        brake.lemma_times_zero(t);
        brake.times(t).lemma_root_of_nothing();
    }
}

impl Double {
    pub proof fn lemma_taken_away(self)
        requires
            self.finite(),
        ensures
            self.minus(self).mag() == 0 && !self.minus(self).nan(),
    {
        reveal(Double::spec_plus);
        self.lemma_negate();
    }

    proof fn lemma_root_of_nothing(self)
        requires
            self.mag() == 0,
        ensures
            self.sqrt() == self,
    {
        reveal(Double::spec_sqrt);
    }
}

/// The faster the robot goes, forward or back, the farther it looks ahead.
pub proof fn law_lookahead_grows_with_speed(c: PursuitConfig, v: Double, faster: Double)
    requires
        c.valid(),
        v.finite() && faster.finite(),
        v.mag() <= faster.mag(),
    ensures
        lookahead_distance(v, &c).le(lookahead_distance(faster, &c)),
        lookahead_distance(v.negate(), &c) == lookahead_distance(v, &c),
{
    v.lemma_negate();
    c.k_v.lemma_times_monotone(v.abs(), faster.abs());
}

/// The lookahead shortens as the path bends more, to either side alike, and as the target
/// is seen farther off the heading.
pub proof fn law_lookahead_shortens(
    p: PursuitPlanner,
    l: Double,
    a: Double,
    more: Double,
    least: Double,
)
    requires
        l.positive(),
        p.config.curvature_lookahead_gain.nonnegative(),
        p.config.heading_error_lookahead_gain.nonnegative(),
        a.finite() && more.finite() && a.mag() <= more.mag(),
        p.config.curvature_lookahead_gain.times(more.abs()).finite(),
        Double::one().plus(
            p.config.curvature_lookahead_gain.times(more.abs()).times(l),
        ).finite(),
        Double::one().plus(p.config.heading_error_lookahead_gain.times(more.abs())).finite(),
    ensures
        ({
            let gain = p.config.curvature_lookahead_gain;
            &&& curvature_scaled_lookahead(l, more, gain, least).le(
                curvature_scaled_lookahead(l, a, gain, least),
            )
            &&& curvature_scaled_lookahead(l, a.negate(), gain, least)
                == curvature_scaled_lookahead(l, a, gain, least)
            &&& p.nearer(l, more).le(p.nearer(l, a))
            &&& p.nearer(l, a.negate()) == p.nearer(l, a)
        }),
{
    a.lemma_negate();
    let one = Double::one();
    let (g, h) = (p.config.curvature_lookahead_gain, p.config.heading_error_lookahead_gain);
    let (x, y) = (a.abs(), more.abs());
    g.lemma_times_monotone(x, y);
    h.lemma_times_monotone(x, y);
    let (s, t) = (g.times(x), g.times(y));
    l.lemma_times_monotone(s, t);
    l.lemma_times_commutes(s);
    l.lemma_times_commutes(t);
    lemma_longer(one, s.times(l), t.times(l));
    lemma_longer(one, h.times(x), h.times(y));
    l.lemma_over_falls(one.plus(s.times(l)), one.plus(t.times(l)));
    l.lemma_over_falls(one.plus(h.times(x)), one.plus(h.times(y)));
}

proof fn lemma_longer(one: Double, a: Double, b: Double)
    requires
        one == Double::one(),
        Double::zero().le(a) && a.le(b),
        one.plus(b).finite(),
    ensures
        one.plus(a).le(one.plus(b)),
        one.plus(a).positive() && one.plus(b).positive(),
{
    one.lemma_plus_grows(a);
    one.lemma_plus_grows(b);
    Double::lemma_plus_monotone(one, one, a, b);
}

/// The more room the worst obstacle leaves, the more confident is the command.
pub proof fn law_room_gives_confidence(c: Chase, v: Double, worst: Double, wider: Double)
    requires
        worst.finite() && wider.finite(),
        worst.le(wider),
    ensures
        c.command(v, worst).command.confidence.le(c.command(v, wider).command.confidence),
        worst.le(Double::zero()) ==> c.command(v, worst).command.confidence.le(
            Double::ratio(6, 10).narrow(),
        ),
{
    let (floor, top) = (Double::ratio(6, 10), Double::ratio(9, 10));
    let unit = Double::ratio(3, 10);
    Double::lemma_ratio_number(6, 10);
    Double::lemma_ratio_number(9, 10);
    Double::lemma_ratio_number(3, 10);
    Double::lemma_over_order(worst, wider, unit);
    worst.lemma_over_side(unit);
    wider.lemma_over_side(unit);
    let (z, one) = (Double::zero(), Double::one());
    let (s, t) = (worst.over(unit).clamp(z, one), wider.over(unit).clamp(z, one));
    let span = top.minus(floor);
    lemma_span();
    span.lemma_times_monotone(s, t);
    let (a, b) = (span.times(s), span.times(t));
    floor.lemma_plus_nonnegative(a);
    floor.lemma_plus_nonnegative(b);
    Double::lemma_plus_monotone(floor, floor, a, b);
    Double::lemma_narrow_monotone(floor.plus(a), floor.plus(b));
    if worst.le(z) {
        span.lemma_times_zero(s);
        floor.lemma_plus_nothing(a);
        Double::lemma_narrow_monotone(floor.plus(a), floor);
    }
}

proof fn lemma_span()
    ensures
        Double::ratio(9, 10).minus(Double::ratio(6, 10)).nonnegative(),
{
    let (floor, top) = (Double::ratio(6, 10), Double::ratio(9, 10));
    Double::lemma_of(6);
    Double::lemma_of(9);
    Double::lemma_of(10);
    Double::lemma_of_order(6, 9);
    Double::lemma_over_monotone(Double::of(6), Double::of(9), Double::of(10));
    Double::lemma_ratio_number(6, 10);
    Double::lemma_ratio_number(9, 10);
    top.lemma_minus(floor);
    top.lemma_minus_shrinks(floor);
    floor.lemma_taken_away();
    Double::lemma_minus_monotone(floor, top, floor, floor);
}

/// The robot goes against a leg where it drives, or was told to drive, the other way: back
/// on a leg that leads forward, and forward on one that leads back. What it was told to
/// drive the leg's way is where its speed starts from.
pub proof fn law_against(p: PursuitPlanner, s: RobotState, prev: Double)
    requires
        s.linear_vel.finite() && prev.finite(),
    ensures
        against(SegmentDir::Forward, s, prev) <==> prev.lt(negligible().negate())
            || s.linear_vel.lt(cusp_stop_speed().negate()),
        against(SegmentDir::Reverse, s, prev) <==> negligible().lt(prev) || cusp_stop_speed().lt(
            s.linear_vel,
        ),
        alike(p.prev_travel(SegmentDir::Forward, prev), prev.max(Double::zero())),
        alike(p.prev_travel(SegmentDir::Reverse, prev), prev.negate().max(Double::zero())),
{
    let v = s.linear_vel;
    let one = Double::one();
    Double::lemma_ratio_number(1, 1_000_000);
    Double::lemma_ratio_number(5, 100);
    negligible().lemma_negate();
    cusp_stop_speed().lemma_negate();
    v.lemma_negate();
    prev.lemma_negate();
    v.lemma_times_one();
    prev.lemma_times_one();
    one.lemma_times_negate(v);
    one.lemma_times_negate(prev);
}

/// The robot moves where it drives, or was told to drive, faster than at a stop, forward or
/// back alike.
pub proof fn law_moving(s: RobotState, prev: Double, other: RobotState)
    requires
        other.linear_vel == s.linear_vel.negate(),
        !s.linear_vel.nan() && !prev.nan(),
    ensures
        moving(other, prev.negate()) == moving(s, prev),
        cusp_stop_speed().lt(s.linear_vel) || cusp_stop_speed().lt(prev) ==> moving(s, prev),
        s.linear_vel.mag() == 0 && prev.mag() == 0 ==> !moving(s, prev),
{
    Double::lemma_ratio_number(5, 100);
    s.linear_vel.lemma_negate();
    prev.lemma_negate();
}

/// Each step down the ladder asks for no more speed than the one before it.
pub proof fn law_ladder_goes_down(speed: Double, i: u64, j: u64)
    requires
        speed.nonnegative(),
        i <= j <= 3,
    ensures
        speed_step(speed, j).le(speed_step(speed, i)),
        speed_step(speed, i).le(speed),
        speed_step(speed, 0) == speed,
{
    speed.lemma_times_one();
    let one = Double::one();
    Double::lemma_ratio_number(8, 10);
    Double::lemma_ratio_number(6, 10);
    Double::lemma_ratio_number(4, 10);
    Double::lemma_ratio_le_one(8, 10);
    Double::lemma_of(4);
    Double::lemma_of(6);
    Double::lemma_of(8);
    Double::lemma_of(10);
    Double::lemma_of_order(4, 6);
    Double::lemma_of_order(6, 8);
    Double::lemma_over_monotone(Double::of(4), Double::of(6), Double::of(10));
    Double::lemma_over_monotone(Double::of(6), Double::of(8), Double::of(10));
    let (a, b, c) = (Double::ratio(4, 10), Double::ratio(6, 10), Double::ratio(8, 10));
    speed.lemma_times_monotone(a, b);
    speed.lemma_times_monotone(b, c);
    speed.lemma_times_monotone(c, one);
}

/// The path is looked along for three metres at least, for the way that braking takes, and
/// farther the faster the robot goes.
pub proof fn law_bend_horizon(p: PursuitPlanner, v: Double, faster: Double)
    requires
        p.dwa.max_deceleration.positive(),
        Double::of(2).times(p.dwa.max_deceleration).positive(),
        v.finite() && faster.finite() && v.mag() <= faster.mag(),
        faster.square().finite(),
        faster.square().over(Double::of(2).times(p.dwa.max_deceleration)).finite(),
    ensures
        Double::of(3).le(p.bend_horizon(v)),
        p.bend_horizon(v).le(p.bend_horizon(faster)),
        v.square().over(Double::of(2).times(p.dwa.max_deceleration)).le(p.bend_horizon(v)),
{
    let b = Double::of(2).times(p.dwa.max_deceleration);
    Double::lemma_of(3);
    let (x, y) = (v.abs(), faster.abs());
    v.lemma_square_opposite(x);
    faster.lemma_square_opposite(y);
    x.lemma_times_monotone(x, y);
    y.lemma_times_monotone(x, y);
    x.lemma_times_commutes(y);
    Double::lemma_over_monotone(v.square(), faster.square(), b);
    let (s, t, h) = (v.square().over(b), faster.square().over(b), Double::half());
    s.lemma_plus_grows(h);
    s.lemma_plus(h);
    t.lemma_plus(h);
    Double::lemma_plus_monotone(s, t, h, h);
}

/// Of the bends within the lookahead the sharpest is noted, and none beyond it.
pub proof fn law_sharpest_bend_is_noted(
    p: PursuitPlanner,
    scan: ProfileScan,
    kappa: Double,
    arc: Double,
    leg: Double,
    v: Double,
    l_base: Double,
)
    requires
        !scan.kappa_max_ahead.nan() && !kappa.nan() && !arc.nan() && !l_base.nan(),
    ensures
        ({
            let next = p.noted(scan, kappa, arc, leg, v, l_base);
            &&& scan.kappa_max_ahead.le(next.kappa_max_ahead)
            &&& arc.le(l_base) ==> kappa.le(next.kappa_max_ahead)
            &&& l_base.lt(arc) ==> next.kappa_max_ahead == scan.kappa_max_ahead
            &&& p.bend_horizon(v).lt(arc) ==> next.speed_cap == scan.speed_cap
        }),
{
}

/// A bend is never negative: turned wheels to either side are a bend alike.
pub proof fn law_bends_have_no_side(
    p: PursuitPlanner,
    tr: Trig,
    run: Seq<PathWaypoint>,
    i: int,
)
    requires
        0 <= i < run.len(),
    ensures
        !p.bend(tr, run, i).negative(),
        negligible().lt(run[i].steering.abs()) && tangent(tr, run[i].steering).finite()
            && p.wheelbase.positive() ==> p.bend(tr, run, i).mag() == tangent(
            tr,
            run[i].steering,
        ).over(p.wheelbase).mag(),
{
}

/// The target is looked for anew, nearer by, where it is seen well to either side of the
/// heading and a nearer one lies ahead; otherwise it stays.
pub proof fn law_refined_target(
    p: PursuitPlanner,
    tr: Trig,
    s: RobotState,
    run: Seq<PathWaypoint>,
    terminal: bool,
    lookahead: Double,
    first: Sight,
)
    requires
        !bearing(tr, first.ly, first.lx).nan(),
    ensures
        ({
            let alpha = bearing(tr, first.ly, first.lx);
            let wide = Double::ratio(1, 10).lt(alpha) || alpha.lt(Double::ratio(1, 10).negate());
            let l = p.nearer(lookahead, alpha);
            let again = p.target(run, s.x, s.y, terminal, l);
            let out = p.refined(tr, s, run, terminal, lookahead, first);
            &&& !wide || first.chord.le(l) || again is None ==> out == first
            &&& out != first ==> again is Some && out.chord == (again->0).1 && Double::zero().lt(
                out.lx,
            )
            &&& wide && l.lt(first.chord) && again is Some && Double::zero().lt(
                p.config.heading_error_lookahead_gain,
            ) && Double::zero().lt(p.sight(tr, s, again->0).lx) ==> out == p.sight(
                tr,
                s,
                again->0,
            )
        }),
{
    Double::lemma_ratio_number(1, 10);
    Double::ratio(1, 10).lemma_negate();
}

} // verus!
