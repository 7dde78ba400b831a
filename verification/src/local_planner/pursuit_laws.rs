//! Laws of the pursuit.
use crate::geometry::distance;
use crate::global_planner::{PathWaypoint, SegmentDir};
use crate::ieee::double::{lemma_decode_zero, lemma_encode_decode, lemma_encode_zero, Double};
use crate::ieee::laws::{lemma_encode_ratio, lemma_rounded_monotone, lemma_rounded_zero};
use crate::local_planner::arc::{cycle, infinity};
use crate::local_planner::motion::RobotState;
use crate::local_planner::obstacle::Obstacle;
use crate::local_planner::pursuit::{
    at_cusp, curvature_scaled_lookahead, driving, leg_of, lookahead_distance, moving, negligible,
    spec_reported, speed_step, tolerance, tried_before, Aim, BlockedStep, Chase, ProfileScan, PursuitCommand, PursuitConfig, PursuitDefer,
    PursuitPlanner, BLOCKED_LOG_INTERVAL_MS, SPEED_STEPS,
};
use crate::trig::Trig;
use vstd::arithmetic::power2::{lemma_pow2_pos, pow2};
use vstd::prelude::*;

verus! {

/// The stop ramp goes straight on, keeps the direction and never speeds up. It
/// takes off what one cycle of braking does, and ends in a standstill.
pub proof fn law_stop_ramp(p: PursuitPlanner, prev: Double)
    requires
        prev.finite(),
        p.dwa.max_deceleration.nonnegative(),
    ensures
        ({
            let c = p.ramp(prev).command;
            let brake = p.dwa.max_deceleration.times(cycle());
            &&& c.angular_z == Double::zero()
            &&& c.linear_x.abs().le(prev.abs())
            &&& c.linear_x.mag() == 0 || c.linear_x.negative() == prev.negative()
            &&& c.linear_x.abs().same(prev.abs().minus(brake).max(Double::zero()))
            &&& prev.abs().le(brake) ==> c.linear_x.same(Double::zero())
            &&& p.ramp(prev).maneuver
        }),
{
    let brake = p.dwa.max_deceleration.times(cycle());
    Double::lemma_ratio_le_one(1, 10);
    p.dwa.max_deceleration.lemma_times_within(cycle());
    let a = prev.abs();
    a.lemma_minus(brake);
    a.lemma_minus_shrinks(brake);
    let slower = a.minus(brake).max(Double::zero());
    assert(slower.nonnegative() && slower.le(a));
    prev.signum().lemma_times_sign(slower);
    if a.le(brake) {
        a.lemma_order(brake);
        lemma_rounded_monotone(a.value() - brake.value(), 0);
        lemma_rounded_zero();
    }
    assert(slower.negative() ==> slower.mag() == 0);
}

/// The lookahead is within its bounds.
pub proof fn law_lookahead_bounds(v: Double, c: PursuitConfig)
    requires
        c.lookahead_min.le(c.lookahead_max),
        !c.k_v.times(v.abs()).nan(),
    ensures
        c.lookahead_min.le(lookahead_distance(v, &c)),
        lookahead_distance(v, &c).le(c.lookahead_max),
{
}

/// A bend ahead only shortens the lookahead, and not below its lower bound.
pub proof fn law_bend_shortens_lookahead(l: Double, kappa: Double, gain: Double, least: Double)
    requires
        l.positive(),
        !least.nan(),
        kappa.finite(),
        gain.nonnegative(),
    ensures
        curvature_scaled_lookahead(l, kappa, gain, least).le(l),
        least.min(l).le(curvature_scaled_lookahead(l, kappa, gain, least)),
{
    let k = kappa.abs();
    assert(k.nonnegative());
    gain.lemma_times_monotone(k, k);
    let g = gain.times(k);
    reveal(Double::spec_times);
    l.lemma_units_positive();
    let h = g.times(l);
    assert(Double::zero().le(h)) by {
        if g.finite() {
            g.lemma_times_monotone(l, l);
        }
    }
    Double::one().lemma_plus_nonnegative(h);
    Double::one().lemma_plus_grows(h);
    let q = Double::one().plus(h);
    reveal(Double::spec_over);
    assert(!l.over(q).nan());
}

/// Without a gain the lookahead stays what the speed makes it.
pub proof fn law_no_gain_keeps_lookahead(l: Double, kappa: Double, least: Double)
    requires
        l.positive(),
        kappa.finite(),
    ensures
        curvature_scaled_lookahead(l, kappa, Double::zero(), least) == l,
{
    let k = kappa.abs();
    let p = pow2(1074);
    lemma_pow2_pos(1074);
    lemma_decode_zero();
    lemma_encode_zero(p);
    reveal(Double::spec_times);
    reveal(Double::spec_plus);
    reveal(Double::spec_over);
    assert(0 * k.units() == 0 && 0 * l.units() == 0) by (nonlinear_arith);
    assert(Double::zero().times(k) == Double::zero());
    assert(Double::zero().times(l) == Double::zero());
    Double::lemma_one();
    lemma_encode_decode(Double::one().mag());
    assert(Double::one().plus(Double::zero()) == Double::one());
    let n = l.units();
    assert(1 * p == p) by (nonlinear_arith);
    lemma_encode_ratio(n, 1, p);
    lemma_encode_decode(l.mag());
    assert(l.over(Double::one()) == l);
}

/// The speed on a leg is not above the limit, nor above what is asked for, nor
/// in reverse above the limit for that.
pub proof fn law_leg_speed(p: PursuitPlanner, desired: Double, dir: SegmentDir)
    requires
        p.ready(),
        Double::zero().le(desired),
    ensures
        ({
            let v = p.leg_speed(desired, dir);
            &&& v.le(p.dwa.max_speed)
            &&& v.le(desired)
            &&& dir == SegmentDir::Reverse && !p.config.reverse_speed_cap.nan() ==> v.le(
                p.config.reverse_speed_cap,
            )
        }),
{
}

/// What one cycle reaches lies between a standstill and the speed limit, and
/// not further from the last speed than braking and acceleration go.
pub proof fn law_reach(p: PursuitPlanner, prev: Double)
    requires
        p.ready(),
        prev.nonnegative(),
        p.dwa.max_acceleration.nonnegative(),
        p.dwa.max_deceleration.nonnegative(),
    ensures
        ({
            let (lo, hi) = p.reach(prev);
            &&& Double::zero().le(lo)
            &&& lo.le(hi)
            &&& hi.le(p.dwa.max_speed)
            &&& hi.le(prev.plus(p.dwa.max_acceleration.times(cycle())))
            &&& prev.le(p.dwa.max_speed) ==> prev.minus(
                p.dwa.max_deceleration.times(cycle()),
            ).le(lo) && prev.le(hi)
        }),
{
    Double::lemma_ratio_le_one(1, 10);
    p.dwa.max_acceleration.lemma_times_within(cycle());
    p.dwa.max_deceleration.lemma_times_within(cycle());
    let (up, down) = (
        p.dwa.max_acceleration.times(cycle()),
        p.dwa.max_deceleration.times(cycle()),
    );
    prev.lemma_plus(up);
    prev.lemma_plus_grows(up);
    prev.lemma_minus(down);
    prev.lemma_minus_shrinks(down);
}

/// Of the first `n` obstacles, none has a margin below the least.
pub proof fn law_least_margin(c: Chase, tr: Trig, v_cmd: Double, w: Double, n: int)
    requires
        0 <= n <= c.obstacles@.len(),
    ensures
        ({
            let m = c.least_margin(tr, v_cmd, w, n);
            &&& !m.worst.nan()
            &&& forall|i: int|
                0 <= i < n ==> !c.margin(tr, v_cmd, w, #[trigger] c.obstacles@[i]).lt(m.worst)
            &&& m.binding is None ==> m.worst == infinity()
            &&& m.binding is Some ==> exists|i: int|
                0 <= i < n && m.worst == c.margin(tr, v_cmd, w, #[trigger] c.obstacles@[i])
                    && m.binding->0 == c.step_report(tr, v_cmd, w, c.obstacles@[i])
        }),
    decreases n,
{
    if n > 0 {
        law_least_margin(c, tr, v_cmd, w, n - 1);
        let before = c.least_margin(tr, v_cmd, w, n - 1);
        let m = c.least_margin(tr, v_cmd, w, n);
        if before.binding is Some {
            let i = choose|i: int|
                0 <= i < n - 1 && before.worst == c.margin(
                    tr,
                    v_cmd,
                    w,
                    #[trigger] c.obstacles@[i],
                ) && before.binding->0 == c.step_report(tr, v_cmd, w, c.obstacles@[i]);
            assert(before.worst == c.margin(tr, v_cmd, w, c.obstacles@[i]));
        }
        if m != before {
            assert(m.worst == c.margin(tr, v_cmd, w, c.obstacles@[n - 1]));
        }
    }
}

/// The speed is one that was tried, is within reach and is verified.
pub open spec fn verified_at(c: Chase, tr: Trig, v: Double, r: PursuitCommand) -> bool {
    &&& exists|i: u64| i < SPEED_STEPS && v == #[trigger] c.speed(i)
    &&& !v.le(negligible())
    &&& tolerance().negate().le(c.margin_at(tr, v).worst)
    &&& r == c.command(v, c.margin_at(tr, v).worst)
}

/// A command of the pursuit was verified at its speed. Where there is none, the
/// pursuit is blocked.
pub proof fn law_ladder(
    c: Chase,
    tr: Trig,
    i: u64,
    tried: Seq<Double>,
    last: Option<BlockedStep>,
)
    ensures
        ({
            let r = c.ladder(tr, i, tried, last);
            &&& r is Ok ==> exists|v: Double| #[trigger] verified_at(c, tr, v, r->Ok_0)
            &&& r is Err ==> r->Err_0 is Blocked
        }),
    decreases SPEED_STEPS - i,
{
    let v = c.speed(i);
    let found = c.margin_at(tr, v);
    let r = c.ladder(tr, i, tried, last);
    if i >= SPEED_STEPS {
        assert(r == Err::<PursuitCommand, _>(PursuitDefer::Blocked(last)));
    } else if v.le(negligible()) || tried_before(tried, v) {
        law_ladder(c, tr, (i + 1) as u64, tried, last);
        assert(r == c.ladder(tr, (i + 1) as u64, tried, last));
    } else if tolerance().negate().le(found.worst) {
        assert(verified_at(c, tr, v, c.command(v, found.worst)));
        assert(r == Ok::<_, PursuitDefer>(c.command(v, found.worst)));
        assert(verified_at(c, tr, v, r->Ok_0));
    } else {
        let next = if found.binding is Some {
            found.binding
        } else {
            last
        };
        law_ladder(c, tr, (i + 1) as u64, tried.push(v), next);
        assert(r == c.ladder(tr, (i + 1) as u64, tried.push(v), next));
    }
}

/// A verified command keeps, within the tolerance, what is allowed from every
/// obstacle: from where it is now, over the whole arc and the stop that
/// follows, and from where it will be, until the robot can have stopped.
pub proof fn law_verified_keeps_clear(c: Chase, tr: Trig, v: Double, r: PursuitCommand)
    requires
        verified_at(c, tr, v, r),
        forall|i: int|
            0 <= i < c.obstacles@.len() ==> !c.committed_margin(
                tr,
                r.command.linear_x,
                r.command.angular_z,
                #[trigger] c.obstacles@[i],
            ).nan(),
    ensures
        forall|i: int|
            0 <= i < c.obstacles@.len() ==> !c.static_margin(
                tr,
                r.command.linear_x,
                r.command.angular_z,
                #[trigger] c.obstacles@[i],
            ).lt(tolerance().negate()) && !c.committed_margin(
                tr,
                r.command.linear_x,
                r.command.angular_z,
                c.obstacles@[i],
            ).lt(tolerance().negate()),
{
    law_least_margin(
        c,
        tr,
        r.command.linear_x,
        r.command.angular_z,
        c.obstacles@.len() as int,
    );
}

/// The command is within the limits on yaw rate and curvature: nothing need
/// clamp it into another arc than the one that was verified.
pub proof fn law_command_is_executable(c: Chase, v: Double)
    requires
        c.planner.ready(),
        v.nonnegative(),
        c.planner.dwa.max_curvature.finite(),
        c.planner.dwa.max_angular_speed.finite(),
        c.planner.dwa.max_curvature.negate().le(c.aim.kappa),
        c.aim.kappa.le(c.planner.dwa.max_curvature),
    ensures
        c.yaw(v).abs().le(c.planner.dwa.max_angular_speed),
        c.yaw(v).abs().le(c.planner.dwa.max_curvature.times(v)),
{
    let limit = c.planner.dwa.max_curvature;
    let k = c.aim.kappa;
    let a = k.abs();
    assert(a.nonnegative() && a.le(limit));
    let l = Double::make(false, limit.mag());
    let u = Double::make(false, v.mag());
    lemma_times_commutes(u, a);
    lemma_times_commutes(u, l);
    u.lemma_times_monotone(a, l);
    reveal(Double::spec_times);
    assert(k.times(v).mag() == a.times(u).mag());
    assert(limit.times(v).mag() == l.times(u).mag());
    lemma_decode_zero();
    lemma_pow2_pos(1074);
    lemma_encode_zero(pow2(1074));
    assert(k.units() * 0 == 0 && 0 * v.units() == 0 && limit.units() * 0 == 0)
        by (nonlinear_arith);
    let (x, top) = (k.times(v), limit.times(v));
    assert(!x.nan() && !top.nan() && x.mag() <= top.mag());
    assert(top.key() == top.mag());
    assert(c.yaw(v).mag() <= x.mag());
}

/// A product does not depend on the order of its factors.
proof fn lemma_times_commutes(a: Double, b: Double)
    ensures
        a.times(b) == b.times(a),
{
    reveal(Double::spec_times);
    let (x, y) = (a.units(), b.units());
    assert(x * y == y * x) by (nonlinear_arith);
}

/// The arc to a target is within the limit on curvature.
pub proof fn law_steering_within_limit(
    p: PursuitPlanner,
    tr: Trig,
    s: RobotState,
    run: Seq<PathWaypoint>,
    terminal: bool,
    lookahead: Double,
)
    requires
        p.ready(),
    ensures
        match p.steering(tr, s, run, terminal, lookahead) {
            Ok(k) => k.nan() || (p.dwa.max_curvature.negate().le(k) && k.le(
                p.dwa.max_curvature,
            )),
            Err(e) => e is PathExhausted || e is TargetBehind,
        },
{
}

/// Distance along a run from its `i`-th waypoint, which lies at `arc`, to its
/// `j`-th.
pub open spec fn arc_to(run: Seq<PathWaypoint>, i: int, arc: Double, j: int) -> Double
    decreases j - i,
{
    if j <= i {
        arc
    } else {
        arc_to(run, i, arc, j - 1).plus(
            distance(run[j - 1].x, run[j - 1].y, run[j].x, run[j].y),
        )
    }
}

proof fn lemma_arc_to(run: Seq<PathWaypoint>, i: int, arc: Double, j: int)
    requires
        i < j,
    ensures
        arc_to(run, i, arc, j) == arc_to(
            run,
            i + 1,
            arc.plus(distance(run[i].x, run[i].y, run[i + 1].x, run[i + 1].y)),
            j,
        ),
    decreases j - i,
{
    reveal_with_fuel(arc_to, 2);
    if j > i + 1 {
        lemma_arc_to(run, i, arc, j - 1);
    }
}

/// A scan never raises the speed again.
proof fn lemma_scan_lowers(
    p: PursuitPlanner,
    tr: Trig,
    run: Seq<PathWaypoint>,
    leg_speed: Double,
    v_now: Double,
    l_base: Double,
    i: int,
    arc: Double,
    scan: ProfileScan,
)
    requires
        !scan.speed_cap.nan(),
    ensures
        p.scanned(tr, run, leg_speed, v_now, l_base, i, arc, scan).speed_cap.le(scan.speed_cap),
    decreases run.len() - i,
{
    let next = p.noted(scan, p.bend(tr, run, i), arc, leg_speed, v_now, l_base);
    let ahead = arc.plus(distance(run[i].x, run[i].y, run[i + 1].x, run[i + 1].y));
    if !(i + 1 >= run.len() || p.bend_horizon(v_now).max(l_base).lt(ahead)) {
        lemma_scan_lowers(p, tr, run, leg_speed, v_now, l_base, i + 1, ahead, next);
    }
}

/// The speed that the scan allows is one from which each bend on the way, up to
/// the horizon, can still be met.
pub proof fn law_every_bend_can_be_met(
    p: PursuitPlanner,
    tr: Trig,
    run: Seq<PathWaypoint>,
    leg_speed: Double,
    v_now: Double,
    l_base: Double,
    i: int,
    arc: Double,
    scan: ProfileScan,
    j: int,
)
    requires
        0 <= i <= j < run.len(),
        !scan.speed_cap.nan(),
        forall|k: int|
            i < k <= j ==> !p.bend_horizon(v_now).max(l_base).lt(#[trigger] arc_to(
                run,
                i,
                arc,
                k,
            )),
        arc_to(run, i, arc, j).le(p.bend_horizon(v_now)),
        !p.bend_speed(p.bend(tr, run, j), arc_to(run, i, arc, j), leg_speed, v_now).nan(),
    ensures
        p.scanned(tr, run, leg_speed, v_now, l_base, i, arc, scan).speed_cap.le(
            p.bend_speed(p.bend(tr, run, j), arc_to(run, i, arc, j), leg_speed, v_now),
        ),
    decreases run.len() - i,
{
    let next = p.noted(scan, p.bend(tr, run, i), arc, leg_speed, v_now, l_base);
    let ahead = arc.plus(distance(run[i].x, run[i].y, run[i + 1].x, run[i + 1].y));
    if i == j {
        if !(i + 1 >= run.len() || p.bend_horizon(v_now).max(l_base).lt(ahead)) {
            lemma_scan_lowers(p, tr, run, leg_speed, v_now, l_base, i + 1, ahead, next);
        }
    } else {
        lemma_arc_to(run, i, arc, j);
        lemma_arc_to(run, i, arc, i + 1);
        assert(arc_to(run, i, arc, i + 1) == ahead);
        assert forall|k: int| i + 1 < k <= j implies !p.bend_horizon(v_now).max(l_base).lt(
            #[trigger] arc_to(run, i + 1, ahead, k),
        ) by {
            lemma_arc_to(run, i, arc, k);
            assert(!p.bend_horizon(v_now).max(l_base).lt(arc_to(run, i, arc, k)));
        }
        law_every_bend_can_be_met(
            p,
            tr,
            run,
            leg_speed,
            v_now,
            l_base,
            i + 1,
            ahead,
            next,
            j,
        );
    }
}

/// Near the end of a run with another behind it, and while the robot moves
/// against its run, the pursuit brakes straight to a stop.
pub proof fn law_stops_before_turning(
    p: PursuitPlanner,
    tr: Trig,
    state: RobotState,
    path: Seq<PathWaypoint>,
    obstacles: &[Obstacle],
    desired: Double,
    prev: Double,
)
    requires
        path.len() > 0,
        !desired.le(Double::zero()),
        at_cusp(path, state) && moving(state, prev),
    ensures
        p.pursued(tr, state, path, obstacles, desired, prev) == Ok::<_, PursuitDefer>(
            p.ramp(prev),
        ),
{
}

/// The command goes in the given direction at a speed that one cycle reaches from
/// the last, turns within the limits on yaw rate and curvature, and has a confidence
/// from 0.6 up to what is reached at 0.3 m to spare.
pub open spec fn drives_within(
    p: PursuitPlanner,
    dir: SegmentDir,
    prev: Double,
    c: PursuitCommand,
    v: Double,
) -> bool {
    let from = p.prev_travel(dir, prev);
    let w = c.command.angular_z;
    let (floor, top) = (Double::ratio(6, 10), Double::ratio(9, 10));
    &&& c.command.linear_x == dir.sign().times(v)
    &&& c.maneuver == (dir == SegmentDir::Reverse)
    &&& Double::zero().le(v) && v.le(p.dwa.max_speed)
    &&& v.le(from.plus(p.dwa.max_acceleration.times(cycle())))
    &&& from.minus(p.dwa.max_deceleration.times(cycle())).le(v)
    &&& w.nan() || (w.abs().le(p.dwa.max_angular_speed) && w.abs().le(
        p.dwa.max_curvature.times(v),
    ))
    &&& floor.narrow().le(c.command.confidence)
    &&& c.command.confidence.le(floor.plus(top.minus(floor)).narrow())
}

/// The confidence of a command grows with the room to spare, within its bounds.
proof fn lemma_confidence(c: Chase, v: Double, worst: Double)
    requires
        !worst.nan(),
    ensures
        ({
            let (floor, top) = (Double::ratio(6, 10), Double::ratio(9, 10));
            let given = c.command(v, worst).command.confidence;
            floor.narrow().le(given) && given.le(floor.plus(top.minus(floor)).narrow())
        }),
{
    let (floor, top, one) = (Double::ratio(6, 10), Double::ratio(9, 10), Double::one());
    let third = Double::ratio(3, 10);
    Double::lemma_ratio_le_one(6, 10);
    Double::lemma_ratio_le_one(9, 10);
    Double::lemma_ratio_le_one(3, 10);
    Double::lemma_ratio_positive(3, 10);
    third.lemma_units_positive();
    lemma_ratio_order();
    let share = worst.over(third).clamp(Double::zero(), one);
    assert(!worst.over(third).nan()) by {
        reveal(Double::spec_over);
    }
    assert(share.nonnegative() && share.le(one));
    let span = top.minus(floor);
    top.lemma_minus(floor);
    top.lemma_minus_shrinks(floor);
    floor.lemma_order(top);
    lemma_rounded_zero();
    lemma_rounded_monotone(0, top.value() - floor.value());
    assert(span.nonnegative());
    span.lemma_times_shrinks(share);
    let part = span.times(share);
    floor.lemma_plus(part);
    floor.lemma_plus(span);
    floor.lemma_plus_grows(part);
    Double::lemma_plus_monotone(floor, floor, part, span);
    Double::lemma_narrow_monotone(floor, floor.plus(part));
    Double::lemma_narrow_monotone(floor.plus(part), floor.plus(span));
}

/// Six tenths are no more than nine.
proof fn lemma_ratio_order()
    ensures
        Double::ratio(6, 10).le(Double::ratio(9, 10)),
{
    Double::lemma_of(6);
    Double::lemma_of(9);
    Double::lemma_of(10);
    Double::lemma_of_order(6, 9);
    Double::lemma_over_monotone(Double::of(6), Double::of(9), Double::of(10));
}

/// The speed on an arc is a number if the one asked for is.
proof fn lemma_speed_is_number(c: Chase, i: u64)
    requires
        !c.aim.speed.nan(),
        Double::zero().le(c.v_lo),
        c.v_lo.le(c.v_hi),
    ensures
        c.v_lo.le(c.speed(i)) && c.speed(i).le(c.v_hi),
{
    Double::lemma_ratio_positive(8, 10);
    Double::lemma_ratio_positive(6, 10);
    Double::lemma_ratio_positive(4, 10);
    Double::lemma_ratio_positive(1, 10);
    Double::lemma_ratio_le_one(8, 10);
    Double::lemma_ratio_le_one(6, 10);
    Double::lemma_ratio_le_one(4, 10);
    Double::lemma_ratio_le_one(1, 10);
    reveal(Double::spec_times);
    assert(!speed_step(c.aim.speed, i).nan());
}

/// A command of the pursuit is the ramp to a stop, or one that goes along its run
/// within all limits: at a speed that one cycle reaches and that is not above the
/// limit, on an arc that the robot can drive.
pub proof fn law_pursued_command(
    p: PursuitPlanner,
    tr: Trig,
    state: RobotState,
    path: Seq<PathWaypoint>,
    obstacles: &[Obstacle],
    desired: Double,
    prev: Double,
)
    requires
        p.ready(),
        !desired.nan(),
        prev.abs().le(p.dwa.max_speed),
        p.dwa.max_speed.finite(),
        p.dwa.max_curvature.finite() && p.dwa.max_angular_speed.finite(),
        p.dwa.max_acceleration.nonnegative() && p.dwa.max_deceleration.nonnegative(),
    ensures
        p.pursued(tr, state, path, obstacles, desired, prev) matches Ok(c) ==> c == p.ramp(prev)
            || exists|dir: SegmentDir, v: Double| #[trigger] drives_within(p, dir, prev, c, v),
{
    let r = p.pursued(tr, state, path, obstacles, desired, prev);
    let l = leg_of(path, state, prev);
    if r is Ok && l is Some && r->Ok_0 != p.ramp(prev) {
        let leg = l->0;
        let run = path.subrange(leg.start as int, leg.end + 1);
        let more = leg.end + 1 < path.len();
        let lookahead = p.leg_lookahead(tr, state, run, leg.dir, desired, prev);
        let s = driving(state, leg.dir);
        law_steering_within_limit(p, tr, s, run, !more, lookahead);
        let kappa = p.steering(tr, s, run, !more, lookahead)->Ok_0;
        let speed = p.governed(tr, state, run, leg.dir, more, kappa, desired, prev);
        assert(!p.leg_speed(desired, leg.dir).nan());
        assert(!speed.nan());
        let from = p.prev_travel(leg.dir, prev);
        leg.dir.sign().lemma_times_sign(prev);
        assert(from.nonnegative() && from.le(p.dwa.max_speed));
        law_reach(p, from);
        let (v_lo, v_hi) = p.reach(from);
        let chase = Chase {
            planner: p,
            state,
            obstacles,
            dir: leg.dir,
            aim: Aim { kappa, speed },
            v_lo,
            v_hi,
        };
        law_ladder(chase, tr, 0, seq![], None);
        let c = r->Ok_0;
        assert(chase.ladder(tr, 0, seq![], None) == r);
        let v = choose|v: Double| #[trigger] verified_at(chase, tr, v, c);
        let i = choose|i: u64| i < SPEED_STEPS && v == #[trigger] chase.speed(i);
        lemma_speed_is_number(chase, i);
        law_least_margin(
            chase,
            tr,
            leg.dir.sign().times(v),
            chase.yaw(v),
            obstacles@.len() as int,
        );
        lemma_confidence(chase, v, chase.margin_at(tr, v).worst);
        if kappa.nan() {
            reveal(Double::spec_times);
            assert(c.command.angular_z.nan());
        } else {
            law_command_is_executable(chase, v);
        }
        assert(drives_within(p, leg.dir, prev, c, v));
    }
}

/// Time of the last report after a refused arc has come up at each of the times.
pub open spec fn last_report(times: Seq<u64>, last: u64) -> u64
    decreases times.len(),
{
    if times.len() == 0 {
        last
    } else {
        spec_reported(times.last(), last_report(times.drop_last(), last))
    }
}

/// The `i`-th refused arc is reported.
pub open spec fn is_reported(times: Seq<u64>, last: u64, i: int) -> bool {
    times[i] - last_report(times.take(i), last) >= BLOCKED_LOG_INTERVAL_MS
}

proof fn lemma_last_report(times: Seq<u64>, last: u64, i: int)
    requires
        0 <= i < times.len(),
        is_reported(times, last, i),
    ensures
        last_report(times, last) >= times[i],
    decreases times.len(),
{
    let early = times.drop_last();
    if i < early.len() {
        assert(early.take(i) =~= times.take(i));
        lemma_last_report(early, last, i);
    } else {
        assert(early =~= times.take(i));
    }
}

/// Two reports of refused arcs are at least the interval apart.
pub proof fn law_reports_keep_their_distance(times: Seq<u64>, last: u64, i: int, j: int)
    requires
        0 <= i < j < times.len(),
        is_reported(times, last, i),
        is_reported(times, last, j),
    ensures
        times[j] - times[i] >= BLOCKED_LOG_INTERVAL_MS,
{
    let early = times.take(j);
    assert(early.take(i) =~= times.take(i));
    lemma_last_report(early, last, i);
}

} // verus!
