//! Which way the planners steer.
use crate::geometry::distance;
use crate::geometry_laws::law_distance_is_not_negative;
use crate::global_planner::frame_laws::{lemma_sum_of_products, sides_with};
use crate::global_planner::reeds_shepp_laws::lemma_small_rem;
use crate::global_planner::{PathWaypoint, SegmentDir};
use crate::ieee::algebra::alike;
use crate::ieee::double::Double;
use crate::ieee::laws::{lemma_rounded_monotone, lemma_rounded_zero, rounded};
use crate::local_planner::dwa::{first_beyond, Query};
use crate::local_planner::motion::RobotState;
use crate::local_planner::pursuit::{driving, Chase, PursuitPlanner, Sight};
use crate::local_planner::reverse::seen;
use crate::local_planner::run::{law_first_least, nearest, ranges};
use crate::local_planner::tracking_mpc::{foot, nearest_segment, projection, wrap, Candidate};
use crate::trig::{bearing, law_normalize_angle, lemma_turn, pi, sine, tangent, turn, Trig};
use vstd::prelude::*;

verus! {

/// The sine of the bearing of a point is a number on the side that the point is on.
pub open spec fn tells_sides(t: Trig) -> bool {
    forall|y: Double, x: Double|
        #![trigger bearing(t, y, x)]
        !y.nan() && !x.nan() ==> {
            let s = sine(t, bearing(t, y, x));
            &&& s.finite()
            &&& y.key() >= 0 ==> s.key() >= 0
            &&& y.key() <= 0 ==> s.key() <= 0
        }
}

/// The point of the path is seen ahead, and the curvature bends to its side. On the circle
/// of radius one it is where it is as far away as twice the sine of its bearing.
pub open spec fn bends_toward(
    t: Trig,
    s: RobotState,
    w: PathWaypoint,
    limit: Double,
    kappa: Double,
) -> bool {
    let (lx, ly) = seen(t, s, w.x, w.y);
    let far = distance(s.x, s.y, w.x, w.y);
    &&& !lx.le(Double::zero())
    &&& far.positive() && Double::of(2).times(sine(t, bearing(t, ly, lx))) == far ==> kappa
        == Double::one().clamp(limit.negate(), limit)
    &&& !lx.nan() && !ly.nan() ==> kappa.nan() || ((ly.key() >= 0 ==> kappa.key() >= 0) && (
    ly.key() <= 0 ==> kappa.key() <= 0))
}

/// The pursuit steers toward a point of its path that lies ahead: to the left where
/// that is on the left, to the right where it is on the right.
pub proof fn law_steers_toward_the_path(
    p: PursuitPlanner,
    t: Trig,
    s: RobotState,
    run: Seq<PathWaypoint>,
    terminal: bool,
    lookahead: Double,
)
    requires
        p.ready(),
        tells_sides(t),
        run.len() > 0,
    ensures
        p.steering(t, s, run, terminal, lookahead) matches Ok(kappa) ==> exists|w: PathWaypoint|
            run.contains(w) && #[trigger] bends_toward(
            t,
            s,
            w,
            p.dwa.max_curvature,
            kappa,
        ),
{
    if let Ok(kappa) = p.steering(t, s, run, terminal, lookahead) {
        let target = p.target(run, s.x, s.y, terminal, lookahead);
        let first = p.sight(t, s, target->0);
        let sight = p.refined(t, s, run, terminal, lookahead, first);
        lemma_target(p, run, s.x, s.y, terminal, lookahead);
        let alpha = bearing(t, first.ly, first.lx);
        let l = p.nearer(lookahead, alpha);
        lemma_target(p, run, s.x, s.y, terminal, l);
        let again = p.target(run, s.x, s.y, terminal, l);
        let w = if sight == first {
            target->0
        } else {
            again->0
        };
        if !sight.lx.nan() && !sight.ly.nan() {
            lemma_curvature_side(p, t, sight);
        }
        if sight.chord.positive() {
            sight.chord.lemma_over_itself();
        }
        assert(bends_toward(t, s, w.0, p.dwa.max_curvature, kappa));
    }
}

/// A target is a point of the run, with its distance.
proof fn lemma_target(
    p: PursuitPlanner,
    run: Seq<PathWaypoint>,
    x: Double,
    y: Double,
    terminal: bool,
    l: Double,
)
    requires
        run.len() > 0,
    ensures
        p.target(run, x, y, terminal, l) matches Some(t) ==> run.contains(t.0) && t.1
            == distance(x, y, t.0.x, t.0.y) && !t.1.negative(),
{
    let k = nearest(run, x, y);
    law_first_least(ranges(run, x, y), run.len() as int);
    lemma_first_beyond(run, x, y, l, k);
    let i = first_beyond(run, x, y, l, k);
    let end = run.last();
    if i < run.len() {
        assert(run.contains(run[i]));
        law_distance_is_not_negative(x, y, run[i].x, run[i].y);
    }
    assert(run.contains(run[run.len() - 1]));
    law_distance_is_not_negative(x, y, end.x, end.y);
}

proof fn lemma_first_beyond(run: Seq<PathWaypoint>, x: Double, y: Double, l: Double, i: int)
    requires
        0 <= i,
    ensures
        i <= first_beyond(run, x, y, l, i) || first_beyond(run, x, y, l, i) == run.len(),
        first_beyond(run, x, y, l, i) <= run.len(),
    decreases run.len() - i,
{
    if i < run.len() {
        lemma_first_beyond(run, x, y, l, i + 1);
    }
}

proof fn lemma_curvature_side(p: PursuitPlanner, t: Trig, s: Sight)
    requires
        p.ready(),
        tells_sides(t),
        !s.lx.nan() && !s.ly.nan(),
        !s.chord.negative(),
    ensures
        ({
            let limit = p.dwa.max_curvature;
            let k = Double::of(2).times(sine(t, bearing(t, s.ly, s.lx))).over(s.chord).clamp(
                limit.negate(),
                limit,
            );
            k.nan() || ((s.ly.key() >= 0 ==> k.key() >= 0) && (s.ly.key()
                <= 0 ==> k.key() <= 0))
        }),
{
    let a = sine(t, bearing(t, s.ly, s.lx));
    let two = Double::of(2);
    Double::lemma_of(2);
    a.lemma_times_keeps_side(two);
    let limit = p.dwa.max_curvature;
    limit.lemma_negate();
    let b = two.times(a);
    if s.chord.positive() {
        b.lemma_over_side(s.chord);
    } else {
        reveal(Double::spec_over);
    }
}

/// In reverse the robot drives toward its back: the heading in which it travels is the
/// opposite one, and so is its speed. Going forward both are its own.
pub proof fn law_driving(state: RobotState)
    requires
        state.theta.finite(),
        -pi().value() <= state.theta.value() <= pi().value(),
    ensures
        driving(state, SegmentDir::Forward) == state,
        ({
            let back = driving(state, SegmentDir::Reverse);
            &&& back.x == state.x && back.y == state.y
            &&& back.linear_vel == state.linear_vel.negate()
            &&& !back.theta.nan()
            &&& state.theta.value() <= 0 ==> back.theta.key() == rounded(
                state.theta.value() + pi().value(),
            )
            &&& within(back.theta)
        }),
{
    let th = state.theta;
    let up = th.plus(pi());
    lemma_turn();
    th.lemma_plus(pi());
    turn().lemma_rounded_value();
    lemma_rounded_zero();
    lemma_rounded_monotone(0, th.value() + pi().value());
    lemma_rounded_monotone(th.value() + pi().value(), turn().value());
    law_normalize_angle(up);
    pi().lemma_negate();
    pi().lemma_rounded_value();
    if th.value() <= 0 {
        lemma_rounded_monotone(th.value() + pi().value(), pi().value());
    }
}

/// The angle is one from minus pi to pi.
pub open spec fn within(a: Double) -> bool {
    pi().negate().le(a) && a.le(pi())
}

/// At a speed in the direction of travel the yaw rate has the side of the curvature, and at
/// speed one it is the curvature, within its limit; the other planners do the same.
pub proof fn law_yaw_has_the_side_of_the_curvature(
    c: Chase,
    k: Candidate,
    q: Query,
    kappa: Double,
    v: Double,
)
    requires
        kappa.finite() && c.aim.kappa == kappa,
        v.nonnegative(),
        Double::zero().le(c.planner.dwa.max_angular_speed),
        Double::zero().le(k.dwa.max_angular_speed),
        Double::zero().le(q.config.max_angular_speed),
    ensures
        kappa.key() >= 0 ==> c.yaw(v).key() >= 0 && k.yaw(kappa, v).key() >= 0 && q.yaw(
            kappa,
            v,
        ).key() >= 0,
        kappa.key() <= 0 ==> c.yaw(v).key() <= 0 && k.yaw(kappa, v).key() <= 0 && q.yaw(
            kappa,
            v,
        ).key() <= 0,
        v == Double::one() && kappa.abs().le(c.planner.dwa.max_angular_speed) ==> c.yaw(v) == kappa,
        v == Double::one() && kappa.abs().le(k.dwa.max_angular_speed) ==> k.yaw(kappa, v) == kappa,
        v == Double::one() && kappa.abs().le(q.config.max_angular_speed) ==> q.yaw(kappa, v)
            == kappa,
{
    kappa.lemma_times_one();
    kappa.lemma_times_keeps_side(v);
    c.planner.dwa.max_angular_speed.lemma_negate();
    k.dwa.max_angular_speed.lemma_negate();
    q.config.max_angular_speed.lemma_negate();
}

/// A wrapped angle is the angle itself where that lies between minus pi and pi.
pub proof fn law_wrap(a: Double)
    requires
        a.finite(),
        -pi().value() <= a.value() <= pi().value(),
    ensures
        alike(wrap(a), a),
{
    lemma_turn();
    let size = a.abs();
    assert(size.value() == a.units());
    size.lemma_order(turn());
    lemma_small_rem(a);
    a.lemma_order(pi());
    pi().lemma_negate();
    pi().negate().lemma_order(a);
}

/// An angle that is less than one turn, but more than half a turn, is wrapped by a turn.
pub proof fn law_wrap_takes_a_turn(a: Double)
    requires
        a.finite(),
        -turn().value() < a.value() < turn().value(),
    ensures
        a.value() > pi().value() ==> wrap(a).key() == rounded(a.value() - turn().value()),
        a.value() < -pi().value() ==> wrap(a).key() == rounded(a.value() + turn().value()),
        !wrap(a).nan(),
{
    lemma_turn();
    let size = a.abs();
    assert(size.value() == a.units());
    size.lemma_order(turn());
    lemma_small_rem(a);
    a.lemma_order(pi());
    pi().lemma_order(a);
    pi().lemma_negate();
    pi().negate().lemma_order(a);
    a.lemma_order(pi().negate());
    a.lemma_minus(turn());
    a.lemma_plus(turn());
}

/// The place on the left of a run counts as positive, that on its right as negative: by
/// the exact products of the run's direction with the way from the run to the place.
pub proof fn law_offset_has_its_side(t: Trig, run: Seq<PathWaypoint>, x: Double, y: Double)
    requires
        projection(t, run, x, y) is Some,
        ({
            let k = nearest_segment(run, x, y, run.len() - 1);
            let (a, b) = (run[k], run[k + 1]);
            let (dx, dy) = (b.x.minus(a.x), b.y.minus(a.y));
            let f = foot(a, b, x, y).0;
            let (ex, ey) = (
                x.minus(a.x.plus(f.times(dx))),
                y.minus(a.y.plus(f.times(dy))),
            );
            &&& dx.finite() && dy.finite() && ex.finite() && ey.finite()
            &&& dx.times(ey).finite() && dy.times(ex).finite()
            &&& distance(a.x, a.y, b.x, b.y).finite()
        }),
    ensures
        ({
            let k = nearest_segment(run, x, y, run.len() - 1);
            let (a, b) = (run[k], run[k + 1]);
            let (dx, dy) = (b.x.minus(a.x), b.y.minus(a.y));
            let f = foot(a, b, x, y).0;
            let (ex, ey) = (
                x.minus(a.x.plus(f.times(dx))),
                y.minus(a.y.plus(f.times(dy))),
            );
            let p = projection(t, run, x, y)->0;
            &&& sides_with(p.e_lat, dx.value() * ey.value() - dy.value() * ex.value())
            &&& p.tangent == bearing(t, dy, dx)
        }),
{
    let k = nearest_segment(run, x, y, run.len() - 1);
    let (a, b) = (run[k], run[k + 1]);
    let (dx, dy) = (b.x.minus(a.x), b.y.minus(a.y));
    let f = foot(a, b, x, y).0;
    let (ex, ey) = (x.minus(a.x.plus(f.times(dx))), y.minus(a.y.plus(f.times(dy))));
    let len = distance(a.x, a.y, b.x, b.y);
    dy.lemma_negate();
    dy.lemma_times_negate(ex);
    dy.times(ex).lemma_negate();
    lemma_sum_of_products(dx, ey, dy.negate(), ex);
    let (m, n) = (dy.value(), ex.value());
    assert((-m) * n == -(m * n)) by (nonlinear_arith);
    law_distance_is_not_negative(a.x, a.y, b.x, b.y);
    Double::lemma_ratio_positive(1, 1_000_000_000);
    Double::lemma_ratio_le_one(1, 1_000_000_000);
    dx.times(ey).plus(dy.negate().times(ex)).lemma_over_side(len);
}

} // verus!
