//! What the words of an analytic connection are made of, and what they cost.
use crate::global_planner::clearance::ClearanceField;
use crate::global_planner::config::HybridAStarConfig;
use crate::global_planner::escape::{pose_blocked, EscapeZone};
use crate::global_planner::grid::OccupancyGrid;
use crate::global_planner::reeds_shepp::{
    connection, connection_by, cost_after, eps_len, finished, frame_of, left_right_left,
    left_straight_left, left_straight_right, mod2pi_pos, spec_surroundings, Frame, LocalPose,
    Seg, Steer, Word,
};
use crate::global_planner::reeds_shepp_laws::{cheapest, law_cheapest_connection};
use crate::global_planner::{Pose, SegmentDir};
use crate::ieee::double::{lemma_decode_zero, Double};
use crate::trig::{arcsine, bearing, cosine, pi, sine, Trig};
use vstd::prelude::*;

verus! {

/// The exact way from the centre of the left turn at the start to the centre of the turn
/// that ends at the goal, a left or a right one. A left turn has its centre one radius to
/// the left of the heading, a right turn one radius to the right. The height of the goal
/// above the first centre is a number too.
pub open spec fn apart(
    t: Trig,
    x: Double,
    y: Double,
    phi: Double,
    left: bool,
    e: Double,
    f: Double,
) -> bool {
    let (c, s, one) = (cosine(t, phi), sine(t, phi), Double::one());
    &&& x.finite() && y.finite() && c.finite() && s.finite()
    &&& e.finite() && f.finite() && e.mag() > 0 && f.mag() > 0
    &&& left ==> e.value() == x.value() - s.value() && f.value() == y.value() + c.value()
        - one.value()
    &&& !left ==> e.value() == x.value() + s.value() && f.value() == y.value() - c.value()
        - one.value()
    &&& exists|h: Double| #[trigger] h.finite() && h.value() == y.value() - one.value()
}

proof fn lemma_apart(t: Trig, x: Double, y: Double, phi: Double, left: bool, e: Double, f: Double)
    requires
        apart(t, x, y, phi, left, e, f),
    ensures
        left ==> x.minus(sine(t, phi)) == e && y.minus(Double::one()).plus(cosine(t, phi)) == f,
        !left ==> x.plus(sine(t, phi)) == e && y.minus(Double::one()).minus(cosine(t, phi)) == f,
{
    let (c, s, one) = (cosine(t, phi), sine(t, phi), Double::one());
    let h = choose|h: Double| #[trigger] h.finite() && h.value() == y.value() - one.value();
    let up = y.minus(one);
    y.lemma_minus(one);
    h.lemma_rounded_value();
    up.lemma_rounded_value();
    h.lemma_same_value(up);
    x.lemma_minus(s);
    x.lemma_plus(s);
    up.lemma_plus(c);
    up.lemma_minus(c);
    e.lemma_rounded_value();
    f.lemma_rounded_value();
}

impl Double {
    proof fn lemma_same_value(self, o: Double)
        requires
            self.finite() && !o.nan(),
            self.key() == o.key(),
        ensures
            o.finite() && o.value() == self.value(),
    {
        lemma_decode_zero();
    }
}

/// Left, straight, left: the straight leads from centre to centre, so it is as long as
/// they are apart and in the direction in which they lie. The first turn leads to that
/// direction and the last from it to the goal's heading.
pub proof fn law_left_straight_left(
    t: Trig,
    x: Double,
    y: Double,
    phi: Double,
    e: Double,
    f: Double,
)
    requires
        apart(t, x, y, phi, true, e, f),
    ensures
        left_straight_left(t, x, y, phi) matches Some(w) ==> {
            let u = e.square().plus(f.square()).sqrt();
            &&& w.first.steer == Steer::Left && w.last.steer == Steer::Left
            &&& w.middle.steer == Steer::Straight
            &&& !u.lt(eps_len()) ==> w.middle.len == u && w.first.len == bearing(t, f, e)
                && w.last.len == mod2pi_pos(phi.minus(w.first.len)) && Double::zero().le(
                w.first.len,
            ) && w.first.len.le(pi()) && !pi().lt(w.last.len)
            &&& u.lt(eps_len()) ==> w.middle.len == Double::zero() && w.last.len
                == Double::zero() && w.first.len == mod2pi_pos(phi)
        },
{
    lemma_apart(t, x, y, phi, true, e, f);
}

/// Left, straight, right: the straight crosses between the circles, so that with a
/// diameter it spans the way between the centres, and the goal's heading is the first turn
/// less the last.
pub proof fn law_left_straight_right(
    t: Trig,
    x: Double,
    y: Double,
    phi: Double,
    e: Double,
    f: Double,
)
    requires
        apart(t, x, y, phi, false, e, f),
    ensures
        left_straight_right(t, x, y, phi) matches Some(w) ==> {
            let d2 = e.square().plus(f.square());
            &&& w.first.steer == Steer::Left && w.last.steer == Steer::Right
            &&& w.middle.steer == Steer::Straight
            &&& !d2.lt(Double::of(4)) && w.middle.len == d2.minus(Double::of(4)).sqrt()
            &&& w.first.len == mod2pi_pos(
                bearing(t, f, e).plus(bearing(t, Double::of(2), w.middle.len)),
            )
            &&& w.last.len == mod2pi_pos(w.first.len.minus(phi))
            &&& !pi().lt(w.first.len) && !pi().lt(w.last.len)
        },
{
    lemma_apart(t, x, y, phi, false, e, f);
}

/// Left, right, left: three circles that touch, so the outer centres are at most two
/// diameters apart, the middle turn is driven back, and the goal's heading is the first
/// turn less the middle one and plus the last.
pub proof fn law_left_right_left(
    t: Trig,
    x: Double,
    y: Double,
    phi: Double,
    e: Double,
    f: Double,
)
    requires
        apart(t, x, y, phi, true, e, f),
    ensures
        left_right_left(t, x, y, phi) matches Some(w) ==> {
            let u = e.square().plus(f.square()).sqrt();
            let half = arcsine(t, Double::ratio(1, 4).times(u));
            &&& w.first.steer == Steer::Left && w.last.steer == Steer::Left
            &&& w.middle.steer == Steer::Right
            &&& !Double::of(4).lt(u)
            &&& w.middle.len == Double::of(2).negate().times(half)
            &&& w.first.len == mod2pi_pos(
                bearing(t, f, e).plus(Double::half().times(w.middle.len)).plus(pi()),
            )
            &&& w.last.len == mod2pi_pos(phi.minus(w.first.len).plus(w.middle.len))
            &&& !pi().lt(w.first.len) && !pi().lt(w.last.len)
            &&& half.nonnegative() ==> w.middle.len.key() <= 0
        },
{
    lemma_apart(t, x, y, phi, true, e, f);
    let u = e.square().plus(f.square()).sqrt();
    let half = arcsine(t, Double::ratio(1, 4).times(u));
    Double::lemma_of(2);
    if half.finite() {
        half.lemma_times_keeps_side(Double::of(2));
        Double::of(2).lemma_times_negate(half);
        Double::of(2).times(half).lemma_negate();
    }
}

/// Driving a segment back costs no less than driving it forward; a change of direction
/// costs its penalty; a segment too short to be driven costs nothing.
pub proof fn law_segment_cost(at: (Double, Double), s: Seg, r: Double, cfg: &HybridAStarConfig)
    requires
        at.0.nonnegative(),
        s.len.positive(),
        r.positive() && s.len.times(r).finite(),
        Double::one().le(cfg.reverse_cost_multiplier) && cfg.reverse_cost_multiplier.finite(),
        cfg.direction_switch_penalty.nonnegative(),
        s.len.times(r).times(cfg.reverse_cost_multiplier).finite(),
    ensures
        ({
            let back = Seg { len: s.len.negate(), ..s };
            let (ahead, behind) = (Double::one(), Double::one().negate());
            let cost = |sign: Double, seg: Seg| cost_after((at.0, sign), seg, r, cfg);
            &&& at.0.le(cost(ahead, s).0)
            &&& cost(ahead, s).0.le(cost(behind, back).0)
            &&& cost(ahead, s).0.le(cost(behind, s).0)
            &&& cost(behind, back).0.le(cost(ahead, back).0)
            &&& !s.len.lt(eps_len()) ==> cost(behind, s).1 == ahead && cost(ahead, back).1
                == behind && cost(ahead, s).0 == at.0.plus(s.len.times(r))
            &&& s.len.lt(eps_len()) ==> cost(ahead, s) == (at.0, ahead)
        }),
{
    let one = Double::one();
    let back = Seg { len: s.len.negate(), ..s };
    s.len.lemma_negate();
    one.lemma_negate();
    let m = s.len.times(r);
    let k = cfg.reverse_cost_multiplier;
    s.len.lemma_times_monotone(r, r);
    m.lemma_times_one();
    m.lemma_times_monotone(one, k);
    let (a, b) = (at.0.plus(m), at.0.plus(m.times(k)));
    at.0.lemma_plus_grows(m);
    at.0.lemma_plus_grows(m.times(k));
    at.0.lemma_plus_nonnegative(m);
    at.0.lemma_plus_nonnegative(m.times(k));
    Double::lemma_plus_monotone(at.0, at.0, m, m.times(k));
    let pay = cfg.direction_switch_penalty;
    a.lemma_grows(pay);
    b.lemma_grows(pay);
}

impl Double {
    proof fn lemma_grows(self, o: Double)
        requires
            Double::zero().le(self),
            o.nonnegative(),
        ensures
            self.le(self.plus(o)),
    {
        if self.finite() {
            self.lemma_plus_grows(o);
        } else {
            reveal(Double::spec_plus);
        }
    }
}

/// A connection starts where it is asked to and ends at the goal with its heading. Between
/// them it is free, and keeps as much room as the start or the goal has, whichever has
/// less.
pub proof fn law_connection(
    t: Trig,
    from: &Pose,
    goal: &Pose,
    kappa_max: Double,
    arrival_dir: SegmentDir,
    cfg: &HybridAStarConfig,
    grid: &OccupancyGrid,
    clearance: Option<&ClearanceField>,
    escape: Option<&EscapeZone>,
    i: int,
)
    ensures
        connection(t, from, goal, kappa_max, arrival_dir, cfg, grid, clearance, escape) matches Some(
            path,
        ) ==> {
            &&& path.len() >= 2
            &&& path[0].x == from.x && path[0].y == from.y && path[0].theta == from.theta
            &&& path.last().x == goal.x && path.last().y == goal.y && path.last().theta
                == goal.theta
            &&& path[0].dir == path[1].dir
            &&& !pose_blocked(grid, escape, from.x, from.y)
            &&& 0 < i < path.len() - 1 ==> !pose_blocked(grid, escape, path[i].x, path[i].y)
            &&& 0 < i < path.len() - 1 && clearance is Some ==> {
                let f = clearance->0;
                let (a, b) = (f.distance_at(from.x, from.y), f.distance_at(goal.x, goal.y));
                let room = f.distance_at(path[i].x, path[i].y);
                let slack = Double::ratio(1, 1_000_000_000);
                a.minus(slack).le(room) || b.minus(slack).le(room)
            }
        },
{
    if !kappa_max.le(Double::zero()) {
        law_cheapest_connection(
            t,
            from,
            goal,
            kappa_max,
            arrival_dir,
            cfg,
            grid,
            clearance,
            escape,
        );
        let around = spec_surroundings(from, goal, grid, clearance, escape);
        if let Some(path) = connection(
            t,
            from,
            goal,
            kappa_max,
            arrival_dir,
            cfg,
            grid,
            clearance,
            escape,
        ) {
            let w = choose|w: Word| #[trigger]
                cheapest(t, *from, *goal, kappa_max, arrival_dir, cfg, around, w, path);
            let frame = frame_of(t, *from, kappa_max, cfg);
            let track = frame.track(t, w);
            assert(path == finished(track, *goal));
            assert(track[0] == frame.start());
            if 0 < i < path.len() - 1 {
                assert(around.admits(track[i].x, track[i].y));
                assert(path[i].x == track[i].x && path[i].y == track[i].y);
            }
        }
    }
}

/// On a left leg the wheels are turned to the left, on a right leg to the right by as much,
/// and on a straight leg not at all; a leg of positive length leads forward, one of
/// negative length back.
pub proof fn law_legs_steer_their_way(f: Frame, t: Trig, p: LocalPose, s: Seg, i: int)
    requires
        f.steer_mag.nonnegative(),
        0 <= i < f.leg(t, p, s).len(),
    ensures
        ({
            let w = f.leg(t, p, s)[i];
            &&& s.steer == Steer::Left ==> w.steering == f.steer_mag
            &&& s.steer == Steer::Right ==> w.steering == f.steer_mag.negate()
            &&& s.steer == Steer::Straight ==> w.steering.mag() == 0
            &&& s.len.key() > 0 && !s.len.nan() ==> w.dir == SegmentDir::Forward
            &&& s.len.key() < 0 ==> w.dir == SegmentDir::Reverse
        }),
{
    f.steer_mag.lemma_times_one();
    Double::one().lemma_times_negate(f.steer_mag);
    f.steer_mag.lemma_times_zero(Double::zero());
}

/// A word is refused for want of room only where it comes nearer to an obstacle than both
/// the start and the goal are.
pub proof fn law_refused_word(
    t: Trig,
    from: &Pose,
    goal: &Pose,
    kappa_max: Double,
    cfg: &HybridAStarConfig,
    grid: &OccupancyGrid,
    field: &ClearanceField,
    escape: Option<&EscapeZone>,
    w: Word,
)
    requires
        connection_by(
            t,
            w,
            frame_of(t, *from, kappa_max, cfg),
            *goal,
            spec_surroundings(from, goal, grid, Some(field), escape),
        ) is None,
        !pose_blocked(grid, escape, from.x, from.y),
        frame_of(t, *from, kappa_max, cfg).track(t, w).len() >= 2,
        field.distance_at(from.x, from.y).finite() && field.distance_at(goal.x, goal.y).finite(),
    ensures
        ({
            let track = frame_of(t, *from, kappa_max, cfg).track(t, w);
            let slack = Double::ratio(1, 1_000_000_000);
            let (a, b) = (
                field.distance_at(from.x, from.y).minus(slack),
                field.distance_at(goal.x, goal.y).minus(slack),
            );
            exists|i: int|
                0 < i < track.len() && (pose_blocked(
                    grid,
                    escape,
                    (#[trigger] track[i]).x,
                    track[i].y,
                ) || (!a.le(field.distance_at(track[i].x, track[i].y)) && !b.le(
                    field.distance_at(track[i].x, track[i].y),
                )))
        }),
{
    let around = spec_surroundings(from, goal, grid, Some(field), escape);
    let track = frame_of(t, *from, kappa_max, cfg).track(t, w);
    let i = choose|i: int|
        1 <= i < track.len() && !around.admits((#[trigger] track[i]).x, track[i].y);
    let slack = Double::ratio(1, 1_000_000_000);
    Double::lemma_ratio_number(1, 1_000_000_000);
    let (a, b) = (field.distance_at(from.x, from.y), field.distance_at(goal.x, goal.y));
    a.lemma_minus(slack);
    b.lemma_minus(slack);
    if a.le(b) {
        Double::lemma_minus_monotone(a, b, slack, slack);
    } else {
        Double::lemma_minus_monotone(b, a, slack, slack);
    }
    assert(0 < i < track.len());
}

} // verus!
