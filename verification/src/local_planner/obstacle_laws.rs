//! What the distance from an obstacle is.
use crate::geometry::distance;
use crate::geometry_laws::{lemma_parts_of_the_axis, lemma_parts_turn};
use crate::global_planner::frame_laws::{lemma_sum_of_products, sides_with};
use crate::ieee::algebra::alike;
use crate::ieee::double::Double;
use crate::ieee::laws::{
    lemma_rounded_monotone, lemma_rounded_negate, lemma_rounded_one, lemma_rounded_zero,
};
use crate::local_planner::obstacle::{prediction_uncertainty, Obstacle};
use crate::local_planner::reverse::{frontal, seen};
use crate::local_planner::RobotState;
use crate::trig::{cosine, quarter, sine, Trig};
use vstd::prelude::*;

verus! {

/// What lies around a robot is seen in the same way after a quarter turn of the plane.
pub proof fn law_seen_turns_with_the_plane(
    t: Trig,
    a: RobotState,
    b: RobotState,
    x: Double,
    y: Double,
    u: Double,
    v: Double,
)
    requires
        quarter(t, a.theta, b.theta),
        u.minus(b.x) == y.minus(a.y).negate(),
        v.minus(b.y) == x.minus(a.x),
    ensures
        seen(t, b, u, v) == seen(t, a, x, y),
{
    lemma_parts_turn(
        x.minus(a.x),
        y.minus(a.y),
        cosine(t, a.theta),
        sine(t, a.theta),
    );
}

/// For every heading, what is in front of a robot is seen ahead and what is on its left
/// to the left, by the exact products of the offset with the direction of its heading.
pub proof fn law_seen_has_its_sides(t: Trig, a: RobotState, x: Double, y: Double)
    requires
        ({
            let (dx, dy) = (x.minus(a.x), y.minus(a.y));
            let (c, s) = (cosine(t, a.theta), sine(t, a.theta));
            &&& dx.finite() && dy.finite() && c.finite() && s.finite()
            &&& dx.times(c).finite() && dy.times(s).finite()
            &&& dx.times(s).finite() && dy.times(c).finite()
        }),
    ensures
        ({
            let (dx, dy) = (x.minus(a.x).value(), y.minus(a.y).value());
            let (c, s) = (cosine(t, a.theta).value(), sine(t, a.theta).value());
            let (lx, ly) = seen(t, a, x, y);
            sides_with(lx, c * dx + s * dy) && sides_with(ly, c * dy - s * dx)
        }),
{
    let (dx, dy) = (x.minus(a.x), y.minus(a.y));
    let (c, s) = (cosine(t, a.theta), sine(t, a.theta));
    dx.lemma_negate();
    dx.lemma_times_negate(s);
    dx.times(s).lemma_negate();
    lemma_sum_of_products(dx, c, dy, s);
    lemma_sum_of_products(dx.negate(), s, dy, c);
    let (p, q) = (dx.value(), dy.value());
    let (u, v) = (c.value(), s.value());
    assert(p * u + q * v == u * p + v * q && (-p) * v + q * u == u * q - v * p)
        by (nonlinear_arith);
}

/// A robot that looks along the x axis sees a point by its offset.
pub proof fn law_seen_along_the_axis(t: Trig, a: RobotState, x: Double, y: Double)
    requires
        cosine(t, a.theta) == Double::one() && sine(t, a.theta) == Double::zero(),
        x.minus(a.x).finite() && y.minus(a.y).finite(),
    ensures
        alike(seen(t, a, x, y).0, x.minus(a.x)),
        alike(seen(t, a, x, y).1, y.minus(a.y)),
{
    lemma_parts_of_the_axis(x.minus(a.x), y.minus(a.y));
}

/// A point is seen from an obstacle in the same way after a quarter turn of the plane.
pub proof fn law_frame_turns_with_the_plane(
    tr: Trig,
    a: Obstacle,
    b: Obstacle,
    x: Double,
    y: Double,
    u: Double,
    v: Double,
    t: Double,
)
    requires
        quarter(tr, a.heading, b.heading),
        u.minus(b.position_at(t).0) == y.minus(a.position_at(t).1).negate(),
        v.minus(b.position_at(t).1) == x.minus(a.position_at(t).0),
    ensures
        b.frame(tr, u, v, t) == a.frame(tr, x, y, t),
{
    let o = a.position_at(t);
    lemma_parts_turn(
        x.minus(o.0),
        y.minus(o.1),
        cosine(tr, a.heading),
        sine(tr, a.heading),
    );
}

/// For a box that lies along the x axis, a point is seen by its offset.
pub proof fn law_frame_along_the_axis(tr: Trig, a: Obstacle, x: Double, y: Double, t: Double)
    requires
        cosine(tr, a.heading) == Double::one() && sine(tr, a.heading) == Double::zero(),
        x.minus(a.position_at(t).0).finite() && y.minus(a.position_at(t).1).finite(),
    ensures
        alike(a.frame(tr, x, y, t).0, x.minus(a.position_at(t).0)),
        alike(a.frame(tr, x, y, t).1, y.minus(a.position_at(t).1)),
{
    lemma_parts_of_the_axis(x.minus(a.position_at(t).0), y.minus(a.position_at(t).1));
}

/// How far a coordinate lies beyond half a side.
spec fn beyond(a: Double, half: Double) -> Double {
    a.abs().minus(half)
}

spec fn box_distance(bx: Double, by: Double) -> Double {
    bx.max(Double::zero()).square().plus(by.max(Double::zero()).square()).sqrt().plus(
        bx.max(by).min(Double::zero()),
    )
}

proof fn lemma_box_distance(bx: Double, by: Double, cx: Double, cy: Double)
    requires
        bx.finite() && by.finite() && cx.finite() && cy.finite(),
        bx.le(cx) && by.le(cy),
    ensures
        box_distance(bx, by).le(box_distance(cx, cy)),
        bx.key() <= 0 && by.key() <= 0 ==> box_distance(bx, by).key() <= 0,
        bx.key() < 0 && by.key() < 0 ==> box_distance(bx, by).key() < 0,
        bx.key() >= 0 || by.key() >= 0 ==> box_distance(bx, by).key() >= 0,
{
    let z = Double::zero();
    let (p, q) = (bx.max(z), by.max(z));
    let (r, s) = (cx.max(z), cy.max(z));
    p.lemma_times_monotone(p, r);
    r.lemma_times_monotone(p, r);
    p.lemma_times_commutes(r);
    q.lemma_times_monotone(q, s);
    s.lemma_times_monotone(q, s);
    q.lemma_times_commutes(s);
    p.square().lemma_plus_nonnegative(q.square());
    r.square().lemma_plus_nonnegative(s.square());
    Double::lemma_plus_monotone(p.square(), r.square(), q.square(), s.square());
    let (m, n) = (p.square().plus(q.square()), r.square().plus(s.square()));
    Double::lemma_sqrt_monotone(m, n);
    Double::lemma_sqrt_monotone(n, n);
    let (d, e) = (bx.max(by).min(z), cx.max(cy).min(z));
    lemma_root_plus(m.sqrt(), d);
    lemma_root_plus(n.sqrt(), e);
    Double::lemma_plus_monotone(m.sqrt(), n.sqrt(), d, e);
    if bx.key() <= 0 && by.key() <= 0 {
        assert(p.mag() == 0 && q.mag() == 0);
        p.lemma_times_zero(p);
        q.lemma_times_zero(q);
        p.square().lemma_plus_nothing(q.square());
        assert(m.mag() == 0);
        assert(m.sqrt() == m) by {
            reveal(Double::spec_sqrt);
        }
        d.lemma_plus_nothing(m.sqrt());
    }
}

proof fn lemma_root_plus(a: Double, d: Double)
    requires
        Double::zero().le(a),
        d.finite(),
    ensures
        !a.plus(d).nan(),
        d.key() == 0 ==> a.plus(d).key() == a.key(),
{
    if a.finite() {
        a.lemma_plus(d);
        if d.key() == 0 {
            a.lemma_plus_nothing(d);
        }
    } else {
        reveal(Double::spec_plus);
    }
}

/// The distance from a box grows outward from its middle, on every side alike: it
/// depends on how far the point is from the two axes of the box and on nothing else.
/// Inside it is negative, outside it is not.
pub proof fn law_box_distance(
    tr: Trig,
    o: Obstacle,
    x: Double,
    y: Double,
    u: Double,
    v: Double,
    t: Double,
)
    requires
        o.rectangular(),
        ({
            let (p, q) = (o.frame(tr, x, y, t), o.frame(tr, u, v, t));
            let (hx, hy) = (o.half_x.plus(o.growth(t)), o.half_y.plus(o.growth(t)));
            &&& hx.finite() && hy.finite()
            &&& p.0.finite() && p.1.finite() && q.0.finite() && q.1.finite()
            &&& p.0.abs().minus(hx).finite() && p.1.abs().minus(hy).finite()
            &&& q.0.abs().minus(hx).finite() && q.1.abs().minus(hy).finite()
            &&& p.0.abs().le(q.0.abs()) && p.1.abs().le(q.1.abs())
        }),
    ensures
        o.surface_distance(tr, x, y, t).le(o.surface_distance(tr, u, v, t)),
        ({
            let p = o.frame(tr, x, y, t);
            let (hx, hy) = (o.half_x.plus(o.growth(t)), o.half_y.plus(o.growth(t)));
            let d = o.surface_distance(tr, x, y, t);
            &&& p.0.abs().lt(hx) && p.1.abs().lt(hy) ==> d.key() < 0
            &&& hx.le(p.0.abs()) || hy.le(p.1.abs()) ==> d.key() >= 0
        }),
{
    let (p, q) = (o.frame(tr, x, y, t), o.frame(tr, u, v, t));
    let (hx, hy) = (o.half_x.plus(o.growth(t)), o.half_y.plus(o.growth(t)));
    Double::lemma_minus_monotone(p.0.abs(), q.0.abs(), hx, hx);
    Double::lemma_minus_monotone(p.1.abs(), q.1.abs(), hy, hy);
    let (bx, by) = (beyond(p.0, hx), beyond(p.1, hy));
    lemma_box_distance(bx, by, beyond(q.0, hx), beyond(q.1, hy));
    lemma_difference_side(p.0.abs(), hx);
    lemma_difference_side(p.1.abs(), hy);
}

/// A difference tells the order exactly.
pub proof fn lemma_difference_side(a: Double, b: Double)
    requires
        a.finite() && b.finite(),
    ensures
        a.minus(b).key() < 0 <==> a.key() < b.key(),
        a.minus(b).key() > 0 <==> a.key() > b.key(),
        !a.minus(b).nan(),
{
    a.lemma_minus(b);
    a.lemma_order(b);
    b.lemma_order(a);
    lemma_rounded_zero();
    lemma_rounded_one();
    lemma_rounded_negate(1);
    let d = a.value() - b.value();
    if d <= 0 {
        lemma_rounded_monotone(d, 0);
    }
    if d >= 0 {
        lemma_rounded_monotone(0, d);
    }
    if d >= 1 {
        lemma_rounded_monotone(1, d);
    }
    if d <= -1 {
        lemma_rounded_monotone(d, -1);
    }
}

/// The distance from a round obstacle is that from its middle, less its radius and what
/// its motion adds: the farther the point from the middle, the larger.
pub proof fn law_round_distance(
    tr: Trig,
    o: Obstacle,
    x: Double,
    y: Double,
    u: Double,
    v: Double,
    t: Double,
)
    requires
        !o.rectangular(),
        o.radius.plus(o.growth(t)).finite(),
        ({
            let c = o.position_at(t);
            distance(c.0, c.1, x, y).le(distance(c.0, c.1, u, v))
        }),
    ensures
        o.surface_distance(tr, x, y, t).le(o.surface_distance(tr, u, v, t)),
        ({
            let c = o.position_at(t);
            let d = distance(c.0, c.1, x, y);
            d.finite() ==> (o.surface_distance(tr, x, y, t).key() < 0 <==> d.lt(
                o.radius.plus(o.growth(t)),
            ))
        }),
{
    let c = o.position_at(t);
    let (d, e) = (distance(c.0, c.1, x, y), distance(c.0, c.1, u, v));
    let r = o.radius.plus(o.growth(t));
    if d.finite() {
        lemma_difference_side(d, r);
    }
    reveal(Double::spec_plus);
    Double::lemma_minus_monotone(d, e, r, r);
}

/// An obstacle moves by its velocity: after no time it is where it is, and later
/// further along the way that it moves.
pub proof fn law_obstacle_moves(o: Obstacle, t: Double, later: Double)
    requires
        o.x.finite() && o.y.finite() && o.vx.finite() && o.vy.finite(),
        t.nonnegative() && later.nonnegative() && t.le(later),
    ensures
        alike(o.position_at(Double::zero()).0, o.x),
        alike(o.position_at(Double::zero()).1, o.y),
        ({
            let (p, q) = (o.position_at(t), o.position_at(later));
            &&& o.vx.key() >= 0 ==> p.0.nan() || q.0.nan() || p.0.le(q.0)
            &&& o.vx.key() <= 0 ==> p.0.nan() || q.0.nan() || q.0.le(p.0)
            &&& o.vy.key() >= 0 ==> p.1.nan() || q.1.nan() || p.1.le(q.1)
            &&& o.vy.key() <= 0 ==> p.1.nan() || q.1.nan() || q.1.le(p.1)
        }),
{
    let z = Double::zero();
    o.vx.lemma_times_zero(z);
    o.vy.lemma_times_zero(z);
    o.x.lemma_plus_nothing(o.vx.times(z));
    o.y.lemma_plus_nothing(o.vy.times(z));
    lemma_moves(o.x, o.vx, t, later);
    lemma_moves(o.y, o.vy, t, later);
}

proof fn lemma_moves(x: Double, v: Double, t: Double, later: Double)
    requires
        x.finite() && v.finite(),
        t.nonnegative() && later.nonnegative() && t.le(later),
    ensures
        ({
            let (p, q) = (x.plus(v.times(t)), x.plus(v.times(later)));
            &&& v.key() >= 0 ==> p.nan() || q.nan() || p.le(q)
            &&& v.key() <= 0 ==> p.nan() || q.nan() || q.le(p)
        }),
{
    let (p, q) = (x.plus(v.times(t)), x.plus(v.times(later)));
    v.lemma_times_keeps_side(t);
    v.lemma_times_keeps_side(later);
    if v.key() >= 0 {
        v.lemma_times_monotone(t, later);
        if !p.nan() && !q.nan() {
            Double::lemma_plus_monotone(x, x, v.times(t), v.times(later));
        }
    }
    if v.key() <= 0 {
        let n = v.negate();
        v.lemma_negate();
        n.lemma_times_monotone(t, later);
        v.lemma_times_negate(t);
        v.lemma_times_negate(later);
        v.times(t).lemma_negate();
        v.times(later).lemma_negate();
        if !p.nan() && !q.nan() {
            Double::lemma_plus_monotone(x, x, v.times(later), v.times(t));
        }
    }
}

/// What is asked of the distance from an obstacle beyond its surface grows with its
/// speed, and an obstacle at rest asks for nothing.
pub proof fn law_moving_obstacles_ask_for_more(
    tr: Trig,
    o: Obstacle,
    gain: Double,
    x: Double,
    y: Double,
    t: Double,
)
    requires
        gain.nonnegative(),
        o.surface_distance(tr, x, y, t).finite(),
        Double::zero().le(o.speed()) && o.speed().finite(),
    ensures
        o.net(tr, gain, x, y, t).le(o.surface_distance(tr, x, y, t)),
        o.speed().mag() == 0 ==> alike(
            o.net(tr, gain, x, y, t),
            o.surface_distance(tr, x, y, t),
        ),
{
    let d = o.surface_distance(tr, x, y, t);
    gain.lemma_times_monotone(o.speed(), o.speed());
    let m = gain.times(o.speed());
    d.lemma_minus_shrinks(m);
    if o.speed().mag() == 0 {
        gain.lemma_times_zero(o.speed());
        m.lemma_negate();
        d.lemma_plus_nothing(m.negate());
    }
}

/// The obstacle counts as in front: it is seen ahead and to one side, less than a metre
/// away.
pub open spec fn is_frontal(tr: Trig, state: RobotState, o: Obstacle) -> bool {
    let (lx, ly) = seen(tr, state, o.x, o.y);
    &&& !lx.le(Double::zero())
    &&& o.surface_distance(tr, state.x, state.y, Double::zero()).lt(Double::one())
    &&& Double::ratio(1, 1_000_000_000).lt(ly.abs())
}

/// The side that a frontal obstacle is on is that of the nearest one in front: left for
/// a positive number, right for a negative one, and none where nothing is in front.
pub proof fn law_frontal_side(tr: Trig, state: RobotState, obstacles: Seq<Obstacle>, n: int)
    requires
        0 <= n <= obstacles.len(),
    ensures
        ({
            let (side, d) = frontal(tr, state, obstacles, n);
            &&& !d.nan()
            &&& (side == Double::zero() && d == (Double { bits: 0x7ff0_0000_0000_0000 }))
                || exists|i: int|
                0 <= i < n && is_frontal(tr, state, #[trigger] obstacles[i]) && d
                    == obstacles[i].surface_distance(tr, state.x, state.y, Double::zero())
                    && side == seen(tr, state, obstacles[i].x, obstacles[i].y).1.signum()
            &&& forall|i: int|
                0 <= i < n && is_frontal(tr, state, #[trigger] obstacles[i])
                    ==> !obstacles[i].surface_distance(
                    tr,
                    state.x,
                    state.y,
                    Double::zero(),
                ).lt(d)
        }),
    decreases n,
{
    if n > 0 {
        law_frontal_side(tr, state, obstacles, n - 1);
    }
}

/// The speed of an obstacle grows with its parts, whichever way they point, and one at rest
/// has none.
pub proof fn law_obstacle_speed(o: Obstacle, p: Obstacle)
    requires
        o.vx.finite() && o.vy.finite() && p.vx.finite() && p.vy.finite(),
        o.vx.mag() <= p.vx.mag() && o.vy.mag() <= p.vy.mag(),
        p.vx.square().finite() && p.vy.square().finite(),
    ensures
        o.speed().le(p.speed()),
        Double::zero().le(o.speed()),
        o.vx.mag() == 0 && o.vy.mag() == 0 ==> o.speed().key() == 0,
{
    lemma_squares(o.vx, p.vx);
    lemma_squares(o.vy, p.vy);
    let (a, b) = (o.vx.square(), o.vy.square());
    let (c, d) = (p.vx.square(), p.vy.square());
    a.lemma_plus_nonnegative(b);
    c.lemma_plus_nonnegative(d);
    Double::lemma_plus_monotone(a, c, b, d);
    Double::lemma_sqrt_monotone(a.plus(b), c.plus(d));
    if o.vx.mag() == 0 && o.vy.mag() == 0 {
        o.vx.lemma_times_zero(o.vx);
        o.vy.lemma_times_zero(o.vy);
        a.lemma_plus_nothing(b);
        reveal(Double::spec_sqrt);
    }
}

proof fn lemma_squares(a: Double, b: Double)
    requires
        a.finite() && b.finite() && a.mag() <= b.mag(),
    ensures
        a.square().le(b.square()) && Double::zero().le(a.square()),
{
    let (x, y) = (a.abs(), b.abs());
    a.lemma_square_opposite(x);
    b.lemma_square_opposite(y);
    x.lemma_times_monotone(x, y);
    y.lemma_times_monotone(x, y);
    x.lemma_times_commutes(y);
}

/// Where an obstacle may be grows with the time and with its speed, and is known at once.
pub proof fn law_growth(o: Obstacle, t: Double, p: Obstacle, later: Double)
    requires
        o.speed().nonnegative() && p.speed().nonnegative() && o.speed().le(p.speed()),
        t.nonnegative() && later.nonnegative() && t.le(later),
        prediction_uncertainty().times(p.speed()).finite(),
    ensures
        Double::zero().le(o.growth(t)) && o.growth(t).le(p.growth(later)),
        t.mag() == 0 || o.speed().mag() == 0 ==> o.growth(t).key() == 0,
{
    let u = prediction_uncertainty();
    u.lemma_times_monotone(o.speed(), p.speed());
    let (a, b) = (u.times(o.speed()), u.times(p.speed()));
    a.lemma_times_monotone(t, later);
    later.lemma_times_monotone(a, b);
    later.lemma_times_commutes(a);
    later.lemma_times_commutes(b);
    if t.mag() == 0 {
        a.lemma_times_zero(t);
    }
    if o.speed().mag() == 0 {
        u.lemma_times_zero(o.speed());
        t.lemma_times_zero(a);
    }
}

} // verus!
