//! What the tracker makes of where it is: the foot on the path, the steering that brings
//! it back, the price of being off, and the speeds of its reference.
use crate::global_planner::frame_laws::lemma_sum_of_products;
use crate::global_planner::PathWaypoint;
use crate::ieee::algebra::{alike, opposite};
use crate::ieee::double::{lemma_decode_zero, Double};
use crate::ieee::laws::{lemma_rounded_monotone, lemma_rounded_zero};
use crate::local_planner::arc::check_spacing;
use crate::local_planner::motion::RobotState;
use crate::local_planner::obstacle::Obstacle;
use crate::local_planner::pursuit::tolerance;
use crate::local_planner::steering_laws::law_wrap;
use crate::local_planner::tracking_mpc::{
    feedback, foot, kappa_offset, nearest_segment, projection, wrap, Candidate, Reference,
    Roll, TrackingMpc,
};
use crate::local_planner::TrajPoint;
use crate::trig::{lemma_turn, pi, Trig};
use vstd::prelude::*;

verus! {

/// The foot of a segment's start is its start and that of its end is its end; a place that
/// the segment leads away from has its foot at the start. Whether it does is told by the
/// exact product of the segment with the way to the place.
pub proof fn law_foot(a: PathWaypoint, b: PathWaypoint, x: Double, y: Double)
    requires
        ({
            let (dx, dy) = (b.x.minus(a.x), b.y.minus(a.y));
            let (ex, ey) = (x.minus(a.x), y.minus(a.y));
            let len2 = dx.square().plus(dy.square());
            &&& dx.finite() && dy.finite() && ex.finite() && ey.finite()
            &&& ex.times(dx).finite() && ey.times(dy).finite()
            &&& len2.positive() && Double::ratio(1, 1_000_000_000_000).lt(len2)
        }),
    ensures
        ({
            let (dx, dy) = (b.x.minus(a.x).value(), b.y.minus(a.y).value());
            let (ex, ey) = (x.minus(a.x).value(), y.minus(a.y).value());
            let t = foot(a, b, x, y).0;
            &&& 0 <= t.key() && t.key() <= Double::one().key() && !t.nan()
            &&& ex * dx + ey * dy <= 0 ==> t.key() == 0
            &&& x == a.x && y == a.y ==> t.key() == 0
            &&& x == b.x && y == b.y ==> t == Double::one()
            &&& x == b.x && y == b.y && a.x.plus(b.x.minus(a.x)) == x && a.y.plus(
                b.y.minus(a.y),
            ) == y && x.finite() && y.finite() ==> foot(a, b, x, y).1.key() == 0
        }),
{
    let (dx, dy) = (b.x.minus(a.x), b.y.minus(a.y));
    let (ex, ey) = (x.minus(a.x), y.minus(a.y));
    let len2 = dx.square().plus(dy.square());
    let dot = ex.times(dx).plus(ey.times(dy));
    lemma_sum_of_products(ex, dx, ey, dy);
    dot.lemma_over_side(len2);
    if x == b.x && y == b.y {
        len2.lemma_over_itself();
        dx.lemma_times_one();
        dy.lemma_times_one();
        if x.finite() && y.finite() {
            x.lemma_taken_away();
            y.lemma_taken_away();
            let (p, q) = (x.minus(x), y.minus(y));
            p.lemma_times_zero(p);
            q.lemma_times_zero(q);
            p.square().lemma_plus_nothing(q.square());
        }
    }
    if x == a.x && y == a.y {
        ex.lemma_nothing(a.x);
        ey.lemma_nothing(a.y);
        let (u, v) = (dx.value(), dy.value());
        assert(0 * u + 0 * v == 0);
        assert(ex.value() == 0 && ey.value() == 0);
    }
}

impl Double {
    /// What is left of a number after it is taken away is nothing.
    proof fn lemma_nothing(self, a: Double)
        requires
            self == a.minus(a),
            self.finite(),
        ensures
            self.value() == 0,
    {
        a.lemma_plus_number(a.negate());
        reveal(Double::spec_plus);
        a.lemma_negate();
        a.lemma_minus(a);
        lemma_rounded_zero();
        self.lemma_rounded_value();
    }
}

/// The projection is on the segment that the place is nearest to.
pub proof fn law_nearest_segment(run: Seq<PathWaypoint>, x: Double, y: Double, n: int, i: int)
    requires
        1 <= n < run.len(),
        0 <= i < n,
        forall|k: int|
            0 <= k < n ==> !(#[trigger] foot(run[k], run[k + 1], x, y)).1.nan(),
    ensures
        ({
            let k = nearest_segment(run, x, y, n);
            &&& 0 <= k < n
            &&& foot(run[k], run[k + 1], x, y).1.le(foot(run[i], run[i + 1], x, y).1)
        }),
    decreases n,
{
    if n > 1 {
        let k = nearest_segment(run, x, y, n - 1);
        law_nearest_segment(run, x, y, n - 1, if i < n - 1 { i } else { 0 });
        let last = n - 1;
        assert(!foot(run[last], run[last + 1], x, y).1.nan());
        assert(!foot(run[k], run[k + 1], x, y).1.nan());
    }
}

/// On the left of its path, or turned to the left of it, the tracker steers to the right;
/// on the right, or turned to the right, it steers to the left; on the path and along it
/// the tracker goes straight on.
pub proof fn law_feedback_steers_back(
    tr: Trig,
    run: Seq<PathWaypoint>,
    limit: Double,
    p: TrajPoint,
)
    requires
        Double::zero().le(limit),
        projection(tr, run, p.x, p.y) matches Some(q) ==> {
            let off = p.theta.value() - q.tangent.value();
            &&& q.e_lat.finite() && Double::of(3).times(q.e_lat).finite()
            &&& p.theta.finite() && q.tangent.finite()
            &&& -pi().value() <= off <= pi().value()
        },
    ensures
        ({
            let k = feedback(tr, run, limit, p);
            &&& !k.nan()
            &&& projection(tr, run, p.x, p.y) is None ==> k == Double::zero()
            &&& projection(tr, run, p.x, p.y) matches Some(q) ==> {
                let off = p.theta.value() - q.tangent.value();
                &&& q.e_lat.key() >= 0 && off >= 0 ==> k.key() <= 0
                &&& q.e_lat.key() <= 0 && off <= 0 ==> k.key() >= 0
            }
        }),
{
    if let Some(q) = projection(tr, run, p.x, p.y) {
        let most = Double::ratio(8, 10);
        let d = p.theta.minus(q.tangent);
        let off = p.theta.value() - q.tangent.value();
        p.theta.lemma_minus(q.tangent);
        lemma_rounded_zero();
        pi().lemma_rounded_value();
        pi().lemma_negate();
        pi().negate().lemma_rounded_value();
        lemma_rounded_monotone(off, pi().value());
        lemma_rounded_monotone(pi().negate().value(), off);
        if off >= 0 {
            lemma_rounded_monotone(0, off);
        }
        if off <= 0 {
            lemma_rounded_monotone(off, 0);
        }
        d.lemma_order(pi());
        pi().negate().lemma_order(d);
        law_wrap(d);
        most.lemma_negate();
        let psi = wrap(d).clamp(most.negate(), most);
        let three = Double::of(3);
        let gain = Double::ratio(346, 100);
        Double::lemma_of(3);
        Double::lemma_ratio_number(346, 100);
        Double::lemma_ratio_number(8, 10);
        q.e_lat.lemma_times_keeps_side(three);
        three.lemma_times_negate(q.e_lat);
        three.times(q.e_lat).lemma_negate();
        psi.lemma_times_keeps_side(gain);
        let (a, b) = (three.negate().times(q.e_lat), gain.times(psi));
        b.lemma_negate();
        limit.lemma_negate();
        a.lemma_side_of_difference(b);
    }
}

impl Double {
    proof fn lemma_side_of_difference(self, b: Double)
        requires
            self.finite() && !b.nan(),
        ensures
            !self.minus(b).nan(),
            self.key() <= 0 && b.key() >= 0 ==> self.minus(b).key() <= 0,
            self.key() >= 0 && b.key() <= 0 ==> self.minus(b).key() >= 0,
    {
        reveal(Double::spec_plus);
        b.lemma_negate();
        if b.finite() {
            self.lemma_minus(b);
            self.lemma_rounded_value();
            b.lemma_rounded_value();
            lemma_rounded_zero();
            let d = self.value() - b.value();
            if d <= 0 {
                lemma_rounded_monotone(d, 0);
            }
            if d >= 0 {
                lemma_rounded_monotone(0, d);
            }
        }
    }
}

/// One of the four parts of a price.
spec fn part(w: Double, e: Double) -> Double {
    w.times(e).times(e)
}

proof fn lemma_part(w: Double, e: Double, f: Double)
    requires
        w.nonnegative(),
        e.finite() && f.finite(),
        e.mag() <= f.mag(),
        w.times(f).finite(),
    ensures
        part(w, e).le(part(w, f)),
        Double::zero().le(part(w, e)),
        e.mag() == f.mag() ==> part(w, e) == part(w, f),
{
    let (a, b) = (e.abs(), f.abs());
    lemma_part_of_size(w, e);
    lemma_part_of_size(w, f);
    w.lemma_times_monotone(a, b);
    f.lemma_negate();
    w.lemma_times_commutes(f);
    w.lemma_times_commutes(b);
    f.lemma_times_negate(w);
    f.times(w).lemma_negate();
    let (u, v) = (w.times(a), w.times(b));
    u.lemma_times_commutes(a);
    v.lemma_times_commutes(a);
    a.lemma_times_monotone(u, v);
    v.lemma_times_monotone(a, b);
}

proof fn lemma_part_of_size(w: Double, e: Double)
    requires
        w.finite() && e.finite(),
    ensures
        part(w, e) == part(w, e.abs()),
{
    if e.negative() {
        e.lemma_negate();
        w.lemma_times_commutes(e);
        w.lemma_times_commutes(e.negate());
        e.lemma_times_negate(w);
        let p = e.times(w);
        p.lemma_times_negate(e);
        e.lemma_product_order(w, e, w);
        assert(e.abs() == e.negate());
    }
}

/// The price of a step is never negative. It is nothing where the step is on the path,
/// along it, at its speed and without a change of curvature. It grows with the size of
/// each error, whichever side the error is on.
pub proof fn law_price(
    c: Candidate,
    e_lat: Double,
    psi: Double,
    dv: Double,
    dk: Double,
    e_lat2: Double,
    psi2: Double,
    dv2: Double,
    dk2: Double,
)
    requires
        c.config.valid(),
        e_lat.finite() && psi.finite() && dv.finite() && dk.finite(),
        e_lat2.finite() && psi2.finite() && dv2.finite() && dk2.finite(),
        e_lat.mag() <= e_lat2.mag() && psi.mag() <= psi2.mag(),
        dv.mag() <= dv2.mag() && dk.mag() <= dk2.mag(),
        c.config.w_lat.times(e_lat2).finite() && c.config.w_head.times(psi2).finite(),
        c.config.w_speed.times(dv2).finite() && c.config.w_dkappa.times(dk2).finite(),
    ensures
        Double::zero().le(c.price(e_lat, psi, dv, dk)),
        c.price(e_lat, psi, dv, dk).le(c.price(e_lat2, psi2, dv2, dk2)),
        e_lat.mag() == 0 && psi.mag() == 0 && dv.mag() == 0 && dk.mag() == 0 ==> c.price(
            e_lat,
            psi,
            dv,
            dk,
        ).key() == 0,
        e_lat.mag() == e_lat2.mag() && psi.mag() == psi2.mag() && dv.mag() == dv2.mag()
            && dk.mag() == dk2.mag() ==> c.price(e_lat, psi, dv, dk) == c.price(
            e_lat2,
            psi2,
            dv2,
            dk2,
        ),
{
    let g = c.config;
    lemma_part(g.w_lat, e_lat, e_lat2);
    lemma_part(g.w_head, psi, psi2);
    lemma_part(g.w_speed, dv, dv2);
    lemma_part(g.w_dkappa, dk, dk2);
    let (a, b) = (part(g.w_lat, e_lat), part(g.w_head, psi));
    let (d, e) = (part(g.w_speed, dv), part(g.w_dkappa, dk));
    let (a2, b2) = (part(g.w_lat, e_lat2), part(g.w_head, psi2));
    let (d2, e2) = (part(g.w_speed, dv2), part(g.w_dkappa, dk2));
    a.lemma_plus_nonnegative(b);
    a.plus(b).lemma_plus_nonnegative(d);
    a.plus(b).plus(d).lemma_plus_nonnegative(e);
    a2.lemma_plus_nonnegative(b2);
    a2.plus(b2).lemma_plus_nonnegative(d2);
    a2.plus(b2).plus(d2).lemma_plus_nonnegative(e2);
    Double::lemma_plus_monotone(a, a2, b, b2);
    Double::lemma_plus_monotone(a.plus(b), a2.plus(b2), d, d2);
    Double::lemma_plus_monotone(a.plus(b).plus(d), a2.plus(b2).plus(d2), e, e2);
    if e_lat.mag() == 0 && psi.mag() == 0 && dv.mag() == 0 && dk.mag() == 0 {
        g.w_lat.lemma_times_zero(e_lat);
        g.w_lat.times(e_lat).lemma_times_zero(e_lat);
        g.w_head.lemma_times_zero(psi);
        g.w_head.times(psi).lemma_times_zero(psi);
        g.w_speed.lemma_times_zero(dv);
        g.w_speed.times(dv).lemma_times_zero(dv);
        g.w_dkappa.lemma_times_zero(dk);
        g.w_dkappa.times(dk).lemma_times_zero(dk);
        a.lemma_plus_nothing(b);
        a.plus(b).lemma_plus_nothing(d);
        a.plus(b).plus(d).lemma_plus_nothing(e);
    }
}

/// The offsets of curvature that are tried lie evenly on both sides: three to the right,
/// none, and three to the left.
pub proof fn law_offsets_are_even(i: u64)
    requires
        i <= 6,
    ensures
        opposite(kappa_offset(i), kappa_offset((6 - i) as u64)),
        kappa_offset(i).finite(),
        i < 3 ==> kappa_offset(i).key() < 0,
        i == 3 ==> kappa_offset(i).mag() == 0,
        i > 3 ==> kappa_offset(i).key() > 0,
{
    Double::lemma_ratio_number(1, 10);
    Double::lemma_ratio_number(25, 100);
    Double::ratio(1, 10).lemma_negate();
    Double::ratio(25, 100).lemma_negate();
    Double::half().lemma_negate();
}

/// The candidates come in groups of three with one curvature each: one that speeds up, one
/// that keeps its speed and one that brakes. None steers beyond the limit, and each starts
/// from the speed that is driven and asked for, whichever is more.
pub proof fn law_candidates<'a>(
    m: TrackingMpc,
    state: RobotState,
    obstacles: &'a [Obstacle],
    r: Reference<'a>,
    prev: Double,
    seed: Double,
    j: u64,
)
    requires
        j <= 6,
        Double::zero().le(m.dwa.max_curvature) && m.dwa.max_curvature.finite(),
        seed.finite(),
    ensures
        ({
            let c = |i: int| m.candidate(state, obstacles, r, prev, seed, (3 * j + i) as u64);
            let limit = m.dwa.max_curvature;
            &&& c(0).kappa1 == c(1).kappa1 && c(1).kappa1 == c(2).kappa1
            &&& limit.negate().le(c(0).kappa1) && c(0).kappa1.le(limit)
            &&& j == 3 && limit.negate().le(seed) && seed.le(limit) ==> alike(
                c(0).kappa1,
                seed,
            )
            &&& j <= 3 && seed.le(limit) ==> c(0).kappa1.le(seed.max(limit.negate()))
            &&& j >= 3 && limit.negate().le(seed) ==> seed.min(limit).le(c(0).kappa1)
            &&& c(0).accel == m.dwa.max_acceleration
            &&& c(1).accel == Double::zero()
            &&& c(2).accel == m.dwa.max_deceleration.negate()
            &&& !prev.nan() ==> prev.le(c(0).v0)
            &&& !state.linear_vel.nan() ==> state.linear_vel.le(c(0).v0)
            &&& Double::zero().le(c(0).v0)
        }),
{
    let limit = m.dwa.max_curvature;
    let o = kappa_offset(j);
    limit.lemma_negate();
    assert((3 * j) / 3 == j && (3 * j + 1) / 3 == j && (3 * j + 2) / 3 == j);
    assert((3 * j) % 3 == 0 && (3 * j + 1) % 3 == 1 && (3 * j + 2) % 3 == 2);
    law_offsets_are_even(j);
    o.lemma_times_keeps_side(limit);
    let d = o.times(limit);
    d.lemma_negate();
    if j >= 3 {
        seed.lemma_plus_grows(d);
    }
    if j <= 3 {
        seed.lemma_minus_shrinks(d.negate());
    }
    if j == 3 {
        limit.lemma_times_zero(o);
        seed.lemma_plus_nothing(d);
    }
}

/// The segment of a way along the reference begins no later than the way ends, and is the
/// last that does.
pub proof fn law_reference_segment(r: Reference, s: Double, n: int, j: int)
    requires
        1 <= n,
        0 < j < n,
        !s.nan(),
        forall|k: int| 0 <= k < n ==> !(#[trigger] r.along(k)).nan(),
    ensures
        ({
            let i = r.segment(s, n);
            &&& 0 <= i < n
            &&& i > 0 ==> r.along(i).le(s)
            &&& j > i ==> s.lt(r.along(j))
        }),
    decreases n,
{
    let last = n - 1;
    assert(!r.along(last).nan());
    if n > 1 && s.lt(r.along(n - 1)) {
        if j < n - 1 {
            law_reference_segment(r, s, n - 1, j);
        } else if n > 2 {
            law_reference_segment(r, s, n - 1, 1);
        }
    }
}

/// Between two points of the reference the speed lies between theirs; at the first of
/// them it is its own.
pub proof fn law_reference_speed_between(r: Reference, s: Double)
    requires
        ({
            let at = s.clamp(Double::zero(), r.total());
            let i = r.segment(at, r.run@.len() - 1);
            let (v, w) = (r.speed(i), r.speed(i + 1));
            &&& v.finite() && w.finite() && w.minus(v).finite()
            &&& !at.minus(r.along(i)).over(
                r.along(i + 1).minus(r.along(i)).max(tolerance()),
            ).nan()
        }),
    ensures
        ({
            let at = s.clamp(Double::zero(), r.total());
            let i = r.segment(at, r.run@.len() - 1);
            let (v, w) = (r.speed(i), r.speed(i + 1));
            let (u, end) = (r.speed_at(s), v.plus(w.minus(v)));
            &&& v.le(w) ==> v.le(u) && u.le(end)
            &&& w.le(v) ==> end.le(u) && u.le(v)
            &&& at == r.along(i) && at.finite() ==> alike(u, v)
        }),
{
    let at = s.clamp(Double::zero(), r.total());
    let i = r.segment(at, r.run@.len() - 1);
    let (v, w) = (r.speed(i), r.speed(i + 1));
    let d = w.minus(v);
    let len = r.along(i + 1).minus(r.along(i)).max(tolerance());
    let (z, one) = (Double::zero(), Double::one());
    let t = at.minus(r.along(i)).over(len).clamp(z, one);
    let p = t.times(d);
    d.lemma_times_within(t);
    d.lemma_times_commutes(t);
    w.lemma_minus(v);
    v.lemma_order(w);
    w.lemma_order(v);
    lemma_rounded_zero();
    if v.le(w) {
        lemma_rounded_monotone(0, w.value() - v.value());
    }
    if w.le(v) {
        lemma_rounded_monotone(w.value() - v.value(), 0);
    }
    v.lemma_plus(p);
    v.lemma_plus(d);
    p.lemma_order(d);
    d.lemma_order(p);
    v.lemma_rounded_value();
    p.lemma_rounded_value();
    d.lemma_rounded_value();
    if d.key() >= 0 {
        lemma_rounded_monotone(v.value(), v.value() + p.value());
        lemma_rounded_monotone(v.value() + p.value(), v.value() + d.value());
    }
    if d.key() <= 0 {
        lemma_rounded_monotone(v.value() + p.value(), v.value());
        lemma_rounded_monotone(v.value() + d.value(), v.value() + p.value());
    }
    if at == r.along(i) && at.finite() {
        at.lemma_taken_away();
        let q = at.minus(at);
        lemma_tolerance();
        if len.finite() {
            q.lemma_over_side(len);
        } else {
            reveal(Double::spec_over);
        }
        d.lemma_times_zero(t);
        v.lemma_plus_nothing(p);
    }
}

proof fn lemma_tolerance()
    ensures
        tolerance().positive(),
{
    Double::lemma_ratio_number(1, 1_000_000_000);
}

/// The tracker declines near the end of its run, where it is to stand, and where it rolls
/// back: by its last command or by its speed.
pub proof fn law_tracker_declines(
    m: TrackingMpc,
    tr: Trig,
    state: RobotState,
    r: Reference,
    prev: Double,
)
    requires
        prev.lt(Double::ratio(1, 1_000_000).negate()) || state.linear_vel.lt(
            Double::ratio(5, 100).negate(),
        ) || r.leg_speed.le(Double::zero()) || (projection(
            tr,
            r.run@,
            state.x,
            state.y,
        ) matches Some(q) && q.s_remaining.lt(m.config.finish_m)) || r.run@.len() < 2
            || !m.config.enabled,
    ensures
        !m.engages(tr, state, r, prev),
{
}

/// A candidate that starts with the curvature of the cycle before pays nothing more; any
/// other pays the more the farther it is from it, and none pays less than its own cost.
pub proof fn law_steady_steering_is_cheaper(
    m: TrackingMpc,
    cost: Double,
    kappa: Double,
    farther: Double,
)
    requires
        cost.nonnegative() && kappa.finite() && farther.finite(),
        m.config.w_kappa_cont.nonnegative(),
        m.prev_kappa1 matches Some(k) ==> {
            &&& k.finite() && farther.minus(k).finite() && farther.minus(k).square().finite()
            &&& kappa.minus(k).mag() <= farther.minus(k).mag()
        },
    ensures
        cost.le(m.total(cost, kappa)),
        m.total(cost, kappa).le(m.total(cost, farther)),
        m.prev_kappa1 is None || m.prev_kappa1 == Some(kappa) ==> alike(m.total(cost, kappa), cost),
{
    let z = Double::zero();
    cost.lemma_plus_nothing(z);
    if let Some(k) = m.prev_kappa1 {
        let (a, b) = (kappa.minus(k), farther.minus(k));
        kappa.lemma_minus(k);
        let (x, y) = (a.abs(), b.abs());
        a.lemma_square_opposite(x);
        b.lemma_square_opposite(y);
        x.lemma_times_monotone(x, y);
        y.lemma_times_monotone(x, y);
        x.lemma_times_commutes(y);
        let w = m.config.w_kappa_cont;
        w.lemma_times_monotone(a.square(), b.square());
        let (p, q) = (w.times(a.square()), w.times(b.square()));
        cost.lemma_plus_grows(p);
        cost.lemma_plus_nonnegative(p);
        cost.lemma_plus_nonnegative(q);
        Double::lemma_plus_monotone(cost, cost, p, q);
        if k == kappa {
            k.lemma_taken_away();
            a.lemma_times_zero(a);
            w.lemma_times_zero(a.square());
            cost.lemma_plus_nothing(p);
        }
    }
}

/// A candidate dawdles where it stays above the reference without braking. One that is no
/// faster than the reference does not, nor does one that brakes all it can; one that is
/// faster and does not brake does.
pub proof fn law_dawdling(c: Candidate, v: Double, next: Double, vr: Double)
    requires
        c.dwa.max_deceleration.nonnegative() && c.config.dt.nonnegative(),
        c.dwa.max_deceleration.times(c.config.dt).finite(),
        v.finite() && next.finite() && vr.finite(),
    ensures
        ({
            let all = c.dwa.max_deceleration.times(c.config.dt);
            let most = all.times(Double::ratio(99, 100));
            &&& next.le(vr) ==> !c.dawdles(v, next, vr)
            &&& next.le(v.minus(all)) ==> !c.dawdles(v, next, vr)
            &&& v.le(next) && vr.plus(Double::ratio(1, 1_000_000)).lt(next) && v.minus(most).plus(
                Double::ratio(1, 1_000_000_000),
            ).lt(v) ==> c.dawdles(v, next, vr)
        }),
{
    let all = c.dwa.max_deceleration.times(c.config.dt);
    let part = Double::ratio(99, 100);
    let most = all.times(part);
    Double::lemma_ratio_number(99, 100);
    Double::lemma_ratio_le_one(99, 100);
    Double::lemma_ratio_number(1, 1_000_000);
    Double::lemma_ratio_number(1, 1_000_000_000);
    c.dwa.max_deceleration.lemma_times_monotone(c.config.dt, c.config.dt);
    all.lemma_times_shrinks(part);
    vr.lemma_plus_grows(Double::ratio(1, 1_000_000));
    v.lemma_minus(all);
    v.lemma_minus(most);
    Double::lemma_minus_monotone(v, v, all, most);
    if v.minus(most).finite() {
        v.minus(most).lemma_plus_grows(Double::ratio(1, 1_000_000_000));
    } else {
        v.lemma_minus_shrinks(most);
        v.lemma_minus_shrinks(all);
    }
}

/// Past its first phase a candidate goes after the speed of its reference: it does not slow
/// down below it, nor speed up above it. A step on the path, along it, at the reference's
/// speed and with the curvature before it costs nothing.
pub proof fn law_candidate_follows_its_reference(c: Candidate, tr: Trig, i: int, r: Roll)
    requires
        c.config.valid() && c.dwa.valid(),
        i >= c.phase1,
        r.v.nonnegative(),
        r.cost.nonnegative(),
        c.next(tr, i, r) is Some,
        ({
            let here = projection(tr, c.reference.run@, r.pose.x, r.pose.y)->0;
            let vr = c.reference.speed_at(c.reference.total().minus(here.s_remaining));
            vr.nonnegative() && vr.minus(r.v).finite() && vr.minus(r.v).over(
                c.config.dt,
            ).finite()
        }),
    ensures
        ({
            let here = projection(tr, c.reference.run@, r.pose.x, r.pose.y)->0;
            let vr = c.reference.speed_at(c.reference.total().minus(here.s_remaining));
            let q = c.next(tr, i, r)->0;
            let there = projection(tr, c.reference.run@, q.pose.x, q.pose.y)->0;
            &&& r.v.le(vr) ==> r.v.le(q.v)
            &&& vr.le(r.v) ==> q.v.le(r.v)
            &&& there.e_lat.mag() == 0 && q.pose.theta == there.tangent && q.v == vr && q.kappa
                == r.kappa && q.pose.theta.finite() && q.kappa.finite() ==> alike(q.cost, r.cost)
        }),
{
    let here = projection(tr, c.reference.run@, r.pose.x, r.pose.y)->0;
    let vr = c.reference.speed_at(c.reference.total().minus(here.s_remaining));
    let (dt, z) = (c.config.dt, Double::zero());
    let (down, up) = (c.dwa.max_deceleration.negate(), c.dwa.max_acceleration);
    let gap = vr.minus(r.v);
    let a = gap.over(dt).clamp(down, up);
    c.dwa.max_deceleration.lemma_negate();
    vr.lemma_minus(r.v);
    vr.lemma_order(r.v);
    r.v.lemma_order(vr);
    lemma_rounded_zero();
    if r.v.le(vr) {
        lemma_rounded_monotone(0, vr.value() - r.v.value());
    }
    if vr.le(r.v) {
        lemma_rounded_monotone(vr.value() - r.v.value(), 0);
    }
    gap.lemma_over_side(dt);
    a.lemma_times_keeps_side(dt);
    let d = a.times(dt);
    d.lemma_negate();
    if gap.key() >= 0 {
        r.v.lemma_plus_grows(d);
    }
    if gap.key() <= 0 {
        r.v.lemma_minus_shrinks(d.negate());
    }
    let slowest = r.v.minus(c.dwa.max_deceleration.times(dt));
    c.dwa.max_deceleration.lemma_times_monotone(dt, dt);
    r.v.lemma_minus_shrinks(c.dwa.max_deceleration.times(dt));
    let q = c.next(tr, i, r)->0;
    let there = projection(tr, c.reference.run@, q.pose.x, q.pose.y)->0;
    if there.e_lat.mag() == 0 && q.pose.theta == there.tangent && q.v == vr && q.kappa == r.kappa
        && q.pose.theta.finite() && q.kappa.finite() {
        let (psi, dv, dk) = (
            q.pose.theta.minus(there.tangent),
            q.v.minus(vr),
            q.kappa.minus(r.kappa),
        );
        q.pose.theta.lemma_taken_away();
        q.v.lemma_taken_away();
        q.kappa.lemma_taken_away();
        lemma_turn();
        lemma_decode_zero();
        law_wrap(psi);
        let w = wrap(psi);
        let g = c.config;
        g.w_lat.lemma_times_zero(there.e_lat);
        g.w_head.lemma_times_zero(w);
        g.w_speed.lemma_times_zero(dv);
        g.w_dkappa.lemma_times_zero(dk);
        law_price(c, there.e_lat, w, dv, dk, there.e_lat, w, dv, dk);
        r.cost.lemma_plus_nothing(c.price(there.e_lat, w, dv, dk));
    }
}

/// While it is checked that a candidate can stop, the steps are short in time and space.
/// Over the way of the reaction the speed stays, and from there on it falls.
pub proof fn law_stop_is_stepped(c: Candidate, v: Double, travel: Double)
    requires
        v.positive() && travel.finite(),
        c.dwa.max_deceleration.nonnegative(),
        check_spacing().over(v).finite(),
        v.times(check_spacing().over(v).min(Double::ratio(5, 100))).finite(),
    ensures
        ({
            let (sub, slow, far) = c.slowed(v, travel);
            &&& sub.le(Double::ratio(5, 100)) && sub.le(check_spacing().over(v))
            &&& Double::zero().le(sub)
            &&& travel.le(far)
            &&& far.le(Double::zero()) ==> slow == v
            &&& slow.le(v)
            &&& Double::zero().lt(far) ==> slow == v.minus(
                c.dwa.max_deceleration.times(sub),
            ).max(Double::zero())
        }),
{
    Double::lemma_ratio_number(5, 100);
    Double::lemma_over_monotone(check_spacing(), check_spacing(), v);
    let sub = check_spacing().over(v).min(Double::ratio(5, 100));
    v.lemma_times_monotone(sub, sub);
    travel.lemma_plus_grows(v.times(sub));
    c.dwa.max_deceleration.lemma_times_monotone(sub, sub);
    v.lemma_minus_shrinks(c.dwa.max_deceleration.times(sub));
}

/// The reference asks for no more speed than is wanted or allowed and for less braking
/// than the robot can do; the first phase has at least one step and fits the horizon.
pub proof fn law_reference_can_be_driven<'a>(
    m: TrackingMpc,
    run: &'a [PathWaypoint],
    desired: Double,
    stop: bool,
)
    requires
        !desired.nan(),
        Double::zero().le(m.dwa.max_speed),
        m.dwa.max_deceleration.nonnegative(),
        m.config.horizon_steps >= 1,
    ensures
        ({
            let r = m.reference(run, desired, stop);
            &&& r.leg_speed.le(m.dwa.max_speed)
            &&& Double::zero().le(desired) ==> r.leg_speed.le(desired)
            &&& Double::zero().le(r.leg_speed)
            &&& r.decel.le(m.dwa.max_deceleration) && Double::zero().le(r.decel)
            &&& r.run == run && r.stop_at_end == stop && r.a_lat_max == m.config.a_lat_max
            &&& 1 <= m.phase1() <= m.config.horizon_steps
        }),
{
    Double::lemma_ratio_number(7, 10);
    Double::lemma_ratio_le_one(7, 10);
    m.dwa.max_deceleration.lemma_times_shrinks(Double::ratio(7, 10));
    m.dwa.max_deceleration.lemma_times_commutes(Double::ratio(7, 10));
}

} // verus!
