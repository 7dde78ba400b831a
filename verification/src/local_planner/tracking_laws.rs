//! Laws of the tracking.
use crate::global_planner::PathWaypoint;
use crate::ieee::double::Double;
use crate::local_planner::motion::{RobotState, TrajPoint};
use crate::local_planner::obstacle::Obstacle;
use crate::local_planner::tracking_mpc::{Candidate, Reference, TrackingMpc};
use crate::trig::Trig;
use vstd::prelude::*;

verus! {

/// The reference speed is nowhere above the one asked for, and at the end of a
/// run that is to be stopped at it is zero.
pub proof fn law_reference_speed(r: Reference, i: int)
    requires
        0 <= i < r.run@.len(),
        Double::zero().le(r.leg_speed),
    ensures
        r.speed(i).le(r.leg_speed),
        r.stop_at_end && i == r.run@.len() - 1 ==> r.speed(i) == Double::zero(),
{
}

/// From the reference speed at one waypoint, comfortable braking leads to that
/// at the next.
pub proof fn law_reference_can_be_braked(r: Reference, i: int)
    requires
        0 <= i < r.run@.len() - 1,
        Double::zero().le(r.leg_speed),
    ensures
        ({
            let ds = r.along(i + 1).minus(r.along(i));
            let meets = r.speed(i + 1).square().plus(
                Double::of(2).times(r.decel).times(ds),
            ).sqrt();
            !meets.nan() ==> r.speed(i).le(meets)
        }),
{
}

/// No bend brings the reference below 0.2 m/s, unless less is asked for.
pub proof fn law_bends_keep_rolling(r: Reference, i: int)
    requires
        0 <= i < r.run@.len(),
        !r.leg_speed.nan(),
    ensures
        r.leg_speed.min(Double::ratio(2, 10)).le(r.bend_speed(i)),
{
    Double::lemma_ratio_le_one(2, 10);
}

/// The speed of a step can be driven: it is not negative, drops no faster than the
/// brakes allow, rises no faster than the drive allows, and is above the
/// reference only where braking cannot do better.
pub proof fn law_step_can_be_driven(c: Candidate, v: Double, a: Double, vr: Double)
    requires
        c.dwa.valid(),
        c.config.valid(),
        v.nonnegative(),
        a.finite(),
        c.dwa.max_deceleration.negate().le(a),
        a.le(c.dwa.max_acceleration),
    ensures
        ({
            let next = c.next_speed(v, a, vr);
            let slowest = v.minus(c.dwa.max_deceleration.times(c.config.dt));
            &&& Double::zero().le(next)
            &&& slowest.le(next)
            &&& next.le(v.plus(c.dwa.max_acceleration.times(c.config.dt)))
            &&& next.le(vr.max(slowest).max(Double::zero()))
        }),
{
    let dt = c.config.dt;
    let (fall, rise) = (c.dwa.max_deceleration, c.dwa.max_acceleration);
    Double::lemma_times_order(fall.negate(), a, dt);
    Double::lemma_times_order(a, rise, dt);
    fall.lemma_times_positive(dt);
    rise.lemma_times_positive(dt);
    assert(fall.negate().times(dt) == fall.times(dt).negate()) by {
        reveal(Double::spec_times);
    }
    assert(!v.plus(fall.times(dt).negate()).nan() && !v.plus(a.times(dt)).nan() && !v.plus(
        rise.times(dt),
    ).nan()) by {
        reveal(Double::spec_plus);
        reveal(Double::spec_times);
    }
    Double::lemma_plus_monotone(v, v, fall.times(dt).negate(), a.times(dt));
    Double::lemma_plus_monotone(v, v, a.times(dt), rise.times(dt));
    v.lemma_plus_nonnegative(rise.times(dt));
}

/// A step of a candidate is clear of every obstacle at each of the poses between
/// its ends too, at the time the robot is there.
pub proof fn law_sweep_stays_clear(
    c: Candidate,
    tr: Trig,
    p: TrajPoint,
    t: Double,
    v: Double,
    w: Double,
    dt: Double,
    k: nat,
    j: nat,
)
    requires
        1 <= j <= k,
        c.swept(tr, p, t, v, w, dt, k) is Some,
    ensures
        c.swept(tr, p, t, v, w, dt, j) is Some,
        ({
            let (q, s) = c.swept(tr, p, t, v, w, dt, j)->0;
            c.open(tr, q, s, c.required(v))
        }),
    decreases k,
{
    if j < k {
        law_sweep_stays_clear(c, tr, p, t, v, w, dt, (k - 1) as nat, j);
    }
}

/// A candidate is clear of every obstacle at each of its poses, at the time it
/// is there. Its speed is never negative.
pub proof fn law_candidate_stays_clear(c: Candidate, tr: Trig, k: nat)
    requires
        k >= 1,
        c.rolled(tr, k) is Some,
    ensures
        ({
            let r = c.rolled(tr, k)->0;
            c.open(tr, r.pose, r.t, c.required(r.v)) && !r.v.lt(Double::zero())
        }),
{
    let before = c.rolled(tr, (k - 1) as nat)->0;
    assert(c.next(tr, k - 1, before) == c.rolled(tr, k));
}

/// What a candidate comes to has a first command, which is that of its first
/// step.
pub proof fn law_first_command(c: Candidate, tr: Trig, k: nat)
    requires
        k >= 1,
        c.rolled(tr, k) is Some,
    ensures
        c.rolled(tr, 1) is Some,
        c.rolled(tr, k)->0.first == c.rolled(tr, 1)->0.first,
        c.rolled(tr, 1)->0.first is Some,
        c.rolled(tr, 1)->0.first->0.linear_x == c.rolled(tr, 1)->0.v,
    decreases k,
{
    reveal_with_fuel(Candidate::rolled, 2);
    if k > 1 {
        law_first_command(c, tr, (k - 1) as nat);
    }
}

/// The candidate that is chosen stays clear, and none that does costs less.
/// None is chosen exactly where none stays clear.
pub proof fn law_best_candidate(
    m: TrackingMpc,
    tr: Trig,
    state: RobotState,
    obstacles: &[Obstacle],
    r: Reference,
    prev: Double,
    n: int,
)
    requires
        0 <= n,
    ensures
        ({
            let best = m.best(tr, state, obstacles, r, prev, n);
            let stays = |k: int|
                m.nth(tr, state, obstacles, r, prev, k).outcome(tr) is Some;
            let cost = |k: int| m.cost_of(tr, state, obstacles, r, prev, k);
            &&& best is None <==> forall|k: int| 0 <= k < n ==> !#[trigger] stays(k)
            &&& best is Some ==> 0 <= best->0 < n && stays(best->0)
            &&& best is Some && !cost(best->0).nan() ==> forall|k: int|
                0 <= k < n && #[trigger] stays(k) ==> !cost(k).lt(cost(best->0))
        }),
    decreases n,
{
    if n > 0 {
        law_best_candidate(m, tr, state, obstacles, r, prev, n - 1);
        let stays = |k: int| m.nth(tr, state, obstacles, r, prev, k).outcome(tr) is Some;
        let before = m.best(tr, state, obstacles, r, prev, n - 1);
        let best = m.best(tr, state, obstacles, r, prev, n);
        if best is Some {
            assert(stays(best->0));
        } else {
            assert(!stays(n - 1));
        }
        assert(forall|k: int| 0 <= k < n - 1 && #[trigger] stays(k) ==> before is Some);
    }
}

/// A run that is not taken on leaves the tracking as it was.
pub proof fn law_declines_without_trace<'a>(
    m: TrackingMpc,
    tr: Trig,
    state: RobotState,
    run: &'a [PathWaypoint],
    obstacles: &'a [Obstacle],
    desired: Double,
    prev: Double,
    stop: bool,
)
    requires
        !m.config.enabled || TrackingMpc::rolls_back(state, prev) || run@.len() < 2,
    ensures
        m.chosen(tr, state, run, obstacles, desired, prev, stop) is None,
        m.after(tr, state, run, obstacles, desired, prev, stop) == m,
{
}

} // verus!
