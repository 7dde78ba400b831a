//! Laws of the local planner as a whole.
use crate::global_planner::{PathWaypoint, SegmentDir};
use crate::ieee::double::Double;
use crate::local_planner::dwa::infeasible_stop;
use crate::local_planner::motion::{stepped, unrolled, RobotState, TrajPoint};
use crate::local_planner::obstacle::Obstacle;
use crate::local_planner::planner::{idle, Executor, LocalPlanner};
use crate::local_planner::pursuit::{PursuitCommand, PursuitDefer};
use crate::local_planner::reverse::{escape_rates, frontal};
use crate::local_planner::run::first_run;
use crate::trig::Trig;
use vstd::prelude::*;

verus! {

/// Without a path the robot stops in full confidence.
pub proof fn law_no_path_is_a_confident_stop<'a>(
    p: LocalPlanner,
    tr: Trig,
    state: RobotState,
    path: &'a [PathWaypoint],
    obstacles: &'a [Obstacle],
    desired: Double,
)
    requires
        path@.len() == 0,
    ensures
        p.next_plan(tr, state, path, obstacles, desired) == (
            idle(),
            None::<PursuitDefer>,
        ),
        idle().command.linear_x == Double::zero(),
        idle().command.angular_z == Double::zero(),
        idle().trajectory.len() == 0,
{
}

/// On a run in reverse only the pursuit drives. Where it is blocked the robot
/// stops, with the confidence of a plan that failed.
pub proof fn law_reverse_is_the_pursuits<'a>(
    p: LocalPlanner,
    tr: Trig,
    state: RobotState,
    path: &'a [PathWaypoint],
    obstacles: &'a [Obstacle],
    desired: Double,
)
    requires
        path@.len() > 0,
        first_run(path@).1 == SegmentDir::Reverse,
    ensures
        ({
            let (plan, reason) = p.next_plan(tr, state, path, obstacles, desired);
            &&& plan.executor == Executor::Pursuit
            &&& reason is Some ==> plan.command == infeasible_stop() && !plan.planned_maneuver
        }),
{
    reveal(LocalPlanner::followed_plan);
}

/// The speed of the last command is remembered, whatever gave it: the next
/// command of the pursuit sets out from there.
pub proof fn law_speed_is_remembered<'a>(
    p: LocalPlanner,
    next: LocalPlanner,
    tr: Trig,
    state: RobotState,
    path: &'a [PathWaypoint],
    obstacles: &'a [Obstacle],
    desired: Double,
    later: RobotState,
)
    requires
        next.remembers(p, tr, state, path, obstacles, desired),
    ensures
        next.prev_v(later) == p.next_plan(tr, state, path, obstacles, desired).0.command.linear_x,
{
}

/// A reason for passing the pursuit over is given exactly where it was asked
/// and gave no command.
pub proof fn law_reason_is_the_pursuits<'a>(
    p: LocalPlanner,
    tr: Trig,
    state: RobotState,
    path: &'a [PathWaypoint],
    obstacles: &'a [Obstacle],
    desired: Double,
)
    ensures
        ({
            let reason = p.next_plan(tr, state, path, obstacles, desired).1;
            let says = p.pursuit_says(tr, state, path@, obstacles, desired);
            &&& reason is Some <==> path@.len() > 0 && p.followed_plan(
                tr,
                state,
                path,
                obstacles,
                desired,
            ) is None && says is Err
            &&& reason is Some ==> says == Err::<PursuitCommand, _>(
                reason->0,
            )
        }),
{
}

/// A planned manoeuvre is only ever the pursuit's.
pub proof fn law_manoeuvres_are_the_pursuits<'a>(
    p: LocalPlanner,
    tr: Trig,
    state: RobotState,
    path: &'a [PathWaypoint],
    obstacles: &'a [Obstacle],
    desired: Double,
)
    requires
        p.next_plan(tr, state, path, obstacles, desired).0.planned_maneuver,
    ensures
        p.next_plan(tr, state, path, obstacles, desired).0.executor == Executor::Pursuit,
{
}

/// A trajectory is finite throughout and has no more poses than the horizon has
/// steps.
pub proof fn law_trajectory_is_finite(
    tr: Trig,
    p: TrajPoint,
    v: Double,
    w: Double,
    dt: Double,
    n: nat,
)
    ensures
        unrolled(tr, p, v, w, dt, n).len() <= n,
        forall|i: int|
            0 <= i < unrolled(tr, p, v, w, dt, n).len() ==> (#[trigger] unrolled(
                tr,
                p,
                v,
                w,
                dt,
                n,
            )[i]).finite_pose(),
    decreases n,
{
    let q = stepped(tr, p, v, w, dt);
    if n > 0 && q.finite_pose() {
        law_trajectory_is_finite(tr, q, v, w, dt, (n - 1) as nat);
        let rest = unrolled(tr, q, v, w, dt, (n - 1) as nat);
        let all = unrolled(tr, p, v, w, dt, n);
        assert(all == seq![q] + rest);
        assert forall|i: int| 0 <= i < all.len() implies (#[trigger] all[i]).finite_pose() by {
            if i > 0 {
                assert(all[i] == rest[i - 1]);
            }
        }
    }
}

proof fn lemma_frontal_side(tr: Trig, state: RobotState, obstacles: Seq<Obstacle>, n: int)
    ensures
        frontal(tr, state, obstacles, n).0 == Double::zero() || frontal(
            tr,
            state,
            obstacles,
            n,
        ).0.mag() == Double::one().mag(),
    decreases n,
{
    if n > 0 {
        lemma_frontal_side(tr, state, obstacles, n - 1);
    }
}

/// The way out that is preferred turns the nose away from the obstacle ahead;
/// all ways turn at the same rate, if at all.
pub proof fn law_escape_turns_away(
    tr: Trig,
    state: RobotState,
    obstacles: Seq<Obstacle>,
    rate: Double,
)
    requires
        rate.positive(),
    ensures
        ({
            let side = frontal(tr, state, obstacles, obstacles.len() as int).0;
            let rates = escape_rates(side, rate);
            &&& side == Double::zero() ==> rates == seq![Double::zero()]
            &&& side != Double::zero() ==> rates.len() == 3 && rates[0].mag() == rate.mag()
                && rates[0].negative() != side.negative() && rates[1] == Double::zero()
                && rates[2].mag() == rate.mag() && rates[2].negative() == side.negative()
        }),
{
    let side = frontal(tr, state, obstacles, obstacles.len() as int).0;
    lemma_frontal_side(tr, state, obstacles, obstacles.len() as int);
    if side != Double::zero() {
        side.lemma_times_sign(rate);
        side.negate().lemma_times_sign(rate);
    }
}

} // verus!
