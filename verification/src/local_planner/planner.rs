//! The local planner: the tracking first, the pursuit beneath it, and the
//! dynamic window or the optimiser where both stand aside.
use crate::geometry::distance;
use crate::global_planner::{PathWaypoint, SegmentDir};
use crate::ieee::double::Double;
use crate::ieee::single::Single;
use crate::local_planner::config::LocalPlannerConfig;
use crate::local_planner::dwa::{decided, infeasible_stop, DwaPlanner};
use crate::local_planner::motion::{rollout, trajectory_of, RobotState, TrajPoint};
use crate::local_planner::mpc::{SimpleMpc, Trial};
use crate::local_planner::obstacle::Obstacle;
use crate::local_planner::pursuit::{PursuitCommand, PursuitDefer, PursuitPlanner};
use crate::local_planner::run::{active_run, active_segment_reverse, first_run};
use crate::local_planner::tracking_mpc::{outline, TrackingMpc};
use crate::local_planner::VelocityCommand;
use crate::trig::{functional, trig_of, Circular, Trig};
use vstd::prelude::*;
use vstd::slice::slice_subrange;

verus! {

/// What gave a command.
#[derive(Clone, Copy, Debug, PartialEq, Eq, Structural)]
pub enum Executor {
    /// The pursuit.
    Pursuit,
    /// The dynamic window, and a deliberate stop.
    Dwa,
    /// The tracking, and the optimiser for tight bends.
    Mpc,
    /// A recovery command that was given from outside.
    Scripted,
}

impl Default for Executor {
    fn default() -> (r: Executor)
        ensures
            r == Executor::Dwa,
    {
        Executor::Dwa
    }
}

impl Executor {
    pub open spec fn name(self) -> &'static str {
        match self {
            Executor::Pursuit => "pursuit",
            Executor::Dwa => "dwa",
            Executor::Mpc => "mpc",
            Executor::Scripted => "scripted",
        }
    }

    /// The name that logs use.
    pub fn as_str(&self) -> (r: &'static str)
        ensures
            r@ == self.name()@,
    {
        match self {
            Executor::Pursuit => "pursuit",
            Executor::Dwa => "dwa",
            Executor::Mpc => "mpc",
            Executor::Scripted => "scripted",
        }
    }
}

/// A command with the trajectory that it leads to.
#[derive(Debug)]
pub struct LocalPlan {
    pub command: VelocityCommand,
    pub trajectory: Vec<TrajPoint>,
    pub executor: Executor,
    /// The command reverses, or stops at a change of direction, as planned: it
    /// is not a sign of being stuck.
    pub planned_maneuver: bool,
}

/// A plan as contracts speak of it.
#[verifier::ext_equal]
pub struct PlanOutline {
    pub command: VelocityCommand,
    pub trajectory: Seq<TrajPoint>,
    pub executor: Executor,
    pub planned_maneuver: bool,
}

impl View for LocalPlan {
    type V = PlanOutline;

    open spec fn view(&self) -> PlanOutline {
        PlanOutline {
            command: self.command,
            trajectory: self.trajectory@,
            executor: self.executor,
            planned_maneuver: self.planned_maneuver,
        }
    }
}

impl Default for LocalPlan {
    fn default() -> (r: LocalPlan)
        ensures
            r@ == (PlanOutline {
                command: VelocityCommand::spec_still(Single { bits: 0 }),
                trajectory: seq![],
                executor: Executor::Dwa,
                planned_maneuver: false,
            }),
    {
        LocalPlan {
            command: VelocityCommand::still(Single { bits: 0 }),
            trajectory: Vec::new(),
            executor: Executor::Dwa,
            planned_maneuver: false,
        }
    }
}

/// The stop where there is no path: deliberate, and so in full confidence.
pub open spec fn idle() -> PlanOutline {
    PlanOutline {
        command: VelocityCommand::still(Single { bits: 0x3f80_0000 }),
        trajectory: seq![],
        executor: Executor::Dwa,
        planned_maneuver: false,
    }
}

fn idle_plan() -> (r: LocalPlan)
    ensures
        r@ == idle(),
{
    LocalPlan {
        command: VelocityCommand::still(Single { bits: 0x3f80_0000 }),
        trajectory: Vec::new(),
        executor: Executor::Dwa,
        planned_maneuver: false,
    }
}

/// The first `n` waypoints of a path.
pub open spec fn prefix<'a>(path: &'a [PathWaypoint], n: int) -> &'a [PathWaypoint] {
    choose|s: &'a [PathWaypoint]| s@ == path@.subrange(0, n)
}

fn take_prefix<'a>(path: &'a [PathWaypoint], n: usize) -> (r: &'a [PathWaypoint])
    requires
        n <= path@.len(),
    ensures
        r == prefix(path, n as int),
        r@ == path@.subrange(0, n as int),
{
    let r = slice_subrange(path, 0, n);
    proof {
        let c = prefix(path, n as int);
        assert(c@ == r@);
        assert(r =~= c);
    }
    r
}

/// The path bends more tightly than `limit` between its first five waypoints.
pub open spec fn bends_tightly(path: Seq<PathWaypoint>, limit: Double) -> bool {
    exists|i: int|
        #![trigger path[i]]
        1 <= i < path.len() && i < 5 && tight_between(path[i - 1], path[i], limit)
}

/// The heading changes more between two waypoints than `limit` per metre.
pub open spec fn spec_tight_between(a: PathWaypoint, b: PathWaypoint, limit: Double) -> bool {
    let far = distance(a.x, a.y, b.x, b.y);
    Double::ratio(1, 100).lt(far) && limit.lt(b.theta.minus(a.theta).abs().over(far))
}

#[verifier::when_used_as_spec(spec_tight_between)]
pub fn tight_between(a: PathWaypoint, b: PathWaypoint, limit: Double) -> (r: bool)
    ensures
        r == spec_tight_between(a, b, limit),
{
    let far = distance(a.x, a.y, b.x, b.y);
    Double::ratio(1, 100).lt(far) && limit.lt(b.theta.minus(a.theta).abs().over(far))
}

/// The local planner.
#[derive(Debug)]
pub struct LocalPlanner {
    pub config: LocalPlannerConfig,
    pub dwa_planner: DwaPlanner,
    pub mpc_planner: SimpleMpc,
    pub pursuit_planner: PursuitPlanner,
    pub tracking_mpc: TrackingMpc,
    /// The optimiser gave the last command.
    pub use_mpc: bool,
    /// Speed (m/s) of the last command, whatever gave it.
    pub prev_cmd_v: Option<Double>,
}

impl LocalPlanner {
    /// The planners work by the configuration.
    pub open spec fn wf(self) -> bool {
        &&& self.config.operable()
        &&& self.dwa_planner.config == self.config.dwa
        &&& self.mpc_planner.config == self.config.mpc
        &&& self.mpc_planner.prev_controls@.len() == self.config.mpc.horizon
        &&& self.pursuit_planner == (PursuitPlanner {
            config: self.config.pursuit,
            dwa: self.config.dwa,
            wheelbase: self.config.mpc.wheelbase,
        })
        &&& self.tracking_mpc.config == self.config.tracking_mpc
        &&& self.tracking_mpc.dwa == self.config.dwa
    }

    pub fn new(config: LocalPlannerConfig) -> (r: LocalPlanner)
        requires
            config.operable(),
        ensures
            r.wf(),
            r.config == config,
            r.dwa_planner == (DwaPlanner { config: config.dwa, prev_cmd_v: None }),
            r.tracking_mpc == (TrackingMpc {
                config: config.tracking_mpc,
                dwa: config.dwa,
                prev_kappa1: None,
            }),
            !r.use_mpc,
            r.prev_cmd_v is None,
    {
        let dwa_planner = DwaPlanner::new(config.dwa);
        let mpc_planner = SimpleMpc::new(config.mpc);
        let pursuit_planner = PursuitPlanner::new(
            config.pursuit,
            config.dwa,
            config.mpc.wheelbase,
        );
        let tracking_mpc = TrackingMpc::new(config.tracking_mpc, config.dwa);
        LocalPlanner {
            config,
            dwa_planner,
            mpc_planner,
            pursuit_planner,
            tracking_mpc,
            use_mpc: false,
            prev_cmd_v: None,
        }
    }

    /// The optimiser, where it runs, has something to optimise, and a speed to go
    /// for that is not negative.
    pub open spec fn can_optimise(self, desired_speed: Double) -> bool {
        self.config.mpc.optimises() && !desired_speed.lt(Double::zero())
    }

    /// Speed (m/s) that the next command is compared to.
    pub open spec fn prev_v(self, state: RobotState) -> Double {
        match self.prev_cmd_v {
            Some(v) => v,
            None => state.linear_vel,
        }
    }

    fn last_speed(&self, state: &RobotState) -> (r: Double)
        ensures
            r == self.prev_v(*state),
    {
        match self.prev_cmd_v {
            Some(v) => v,
            None => state.linear_vel,
        }
    }

    /// A command with the trajectory that it leads to if it is kept.
    pub open spec fn rolled_out(
        self,
        tr: Trig,
        state: RobotState,
        command: VelocityCommand,
        executor: Executor,
        planned_maneuver: bool,
    ) -> PlanOutline {
        PlanOutline {
            command,
            trajectory: trajectory_of(
                tr,
                state,
                command,
                self.config.dwa.sim_time,
                self.config.dwa.sim_dt,
            ),
            executor,
            planned_maneuver,
        }
    }

    /// The configuration and the pursuit are as they were.
    pub open spec fn kept(self, o: LocalPlanner) -> bool {
        &&& self.config == o.config
        &&& self.pursuit_planner == o.pursuit_planner
    }

    /// Gives a command out.
    fn finish<M: Fn(Circular, Double, Double) -> Double>(
        &mut self,
        m: &M,
        state: &RobotState,
        command: VelocityCommand,
        executor: Executor,
        planned_maneuver: bool,
    ) -> (r: LocalPlan)
        requires
            functional(m),
        ensures
            r@ == old(self).rolled_out(
                trig_of(m),
                *state,
                command,
                executor,
                planned_maneuver,
            ),
            *final(self) == (LocalPlanner { prev_cmd_v: Some(command.linear_x), ..*old(self) }),
    {
        self.prev_cmd_v = Some(command.linear_x);
        let trajectory = rollout(
            m,
            state,
            &command,
            self.config.dwa.sim_time,
            self.config.dwa.sim_dt,
        );
        LocalPlan { command, trajectory, executor, planned_maneuver }
    }

    /// What the tracking chooses on the first run of a path.
    #[verifier::opaque]
    pub open spec fn followed_plan<'a>(
        self,
        tr: Trig,
        state: RobotState,
        path: &'a [PathWaypoint],
        obstacles: &'a [Obstacle],
        desired_speed: Double,
    ) -> Option<(VelocityCommand, Seq<TrajPoint>)> {
        if first_run(path@).1 == SegmentDir::Forward {
            self.tracking_mpc.chosen(
                tr,
                state,
                prefix(path, first_run(path@).0 + 1),
                obstacles,
                desired_speed,
                self.prev_v(state),
                true,
            )
        } else {
            None
        }
    }

    /// The tracking after that.
    #[verifier::opaque]
    pub open spec fn tracking_after<'a>(
        self,
        tr: Trig,
        state: RobotState,
        path: &'a [PathWaypoint],
        obstacles: &'a [Obstacle],
        desired_speed: Double,
    ) -> TrackingMpc {
        if path@.len() > 0 && first_run(path@).1 == SegmentDir::Forward {
            self.tracking_mpc.after(
                tr,
                state,
                prefix(path, first_run(path@).0 + 1),
                obstacles,
                desired_speed,
                self.prev_v(state),
                true,
            )
        } else {
            self.tracking_mpc
        }
    }

    /// What the pursuit says.
    #[verifier::opaque]
    pub open spec fn pursuit_says(
        self,
        tr: Trig,
        state: RobotState,
        path: Seq<PathWaypoint>,
        obstacles: &[Obstacle],
        desired_speed: Double,
    ) -> Result<PursuitCommand, PursuitDefer> {
        self.pursuit_planner.pursued(
            tr,
            state,
            path,
            obstacles,
            desired_speed,
            self.prev_v(state),
        )
    }

    /// What the optimiser's search comes to.
    #[verifier::opaque]
    pub open spec fn mpc_trial(
        self,
        tr: Trig,
        state: RobotState,
        path: Seq<PathWaypoint>,
        obstacles: Seq<Obstacle>,
        desired_speed: Double,
    ) -> Trial {
        self.mpc_planner.found(tr, state, path, obstacles, desired_speed)
    }

    /// The command of the optimiser.
    #[verifier::opaque]
    pub open spec fn mpc_command(
        self,
        tr: Trig,
        state: RobotState,
        path: Seq<PathWaypoint>,
        obstacles: Seq<Obstacle>,
        desired_speed: Double,
    ) -> VelocityCommand {
        let t = self.mpc_trial(tr, state, path, obstacles, desired_speed);
        self.mpc_planner.command(tr, t.controls[0], t.cost)
    }

    /// The command of the dynamic window.
    #[verifier::opaque]
    pub open spec fn dwa_command(
        self,
        tr: Trig,
        state: RobotState,
        path: Seq<PathWaypoint>,
        obstacles: &[Obstacle],
        desired_speed: Double,
        radius: Double,
    ) -> VelocityCommand {
        decided(tr, self.dwa_planner.query(state, path, obstacles, desired_speed, radius))
    }

    /// Who gives the next command: none for a deliberate stop.
    pub open spec fn turn_of<'a>(
        self,
        tr: Trig,
        state: RobotState,
        path: &'a [PathWaypoint],
        obstacles: &'a [Obstacle],
        desired_speed: Double,
    ) -> Turn {
        if path@.len() == 0 {
            Turn::Nobody
        } else if self.followed_plan(tr, state, path, obstacles, desired_speed) is Some {
            Turn::Tracking
        } else if self.pursuit_says(tr, state, path@, obstacles, desired_speed) is Ok {
            Turn::Pursuit
        } else if first_run(path@).1 == SegmentDir::Reverse {
            Turn::BlockedReverse
        } else if bends_tightly(path@, self.config.mpc_trigger_curvature) {
            Turn::Optimiser
        } else {
            Turn::Window
        }
    }

    /// The next plan, and why the pursuit was passed over where it was.
    pub open spec fn next_plan<'a>(
        self,
        tr: Trig,
        state: RobotState,
        path: &'a [PathWaypoint],
        obstacles: &'a [Obstacle],
        desired_speed: Double,
    ) -> (PlanOutline, Option<PursuitDefer>) {
        let followed = self.followed_plan(tr, state, path, obstacles, desired_speed);
        let says = self.pursuit_says(tr, state, path@, obstacles, desired_speed);
        match self.turn_of(tr, state, path, obstacles, desired_speed) {
            Turn::Nobody => (idle(), None),
            Turn::Tracking => (
                PlanOutline {
                    command: (followed->0).0,
                    trajectory: (followed->0).1,
                    executor: Executor::Mpc,
                    planned_maneuver: false,
                },
                None,
            ),
            Turn::Pursuit => (
                self.rolled_out(
                    tr,
                    state,
                    says->Ok_0.command,
                    Executor::Pursuit,
                    says->Ok_0.maneuver,
                ),
                None,
            ),
            Turn::BlockedReverse => (
                self.rolled_out(tr, state, infeasible_stop(), Executor::Pursuit, false),
                Some(says->Err_0),
            ),
            Turn::Optimiser => (
                self.rolled_out(
                    tr,
                    state,
                    self.mpc_command(tr, state, path@, obstacles@, desired_speed),
                    Executor::Mpc,
                    false,
                ),
                Some(says->Err_0),
            ),
            Turn::Window => (
                self.rolled_out(
                    tr,
                    state,
                    self.dwa_command(
                        tr,
                        state,
                        path@,
                        obstacles,
                        desired_speed,
                        self.config.dwa.robot_radius,
                    ),
                    Executor::Dwa,
                    false,
                ),
                Some(says->Err_0),
            ),
        }
    }

    /// What the planner remembers after its turn.
    pub open spec fn remembers<'a>(
        self,
        o: LocalPlanner,
        tr: Trig,
        state: RobotState,
        path: &'a [PathWaypoint],
        obstacles: &'a [Obstacle],
        desired_speed: Double,
    ) -> bool {
        let turn = o.turn_of(tr, state, path, obstacles, desired_speed);
        let v = o.next_plan(tr, state, path, obstacles, desired_speed).0.command.linear_x;
        let t = o.mpc_trial(tr, state, path@, obstacles@, desired_speed);
        &&& self.kept(o)
        &&& self.tracking_mpc == o.tracking_after(tr, state, path, obstacles, desired_speed)
        &&& self.prev_cmd_v == Some(v)
        &&& self.use_mpc == match turn {
            Turn::Nobody | Turn::BlockedReverse => o.use_mpc,
            Turn::Optimiser => true,
            _ => false,
        }
        &&& self.dwa_planner == match turn {
            Turn::Tracking | Turn::Pursuit | Turn::Window => DwaPlanner {
                config: o.config.dwa,
                prev_cmd_v: Some(v),
            },
            _ => o.dwa_planner,
        }
        &&& if turn is Optimiser {
            self.mpc_planner.prev_controls@ == t.controls && self.mpc_planner.noise == t.noise
        } else {
            self.mpc_planner == o.mpc_planner
        }
    }

    /// Plans the next command.
    pub fn compute<M: Fn(Circular, Double, Double) -> Double>(
        &mut self,
        m: &M,
        state: &RobotState,
        path: &[PathWaypoint],
        obstacles: &[Obstacle],
        desired_speed: Double,
    ) -> (r: LocalPlan)
        requires
            functional(m),
            old(self).wf(),
            bends_tightly(path@, old(self).config.mpc_trigger_curvature) ==> old(
                self,
            ).can_optimise(desired_speed),
        ensures
            r@ == old(self).next_plan(trig_of(m), *state, path, obstacles, desired_speed).0,
            final(self).wf(),
            final(self).remembers(
                *old(self),
                trig_of(m),
                *state,
                path,
                obstacles,
                desired_speed,
            ),
    {
        self.compute_with_defer(m, state, path, obstacles, desired_speed).0
    }

    /// Plans the next command, and tells why the pursuit was passed over where
    /// it was.
    pub fn compute_with_defer<M: Fn(Circular, Double, Double) -> Double>(
        &mut self,
        m: &M,
        state: &RobotState,
        path: &[PathWaypoint],
        obstacles: &[Obstacle],
        desired_speed: Double,
    ) -> (r: (LocalPlan, Option<PursuitDefer>))
        requires
            functional(m),
            old(self).wf(),
            bends_tightly(path@, old(self).config.mpc_trigger_curvature) ==> old(
                self,
            ).can_optimise(desired_speed),
        ensures
            (r.0@, r.1) == old(self).next_plan(
                trig_of(m),
                *state,
                path,
                obstacles,
                desired_speed,
            ),
            final(self).wf(),
            final(self).remembers(
                *old(self),
                trig_of(m),
                *state,
                path,
                obstacles,
                desired_speed,
            ),
    {
        if path.len() == 0 {
            proof {
                reveal(LocalPlanner::tracking_after);
            }
            self.prev_cmd_v = Some(Double::zero());
            (idle_plan(), None)
        } else {
            self.plan_along(m, state, path, obstacles, desired_speed)
        }
    }

    /// Plans the next command where there is a path.
    fn plan_along<M: Fn(Circular, Double, Double) -> Double>(
        &mut self,
        m: &M,
        state: &RobotState,
        path: &[PathWaypoint],
        obstacles: &[Obstacle],
        desired_speed: Double,
    ) -> (r: (LocalPlan, Option<PursuitDefer>))
        requires
            functional(m),
            old(self).wf(),
            path@.len() > 0,
            bends_tightly(path@, old(self).config.mpc_trigger_curvature) ==> old(
                self,
            ).can_optimise(desired_speed),
        ensures
            (r.0@, r.1) == old(self).next_plan(
                trig_of(m),
                *state,
                path,
                obstacles,
                desired_speed,
            ),
            final(self).wf(),
            final(self).remembers(
                *old(self),
                trig_of(m),
                *state,
                path,
                obstacles,
                desired_speed,
            ),
    {
        let followed = self.follow(m, state, path, obstacles, desired_speed);
        proof {
            LocalPlanner::lemma_others(
                *old(self),
                *self,
                trig_of(m),
                *state,
                path@,
                obstacles,
                desired_speed,
            );
        }
        if let Some((command, trajectory)) = followed {
            self.use_mpc = false;
            self.dwa_planner.note_external_command(command.linear_x);
            self.prev_cmd_v = Some(command.linear_x);
            return (
                LocalPlan {
                    command,
                    trajectory,
                    executor: Executor::Mpc,
                    planned_maneuver: false,
                },
                None,
            );
        }
        let reason = match self.compute_pursuit(m, state, path, obstacles, desired_speed) {
            Ok(plan) => {
                return (plan, None);
            },
            Err(reason) => reason,
        };
        if active_segment_reverse(path) {
            let plan = self.finish(m, state, infeasible_stop(), Executor::Pursuit, false);
            return (plan, Some(reason));
        }
        if self.should_use_mpc(path) {
            let command = self.optimise(m, state, path, obstacles, desired_speed);
            self.use_mpc = true;
            (self.finish(m, state, command, Executor::Mpc, false), Some(reason))
        } else {
            let radius = self.config.dwa.robot_radius;
            let command = self.sample(m, state, path, obstacles, desired_speed, radius);
            self.use_mpc = false;
            (self.finish(m, state, command, Executor::Dwa, false), Some(reason))
        }
    }

    /// The other planners do not depend on the tracking.
    proof fn lemma_others(
        a: LocalPlanner,
        b: LocalPlanner,
        tr: Trig,
        state: RobotState,
        path: Seq<PathWaypoint>,
        obstacles: &[Obstacle],
        desired_speed: Double,
    )
        requires
            b == (LocalPlanner { tracking_mpc: b.tracking_mpc, ..a }),
        ensures
            a.pursuit_says(tr, state, path, obstacles, desired_speed) == b.pursuit_says(
                tr,
                state,
                path,
                obstacles,
                desired_speed,
            ),
            a.mpc_trial(tr, state, path, obstacles@, desired_speed) == b.mpc_trial(
                tr,
                state,
                path,
                obstacles@,
                desired_speed,
            ),
            a.mpc_command(tr, state, path, obstacles@, desired_speed) == b.mpc_command(
                tr,
                state,
                path,
                obstacles@,
                desired_speed,
            ),
            forall|radius: Double| #[trigger]
                a.dwa_command(tr, state, path, obstacles, desired_speed, radius) == b.dwa_command(
                    tr,
                    state,
                    path,
                    obstacles,
                    desired_speed,
                    radius,
                ),
    {
        reveal(LocalPlanner::pursuit_says);
        reveal(LocalPlanner::mpc_trial);
        reveal(LocalPlanner::mpc_command);
        reveal(LocalPlanner::dwa_command);
    }

    /// Asks the tracking, on a first run that goes forward.
    fn follow<M: Fn(Circular, Double, Double) -> Double>(
        &mut self,
        m: &M,
        state: &RobotState,
        path: &[PathWaypoint],
        obstacles: &[Obstacle],
        desired_speed: Double,
    ) -> (r: Option<(VelocityCommand, Vec<TrajPoint>)>)
        requires
            functional(m),
            old(self).wf(),
            path@.len() > 0,
        ensures
            outline(r) == old(self).followed_plan(
                trig_of(m),
                *state,
                path,
                obstacles,
                desired_speed,
            ),
            *final(self) == (LocalPlanner {
                tracking_mpc: old(self).tracking_after(
                    trig_of(m),
                    *state,
                    path,
                    obstacles,
                    desired_speed,
                ),
                ..*old(self)
            }),
            r is Some ==> first_run(path@).1 == SegmentDir::Forward,
            final(self).wf(),
    {
        reveal(LocalPlanner::followed_plan);
        reveal(LocalPlanner::tracking_after);
        let n = path.len();
        let (run_end, run_dir) = active_run(path);
        if run_dir != SegmentDir::Forward {
            return None;
        }
        assert(run_end < n);
        let prev_v = self.last_speed(state);
        let run = take_prefix(path, run_end + 1);
        self.tracking_mpc.compute(m, state, run, obstacles, desired_speed, prev_v, true)
    }

    /// Asks the optimiser.
    fn optimise<M: Fn(Circular, Double, Double) -> Double>(
        &mut self,
        m: &M,
        state: &RobotState,
        path: &[PathWaypoint],
        obstacles: &[Obstacle],
        desired_speed: Double,
    ) -> (r: VelocityCommand)
        requires
            functional(m),
            old(self).wf(),
            path@.len() > 0,
            old(self).can_optimise(desired_speed),
        ensures
            r == old(self).mpc_command(trig_of(m), *state, path@, obstacles@, desired_speed),
            ({
                let t = old(self).mpc_trial(
                    trig_of(m),
                    *state,
                    path@,
                    obstacles@,
                    desired_speed,
                );
                &&& final(self).mpc_planner.prev_controls@ == t.controls
                &&& final(self).mpc_planner.noise == t.noise
            }),
            *final(self) == (LocalPlanner {
                mpc_planner: final(self).mpc_planner,
                ..*old(self)
            }),
            final(self).wf(),
    {
        reveal(LocalPlanner::mpc_trial);
        reveal(LocalPlanner::mpc_command);
        self.mpc_planner.compute(m, state, path, obstacles, desired_speed)
    }

    /// Asks the dynamic window.
    fn sample<M: Fn(Circular, Double, Double) -> Double>(
        &mut self,
        m: &M,
        state: &RobotState,
        path: &[PathWaypoint],
        obstacles: &[Obstacle],
        desired_speed: Double,
        radius: Double,
    ) -> (r: VelocityCommand)
        requires
            functional(m),
            old(self).wf(),
        ensures
            r == old(self).dwa_command(
                trig_of(m),
                *state,
                path@,
                obstacles,
                desired_speed,
                radius,
            ),
            *final(self) == (LocalPlanner {
                dwa_planner: DwaPlanner {
                    config: old(self).config.dwa,
                    prev_cmd_v: Some(r.linear_x),
                },
                ..*old(self)
            }),
            final(self).wf(),
    {
        reveal(LocalPlanner::dwa_command);
        self.dwa_planner.compute_with_radius(m, state, path, obstacles, desired_speed, radius)
    }

    /// Plans with the pursuit alone.
    pub fn compute_pursuit<M: Fn(Circular, Double, Double) -> Double>(
        &mut self,
        m: &M,
        state: &RobotState,
        path: &[PathWaypoint],
        obstacles: &[Obstacle],
        desired_speed: Double,
    ) -> (r: Result<LocalPlan, PursuitDefer>)
        requires
            functional(m),
            old(self).wf(),
        ensures
            final(self).wf(),
            match old(self).pursuit_says(
                trig_of(m),
                *state,
                path@,
                obstacles,
                desired_speed,
            ) {
                Err(reason) => r == Err::<LocalPlan, _>(reason) && *final(self) == *old(self),
                Ok(c) => {
                    &&& r is Ok
                    &&& r->Ok_0@ == old(self).rolled_out(
                        trig_of(m),
                        *state,
                        c.command,
                        Executor::Pursuit,
                        c.maneuver,
                    )
                    &&& *final(self) == (LocalPlanner {
                        use_mpc: false,
                        dwa_planner: DwaPlanner {
                            config: old(self).config.dwa,
                            prev_cmd_v: Some(c.command.linear_x),
                        },
                        prev_cmd_v: Some(c.command.linear_x),
                        ..*old(self)
                    })
                },
            },
    {
        reveal(LocalPlanner::pursuit_says);
        let prev_v = self.last_speed(state);
        let c = match self.pursuit_planner.compute(
            m,
            state,
            path,
            obstacles,
            desired_speed,
            prev_v,
        ) {
            Err(reason) => {
                return Err(reason);
            },
            Ok(c) => c,
        };
        self.use_mpc = false;
        self.dwa_planner.note_external_command(c.command.linear_x);
        Ok(self.finish(m, state, c.command, Executor::Pursuit, c.maneuver))
    }

    /// Plans with the dynamic window alone, and with a smaller margin: the
    /// first attempt of a recovery. There is none on a run in reverse.
    pub fn compute_relaxed<M: Fn(Circular, Double, Double) -> Double>(
        &mut self,
        m: &M,
        state: &RobotState,
        path: &[PathWaypoint],
        obstacles: &[Obstacle],
        desired_speed: Double,
    ) -> (r: LocalPlan)
        requires
            functional(m),
            old(self).wf(),
        ensures
            final(self).wf(),
            ({
                let tr = trig_of(m);
                let o = *old(self);
                let command = o.dwa_command(
                    tr,
                    *state,
                    path@,
                    obstacles,
                    desired_speed,
                    o.dwa_planner.relaxed(),
                );
                if path@.len() == 0 {
                    r@ == idle() && *final(self) == (LocalPlanner {
                        prev_cmd_v: Some(Double::zero()),
                        ..o
                    })
                } else if first_run(path@).1 == SegmentDir::Reverse {
                    &&& r@ == o.rolled_out(tr, *state, infeasible_stop(), Executor::Dwa, false)
                    &&& *final(self) == (LocalPlanner { prev_cmd_v: Some(Double::zero()), ..o })
                } else {
                    &&& r@ == o.rolled_out(tr, *state, command, Executor::Dwa, false)
                    &&& *final(self) == (LocalPlanner {
                        use_mpc: false,
                        dwa_planner: DwaPlanner {
                            config: o.config.dwa,
                            prev_cmd_v: Some(command.linear_x),
                        },
                        prev_cmd_v: Some(command.linear_x),
                        ..o
                    })
                }
            }),
    {
        if path.len() == 0 {
            self.prev_cmd_v = Some(Double::zero());
            return idle_plan();
        }
        if active_segment_reverse(path) {
            return self.finish(m, state, infeasible_stop(), Executor::Dwa, false);
        }
        let radius = self.dwa_planner.relaxed_radius();
        let command = self.sample(m, state, path, obstacles, desired_speed, radius);
        self.use_mpc = false;
        self.finish(m, state, command, Executor::Dwa, false)
    }

    /// Gives out a command that comes from outside.
    pub fn scripted_plan<M: Fn(Circular, Double, Double) -> Double>(
        &mut self,
        m: &M,
        state: &RobotState,
        command: VelocityCommand,
    ) -> (r: LocalPlan)
        requires
            functional(m),
            old(self).wf(),
        ensures
            r@ == old(self).rolled_out(
                trig_of(m),
                *state,
                command,
                Executor::Scripted,
                false,
            ),
            *final(self) == (LocalPlanner { prev_cmd_v: Some(command.linear_x), ..*old(self) }),
            final(self).wf(),
    {
        self.finish(m, state, command, Executor::Scripted, false)
    }

    /// Whether the path ahead bends more tightly than the dynamic window is
    /// good for.
    pub fn should_use_mpc(&self, path: &[PathWaypoint]) -> (r: bool)
        ensures
            r == bends_tightly(path@, self.config.mpc_trigger_curvature),
    {
        let mut i: usize = 1;
        while i < path.len() && i < 5
            invariant
                1 <= i <= 5,
                i <= path@.len() || i == 1,
                forall|j: int|
                    #![trigger path@[j]]
                    1 <= j < i ==> !tight_between(
                        path@[j - 1],
                        path@[j],
                        self.config.mpc_trigger_curvature,
                    ),
            decreases 5 - i,
        {
            if tight_between(path[i - 1], path[i], self.config.mpc_trigger_curvature) {
                assert(tight_between(
                    path@[i - 1],
                    path@[i as int],
                    self.config.mpc_trigger_curvature,
                ));
                return true;
            }
            i = i + 1;
        }
        false
    }
}

/// Who gives a command.
pub enum Turn {
    Nobody,
    Tracking,
    Pursuit,
    /// The pursuit is blocked in reverse, where there is no other.
    BlockedReverse,
    Optimiser,
    Window,
}

} // verus!
