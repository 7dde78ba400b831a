//! The behaviour planner: the high-level driving state machine. It decides the
//! driving mode from perception and goal, and with it the desired speed.
pub mod cycles;
pub mod driving;
pub mod laws;

use crate::fault::{
    first_fault, lemma_no_fault, positive, report, rule, rule_pair, rule_plain, verdict,
    ConfigError, Quantity,
};
use crate::geometry::distance;
use crate::ieee::double::Double;
use crate::ieee::single::Single;
use vstd::prelude::*;

verus! {

/// Driving behaviour states.
#[derive(Clone, Copy, Debug, PartialEq, Eq, Structural)]
pub enum DrivingState {
    /// Waiting for a goal or for localization.
    Idle,
    /// Following a path toward a goal.
    Following,
    /// Close to the goal, slowing down.
    Approaching,
    /// At the goal, holding position.
    GoalReached,
    /// Close to an obstacle.
    ObstacleAvoidance,
    /// Stuck without a feasible plan, recovering in phases.
    Recovery,
    /// Localization lost: controlled stop.
    Degraded,
    /// Emergency stop.
    EmergencyStop,
}

/// Phase of an active recovery.
#[derive(Clone, Copy, Debug, PartialEq, Eq, Structural)]
pub enum RecoveryPhase {
    /// Forward planning with relaxed margins, at a crawl.
    ForwardRetry,
    /// Slow reverse, as long as the rear is clear.
    Reverse,
    /// Attempts exhausted: stopped, with a forward retry now and then.
    Hold,
}

/// Speeds below this (m/s) count as stationary.
pub open spec fn stationary_speed() -> Double {
    Double::ratio(5, 100)
}

/// Speed of recovery (m/s), forward and in reverse.
pub open spec fn spec_recovery_crawl_speed() -> Double {
    Double::spec_ratio(1, 10)
}

#[verifier::when_used_as_spec(spec_recovery_crawl_speed)]
pub fn recovery_crawl_speed() -> (r: Double)
    ensures
        r == spec_recovery_crawl_speed(),
{
    Double::ratio(1, 10)
}

/// Duration (s) of the forward retry before a reverse is tried.
pub open spec fn forward_retry_time() -> Double {
    Double::of(3)
}

/// Distance (m) from the place of entry that ends a recovery.
pub open spec fn exit_distance() -> Double {
    Double::ratio(3, 10)
}

/// Time (s) of uninterrupted following that ends a recovery episode.
pub open spec fn episode_clear_time() -> Double {
    Double::of(5)
}

/// An active recovery.
#[derive(Clone, Copy, Debug)]
pub struct RecoveryStatus {
    pub phase: RecoveryPhase,
    pub phase_elapsed: Double,
    /// Where this recovery was entered.
    pub entry_x: Double,
    pub entry_y: Double,
    /// Where the current reverse began.
    pub reverse_start: Option<(Double, Double)>,
    /// Consecutive feasible forward cycles.
    pub feasible_streak: u32,
    /// Time in Hold since the last retry.
    pub hold_elapsed: Double,
    /// The current forward retry was started from Hold.
    pub hold_retry: bool,
    /// Exhaustion was reported once for this recovery.
    pub abort_logged: bool,
}

impl RecoveryStatus {
    pub open spec fn spec_new(x: Double, y: Double) -> RecoveryStatus {
        RecoveryStatus {
            phase: RecoveryPhase::ForwardRetry,
            phase_elapsed: Double::zero(),
            entry_x: x,
            entry_y: y,
            reverse_start: None,
            feasible_streak: 0,
            hold_elapsed: Double::zero(),
            hold_retry: false,
            abort_logged: false,
        }
    }

    #[verifier::when_used_as_spec(spec_new)]
    pub fn new(x: Double, y: Double) -> (r: RecoveryStatus)
        ensures
            r == RecoveryStatus::spec_new(x, y),
    {
        RecoveryStatus {
            phase: RecoveryPhase::ForwardRetry,
            phase_elapsed: Double::zero(),
            entry_x: x,
            entry_y: y,
            reverse_start: None,
            feasible_streak: 0,
            hold_elapsed: Double::zero(),
            hold_retry: false,
            abort_logged: false,
        }
    }
}

/// A recovery episode spans several recoveries: it ends on real progress from
/// its origin or on stable following, not when a single recovery exits. The
/// count of attempts lives here.
#[derive(Clone, Copy, Debug)]
pub struct RecoveryEpisode {
    pub origin_x: Double,
    pub origin_y: Double,
    /// Rounds of forward retry and reverse without progress.
    pub attempts: u32,
    /// Uninterrupted time in Following.
    pub following_time: Double,
}

impl RecoveryEpisode {
    pub open spec fn spec_new(x: Double, y: Double) -> RecoveryEpisode {
        RecoveryEpisode { origin_x: x, origin_y: y, attempts: 0, following_time: Double::zero() }
    }

    #[verifier::when_used_as_spec(spec_new)]
    pub fn new(x: Double, y: Double) -> (r: RecoveryEpisode)
        ensures
            r == RecoveryEpisode::spec_new(x, y),
    {
        RecoveryEpisode { origin_x: x, origin_y: y, attempts: 0, following_time: Double::zero() }
    }
}

#[derive(Clone, Copy, Debug)]
pub struct BehaviorConfig {
    pub rate_hz: u32,
    /// Distance (m) at which a goal counts as reached.
    pub goal_tolerance: Double,
    /// Distance (m) from the goal at which the robot slows down.
    pub approach_distance: Double,
    /// Obstacles closer than this (m) call for avoidance.
    pub obstacle_stop_distance: Double,
    /// m/s
    pub default_speed: Double,
    /// Part of the leg speed driven during obstacle avoidance.
    pub obstacle_avoidance_speed_factor: Double,
    /// Consecutive stuck cycles before a recovery.
    pub stuck_cycles_before_recovery: u32,
    /// Least duration (s) allowed for a reverse.
    pub recovery_reverse_max_s: Double,
    /// Rounds without progress before the recovery holds.
    pub recovery_max_attempts: u32,
    /// Reverse distance (m) of the first round; round `n` goes `n + 1` times
    /// as far.
    pub recovery_reverse_min_m: Double,
    /// Cap (m) on the reverse distance.
    pub recovery_reverse_max_m: Double,
    /// Consecutive feasible cycles that end a recovery.
    pub recovery_exit_feasible_cycles: u32,
    /// Distance (m) from the origin of an episode that ends it.
    pub recovery_progress_reset_m: Double,
    /// Time (s) between the retries of a holding recovery.
    pub hold_retry_period_s: Double,
}

pub fn default_rate_hz() -> (r: u32)
    ensures
        r == 5,
{
    5
}

pub fn default_stuck_cycles() -> (r: u32)
    ensures
        r == 20,
{
    20
}

pub fn default_recovery_max_attempts() -> (r: u32)
    ensures
        r == 3,
{
    3
}

pub fn default_recovery_exit_feasible_cycles() -> (r: u32)
    ensures
        r == 3,
{
    3
}

impl Default for BehaviorConfig {
    fn default() -> (r: BehaviorConfig)
        ensures
            r == (BehaviorConfig {
                rate_hz: 5,
                goal_tolerance: Double::ratio(15, 100),
                approach_distance: Double::half(),
                obstacle_stop_distance: Double::ratio(3, 10),
                default_speed: Double::ratio(22, 10),
                obstacle_avoidance_speed_factor: Double::ratio(65, 100),
                stuck_cycles_before_recovery: 20,
                recovery_reverse_max_s: Double::of(3),
                recovery_max_attempts: 3,
                recovery_reverse_min_m: Double::ratio(15, 100),
                recovery_reverse_max_m: Double::half(),
                recovery_exit_feasible_cycles: 3,
                recovery_progress_reset_m: Double::half(),
                hold_retry_period_s: Double::of(10),
            }),
    {
        BehaviorConfig {
            rate_hz: default_rate_hz(),
            goal_tolerance: Double::ratio(15, 100),
            approach_distance: Double::half(),
            obstacle_stop_distance: Double::ratio(3, 10),
            default_speed: Double::ratio(22, 10),
            obstacle_avoidance_speed_factor: Double::ratio(65, 100),
            stuck_cycles_before_recovery: default_stuck_cycles(),
            recovery_reverse_max_s: Double::of(3),
            recovery_max_attempts: default_recovery_max_attempts(),
            recovery_reverse_min_m: Double::ratio(15, 100),
            recovery_reverse_max_m: Double::half(),
            recovery_exit_feasible_cycles: default_recovery_exit_feasible_cycles(),
            recovery_progress_reset_m: Double::half(),
            hold_retry_period_s: Double::of(10),
        }
    }
}

impl BehaviorConfig {
    /// Counts are at least one, times and distances positive, the factor in
    /// `(0, 1]` and the reverse cap no smaller than the base.
    pub open spec fn valid(self) -> bool {
        &&& self.stuck_cycles_before_recovery >= 1
        &&& Double::zero().lt(self.obstacle_avoidance_speed_factor)
        &&& self.obstacle_avoidance_speed_factor.le(Double::one())
        &&& self.recovery_reverse_max_s.positive()
        &&& self.recovery_max_attempts >= 1
        &&& self.recovery_reverse_min_m.positive()
        &&& self.recovery_reverse_min_m.le(self.recovery_reverse_max_m)
        &&& self.recovery_reverse_max_m.finite()
        &&& self.recovery_exit_feasible_cycles >= 1
        &&& self.recovery_progress_reset_m.positive()
        &&& self.hold_retry_period_s.positive()
    }

    pub open spec fn checks(self) -> Seq<Option<ConfigError>> {
        seq![
            rule_plain(
                self.stuck_cycles_before_recovery != 0,
                "behavior.stuck_cycles_before_recovery must be >= 1",
            ),
            rule(
                Double::zero().lt(self.obstacle_avoidance_speed_factor)
                    && self.obstacle_avoidance_speed_factor.le(Double::one()),
                "behavior.obstacle_avoidance_speed_factor must be in (0, 1], got {}",
                Quantity::Wide(self.obstacle_avoidance_speed_factor),
            ),
            positive(
                self.recovery_reverse_max_s,
                "behavior.recovery_reverse_max_s must be > 0, got {}",
            ),
            rule_plain(
                self.recovery_max_attempts != 0,
                "behavior.recovery_max_attempts must be >= 1",
            ),
            positive(
                self.recovery_reverse_min_m,
                "behavior.recovery_reverse_min_m must be > 0, got {}",
            ),
            rule_pair(
                self.recovery_reverse_min_m.le(self.recovery_reverse_max_m)
                    && self.recovery_reverse_max_m.is_finite(),
                "behavior.recovery_reverse_max_m must be finite and >= recovery_reverse_min_m ({}), got {}",
                Quantity::Wide(self.recovery_reverse_min_m),
                Quantity::Wide(self.recovery_reverse_max_m),
            ),
            rule_plain(
                self.recovery_exit_feasible_cycles != 0,
                "behavior.recovery_exit_feasible_cycles must be >= 1",
            ),
            positive(
                self.recovery_progress_reset_m,
                "behavior.recovery_progress_reset_m must be > 0, got {}",
            ),
            positive(
                self.hold_retry_period_s,
                "behavior.hold_retry_period_s must be > 0, got {}",
            ),
        ]
    }

    /// Refuses values that would break the recovery state machine.
    pub fn validate(&self) -> (r: Result<(), ConfigError>)
        ensures
            r is Ok <==> self.valid(),
            r == verdict(first_fault(self.checks())),
    {
        let checks = vec![
            rule_plain(
                self.stuck_cycles_before_recovery != 0,
                "behavior.stuck_cycles_before_recovery must be >= 1",
            ),
            rule(
                Double::zero().lt(self.obstacle_avoidance_speed_factor)
                    && self.obstacle_avoidance_speed_factor.le(Double::one()),
                "behavior.obstacle_avoidance_speed_factor must be in (0, 1], got {}",
                Quantity::Wide(self.obstacle_avoidance_speed_factor),
            ),
            positive(
                self.recovery_reverse_max_s,
                "behavior.recovery_reverse_max_s must be > 0, got {}",
            ),
            rule_plain(
                self.recovery_max_attempts != 0,
                "behavior.recovery_max_attempts must be >= 1",
            ),
            positive(
                self.recovery_reverse_min_m,
                "behavior.recovery_reverse_min_m must be > 0, got {}",
            ),
            rule_pair(
                self.recovery_reverse_min_m.le(self.recovery_reverse_max_m)
                    && self.recovery_reverse_max_m.is_finite(),
                "behavior.recovery_reverse_max_m must be finite and >= recovery_reverse_min_m ({}), got {}",
                Quantity::Wide(self.recovery_reverse_min_m),
                Quantity::Wide(self.recovery_reverse_max_m),
            ),
            rule_plain(
                self.recovery_exit_feasible_cycles != 0,
                "behavior.recovery_exit_feasible_cycles must be >= 1",
            ),
            positive(
                self.recovery_progress_reset_m,
                "behavior.recovery_progress_reset_m must be > 0, got {}",
            ),
            positive(
                self.hold_retry_period_s,
                "behavior.hold_retry_period_s must be > 0, got {}",
            ),
        ];
        proof {
            let c = self.checks();
            assert(checks@ == c);
            lemma_no_fault(c);
            assert(c[0] is None && c[1] is None && c[2] is None && c[3] is None && c[4] is None
                && c[5] is None && c[6] is None && c[7] is None && c[8] is None <==> self.valid());
        }
        report(checks)
    }
}

/// A goal pose.
#[derive(Clone, Copy, Debug)]
pub struct Goal {
    pub x: Double,
    pub y: Double,
    pub theta: Double,
    /// Arrival tolerance (m) of this goal.
    pub tolerance: Option<Double>,
    /// Speed (m/s) that caps the leg to this goal.
    pub speed: Option<Double>,
}

/// What perception and the local planner report in a cycle.
#[derive(Clone, Copy, Debug)]
pub struct BehaviorInput {
    pub robot_x: Double,
    pub robot_y: Double,
    pub robot_theta: Double,
    pub localization_confidence: Single,
    pub nearest_obstacle_distance: Double,
    pub emergency_stop: bool,
    /// Seconds since the last update.
    pub dt: Double,
    /// Measured speed (m/s).
    pub robot_speed: Double,
    /// The last local plan was a near-zero command of low confidence.
    pub planner_infeasible: bool,
    /// The last local plan was a confident forward command.
    pub planner_feasible: bool,
    /// The rear is clear for a slow reverse.
    pub rear_clear: bool,
}

/// What the planner decides in a cycle.
#[derive(Clone, Copy, Debug)]
pub struct BehaviorOutput {
    pub state: DrivingState,
    /// m/s
    pub desired_speed: Double,
    pub replan_requested: bool,
    /// The phase of an active recovery.
    pub recovery_phase: Option<RecoveryPhase>,
}

#[derive(Clone, Copy)]
pub struct BehaviorPlanner {
    pub config: BehaviorConfig,
    pub state: DrivingState,
    pub goal: Option<Goal>,
    /// Consecutive stuck cycles.
    pub stuck_count: u32,
    pub recovery: Option<RecoveryStatus>,
    pub episode: Option<RecoveryEpisode>,
}

impl BehaviorPlanner {
    /// There is book-keeping of a recovery exactly while one is active, and of a
    /// reverse exactly in its phase. No counter has reached the value at which it
    /// takes effect.
    pub open spec fn wf(self) -> bool {
        &&& self.state == DrivingState::Recovery <==> self.recovery is Some
        &&& self.recovery matches Some(r) ==> (r.phase == RecoveryPhase::Reverse
            <==> r.reverse_start is Some)
        &&& self.stuck_count == 0 || self.stuck_count < self.config.stuck_cycles_before_recovery
        &&& self.recovery matches Some(r) ==> (r.feasible_streak == 0 || r.feasible_streak
            < self.config.recovery_exit_feasible_cycles)
    }

    /// Rounds made in the current episode.
    pub open spec fn attempts(self) -> u32 {
        match self.episode {
            Some(e) => e.attempts,
            None => 0,
        }
    }

    pub fn new(config: BehaviorConfig) -> (r: BehaviorPlanner)
        ensures
            r == (BehaviorPlanner {
                config,
                state: DrivingState::Idle,
                goal: None,
                stuck_count: 0,
                recovery: None,
                episode: None,
            }),
            r.wf(),
    {
        BehaviorPlanner {
            config,
            state: DrivingState::Idle,
            goal: None,
            stuck_count: 0,
            recovery: None,
            episode: None,
        }
    }

    /// Sets off toward a goal. An active recovery ends; its episode goes on.
    pub fn set_goal(&mut self, goal: Goal)
        ensures
            *final(self) == (BehaviorPlanner {
                goal: Some(goal),
                state: DrivingState::Following,
                recovery: None,
                ..*old(self)
            }),
            old(self).wf() ==> final(self).wf(),
    {
        self.goal = Some(goal);
        self.state = DrivingState::Following;
        self.recovery = None;
    }

    /// Arrival tolerance of a goal: its own where it has a positive one.
    pub open spec fn spec_arrival_tolerance(&self, goal: &Goal) -> Double {
        match goal.tolerance {
            Some(t) if Double::zero().lt(t) => t,
            _ => self.config.goal_tolerance,
        }
    }

    #[verifier::when_used_as_spec(spec_arrival_tolerance)]
    pub fn arrival_tolerance(&self, goal: &Goal) -> (r: Double)
        ensures
            r == self.spec_arrival_tolerance(goal),
    {
        match goal.tolerance {
            Some(t) => {
                if Double::zero().lt(t) {
                    t
                } else {
                    self.config.goal_tolerance
                }
            },
            None => self.config.goal_tolerance,
        }
    }

    /// Base speed of the current leg: the default one, capped by the goal's
    /// where that is positive.
    pub open spec fn spec_leg_speed(&self) -> Double {
        match self.goal {
            Some(Goal { speed: Some(s), .. }) if Double::zero().lt(s) => s.min(
                self.config.default_speed,
            ),
            _ => self.config.default_speed,
        }
    }

    #[verifier::when_used_as_spec(spec_leg_speed)]
    pub fn leg_speed(&self) -> (r: Double)
        ensures
            r == self.spec_leg_speed(),
    {
        let base = self.config.default_speed;
        match self.goal {
            Some(g) => match g.speed {
                Some(s) => {
                    if Double::zero().lt(s) {
                        s.min(base)
                    } else {
                        base
                    }
                },
                None => base,
            },
            None => base,
        }
    }

    pub fn clear_goal(&mut self)
        ensures
            *final(self) == (BehaviorPlanner {
                config: old(self).config,
                state: DrivingState::Idle,
                goal: None,
                stuck_count: 0,
                recovery: None,
                episode: None,
            }),
            final(self).wf(),
    {
        self.goal = None;
        self.state = DrivingState::Idle;
        self.stuck_count = 0;
        self.recovery = None;
        self.episode = None;
    }

    pub fn state(&self) -> (r: DrivingState)
        ensures
            r == self.state,
    {
        self.state
    }

    /// Reverse distance (m) of the current round.
    pub open spec fn spec_reverse_target_m(&self) -> Double {
        self.config.recovery_reverse_min_m.times(Double::of((self.attempts() + 1) as u64)).min(
            self.config.recovery_reverse_max_m,
        )
    }

    /// Reverse distance (m) of the current round: it grows with the rounds of
    /// the episode up to the cap, so that each round sees new surroundings.
    #[verifier::when_used_as_spec(spec_reverse_target_m)]
    pub fn reverse_target_m(&self) -> (r: Double)
        requires
            self.attempts() < u32::MAX,
        ensures
            r == self.spec_reverse_target_m(),
    {
        let n: u32 = match &self.episode {
            Some(e) => e.attempts,
            None => 0,
        };
        self.config.recovery_reverse_min_m.times(Double::of((n + 1) as u64)).min(
            self.config.recovery_reverse_max_m,
        )
    }

    /// Time (s) allowed for the current reverse: what the crawl needs for the
    /// distance and one second more, at least the configured duration.
    pub open spec fn spec_reverse_time_allowance_s(&self) -> Double {
        self.reverse_target_m().over(recovery_crawl_speed()).plus(Double::one()).max(
            self.config.recovery_reverse_max_s,
        )
    }

    #[verifier::when_used_as_spec(spec_reverse_time_allowance_s)]
    pub fn reverse_time_allowance_s(&self) -> (r: Double)
        requires
            self.attempts() < u32::MAX,
        ensures
            r == self.spec_reverse_time_allowance_s(),
    {
        self.reverse_target_m().over(recovery_crawl_speed()).plus(Double::one()).max(
            self.config.recovery_reverse_max_s,
        )
    }

    /// The planner halted in `state`: counters and recovery are dropped, goal
    /// and episode stay.
    pub open spec fn halted(self, state: DrivingState) -> BehaviorPlanner {
        BehaviorPlanner { state, stuck_count: 0, recovery: None, ..self }
    }

    /// Stationary with an infeasible plan while trying to drive.
    pub open spec fn stuck(self, input: BehaviorInput) -> bool {
        &&& self.state == DrivingState::Following || self.state == DrivingState::ObstacleAvoidance
        &&& input.robot_speed.abs().lt(stationary_speed())
        &&& input.planner_infeasible
    }

    /// After stuck detection. The episode of an earlier recovery goes on.
    pub open spec fn detected(self, input: BehaviorInput) -> BehaviorPlanner {
        if self.stuck(input) {
            if self.stuck_count + 1 >= self.config.stuck_cycles_before_recovery {
                let base = match self.episode {
                    Some(e) => e,
                    None => RecoveryEpisode::new(input.robot_x, input.robot_y),
                };
                BehaviorPlanner {
                    state: DrivingState::Recovery,
                    stuck_count: 0,
                    recovery: Some(RecoveryStatus::new(input.robot_x, input.robot_y)),
                    episode: Some(RecoveryEpisode { following_time: Double::zero(), ..base }),
                    ..self
                }
            } else {
                BehaviorPlanner { stuck_count: (self.stuck_count + 1) as u32, ..self }
            }
        } else if self.state != DrivingState::Recovery {
            BehaviorPlanner { stuck_count: 0, ..self }
        } else {
            self
        }
    }

    /// After the book-keeping of the episode, which ends on progress from its
    /// origin or on stable following.
    pub open spec fn episode_kept(self, input: BehaviorInput) -> BehaviorPlanner {
        match self.episode {
            None => self,
            Some(e) => {
                let net = distance(input.robot_x, input.robot_y, e.origin_x, e.origin_y);
                let time = e.following_time.plus(input.dt);
                let episode = if self.config.recovery_progress_reset_m.lt(net) {
                    None
                } else if self.state != DrivingState::Following {
                    Some(RecoveryEpisode { following_time: Double::zero(), ..e })
                } else if episode_clear_time().le(time) {
                    None
                } else {
                    Some(RecoveryEpisode { following_time: time, ..e })
                };
                BehaviorPlanner { episode, ..self }
            },
        }
    }

    /// Where to go on after a halt: toward the goal, if there is one.
    pub open spec fn resumed(self) -> DrivingState {
        if self.goal is Some {
            DrivingState::Following
        } else {
            DrivingState::Idle
        }
    }

    /// Distance from the goal.
    pub open spec fn goal_distance(self, input: BehaviorInput) -> Double {
        distance(input.robot_x, input.robot_y, self.goal->0.x, self.goal->0.y)
    }

    pub open spec fn arrived(self, input: BehaviorInput) -> bool {
        self.goal is Some && self.goal_distance(input).lt(self.arrival_tolerance(&self.goal->0))
    }

    /// The next state, for all states but Recovery.
    pub open spec fn next_state(self, input: BehaviorInput) -> DrivingState {
        match self.state {
            DrivingState::EmergencyStop => self.resumed(),
            DrivingState::Degraded => if (Single { bits: 0x3f00_0000 }).le(
                input.localization_confidence,
            ) {
                self.resumed()
            } else {
                self.state
            },
            DrivingState::Idle => self.resumed(),
            DrivingState::Following => if self.goal is None {
                DrivingState::Idle
            } else if self.arrived(input) {
                DrivingState::GoalReached
            } else if self.goal_distance(input).lt(self.config.approach_distance) {
                DrivingState::Approaching
            } else if input.nearest_obstacle_distance.lt(self.config.obstacle_stop_distance) {
                DrivingState::ObstacleAvoidance
            } else {
                self.state
            },
            DrivingState::Approaching => if self.arrived(input) {
                DrivingState::GoalReached
            } else {
                self.state
            },
            DrivingState::ObstacleAvoidance => if self.config.obstacle_stop_distance.times(
                Double::ratio(3, 2),
            ).lt(input.nearest_obstacle_distance) {
                DrivingState::Following
            } else {
                self.state
            },
            _ => self.state,
        }
    }

    pub open spec fn transitioned(self, input: BehaviorInput) -> BehaviorPlanner {
        if self.state == DrivingState::Recovery {
            self.recovered(input)
        } else {
            BehaviorPlanner { state: self.next_state(input), ..self }
        }
    }

    /// After leaving a recovery.
    pub open spec fn exited(self) -> BehaviorPlanner {
        BehaviorPlanner { recovery: None, stuck_count: 0, state: self.resumed(), ..self }
    }

    /// A reverse that has not yet gone its distance, with the rear still clear:
    /// feasible forward plans do not end it.
    pub open spec fn committed(self, rec: RecoveryStatus, input: BehaviorInput) -> bool {
        &&& rec.phase == RecoveryPhase::Reverse
        &&& input.rear_clear
        &&& rec.reverse_start matches Some(p) ==> distance(
            input.robot_x,
            input.robot_y,
            p.0,
            p.1,
        ).lt(self.reverse_target_m())
    }

    /// Consecutive feasible cycles, this one counted.
    pub open spec fn streak(self, rec: RecoveryStatus, input: BehaviorInput) -> int {
        if !self.committed(rec, input) && input.planner_feasible {
            rec.feasible_streak + 1
        } else {
            0
        }
    }

    /// After a cycle of the Recovery state.
    pub open spec fn recovered(self, input: BehaviorInput) -> BehaviorPlanner {
        match self.recovery {
            None => BehaviorPlanner { state: self.resumed(), ..self },
            Some(rec) => if exit_distance().lt(
                distance(input.robot_x, input.robot_y, rec.entry_x, rec.entry_y),
            ) {
                self.exited()
            } else if self.streak(rec, input) > 0 && self.streak(rec, input)
                >= self.config.recovery_exit_feasible_cycles {
                self.exited()
            } else {
                self.phased(
                    RecoveryStatus { feasible_streak: self.streak(rec, input) as u32, ..rec },
                    input,
                )
            },
        }
    }

    /// After a cycle of the phase that `rec` is in.
    pub open spec fn phased(self, rec: RecoveryStatus, input: BehaviorInput) -> BehaviorPlanner {
        match rec.phase {
            RecoveryPhase::ForwardRetry => self.forward_phase(rec, input),
            RecoveryPhase::Reverse => self.reverse_phase(rec, input),
            RecoveryPhase::Hold => BehaviorPlanner {
                recovery: Some(self.hold_phase(rec, input)),
                ..self
            },
        }
    }

    /// The forward retry runs its time, then gives way to a reverse if the rear is
    /// clear. With the rear blocked, one that was started from Hold returns there,
    /// and any other closes its round without a reverse.
    pub open spec fn forward_phase(
        self,
        rec: RecoveryStatus,
        input: BehaviorInput,
    ) -> BehaviorPlanner {
        let elapsed = rec.phase_elapsed.plus(input.dt);
        if !forward_retry_time().le(elapsed) {
            BehaviorPlanner {
                recovery: Some(RecoveryStatus { phase_elapsed: elapsed, ..rec }),
                ..self
            }
        } else if input.rear_clear {
            BehaviorPlanner {
                recovery: Some(
                    RecoveryStatus {
                        phase: RecoveryPhase::Reverse,
                        phase_elapsed: Double::zero(),
                        reverse_start: Some((input.robot_x, input.robot_y)),
                        hold_retry: false,
                        ..rec
                    },
                ),
                ..self
            }
        } else if rec.hold_retry {
            BehaviorPlanner {
                recovery: Some(
                    RecoveryStatus {
                        phase: RecoveryPhase::Hold,
                        phase_elapsed: Double::zero(),
                        hold_elapsed: Double::zero(),
                        hold_retry: false,
                        ..rec
                    },
                ),
                ..self
            }
        } else {
            self.round_closed(rec, input)
        }
    }

    /// A reverse ends when the rear is blocked or its time is up; that closes a
    /// round.
    pub open spec fn reverse_phase(self, rec: RecoveryStatus, input: BehaviorInput) -> BehaviorPlanner {
        let elapsed = rec.phase_elapsed.plus(input.dt);
        if input.rear_clear && !self.reverse_time_allowance_s().le(elapsed) {
            BehaviorPlanner {
                recovery: Some(RecoveryStatus { phase_elapsed: elapsed, ..rec }),
                ..self
            }
        } else {
            self.round_closed(rec, input)
        }
    }

    /// After the end of a round, which is counted in the episode: the last round
    /// leads to Hold, any other to a forward retry.
    pub open spec fn round_closed(self, rec: RecoveryStatus, input: BehaviorInput) -> BehaviorPlanner {
        let base = match self.episode {
            Some(e) => e,
            None => RecoveryEpisode::new(input.robot_x, input.robot_y),
        };
        let attempts = (base.attempts + 1) as u32;
        let closed = RecoveryStatus { phase_elapsed: Double::zero(), reverse_start: None, ..rec };
        BehaviorPlanner {
            episode: Some(RecoveryEpisode { attempts, ..base }),
            recovery: Some(
                if attempts >= self.config.recovery_max_attempts {
                    RecoveryStatus {
                        phase: RecoveryPhase::Hold,
                        hold_elapsed: Double::zero(),
                        abort_logged: true,
                        ..closed
                    }
                } else {
                    RecoveryStatus { phase: RecoveryPhase::ForwardRetry, ..closed }
                },
            ),
            ..self
        }
    }

    /// Hold lasts for the retry period, then a forward retry is made.
    pub open spec fn hold_phase(self, rec: RecoveryStatus, input: BehaviorInput) -> RecoveryStatus {
        let held = rec.hold_elapsed.plus(input.dt);
        if self.config.hold_retry_period_s.le(held) {
            RecoveryStatus {
                phase: RecoveryPhase::ForwardRetry,
                phase_elapsed: Double::zero(),
                hold_elapsed: Double::zero(),
                hold_retry: true,
                ..rec
            }
        } else {
            RecoveryStatus { hold_elapsed: held, ..rec }
        }
    }

    /// The recovery phase that is reported.
    pub open spec fn phase(self) -> Option<RecoveryPhase> {
        if self.state == DrivingState::Recovery {
            match self.recovery {
                Some(r) => Some(r.phase),
                None => None,
            }
        } else {
            None
        }
    }

    /// The speed asked for in the state that was reached.
    pub open spec fn desired_speed(self, input: BehaviorInput) -> Double {
        match self.state {
            DrivingState::Following => self.leg_speed(),
            DrivingState::Approaching => if self.goal is Some {
                self.leg_speed().times(
                    self.goal_distance(input).over(self.config.approach_distance).clamp(
                        Double::ratio(1, 10),
                        Double::one(),
                    ),
                )
            } else {
                Double::zero()
            },
            DrivingState::ObstacleAvoidance => self.leg_speed().times(
                self.config.obstacle_avoidance_speed_factor,
            ),
            DrivingState::Recovery => if self.phase() == Some(RecoveryPhase::ForwardRetry)
                || self.phase() == Some(RecoveryPhase::Reverse) {
                recovery_crawl_speed()
            } else {
                Double::zero()
            },
            _ => Double::zero(),
        }
    }

    /// The state in which a cycle leaves the planner.
    pub open spec fn after(self, input: BehaviorInput) -> BehaviorPlanner {
        if input.emergency_stop {
            self.halted(DrivingState::EmergencyStop)
        } else if input.localization_confidence.lt(Double::ratio(3, 10).narrow()) {
            self.halted(DrivingState::Degraded)
        } else {
            self.detected(input).episode_kept(input).transitioned(input)
        }
    }

    /// What is reported of the state that was reached.
    pub open spec fn report(self, input: BehaviorInput) -> BehaviorOutput {
        BehaviorOutput {
            state: self.state,
            desired_speed: self.desired_speed(input),
            replan_requested: self.state == DrivingState::ObstacleAvoidance || self.state
                == DrivingState::Following || self.state == DrivingState::Recovery,
            recovery_phase: self.phase(),
        }
    }

    /// One cycle of the state machine.
    pub fn update(&mut self, input: &BehaviorInput) -> (r: BehaviorOutput)
        requires
            old(self).wf(),
            old(self).attempts() < u32::MAX,
        ensures
            final(self).wf(),
            *final(self) == old(self).after(*input),
            r == final(self).report(*input),
    {
        if input.emergency_stop {
            self.state = DrivingState::EmergencyStop;
            self.stuck_count = 0;
            self.recovery = None;
            return BehaviorOutput {
                state: self.state,
                desired_speed: Double::zero(),
                replan_requested: false,
                recovery_phase: None,
            };
        }
        if input.localization_confidence.lt(Double::ratio(3, 10).narrow()) {
            self.state = DrivingState::Degraded;
            self.stuck_count = 0;
            self.recovery = None;
            return BehaviorOutput {
                state: self.state,
                desired_speed: Double::zero(),
                replan_requested: false,
                recovery_phase: None,
            };
        }
        self.detect_stuck(input);
        self.track_episode(input);
        match self.state {
            DrivingState::EmergencyStop => {
                self.state = self.resume();
            },
            DrivingState::Degraded => {
                if (Single { bits: 0x3f00_0000 }).le(input.localization_confidence) {
                    self.state = self.resume();
                }
            },
            DrivingState::Idle => {
                if self.goal.is_some() {
                    self.state = DrivingState::Following;
                }
            },
            DrivingState::Following => {
                if let Some(goal) = self.goal {
                    let dist = distance(input.robot_x, input.robot_y, goal.x, goal.y);
                    if dist.lt(self.arrival_tolerance(&goal)) {
                        self.state = DrivingState::GoalReached;
                    } else if dist.lt(self.config.approach_distance) {
                        self.state = DrivingState::Approaching;
                    } else if input.nearest_obstacle_distance.lt(
                        self.config.obstacle_stop_distance,
                    ) {
                        self.state = DrivingState::ObstacleAvoidance;
                    }
                } else {
                    self.state = DrivingState::Idle;
                }
            },
            DrivingState::Approaching => {
                if let Some(goal) = self.goal {
                    let dist = distance(input.robot_x, input.robot_y, goal.x, goal.y);
                    if dist.lt(self.arrival_tolerance(&goal)) {
                        self.state = DrivingState::GoalReached;
                    }
                }
            },
            DrivingState::GoalReached => {},
            DrivingState::ObstacleAvoidance => {
                if self.config.obstacle_stop_distance.times(Double::ratio(3, 2)).lt(
                    input.nearest_obstacle_distance,
                ) {
                    self.state = DrivingState::Following;
                }
            },
            DrivingState::Recovery => {
                self.update_recovery(input);
            },
        }
        let recovery_phase = if self.state == DrivingState::Recovery {
            match &self.recovery {
                Some(r) => Some(r.phase),
                None => None,
            }
        } else {
            None
        };
        let desired_speed = match self.state {
            DrivingState::Following => self.leg_speed(),
            DrivingState::Approaching => {
                if let Some(goal) = self.goal {
                    let dist = distance(input.robot_x, input.robot_y, goal.x, goal.y);
                    proof {
                        Double::lemma_ratio_le_one(1, 10);
                    }
                    let ratio = dist.over(self.config.approach_distance).clamp(
                        Double::ratio(1, 10),
                        Double::one(),
                    );
                    self.leg_speed().times(ratio)
                } else {
                    Double::zero()
                }
            },
            DrivingState::ObstacleAvoidance => self.leg_speed().times(
                self.config.obstacle_avoidance_speed_factor,
            ),
            DrivingState::Recovery => match recovery_phase {
                Some(RecoveryPhase::ForwardRetry) => recovery_crawl_speed(),
                Some(RecoveryPhase::Reverse) => recovery_crawl_speed(),
                _ => Double::zero(),
            },
            _ => Double::zero(),
        };
        let replan_requested = self.state == DrivingState::ObstacleAvoidance || self.state
            == DrivingState::Following || self.state == DrivingState::Recovery;
        BehaviorOutput { state: self.state, desired_speed, replan_requested, recovery_phase }
    }

    fn resume(&self) -> (r: DrivingState)
        ensures
            r == self.resumed(),
    {
        if self.goal.is_some() {
            DrivingState::Following
        } else {
            DrivingState::Idle
        }
    }

    /// Counts stuck cycles and enters a recovery when there were enough.
    fn detect_stuck(&mut self, input: &BehaviorInput)
        requires
            old(self).wf(),
        ensures
            final(self).wf(),
            *final(self) == old(self).detected(*input),
    {
        if (self.state == DrivingState::Following || self.state == DrivingState::ObstacleAvoidance)
            && input.robot_speed.abs().lt(Double::ratio(5, 100)) && input.planner_infeasible {
            self.stuck_count = self.stuck_count + 1;
            if self.stuck_count >= self.config.stuck_cycles_before_recovery {
                let mut episode = match self.episode {
                    Some(e) => e,
                    None => RecoveryEpisode::new(input.robot_x, input.robot_y),
                };
                episode.following_time = Double::zero();
                self.episode = Some(episode);
                self.state = DrivingState::Recovery;
                self.recovery = Some(RecoveryStatus::new(input.robot_x, input.robot_y));
                self.stuck_count = 0;
            }
        } else if self.state != DrivingState::Recovery {
            self.stuck_count = 0;
        }
    }

    /// Ends the episode on progress or on stable following.
    fn track_episode(&mut self, input: &BehaviorInput)
        requires
            old(self).wf(),
        ensures
            final(self).wf(),
            *final(self) == old(self).episode_kept(*input),
    {
        if let Some(e) = self.episode {
            let mut episode = e;
            let net = distance(input.robot_x, input.robot_y, e.origin_x, e.origin_y);
            if self.config.recovery_progress_reset_m.lt(net) {
                self.episode = None;
            } else if self.state == DrivingState::Following {
                episode.following_time = e.following_time.plus(input.dt);
                if Double::of(5).le(episode.following_time) {
                    self.episode = None;
                } else {
                    self.episode = Some(episode);
                }
            } else {
                episode.following_time = Double::zero();
                self.episode = Some(episode);
            }
        }
    }

    /// Leaves the recovery; the episode and its attempts stay.
    fn exit_recovery(&mut self)
        ensures
            *final(self) == old(self).exited(),
    {
        self.recovery = None;
        self.stuck_count = 0;
        self.state = self.resume();
    }

    /// Closes a round of the recovery.
    fn close_round(&mut self, rec: RecoveryStatus, input: &BehaviorInput)
        requires
            old(self).attempts() < u32::MAX,
        ensures
            *final(self) == old(self).round_closed(rec, *input),
    {
        let mut rec = rec;
        let mut episode = match self.episode {
            Some(e) => e,
            None => RecoveryEpisode::new(input.robot_x, input.robot_y),
        };
        episode.attempts = episode.attempts + 1;
        self.episode = Some(episode);
        rec.phase_elapsed = Double::zero();
        rec.reverse_start = None;
        if episode.attempts >= self.config.recovery_max_attempts {
            rec.phase = RecoveryPhase::Hold;
            rec.hold_elapsed = Double::zero();
            rec.abort_logged = true;
        } else {
            rec.phase = RecoveryPhase::ForwardRetry;
        }
        self.recovery = Some(rec);
    }

    /// One cycle of the recovery.
    pub fn update_recovery(&mut self, input: &BehaviorInput)
        requires
            old(self).wf(),
            old(self).state == DrivingState::Recovery,
            old(self).attempts() < u32::MAX,
        ensures
            final(self).wf(),
            *final(self) == old(self).recovered(*input),
    {
        let reverse_min_m = self.reverse_target_m();
        let reverse_allowance_s = self.reverse_time_allowance_s();
        let mut rec = match self.recovery {
            Some(rec) => rec,
            None => {
                self.state = self.resume();
                return ;
            },
        };
        if Double::ratio(3, 10).lt(distance(input.robot_x, input.robot_y, rec.entry_x, rec.entry_y)) {
            self.exit_recovery();
            return ;
        }
        let committed_reverse = rec.phase == RecoveryPhase::Reverse && input.rear_clear
            && match rec.reverse_start {
            Some(p) => distance(input.robot_x, input.robot_y, p.0, p.1).lt(reverse_min_m),
            None => true,
        };
        if committed_reverse {
            rec.feasible_streak = 0;
        } else if input.planner_feasible {
            rec.feasible_streak = rec.feasible_streak + 1;
            if rec.feasible_streak >= self.config.recovery_exit_feasible_cycles {
                self.exit_recovery();
                return ;
            }
        } else {
            rec.feasible_streak = 0;
        }
        match rec.phase {
            RecoveryPhase::ForwardRetry => {
                rec.phase_elapsed = rec.phase_elapsed.plus(input.dt);
                if Double::of(3).le(rec.phase_elapsed) {
                    if input.rear_clear {
                        rec.phase = RecoveryPhase::Reverse;
                        rec.phase_elapsed = Double::zero();
                        rec.reverse_start = Some((input.robot_x, input.robot_y));
                        rec.hold_retry = false;
                    } else if rec.hold_retry {
                        rec.phase = RecoveryPhase::Hold;
                        rec.phase_elapsed = Double::zero();
                        rec.hold_elapsed = Double::zero();
                        rec.hold_retry = false;
                    } else {
                        self.close_round(rec, input);
                        return ;
                    }
                }
            },
            RecoveryPhase::Reverse => {
                let round_over = if !input.rear_clear {
                    true
                } else {
                    rec.phase_elapsed = rec.phase_elapsed.plus(input.dt);
                    reverse_allowance_s.le(rec.phase_elapsed)
                };
                if round_over {
                    self.close_round(rec, input);
                    return ;
                }
            },
            RecoveryPhase::Hold => {
                rec.hold_elapsed = rec.hold_elapsed.plus(input.dt);
                if self.config.hold_retry_period_s.le(rec.hold_elapsed) {
                    rec.hold_elapsed = Double::zero();
                    rec.phase = RecoveryPhase::ForwardRetry;
                    rec.phase_elapsed = Double::zero();
                    rec.hold_retry = true;
                }
            },
        }
        self.recovery = Some(rec);
    }
}

} // verus!
