//! From setting off to arrival: which state a cycle leads to, and at what speed.
use crate::behavior::cycles::undisturbed;
use crate::behavior::{BehaviorInput, BehaviorPlanner, DrivingState, Goal, RecoveryPhase};
use crate::geometry::distance;
use crate::ieee::double::Double;
use crate::ieee::single::Single;
use vstd::arithmetic::power2::pow2;
use vstd::prelude::*;

verus! {

/// Distance of the robot from a goal.
pub open spec fn away(input: BehaviorInput, goal: Goal) -> Double {
    distance(input.robot_x, input.robot_y, goal.x, goal.y)
}

impl BehaviorPlanner {
    /// The robot is as near to the goal as it has to be: nearer than the goal's own
    /// tolerance, or than the usual one where the goal has none that is positive.
    pub open spec fn at_goal(self, input: BehaviorInput, goal: Goal) -> bool {
        if goal.tolerance is Some && goal.tolerance->0.key() > 0 && !goal.tolerance->0.nan() {
            away(input, goal).lt(goal.tolerance->0)
        } else {
            away(input, goal).lt(self.config.goal_tolerance)
        }
    }

    /// The cycle does not complete the stuck ones that lead into a recovery.
    pub open spec fn drives_on(self, input: BehaviorInput) -> bool {
        !input.planner_infeasible || self.stuck_count + 1
            < self.config.stuck_cycles_before_recovery
    }

    /// A robot that follows its path or approaches its goal, and is near enough to
    /// it, has arrived: it stops there.
    pub proof fn law_arrival(self, input: BehaviorInput)
        requires
            undisturbed(input),
            self.state == DrivingState::Following || self.state == DrivingState::Approaching,
            self.goal matches Some(g) && self.at_goal(input, g),
            self.state == DrivingState::Following ==> self.drives_on(input),
        ensures
            self.after(input).state == DrivingState::GoalReached,
            self.after(input).report(input).desired_speed == Double::zero(),
            !self.after(input).report(input).replan_requested,
    {
    }

    /// A goal is reported as reached only where the robot is near enough to it.
    pub proof fn law_no_arrival_from_afar(self, input: BehaviorInput)
        requires
            self.state != DrivingState::GoalReached,
            self.after(input).state == DrivingState::GoalReached,
        ensures
            self.goal matches Some(g) && self.at_goal(input, g),
            self.state == DrivingState::Following || self.state == DrivingState::Approaching,
            undisturbed(input),
    {
    }

    /// A goal that was reached stays reached until it is replaced.
    pub proof fn law_arrival_lasts(self, input: BehaviorInput)
        requires
            undisturbed(input),
            self.state == DrivingState::GoalReached,
        ensures
            self.after(input).state == DrivingState::GoalReached,
            self.after(input).report(input).desired_speed == Double::zero(),
    {
    }

    /// On its way the robot approaches the goal from the approach distance on; else
    /// it avoids an obstacle that is too near; else it follows its path. Without a
    /// goal it is idle.
    pub proof fn law_following(self, input: BehaviorInput)
        requires
            undisturbed(input),
            self.state == DrivingState::Following,
            self.drives_on(input),
        ensures
            ({
                let next = self.after(input).state;
                match self.goal {
                    None => next == DrivingState::Idle,
                    Some(g) => !self.at_goal(input, g) ==> if away(input, g).lt(
                        self.config.approach_distance,
                    ) {
                        next == DrivingState::Approaching
                    } else if input.nearest_obstacle_distance.lt(
                        self.config.obstacle_stop_distance,
                    ) {
                        next == DrivingState::ObstacleAvoidance
                    } else {
                        next == DrivingState::Following
                    },
                }
            }),
    {
    }

    /// An approach goes on until arrival.
    pub proof fn law_approach_goes_on(self, input: BehaviorInput)
        requires
            undisturbed(input),
            self.state == DrivingState::Approaching,
            self.goal matches Some(g) && !self.at_goal(input, g),
        ensures
            self.after(input).state == DrivingState::Approaching,
    {
    }

    /// An obstacle is avoided until it is half again as far away as where the
    /// avoidance began.
    pub proof fn law_avoidance(self, input: BehaviorInput)
        requires
            undisturbed(input),
            self.state == DrivingState::ObstacleAvoidance,
            self.drives_on(input),
        ensures
            self.after(input).state == if self.config.obstacle_stop_distance.times(
                Double::ratio(3, 2),
            ).lt(input.nearest_obstacle_distance) {
                DrivingState::Following
            } else {
                DrivingState::ObstacleAvoidance
            },
    {
    }

    /// An idle robot with a goal sets off, and one without stays.
    pub proof fn law_idle(self, input: BehaviorInput)
        requires
            undisturbed(input),
            self.state == DrivingState::Idle,
        ensures
            self.after(input).state == DrivingState::Following <==> self.goal is Some,
            self.after(input).state == DrivingState::Idle <==> self.goal is None,
    {
    }

    /// No cycle changes the goal or the configuration.
    pub proof fn law_goal_is_kept(self, input: BehaviorInput)
        ensures
            self.after(input).goal == self.goal,
            self.after(input).config == self.config,
    {
    }

    /// A leg is driven at the speed of its goal where that is positive and below the
    /// default, and else at the default.
    pub proof fn law_goal_sets_the_speed(self, input: BehaviorInput)
        requires
            !self.config.default_speed.nan(),
            self.state == DrivingState::Following,
        ensures
            ({
                let v = self.report(input).desired_speed;
                match self.goal {
                    Some(Goal { speed: Some(s), .. }) => if Double::zero().lt(s) && s.le(
                        self.config.default_speed,
                    ) {
                        v == s
                    } else {
                        v == self.config.default_speed
                    },
                    _ => v == self.config.default_speed,
                }
            }),
    {
    }

    /// The nearer to the goal, the slower the approach: never slower than a tenth of
    /// the speed of the leg, and never faster than that.
    pub proof fn law_approach_slows_down(self, near: BehaviorInput, far: BehaviorInput)
        requires
            self.state == DrivingState::Approaching,
            self.config.approach_distance.positive(),
            self.leg_speed().nonnegative(),
            self.goal matches Some(g) && Double::zero().le(away(near, g)) && away(near, g).le(
                away(far, g),
            ),
        ensures
            ({
                let (slow, fast) = (
                    self.report(near).desired_speed,
                    self.report(far).desired_speed,
                );
                &&& slow.le(fast)
                &&& fast.le(self.leg_speed())
                &&& self.leg_speed().times(Double::ratio(1, 10)).le(slow)
            }),
    {
        let g = self.goal->0;
        let (a, b) = (away(near, g), away(far, g));
        let c = self.config.approach_distance;
        let (tenth, one) = (Double::ratio(1, 10), Double::one());
        let v = self.leg_speed();
        Double::lemma_ratio_le_one(1, 10);
        Double::lemma_over_monotone(a, b, c);
        let (p, q) = (a.over(c).clamp(tenth, one), b.over(c).clamp(tenth, one));
        v.lemma_times_monotone(p, q);
        v.lemma_times_monotone(tenth, p);
        v.lemma_times_shrinks(q);
    }

    /// An approach begins at the speed of the leg.
    pub proof fn law_approach_begins_at_full_speed(self, input: BehaviorInput)
        requires
            self.state == DrivingState::Approaching,
            self.config.approach_distance.positive(),
            self.leg_speed().finite(),
            self.goal matches Some(g) && away(input, g) == self.config.approach_distance,
        ensures
            self.report(input).desired_speed == self.leg_speed(),
    {
        self.config.approach_distance.lemma_over_itself();
        self.leg_speed().lemma_times_one();
        Double::lemma_ratio_le_one(1, 10);
    }

    /// A retry and a reverse are driven at a crawl of 0.1 m/s, and Hold stands.
    pub proof fn law_recovery_crawls(self, input: BehaviorInput)
        requires
            self.wf(),
            self.state == DrivingState::Recovery,
        ensures
            self.report(input).desired_speed == if self.phase() == Some(RecoveryPhase::Hold) {
                Double::zero()
            } else {
                Double::ratio(1, 10)
            },
            self.report(input).replan_requested,
    {
    }

    /// A cycle counts as stuck exactly where the robot stands, to within 0.05 m/s in
    /// either direction, and has no feasible plan while it follows its path or avoids
    /// an obstacle. Anything else sets the count back.
    pub proof fn law_stuck_cycle(self, input: BehaviorInput)
        requires
            undisturbed(input),
            self.state != DrivingState::Recovery,
            self.stuck_count + 1 < self.config.stuck_cycles_before_recovery,
        ensures
            ({
                let driving = self.state == DrivingState::Following || self.state
                    == DrivingState::ObstacleAvoidance;
                let limit = Double::ratio(5, 100);
                let stands = limit.negate().lt(input.robot_speed) && input.robot_speed.lt(limit);
                self.after(input).stuck_count == if driving && stands && input.planner_infeasible {
                    self.stuck_count + 1
                } else {
                    0int
                }
            }),
    {
        Double::lemma_ratio_positive(5, 100);
        Double::ratio(5, 100).lemma_negate();
    }

    /// A reverse that is short of its distance, with the rear clear, is not ended by
    /// feasible plans.
    pub proof fn law_reverse_is_seen_through(self, input: BehaviorInput)
        requires
            self.wf(),
            undisturbed(input),
            self.phase() == Some(RecoveryPhase::Reverse),
            input.rear_clear,
            self.episode is None || !self.config.recovery_progress_reset_m.lt(
                distance(
                    input.robot_x,
                    input.robot_y,
                    self.episode->0.origin_x,
                    self.episode->0.origin_y,
                ),
            ),
            ({
                let r = self.recovery->0;
                let start = r.reverse_start->0;
                &&& distance(input.robot_x, input.robot_y, start.0, start.1).lt(
                    self.reverse_target_m(),
                )
                &&& !Double::ratio(3, 10).lt(
                    distance(input.robot_x, input.robot_y, r.entry_x, r.entry_y),
                )
            }),
        ensures
            self.after(input).state == DrivingState::Recovery,
            self.after(input).recovery->0.feasible_streak == 0,
    {
    }

    /// Otherwise each feasible cycle in a row counts, and one that is not feasible
    /// starts the count anew.
    pub proof fn law_feasible_cycles_count(self, input: BehaviorInput)
        requires
            self.wf(),
            undisturbed(input),
            self.phase() == Some(RecoveryPhase::ForwardRetry) || self.phase() == Some(
                RecoveryPhase::Hold,
            ),
            self.after(input).state == DrivingState::Recovery,
        ensures
            self.after(input).recovery->0.feasible_streak == if input.planner_feasible {
                self.recovery->0.feasible_streak + 1
            } else {
                0int
            },
            self.after(input).recovery->0.entry_x == self.recovery->0.entry_x,
            self.after(input).recovery->0.entry_y == self.recovery->0.entry_y,
    {
    }

    /// A recovery, its episode and a reverse each remember where they began.
    pub proof fn law_places_are_remembered(self, input: BehaviorInput)
        requires
            self.wf(),
            self.after(input).state == DrivingState::Recovery,
            self.attempts() < u32::MAX,
        ensures
            ({
                let r = self.after(input).recovery->0;
                let here = (input.robot_x, input.robot_y);
                &&& self.state != DrivingState::Recovery ==> (r.entry_x, r.entry_y) == here
                &&& self.state == DrivingState::Recovery ==> r.entry_x
                    == self.recovery->0.entry_x && r.entry_y == self.recovery->0.entry_y
                &&& r.phase == RecoveryPhase::Reverse ==> r.reverse_start == if self.phase()
                    == Some(RecoveryPhase::Reverse) {
                    self.recovery->0.reverse_start
                } else {
                    Some(here)
                }
            }),
    {
    }

    /// The first round of an episode backs up by the least distance.
    pub proof fn law_first_reverse_is_the_least(self)
        requires
            self.config.valid(),
            self.attempts() == 0,
        ensures
            self.reverse_target_m() == self.config.recovery_reverse_min_m,
    {
        Double::lemma_one();
        let p = pow2(1074);
        assert(1 * p == p) by (nonlinear_arith);
        Double::lemma_of_exact(1, Double::one().bits);
        self.config.recovery_reverse_min_m.lemma_times_one();
    }

    /// The clock of an episode runs while the robot follows its path and starts anew in
    /// every other state. Entering a recovery keeps the rounds that were counted.
    pub proof fn law_episode_clock(self, input: BehaviorInput)
        requires
            self.wf(),
            undisturbed(input),
            self.after(input).episode is Some,
        ensures
            ({
                let e = self.after(input).episode->0;
                let stays = self.state == DrivingState::Following && !(self.stuck(input)
                    && self.stuck_count + 1 >= self.config.stuck_cycles_before_recovery);
                &&& stays ==> self.episode is Some && e.following_time
                    == self.episode->0.following_time.plus(input.dt) && !Double::of(5).le(
                    e.following_time,
                )
                &&& !stays ==> e.following_time == Double::zero()
                &&& self.episode matches Some(b) ==> e.attempts >= b.attempts || b.attempts
                    == u32::MAX || self.config.recovery_progress_reset_m.lt(
                    distance(input.robot_x, input.robot_y, b.origin_x, b.origin_y),
                )
                &&& self.state != DrivingState::Recovery && self.after(input).state
                    == DrivingState::Recovery && self.config.recovery_exit_feasible_cycles > 1
                    && input.dt.lt(Double::of(3)) && !self.config.recovery_progress_reset_m.lt(
                    distance(input.robot_x, input.robot_y, e.origin_x, e.origin_y),
                ) ==> self.after(input).attempts() == self.attempts()
            }),
    {
        input.dt.lemma_zero_plus();
    }

    /// An episode keeps the place where it began. It ends where the robot is farther from
    /// there than the reset distance.
    pub proof fn law_episode_origin(self, input: BehaviorInput)
        requires
            self.wf(),
            undisturbed(input),
            self.state != DrivingState::Recovery,
        ensures
            ({
                let next = self.after(input).episode;
                let here = (input.robot_x, input.robot_y);
                &&& self.episode is None && next is Some ==> (next->0.origin_x, next->0.origin_y)
                    == here
                &&& self.episode matches Some(b) ==> {
                    let gone = self.config.recovery_progress_reset_m.lt(
                        distance(input.robot_x, input.robot_y, b.origin_x, b.origin_y),
                    );
                    &&& gone && self.after(input).state != DrivingState::Recovery ==> next is None
                    &&& !gone && next is Some ==> next->0.origin_x == b.origin_x
                        && next->0.origin_y == b.origin_y
                }
            }),
    {
    }

    /// A stop for safety keeps the episode and forgets the recovery and its count.
    pub proof fn law_stop_keeps_the_episode(self, input: BehaviorInput)
        requires
            !undisturbed(input),
        ensures
            self.after(input).episode == self.episode,
            self.after(input).recovery is None,
            self.after(input).stuck_count == 0,
            self.after(input).state == if input.emergency_stop {
                DrivingState::EmergencyStop
            } else {
                DrivingState::Degraded
            },
    {
    }

    /// Out of a stop for safety the robot follows its path if it has a goal and is idle
    /// otherwise; out of poor localization only once the confidence is one half.
    pub proof fn law_driving_resumes(self, input: BehaviorInput)
        requires
            undisturbed(input),
            self.state == DrivingState::EmergencyStop || self.state == DrivingState::Degraded,
            self.state == DrivingState::Degraded ==> (Single { bits: 0x3f00_0000 }).le(
                input.localization_confidence,
            ),
        ensures
            self.goal is Some ==> self.after(input).state == DrivingState::Following,
            self.goal is None ==> self.after(input).state == DrivingState::Idle,
    {
    }
}

} // verus!
