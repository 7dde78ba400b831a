//! What holds of the behaviour planner over all inputs and cycles.
use crate::behavior::{
    exit_distance, recovery_crawl_speed, BehaviorInput, BehaviorPlanner, DrivingState,
    RecoveryPhase,
};
use crate::geometry::distance;
use crate::ieee::double::Double;
use crate::ieee::single::Single;
use vstd::prelude::*;

verus! {

impl BehaviorPlanner {
    /// An emergency stop overrides everything.
    pub proof fn law_emergency_stop_overrides(self, input: BehaviorInput)
        requires
            input.emergency_stop,
        ensures
            self.after(input).state == DrivingState::EmergencyStop,
            self.after(input).report(input).desired_speed == Double::zero(),
            !self.after(input).report(input).replan_requested,
            self.after(input).report(input).recovery_phase is None,
            self.after(input).goal == self.goal,
    {
    }

    /// Poor localization is a controlled stop, whatever the state was.
    pub proof fn law_poor_localization_stops(self, input: BehaviorInput)
        requires
            !input.emergency_stop,
            input.localization_confidence.lt(Double::ratio(3, 10).narrow()),
        ensures
            self.after(input).state == DrivingState::Degraded,
            self.after(input).report(input).desired_speed == Double::zero(),
            self.after(input).goal == self.goal,
    {
    }

    /// Once lost, localization has to be good again, at 0.5, before the robot goes
    /// on, and then it goes on toward its goal: that it is no longer poor is not
    /// enough.
    pub proof fn law_degraded_lasts(self, input: BehaviorInput)
        requires
            self.state == DrivingState::Degraded,
            !input.emergency_stop,
            !input.localization_confidence.lt(Double::ratio(3, 10).narrow()),
        ensures
            self.after(input).state == (if (Single { bits: 0x3f00_0000 }).le(
                input.localization_confidence,
            ) {
                self.resumed()
            } else {
                DrivingState::Degraded
            }),
    {
    }

    /// An emergency stop lasts as long as its cause.
    pub proof fn law_emergency_stop_ends(self, input: BehaviorInput)
        requires
            self.state == DrivingState::EmergencyStop,
            !input.emergency_stop,
            !input.localization_confidence.lt(Double::ratio(3, 10).narrow()),
        ensures
            self.after(input).state == self.resumed(),
    {
    }

    /// In every state in which the robot is to stand, the desired speed is
    /// zero.
    pub proof fn law_standing_states_have_no_speed(self, input: BehaviorInput)
        requires
            self.state == DrivingState::Idle || self.state == DrivingState::GoalReached
                || self.state == DrivingState::Degraded || self.state
                == DrivingState::EmergencyStop || self.phase() == Some(RecoveryPhase::Hold),
        ensures
            self.report(input).desired_speed == Double::zero(),
    {
    }

    /// A recovery phase is reported exactly in the Recovery state.
    pub proof fn law_phase_iff_recovery(self, input: BehaviorInput)
        requires
            self.wf(),
        ensures
            self.report(input).recovery_phase is Some <==> self.report(input).state
                == DrivingState::Recovery,
    {
    }

    /// A recovery is entered only while driving, only by a stuck cycle, and
    /// only when that completes the configured count.
    pub proof fn law_recovery_entry(self, input: BehaviorInput)
        requires
            self.state != DrivingState::Recovery,
            self.after(input).state == DrivingState::Recovery,
        ensures
            self.state == DrivingState::Following || self.state == DrivingState::ObstacleAvoidance,
            input.planner_infeasible,
            self.stuck_count + 1 >= self.config.stuck_cycles_before_recovery,
    {
    }

    /// The planner after a series of cycles.
    pub open spec fn after_cycles(self, inputs: Seq<BehaviorInput>) -> BehaviorPlanner
        decreases inputs.len(),
    {
        if inputs.len() == 0 {
            self
        } else {
            self.after_cycles(inputs.drop_last()).after(inputs.last())
        }
    }

    /// From a clean count, fewer cycles than configured never lead into a
    /// recovery.
    pub proof fn law_recovery_takes_enough_cycles(self, inputs: Seq<BehaviorInput>)
        requires
            self.state != DrivingState::Recovery,
            self.stuck_count == 0,
            inputs.len() < self.config.stuck_cycles_before_recovery,
        ensures
            self.after_cycles(inputs).state != DrivingState::Recovery,
            self.after_cycles(inputs).stuck_count <= inputs.len(),
            self.after_cycles(inputs).config == self.config,
        decreases inputs.len(),
    {
        if inputs.len() > 0 {
            self.law_recovery_takes_enough_cycles(inputs.drop_last());
        }
    }

    /// A cycle that is not stuck sets the count back, so that only consecutive
    /// stuck cycles add up.
    pub proof fn law_free_cycle_resets_count(self, input: BehaviorInput)
        requires
            self.state != DrivingState::Recovery,
            !self.stuck(input),
        ensures
            self.after(input).stuck_count == 0,
            self.after(input).state != DrivingState::Recovery,
    {
    }

    /// A leg is never driven faster than the default speed.
    pub proof fn law_leg_speed(self)
        requires
            !self.config.default_speed.nan(),
        ensures
            self.leg_speed().le(self.config.default_speed),
            Double::zero().le(self.config.default_speed) ==> Double::zero().le(self.leg_speed()),
    {
    }

    /// Outside a recovery the desired speed is between zero and the default
    /// one.
    pub proof fn law_desired_speed(self, input: BehaviorInput)
        requires
            self.config.valid(),
            self.config.default_speed.nonnegative(),
            self.state != DrivingState::Recovery,
            self.state == DrivingState::Approaching ==> !self.goal_distance(input).over(
                self.config.approach_distance,
            ).nan(),
        ensures
            self.report(input).desired_speed.le(self.config.default_speed),
            Double::zero().le(self.report(input).desired_speed),
    {
        self.law_leg_speed();
        let v = self.leg_speed();
        if self.state == DrivingState::Approaching && self.goal is Some {
            Double::lemma_ratio_le_one(1, 10);
            let r = self.goal_distance(input).over(self.config.approach_distance).clamp(
                Double::ratio(1, 10),
                Double::one(),
            );
            v.lemma_times_shrinks(r);
        } else if self.state == DrivingState::ObstacleAvoidance {
            v.lemma_times_shrinks(self.config.obstacle_avoidance_speed_factor);
        }
    }

    /// Moving far enough from the place of entry ends a recovery at once,
    /// whatever its phase.
    pub proof fn law_movement_ends_recovery(self, input: BehaviorInput)
        requires
            self.wf(),
            self.state == DrivingState::Recovery,
            !input.emergency_stop,
            !input.localization_confidence.lt(Double::ratio(3, 10).narrow()),
            exit_distance().lt(
                distance(
                    input.robot_x,
                    input.robot_y,
                    self.recovery->0.entry_x,
                    self.recovery->0.entry_y,
                ),
            ),
        ensures
            self.after(input).state == self.resumed(),
            self.after(input).recovery is None,
    {
    }

    /// Leaving a recovery does not reset the attempts: they last until the
    /// episode has made its progress.
    pub proof fn law_attempts_survive_exit(self, input: BehaviorInput)
        requires
            self.wf(),
            self.state == DrivingState::Recovery,
            self.episode matches Some(e) && !self.config.recovery_progress_reset_m.lt(
                distance(input.robot_x, input.robot_y, e.origin_x, e.origin_y),
            ),
            self.after(input).state != DrivingState::Recovery,
        ensures
            self.after(input).attempts() == self.attempts(),
    {
    }

    /// The robot is told to reverse only while the rear is clear.
    pub proof fn law_reverse_needs_clear_rear(self, input: BehaviorInput)
        requires
            self.wf(),
            self.attempts() < u32::MAX,
        ensures
            self.after(input).phase() == Some(RecoveryPhase::Reverse) ==> input.rear_clear,
    {
    }

    /// The reverse distance of a round is within the cap and grows with the
    /// rounds.
    pub proof fn law_reverse_target_escalates(self, later: BehaviorPlanner)
        requires
            self.config.valid(),
            later.config == self.config,
            self.attempts() <= later.attempts() < u32::MAX,
        ensures
            self.reverse_target_m().le(self.config.recovery_reverse_max_m),
            self.reverse_target_m().le(later.reverse_target_m()),
            Double::zero().le(self.reverse_target_m()),
    {
        let (n, m) = ((self.attempts() + 1) as u64, (later.attempts() + 1) as u64);
        Double::lemma_of(n);
        Double::lemma_of(m);
        Double::lemma_of_order(n, m);
        self.config.recovery_reverse_min_m.lemma_times_monotone(Double::of(n), Double::of(m));
    }

    /// A reverse has the configured time at least, and the time that the crawl
    /// needs for its distance.
    pub proof fn law_reverse_has_time(self)
        requires
            self.config.valid(),
            self.attempts() < u32::MAX,
        ensures
            self.config.recovery_reverse_max_s.le(self.reverse_time_allowance_s()),
            ({
                let needed = self.reverse_target_m().over(recovery_crawl_speed()).plus(
                    Double::one(),
                );
                needed.nan() || needed.le(self.reverse_time_allowance_s())
            }),
    {
    }
}

} // verus!
