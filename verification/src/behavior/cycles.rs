//! What holds of the behaviour planner over series of cycles.
use crate::behavior::{
    episode_clear_time, exit_distance, forward_retry_time, recovery_crawl_speed, BehaviorInput,
    BehaviorPlanner, DrivingState, RecoveryPhase,
};
use crate::geometry::distance;
use crate::ieee::double::{lemma_decode_zero, lemma_encode_zero, Double};
use vstd::arithmetic::power2::{lemma_pow2_pos, pow2};
use vstd::prelude::*;

verus! {

/// A point has no distance from itself, unless it is no point.
proof fn lemma_no_distance(x: Double, y: Double)
    ensures
        distance(x, y, x, y).nan() || distance(x, y, x, y).key() == 0,
{
    reveal(Double::spec_plus);
    reveal(Double::spec_times);
    reveal(Double::spec_sqrt);
    lemma_pow2_pos(1074);
    lemma_encode_zero(pow2(1074));
    lemma_encode_zero(1);
    let (a, b) = (x.minus(x), y.minus(y));
    assert(a.nan() || a.mag() == 0);
    assert(b.nan() || b.mag() == 0);
    lemma_decode_zero();
    assert(0nat * 0nat == 0) by (nonlinear_arith);
    assert(a.square().nan() || a.square().mag() == 0);
    assert(b.square().nan() || b.square().mag() == 0);
}

/// Time that a series of cycles takes, added up cycle by cycle.
pub open spec fn time_of(inputs: Seq<BehaviorInput>) -> Double
    decreases inputs.len(),
{
    if inputs.len() == 0 {
        Double::zero()
    } else {
        time_of(inputs.drop_last()).plus(inputs.last().dt)
    }
}

/// Neither an emergency nor poor localization interrupts the cycle.
pub open spec fn undisturbed(input: BehaviorInput) -> bool {
    !input.emergency_stop && !input.localization_confidence.lt(Double::ratio(3, 10).narrow())
}

impl BehaviorPlanner {
    /// The cycle counts as stuck.
    pub open spec fn qualifies(self, input: BehaviorInput) -> bool {
        undisturbed(input) && self.stuck(input)
    }

    /// Number of stuck cycles in a row at the end of a series.
    pub open spec fn stuck_run(self, inputs: Seq<BehaviorInput>) -> nat
        decreases inputs.len(),
    {
        if inputs.len() == 0 {
            0
        } else if self.after_cycles(inputs.drop_last()).qualifies(inputs.last()) {
            self.stuck_run(inputs.drop_last()) + 1
        } else {
            0
        }
    }

    proof fn lemma_stuck_run(self, inputs: Seq<BehaviorInput>)
        requires
            self.state != DrivingState::Recovery,
            self.stuck_count == 0,
            self.config.stuck_cycles_before_recovery >= 1,
            self.config.recovery_exit_feasible_cycles > 1 || forall|i: int|
                0 <= i < inputs.len() ==> !(#[trigger] inputs[i]).planner_feasible,
            forall|k: int|
                0 <= k < inputs.len() ==> self.after_cycles(#[trigger] inputs.take(k)).state
                    != DrivingState::Recovery,
        ensures
            ({
                let p = self.after_cycles(inputs);
                let n = self.config.stuck_cycles_before_recovery;
                &&& p.config == self.config
                &&& p.state != DrivingState::Recovery ==> p.stuck_count == self.stuck_run(inputs)
                    && self.stuck_run(inputs) < n
                &&& p.state == DrivingState::Recovery ==> {
                    &&& self.stuck_run(inputs) == n
                    &&& inputs.last().dt.lt(forward_retry_time()) ==> p.phase() == Some(
                        RecoveryPhase::ForwardRetry,
                    )
                }
            }),
        decreases inputs.len(),
    {
        if inputs.len() > 0 {
            let (early, last) = (inputs.drop_last(), inputs.last());
            assert forall|i: int| 0 <= i < early.len() implies #[trigger] early[i]
                == inputs[i] by {}
            assert forall|k: int| 0 <= k < early.len() implies self.after_cycles(
                #[trigger] early.take(k),
            ).state != DrivingState::Recovery by {
                assert(early.take(k) =~= inputs.take(k));
            }
            self.lemma_stuck_run(early);
            assert(inputs.take(inputs.len() - 1) =~= early);
            assert(inputs[inputs.len() - 1] == last);
            let p = self.after_cycles(early);
            lemma_no_distance(last.robot_x, last.robot_y);
            Double::lemma_ratio_positive(3, 10);
            last.dt.lemma_zero_plus();
        }
    }

    /// A recovery is entered by the cycle that completes the configured number of
    /// stuck cycles in a row, and by no other: one cycle that is not stuck starts
    /// the count anew. It begins with a forward retry at the crawl, unless that one
    /// cycle takes all the time of the retry. Left out are feasible plans where one
    /// of them is enough to leave a recovery.
    pub proof fn law_recovery_is_entered(self, inputs: Seq<BehaviorInput>)
        requires
            self.state != DrivingState::Recovery,
            self.stuck_count == 0,
            self.config.stuck_cycles_before_recovery >= 1,
            self.config.recovery_exit_feasible_cycles > 1 || forall|i: int|
                0 <= i < inputs.len() ==> !(#[trigger] inputs[i]).planner_feasible,
            forall|k: int|
                0 <= k < inputs.len() ==> self.after_cycles(#[trigger] inputs.take(k)).state
                    != DrivingState::Recovery,
        ensures
            self.after_cycles(inputs).state == DrivingState::Recovery <==> self.stuck_run(inputs)
                == self.config.stuck_cycles_before_recovery,
            self.after_cycles(inputs).state == DrivingState::Recovery && inputs.last().dt.lt(
                forward_retry_time(),
            ) ==> {
                let r = self.after_cycles(inputs).report(inputs.last());
                r.recovery_phase == Some(RecoveryPhase::ForwardRetry) && r.desired_speed
                    == recovery_crawl_speed()
            },
    {
        self.lemma_stuck_run(inputs);
    }

    /// The planner in the middle of a cycle, where the phase of a recovery is
    /// decided.
    pub open spec fn noted(self, input: BehaviorInput) -> BehaviorPlanner {
        self.detected(input).episode_kept(input)
    }

    /// The cycle belongs to a recovery, be it the one that enters it.
    pub open spec fn recovering(self, input: BehaviorInput) -> bool {
        undisturbed(input) && self.noted(input).state == DrivingState::Recovery
    }

    /// The cycle of a recovery has a feasible forward plan and is not committed to
    /// a reverse.
    pub open spec fn hopeful(self, input: BehaviorInput) -> bool {
        let q = self.noted(input);
        self.recovering(input) && input.planner_feasible && !q.committed(q.recovery->0, input)
    }

    /// The robot is away from where the recovery was entered.
    pub open spec fn moved(self, input: BehaviorInput) -> bool {
        let rec = self.noted(input).recovery->0;
        exit_distance().lt(distance(input.robot_x, input.robot_y, rec.entry_x, rec.entry_y))
    }

    /// Number of hopeful cycles in a row at the end of a series, all of the same
    /// recovery.
    pub open spec fn hopeful_run(self, inputs: Seq<BehaviorInput>) -> nat
        decreases inputs.len(),
    {
        if inputs.len() == 0 {
            0
        } else {
            let p = self.after_cycles(inputs.drop_last());
            if !p.hopeful(inputs.last()) {
                0
            } else if p.state == DrivingState::Recovery {
                self.hopeful_run(inputs.drop_last()) + 1
            } else {
                1
            }
        }
    }

    proof fn lemma_after_wf(self, input: BehaviorInput)
        requires
            self.wf(),
        ensures
            self.after(input).wf(),
            self.after(input).config == self.config,
    {
    }

    proof fn lemma_hopeful_run(self, inputs: Seq<BehaviorInput>)
        requires
            self.wf(),
            self.state != DrivingState::Recovery,
        ensures
            ({
                let p = self.after_cycles(inputs);
                &&& p.wf()
                &&& p.config == self.config
                &&& p.state == DrivingState::Recovery ==> p.recovery->0.feasible_streak
                    == self.hopeful_run(inputs)
            }),
        decreases inputs.len(),
    {
        if inputs.len() > 0 {
            self.lemma_hopeful_run(inputs.drop_last());
            self.after_cycles(inputs.drop_last()).lemma_after_wf(inputs.last());
        }
    }

    /// A recovery is left exactly when the robot has moved away from where it was
    /// entered, or when the configured number of cycles in a row had a feasible
    /// forward plan, none of them committed to a reverse.
    pub proof fn law_recovery_is_left(self, inputs: Seq<BehaviorInput>)
        requires
            self.wf(),
            self.state != DrivingState::Recovery,
            self.config.recovery_exit_feasible_cycles >= 1,
            inputs.len() > 0,
            self.after_cycles(inputs.drop_last()).recovering(inputs.last()),
        ensures
            ({
                let p = self.after_cycles(inputs.drop_last());
                let q = self.after_cycles(inputs);
                &&& q.state != DrivingState::Recovery <==> p.moved(inputs.last())
                    || self.hopeful_run(inputs) >= self.config.recovery_exit_feasible_cycles
                &&& q.state != DrivingState::Recovery ==> q.state == p.resumed()
            }),
    {
        self.lemma_hopeful_run(inputs.drop_last());
    }

    /// The episode ends with the cycle: the robot has made its progress from where
    /// the episode began, or has followed its path for long enough.
    pub open spec fn episode_ends(self, input: BehaviorInput) -> bool {
        let q = self.detected(input);
        undisturbed(input) && (q.episode matches Some(e) && (
        self.config.recovery_progress_reset_m.lt(
            distance(input.robot_x, input.robot_y, e.origin_x, e.origin_y),
        ) || (q.state == DrivingState::Following && episode_clear_time().le(
            e.following_time.plus(input.dt),
        ))))
    }

    /// The cycle closes a round of the recovery: a reverse ends because the rear is
    /// blocked or its time is up, or a forward retry ends with the rear blocked,
    /// unless it was made from Hold.
    pub open spec fn closes_round(self, input: BehaviorInput) -> bool {
        let q = self.noted(input);
        let rec = q.recovery->0;
        let elapsed = rec.phase_elapsed.plus(input.dt);
        self.recovering(input) && self.after(input).state == DrivingState::Recovery
            && match rec.phase {
            RecoveryPhase::ForwardRetry => !input.rear_clear && !rec.hold_retry
                && forward_retry_time().le(elapsed),
            RecoveryPhase::Reverse => !input.rear_clear || q.reverse_time_allowance_s().le(elapsed),
            RecoveryPhase::Hold => false,
        }
    }

    /// Number of rounds closed in the episode that a series ends in, over all its
    /// recoveries.
    pub open spec fn rounds(self, inputs: Seq<BehaviorInput>) -> nat
        decreases inputs.len(),
    {
        if inputs.len() == 0 {
            0
        } else {
            let p = self.after_cycles(inputs.drop_last());
            let before = if p.episode_ends(inputs.last()) {
                0
            } else {
                self.rounds(inputs.drop_last())
            };
            if p.closes_round(inputs.last()) {
                before + 1
            } else {
                before
            }
        }
    }

    proof fn lemma_rounds(self, inputs: Seq<BehaviorInput>)
        requires
            self.wf(),
            self.attempts() == 0,
            inputs.len() < u32::MAX,
        ensures
            self.after_cycles(inputs).wf(),
            self.after_cycles(inputs).config == self.config,
            self.after_cycles(inputs).attempts() == self.rounds(inputs),
            self.rounds(inputs) <= inputs.len(),
        decreases inputs.len(),
    {
        if inputs.len() > 0 {
            self.lemma_rounds(inputs.drop_last());
            self.after_cycles(inputs.drop_last()).lemma_after_wf(inputs.last());
            self.after_cycles(inputs.drop_last()).lemma_attempts(inputs.last());
        }
    }

    proof fn lemma_attempts(self, input: BehaviorInput)
        requires
            self.wf(),
            self.attempts() < u32::MAX,
        ensures
            self.after(input).attempts() == (if self.episode_ends(input) {
                0
            } else {
                self.attempts() as int
            }) + (if self.closes_round(input) {
                1int
            } else {
                0
            }),
            self.closes_round(input) ==> self.after(input).phase() == Some(
                if self.after(input).attempts() >= self.config.recovery_max_attempts {
                    RecoveryPhase::Hold
                } else {
                    RecoveryPhase::ForwardRetry
                },
            ),
    {
        let (d, q) = (self.detected(input), self.noted(input));
        if undisturbed(input) {
            assert(d.attempts() == self.attempts());
            assert(q.attempts() == if self.episode_ends(input) {
                0
            } else {
                self.attempts()
            });
        }
    }

    /// The round that completes the configured number in its episode leads to Hold,
    /// and so does every later one; a round before it leads to a forward retry.
    /// Leaving a recovery without progress does not set the count back.
    pub proof fn law_hold_follows_the_last_round(self, inputs: Seq<BehaviorInput>)
        requires
            self.wf(),
            self.attempts() == 0,
            0 < inputs.len() < u32::MAX,
            self.after_cycles(inputs.drop_last()).closes_round(inputs.last()),
        ensures
            self.after_cycles(inputs).attempts() == self.rounds(inputs),
            self.after_cycles(inputs).phase() == Some(
                if self.rounds(inputs) >= self.config.recovery_max_attempts {
                    RecoveryPhase::Hold
                } else {
                    RecoveryPhase::ForwardRetry
                },
            ),
    {
        self.lemma_rounds(inputs);
        self.lemma_rounds(inputs.drop_last());
        self.after_cycles(inputs.drop_last()).lemma_attempts(inputs.last());
    }

    /// Every cycle of the series leaves the planner in recovery.
    pub open spec fn goes_on(self, inputs: Seq<BehaviorInput>) -> bool {
        forall|k: int|
            0 < k <= inputs.len() ==> self.after_cycles(#[trigger] inputs.take(k)).state
                == DrivingState::Recovery
    }

    /// The time of no part of the series but the whole reaches the limit.
    pub open spec fn not_before(inputs: Seq<BehaviorInput>, limit: Double) -> bool {
        forall|k: int|
            0 < k < inputs.len() ==> !limit.le(time_of(#[trigger] inputs.take(k)))
    }

    proof fn lemma_shorter(self, inputs: Seq<BehaviorInput>, limit: Double)
        requires
            inputs.len() > 0,
            self.goes_on(inputs),
            BehaviorPlanner::not_before(inputs, limit),
        ensures
            self.goes_on(inputs.drop_last()),
            self.after_cycles(inputs).state == DrivingState::Recovery,
            BehaviorPlanner::not_before(inputs.drop_last(), limit),
            inputs.len() > 1 ==> !limit.le(time_of(inputs.drop_last())),
    {
        let early = inputs.drop_last();
        assert forall|k: int| 0 < k <= early.len() implies self.after_cycles(
            #[trigger] early.take(k),
        ).state == DrivingState::Recovery by {
            assert(early.take(k) =~= inputs.take(k));
        }
        assert(inputs.take(inputs.len() as int) =~= inputs);
        assert forall|k: int| 0 < k < early.len() implies !limit.le(
            time_of(#[trigger] early.take(k)),
        ) by {
            assert(early.take(k) =~= inputs.take(k));
        }
        if inputs.len() > 1 {
            assert(inputs.take(inputs.len() - 1) =~= early);
        }
    }

    /// Hold begins with its time at zero.
    pub proof fn law_hold_begins_anew(self, input: BehaviorInput)
        requires
            self.wf(),
            self.phase() != Some(RecoveryPhase::Hold),
            self.after(input).phase() == Some(RecoveryPhase::Hold),
        ensures
            self.after(input).recovery->0.hold_elapsed == Double::zero(),
    {
    }

    /// While a recovery goes on, Hold lasts until the time of its cycles adds up to
    /// the retry period; then a forward retry is made. It is never final.
    pub proof fn law_hold_lasts_its_period(self, inputs: Seq<BehaviorInput>)
        requires
            self.wf(),
            self.phase() == Some(RecoveryPhase::Hold),
            self.recovery->0.hold_elapsed == Double::zero(),
            self.config.hold_retry_period_s.positive(),
            self.goes_on(inputs),
            BehaviorPlanner::not_before(inputs, self.config.hold_retry_period_s),
        ensures
            ({
                let r = self.after_cycles(inputs);
                if self.config.hold_retry_period_s.le(time_of(inputs)) {
                    &&& r.phase() == Some(RecoveryPhase::ForwardRetry)
                    &&& r.recovery->0.hold_retry
                    &&& r.recovery->0.phase_elapsed == Double::zero()
                } else {
                    r.phase() == Some(RecoveryPhase::Hold)
                }
            }),
    {
        self.lemma_hold(inputs);
    }

    proof fn lemma_hold(self, inputs: Seq<BehaviorInput>)
        requires
            self.wf(),
            self.phase() == Some(RecoveryPhase::Hold),
            self.recovery->0.hold_elapsed == Double::zero(),
            self.config.hold_retry_period_s.positive(),
            self.goes_on(inputs),
            BehaviorPlanner::not_before(inputs, self.config.hold_retry_period_s),
        ensures
            ({
                let r = self.after_cycles(inputs);
                &&& r.config == self.config
                &&& r.state == DrivingState::Recovery
                &&& r.recovery is Some
                &&& if self.config.hold_retry_period_s.le(time_of(inputs)) {
                    &&& r.recovery->0.phase == RecoveryPhase::ForwardRetry
                    &&& r.recovery->0.hold_retry
                    &&& r.recovery->0.phase_elapsed == Double::zero()
                } else {
                    &&& r.recovery->0.phase == RecoveryPhase::Hold
                    &&& r.recovery->0.hold_elapsed == time_of(inputs)
                }
            }),
        decreases inputs.len(),
    {
        if inputs.len() > 0 {
            self.lemma_shorter(inputs, self.config.hold_retry_period_s);
            self.lemma_hold(inputs.drop_last());
        }
    }

    /// While a recovery goes on, a forward retry lasts until the time of its cycles
    /// adds up to the retry time. Then it gives way to a reverse if the rear is
    /// clear. If it is not, a retry that was made from Hold returns there, and any
    /// other closes its round.
    pub proof fn law_retry_lasts_its_time(self, inputs: Seq<BehaviorInput>)
        requires
            self.wf(),
            self.phase() == Some(RecoveryPhase::ForwardRetry),
            self.recovery->0.phase_elapsed == Double::zero(),
            self.goes_on(inputs),
            BehaviorPlanner::not_before(inputs, forward_retry_time()),
        ensures
            ({
                let r = self.after_cycles(inputs);
                if !forward_retry_time().le(time_of(inputs)) {
                    r.phase() == Some(RecoveryPhase::ForwardRetry)
                } else if inputs.last().rear_clear {
                    r.phase() == Some(RecoveryPhase::Reverse)
                } else if self.recovery->0.hold_retry {
                    r.phase() == Some(RecoveryPhase::Hold)
                } else {
                    self.after_cycles(inputs.drop_last()).closes_round(inputs.last())
                }
            }),
    {
        self.lemma_retry(inputs);
    }

    proof fn lemma_retry(self, inputs: Seq<BehaviorInput>)
        requires
            self.wf(),
            self.phase() == Some(RecoveryPhase::ForwardRetry),
            self.recovery->0.phase_elapsed == Double::zero(),
            self.goes_on(inputs),
            BehaviorPlanner::not_before(inputs, forward_retry_time()),
        ensures
            ({
                let r = self.after_cycles(inputs);
                &&& r.config == self.config
                &&& r.state == DrivingState::Recovery
                &&& r.recovery is Some
                &&& if !forward_retry_time().le(time_of(inputs)) {
                    &&& r.recovery->0.phase == RecoveryPhase::ForwardRetry
                    &&& r.recovery->0.phase_elapsed == time_of(inputs)
                    &&& r.recovery->0.hold_retry == self.recovery->0.hold_retry
                } else if inputs.last().rear_clear {
                    r.recovery->0.phase == RecoveryPhase::Reverse
                } else if self.recovery->0.hold_retry {
                    r.recovery->0.phase == RecoveryPhase::Hold
                } else {
                    self.after_cycles(inputs.drop_last()).closes_round(inputs.last())
                }
            }),
        decreases inputs.len(),
    {
        Double::lemma_of(3);
        if inputs.len() > 0 {
            self.lemma_shorter(inputs, forward_retry_time());
            self.lemma_retry(inputs.drop_last());
        }
    }

    /// While a recovery goes on, a reverse lasts until its round is closed: until
    /// the rear is blocked or its time is up.
    pub proof fn law_reverse_lasts_its_round(self, input: BehaviorInput)
        requires
            self.wf(),
            self.phase() == Some(RecoveryPhase::Reverse),
            self.after(input).state == DrivingState::Recovery,
        ensures
            self.after(input).phase() == Some(RecoveryPhase::Reverse) <==> !self.closes_round(
                input,
            ),
            !input.rear_clear ==> self.closes_round(input),
    {
    }

    /// While a reverse is committed, a cycle comes to the same whether or not it
    /// has a feasible forward plan: the recovery goes on, and the feasible cycles
    /// so far no longer count toward its end.
    pub proof fn law_committed_reverse_goes_on(self, input: BehaviorInput)
        requires
            self.wf(),
            self.recovering(input),
            self.noted(input).committed(self.noted(input).recovery->0, input),
            !self.moved(input),
        ensures
            self.after(input).state == DrivingState::Recovery,
            self.after(input).recovery->0.feasible_streak == 0,
            self.after(input) == self.after(
                BehaviorInput { planner_feasible: !input.planner_feasible, ..input },
            ),
    {
    }
}

} // verus!
