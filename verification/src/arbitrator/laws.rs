//! What holds of the arbitrator over all commands and cycles.
use crate::arbitrator::{Arbitrator, PipelineMode};
use crate::ieee::double::{encode, lemma_encode_decode, Double};
use crate::ieee::laws::{lemma_encode_monotone_ratio, lemma_rounded_monotone};
use crate::ieee::single::Single;
use crate::local_planner::VelocityCommand;
use vstd::arithmetic::power2::{lemma_pow2_pos, pow2};
use vstd::prelude::*;

verus! {

/// `v` lies between `a` and `b`, in either order.
pub open spec fn between(v: Double, a: Double, b: Double) -> bool {
    !v.nan() && (a.key() <= v.key() <= b.key() || b.key() <= v.key() <= a.key())
}

impl Arbitrator {
    /// The state in which the envelope promises something: valid limits, and a
    /// last speed within them.
    pub open spec fn within_envelope(self) -> bool {
        &&& self.config.safety.valid()
        &&& self.prev_linear.abs().le(self.config.safety.max_speed)
    }

    proof fn lemma_speed_change(self, dt: Double)
        requires
            self.config.safety.valid(),
            Double::zero().le(dt),
        ensures
            Double::zero().le(self.speed_change(dt).0),
            self.speed_change(dt).1.le(Double::zero()),
    {
        self.config.safety.max_acceleration.lemma_times_positive(dt);
        self.config.safety.max_deceleration.lemma_times_positive(dt);
    }

    /// The acceleration limit moves the speed toward the bounded target and
    /// never past it: a stop command never turns into motion the other way.
    pub proof fn law_speed_approaches_target(self, cmd: VelocityCommand, dt: Double)
        requires
            self.config.safety.valid(),
            self.prev_linear.finite(),
            !cmd.linear_x.nan(),
            Double::zero().le(dt),
        ensures
            between(
                self.enveloped(cmd, dt).linear_x,
                self.prev_linear,
                self.bounded_speed(cmd.linear_x),
            ),
    {
        let target = self.bounded_speed(cmd.linear_x);
        let prev = self.prev_linear;
        let (up, down) = self.speed_change(dt);
        self.lemma_speed_change(dt);
        let dv = target.minus(prev);
        target.lemma_minus(prev);
        prev.lemma_rounded_value();
        target.lemma_rounded_value();
        if up.lt(dv) && up.finite() {
            prev.lemma_plus(up);
            up.lemma_rounded_value();
            if target.value() - prev.value() <= up.value() {
                lemma_rounded_monotone(target.value() - prev.value(), up.value());
            }
            lemma_rounded_monotone(prev.value() + up.value(), target.value());
            lemma_rounded_monotone(prev.value(), prev.value() + up.value());
        } else if dv.lt(down) && down.finite() {
            prev.lemma_plus(down);
            down.lemma_rounded_value();
            if target.value() - prev.value() >= down.value() {
                lemma_rounded_monotone(down.value(), target.value() - prev.value());
            }
            lemma_rounded_monotone(target.value(), prev.value() + down.value());
            lemma_rounded_monotone(prev.value() + down.value(), prev.value());
        }
    }

    /// In a cycle the speed goes to the bounded target as far as the limits on its
    /// change let it: away from zero by the acceleration at most, toward zero by the
    /// deceleration. Left out is a target whose distance from the last speed comes
    /// to the limit only by rounding.
    pub proof fn law_speed_is_clamped(self, cmd: VelocityCommand, dt: Double)
        requires
            self.config.safety.valid(),
            self.prev_linear.finite(),
            !cmd.linear_x.nan(),
            Double::zero().le(dt),
            ({
                let (up, down) = self.speed_change(dt);
                let target = self.bounded_speed(cmd.linear_x);
                let dv = target.minus(self.prev_linear);
                &&& dv.same(up) ==> target.le(self.prev_linear.plus(up))
                &&& dv.same(down) ==> self.prev_linear.plus(down).le(target)
            }),
        ensures
            ({
                let (up, down) = self.speed_change(dt);
                self.enveloped(cmd, dt).linear_x.same(
                    self.bounded_speed(cmd.linear_x).clamp(
                        self.prev_linear.plus(down),
                        self.prev_linear.plus(up),
                    ),
                )
            }),
    {
        let target = self.bounded_speed(cmd.linear_x);
        let prev = self.prev_linear;
        let (up, down) = self.speed_change(dt);
        let dv = target.minus(prev);
        let (least, most) = (prev.plus(down), prev.plus(up));
        self.lemma_speed_change(dt);
        target.lemma_minus(prev);
        prev.lemma_rounded_value();
        target.lemma_rounded_value();
        // Compared with the target, each end lies as its change lies to that asked for.
        assert(!most.nan() && (dv.lt(up) ==> target.le(most)) && (up.lt(dv) ==> most.le(target))
            && prev.le(most)) by {
            if up.finite() {
                prev.lemma_plus(up);
                up.lemma_rounded_value();
                lemma_rounded_monotone(prev.value(), prev.value() + up.value());
                if target.value() - prev.value() <= up.value() {
                    lemma_rounded_monotone(target.value() - prev.value(), up.value());
                    lemma_rounded_monotone(target.value(), prev.value() + up.value());
                } else {
                    lemma_rounded_monotone(up.value(), target.value() - prev.value());
                    lemma_rounded_monotone(prev.value() + up.value(), target.value());
                }
            } else {
                reveal(Double::spec_plus);
            }
        }
        assert(!least.nan() && (down.lt(dv) ==> least.le(target)) && (dv.lt(down) ==> target.le(
            least,
        )) && least.le(prev)) by {
            if down.finite() {
                prev.lemma_plus(down);
                down.lemma_rounded_value();
                lemma_rounded_monotone(prev.value() + down.value(), prev.value());
                if target.value() - prev.value() >= down.value() {
                    lemma_rounded_monotone(down.value(), target.value() - prev.value());
                    lemma_rounded_monotone(prev.value() + down.value(), target.value());
                } else {
                    lemma_rounded_monotone(target.value() - prev.value(), down.value());
                    lemma_rounded_monotone(target.value(), prev.value() + down.value());
                }
            } else {
                reveal(Double::spec_plus);
            }
        }
    }

    /// A stop command takes effect within one cycle once the speed is no more
    /// than one step of deceleration.
    pub proof fn law_controlled_stop(self, cmd: VelocityCommand, dt: Double)
        requires
            self.config.safety.valid(),
            self.prev_linear.finite(),
            cmd.linear_x.same(Double::zero()),
            Double::zero().le(dt),
            self.prev_linear.abs().le(self.config.safety.max_deceleration.times(dt)),
        ensures
            self.enveloped(cmd, dt).linear_x.same(Double::zero()),
    {
        let target = self.bounded_speed(cmd.linear_x);
        let prev = self.prev_linear;
        let (up, down) = self.speed_change(dt);
        self.lemma_speed_change(dt);
        self.law_speed_approaches_target(cmd, dt);
        target.lemma_minus(prev);
        target.lemma_rounded_value();
        prev.lemma_rounded_value();
        let n = prev.negate();
        assert(n.mag() == prev.mag() && n.value() == -prev.value());
        n.lemma_rounded_value();
    }

    proof fn lemma_turn_shrinks(self, v: Double, w: Double)
        requires
            self.config.safety.max_curvature.positive(),
            v.finite(),
            w.finite(),
            self.too_tight(v, w),
        ensures
            self.reached_turn(v, w).mag() <= w.mag(),
            self.reached_turn(v, w).mag() == self.config.safety.max_curvature.times(v.abs()).mag(),
    {
        let k = self.config.safety.max_curvature;
        let p = pow2(1074);
        let (uw, uv, uk) = (w.units(), v.units(), k.units());
        lemma_pow2_pos(1074);
        let small = Double::ratio(1, 100);
        // The speed is above a threshold that is not negative, so not zero.
        assert(v.mag() > 0) by {
            Double::lemma_ratio_nonnegative(1, 100);
        }
        v.lemma_units_positive();
        reveal(Double::spec_over);
        let q = w.over(v);
        assert(q.mag() == encode(uw * p, uv));
        lemma_encode_decode(k.mag());
        assert(uk * uv <= uw * p) by {
            if uw * p < uk * uv {
                assert(uw * p * 1 <= uk * uv) by (nonlinear_arith)
                    requires
                        uw * p < uk * uv,
                ;
                lemma_encode_monotone_ratio(uw * p, uv, uk, 1);
            }
        }
        let one = w.signum();
        one.lemma_times_sign(k);
        let t = one.times(k);
        let a = v.abs();
        assert(t.units() == uk && a.units() == uv);
        assert(t.times(a).mag() == encode(uk * uv, p) && k.times(a).mag() == encode(uk * uv, p)) by {
            reveal(Double::spec_times);
        }
        assert(uk * uv * 1 <= uw * p) by (nonlinear_arith)
            requires
                uk * uv <= uw * p,
        ;
        lemma_encode_monotone_ratio(uk * uv, p, uw, 1);
        lemma_encode_decode(w.mag());
    }

    /// No command leaves the envelope: speed and yaw rate stay within their
    /// limits, whatever was asked for, as long as it was a number.
    pub proof fn law_envelope(self, cmd: VelocityCommand, dt: Double)
        requires
            self.within_envelope(),
            !cmd.linear_x.nan(),
            !cmd.angular_z.nan(),
            Double::zero().le(dt),
        ensures
            self.enveloped(cmd, dt).linear_x.abs().le(self.config.safety.max_speed),
            self.enveloped(cmd, dt).angular_z.abs().le(self.config.safety.max_angular_speed),
    {
        self.law_speed_approaches_target(cmd, dt);
        let v = self.enveloped(cmd, dt).linear_x;
        let w = self.bounded_turn(cmd.angular_z);
        if self.too_tight(v, w) {
            self.lemma_turn_shrinks(v, w);
        }
    }

    /// A command that moves turns no tighter than the curvature limit: its
    /// curvature is within the limit, or its yaw rate is the one that the limit
    /// gives at its speed.
    pub proof fn law_curvature(self, cmd: VelocityCommand, dt: Double)
        requires
            self.within_envelope(),
            !cmd.linear_x.nan(),
            !cmd.angular_z.nan(),
            Double::zero().le(dt),
            Double::ratio(1, 100).lt(self.enveloped(cmd, dt).linear_x.abs()),
        ensures
            ({
                let out = self.enveloped(cmd, dt);
                let k = self.config.safety.max_curvature;
                ||| out.angular_z.over(out.linear_x).abs().le(k)
                ||| out.angular_z.mag() == k.times(out.linear_x.abs()).mag()
            }),
    {
        self.law_speed_approaches_target(cmd, dt);
        let v = self.enveloped(cmd, dt).linear_x;
        let w = self.bounded_turn(cmd.angular_z);
        if self.too_tight(v, w) {
            self.lemma_turn_shrinks(v, w);
        } else {
            assert(v.mag() > 0) by {
                Double::lemma_ratio_nonnegative(1, 100);
            }
            reveal(Double::spec_over);
        }
    }

    /// The envelope holds after every cycle if it held before: with a new
    /// arbitrator, always.
    pub proof fn law_envelope_is_kept(
        self,
        traditional: VelocityCommand,
        e2e: Option<&VelocityCommand>,
        dt: Double,
    )
        requires
            self.within_envelope(),
            !traditional.linear_x.nan() && !traditional.angular_z.nan(),
            e2e matches Some(c) ==> !c.linear_x.nan() && !c.angular_z.nan(),
            self.config.degraded_speed_cap.positive(),
            Double::zero().le(dt),
        ensures
            self.state_after(traditional, e2e, dt).within_envelope(),
            self.decision(traditional, e2e, dt).command.linear_x.abs().le(
                self.config.safety.max_speed,
            ),
            self.decision(traditional, e2e, dt).command.angular_z.abs().le(
                self.config.safety.max_angular_speed,
            ),
    {
        if !self.stops(traditional, e2e) {
            self.law_envelope(self.selected(traditional, e2e).0, dt);
        }
    }

    /// Outside end-to-end mode there is no emergency stop, and the end-to-end
    /// command has no influence at all.
    pub proof fn law_traditional_ignores_e2e(
        self,
        traditional: VelocityCommand,
        a: Option<&VelocityCommand>,
        b: Option<&VelocityCommand>,
        dt: Double,
    )
        requires
            self.mode != PipelineMode::E2E,
        ensures
            !self.decision(traditional, a, dt).emergency_stop,
            self.decision(traditional, a, dt).source == self.mode,
            self.decision(traditional, a, dt) == self.decision(traditional, b, dt),
            self.state_after(traditional, a, dt) == self.state_after(traditional, b, dt),
    {
    }

    /// In end-to-end mode a command drives that is confident enough, else the
    /// traditional one, and there is an emergency stop exactly where neither
    /// is.
    pub proof fn law_e2e_ladder(
        self,
        traditional: VelocityCommand,
        e2e: Option<&VelocityCommand>,
        dt: Double,
    )
        requires
            self.mode == PipelineMode::E2E,
        ensures
            ({
                let out = self.decision(traditional, e2e, dt);
                let weak = traditional.confidence.lt(self.config.fallback_min_confidence);
                &&& out.emergency_stop <==> !self.usable(e2e) && weak
                &&& self.usable(e2e) ==> out.source == PipelineMode::E2E && out.command
                    == self.enveloped(*e2e->0, dt)
                &&& !self.usable(e2e) && !weak ==> out.source == PipelineMode::Traditional
                    && out.command == self.enveloped(traditional, dt)
                &&& out.emergency_stop ==> out.command.linear_x == Double::zero()
                    && out.command.angular_z == Double::zero()
            }),
    {
    }

    /// In a cycle of low confidence, and in every cycle up to and with the one
    /// that lifts the degraded regime, the command that enters the envelope is no
    /// faster than the cap.
    pub proof fn law_degraded_cap(
        self,
        traditional: VelocityCommand,
        e2e: Option<&VelocityCommand>,
        dt: Double,
    )
        requires
            self.mode != PipelineMode::E2E,
            self.config.degraded_speed_cap.positive(),
            !traditional.linear_x.nan(),
            self.degraded || self.state_after(traditional, e2e, dt).degraded,
        ensures
            self.selected(traditional, e2e).0.linear_x.abs().le(self.config.degraded_speed_cap),
    {
    }

    /// The state after a series of cycles.
    pub open spec fn after_cycles(
        self,
        commands: Seq<VelocityCommand>,
        e2e: Option<&VelocityCommand>,
        dt: Double,
    ) -> Arbitrator
        decreases commands.len(),
    {
        if commands.len() == 0 {
            self
        } else {
            self.after_cycles(commands.drop_last(), e2e, dt).state_after(commands.last(), e2e, dt)
        }
    }

    /// A low-confidence cycle enters the degraded regime at once and starts the
    /// count of confident cycles anew.
    pub proof fn law_degraded_enters_at_once(
        self,
        traditional: VelocityCommand,
        e2e: Option<&VelocityCommand>,
        dt: Double,
    )
        requires
            self.mode != PipelineMode::E2E,
            traditional.confidence.lt(self.config.fallback_min_confidence),
        ensures
            self.state_after(traditional, e2e, dt).degraded,
            self.state_after(traditional, e2e, dt).recovery_streak == 0,
    {
    }

    /// The state after the latch has seen a series of confidences.
    pub open spec fn latched_by(self, confidences: Seq<Single>) -> Arbitrator
        decreases confidences.len(),
    {
        if confidences.len() == 0 {
            self
        } else {
            self.latched_by(confidences.drop_last()).latched(confidences.last())
        }
    }

    /// The degraded regime lasts exactly as long as one of the last confidences, as
    /// many as have to be good in a row, was low.
    pub proof fn law_degraded_remembers(self, confidences: Seq<Single>)
        requires
            !self.degraded && self.recovery_streak == 0,
            self.config.confidence_recovery_cycles >= 1,
        ensures
            self.latched_by(confidences).degraded <==> exists|j: int|
                confidences.len() - self.config.confidence_recovery_cycles <= j
                    < confidences.len() && 0 <= j && (#[trigger] confidences[j]).lt(
                    self.config.fallback_min_confidence,
                ),
    {
        self.lemma_since_low(confidences);
    }

    /// Number of confidences after the last low one, or -1.
    spec fn since_low(self, confidences: Seq<Single>) -> int
        decreases confidences.len(),
    {
        if confidences.len() == 0 {
            -1
        } else if confidences.last().lt(self.config.fallback_min_confidence) {
            0
        } else {
            let before = self.since_low(confidences.drop_last());
            if before < 0 {
                -1
            } else {
                before + 1
            }
        }
    }

    proof fn lemma_since_low(self, confidences: Seq<Single>)
        requires
            !self.degraded && self.recovery_streak == 0,
            self.config.confidence_recovery_cycles >= 1,
        ensures
            ({
                let end = self.latched_by(confidences);
                let (n, since) = (confidences.len(), self.since_low(confidences));
                let low = self.config.fallback_min_confidence;
                &&& end.config == self.config
                &&& end.degraded <==> 0 <= since < self.config.confidence_recovery_cycles
                &&& end.recovery_streak == if end.degraded {
                    since
                } else {
                    0
                }
                &&& -1 <= since < n
                &&& since >= 0 ==> confidences[n - 1 - since].lt(low)
                &&& forall|i: int|
                    0 <= i < n && (since < 0 || i > n - 1 - since)
                        ==> !(#[trigger] confidences[i]).lt(low)
            }),
        decreases confidences.len(),
    {
        if confidences.len() > 0 {
            let early = confidences.drop_last();
            self.lemma_since_low(early);
            assert(confidences[confidences.len() - 1] == confidences.last());
            assert forall|i: int| 0 <= i < early.len() implies confidences[i] == #[trigger] early[i] by {}
            let (n, since) = (confidences.len(), self.since_low(confidences));
            let low = self.config.fallback_min_confidence;
            if since > 0 {
                assert(early[n - 1 - since] == confidences[n - 1 - since]);
            }
            assert forall|i: int|
                0 <= i < n && (since < 0 || i > n - 1 - since) implies !(
            #[trigger] confidences[i]).lt(low) by {
                if i < n - 1 {
                    assert(early[i] == confidences[i]);
                }
            }
        }
    }

    /// From a fresh degraded regime, a series of confident cycles lifts it with
    /// the cycle that completes the configured count, and not before.
    pub proof fn law_degraded_hysteresis(
        self,
        commands: Seq<VelocityCommand>,
        e2e: Option<&VelocityCommand>,
        dt: Double,
    )
        requires
            self.mode != PipelineMode::E2E,
            self.degraded && self.recovery_streak == 0,
            self.config.confidence_recovery_cycles >= 1,
            forall|i: int|
                0 <= i < commands.len() ==> !(#[trigger] commands[i]).confidence.lt(
                    self.config.fallback_min_confidence,
                ),
        ensures
            ({
                let end = self.after_cycles(commands, e2e, dt);
                &&& end.config == self.config && end.mode == self.mode
                &&& end.degraded <==> commands.len() < self.config.confidence_recovery_cycles
                &&& end.degraded ==> end.recovery_streak == commands.len()
            }),
        decreases commands.len(),
    {
        if commands.len() > 0 {
            self.law_degraded_hysteresis(commands.drop_last(), e2e, dt);
            assert(commands[commands.len() - 1] == commands.last());
        }
    }
}

} // verus!
