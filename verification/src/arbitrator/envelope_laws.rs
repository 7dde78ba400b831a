//! How the safety envelope treats a command and its mirror images, and what it
//! leaves as it is.
use crate::arbitrator::{Arbitrator, PipelineMode};
use crate::ieee::algebra::{alike, opposite};
use crate::ieee::double::{lemma_decode_zero, lemma_encode_zero, Double};
use crate::ieee::laws::lemma_rounded_zero;
use crate::local_planner::VelocityCommand;
use vstd::arithmetic::power2::pow2;
use vstd::prelude::*;

verus! {

impl Arbitrator {
    /// The envelope never changes the side of a turn: the yaw rate that leaves it is
    /// zero or has the sign of the one that was asked for, driving forward and in
    /// reverse.
    pub proof fn law_turn_keeps_its_side(self, cmd: VelocityCommand, dt: Double)
        requires
            self.within_envelope(),
            !cmd.linear_x.nan() && !cmd.angular_z.nan(),
            Double::zero().le(dt),
        ensures
            ({
                let w = self.enveloped(cmd, dt).angular_z;
                &&& !w.nan()
                &&& w.key() > 0 ==> cmd.angular_z.key() > 0
                &&& w.key() < 0 ==> cmd.angular_z.key() < 0
            }),
    {
        self.law_speed_approaches_target(cmd, dt);
        self.law_envelope(cmd, dt);
        let v = self.enveloped(cmd, dt).linear_x;
        let w = self.bounded_turn(cmd.angular_z);
        let k = self.config.safety.max_curvature;
        if self.too_tight(v, w) {
            if w.mag() == 0 {
                self.lemma_no_turn(v, w);
            }
            let one = w.signum();
            one.lemma_times_sign(k);
            let t = one.times(k);
            t.lemma_times_side(v.abs());
        }
    }

    /// A command that turns to the other side leaves the envelope at the same speed,
    /// turning to the other side.
    pub proof fn law_envelope_in_a_mirror(self, cmd: VelocityCommand, dt: Double)
        requires
            !cmd.angular_z.nan(),
            self.config.safety.max_curvature.positive(),
            self.config.safety.max_angular_speed.positive(),
            self.enveloped(cmd, dt).linear_x.finite(),
        ensures
            ({
                let out = self.enveloped(cmd, dt);
                let other = self.enveloped(
                    VelocityCommand { angular_z: cmd.angular_z.negate(), ..cmd },
                    dt,
                );
                &&& other.linear_x == out.linear_x
                &&& opposite(other.angular_z, out.angular_z)
                &&& other.confidence == out.confidence
            }),
    {
        let v = self.enveloped(cmd, dt).linear_x;
        let k = self.config.safety.max_curvature;
        let (w, n) = (
            self.bounded_turn(cmd.angular_z),
            self.bounded_turn(cmd.angular_z.negate()),
        );
        cmd.angular_z.lemma_negate();
        self.config.safety.max_angular_speed.lemma_negate();
        w.lemma_negate();
        assert(n.key() == -w.key());
        if w.key() != 0 {
            assert(n == w.negate());
            w.lemma_over_negate(v);
        } else {
            reveal(Double::spec_over);
        }
        let one = w.signum();
        one.lemma_times_negate(k);
        let t = one.times(k);
        one.lemma_times_sign(k);
        t.lemma_times_negate(v.abs());
        reveal(Double::spec_over);
        assert(w.over(v).abs() == n.over(v).abs());
        if self.too_tight(v, w) {
            assert(w.mag() > 0) by {
                if w.mag() == 0 {
                    self.lemma_no_turn(v, w);
                }
            }
            assert(n.signum() == one.negate());
        }
    }

    proof fn lemma_no_turn(self, v: Double, w: Double)
        requires
            w.mag() == 0,
            v.finite(),
            self.config.safety.max_curvature.positive(),
        ensures
            !self.too_tight(v, w),
    {
        reveal(Double::spec_over);
        Double::lemma_ratio_nonnegative(1, 100);
        if v.mag() > 0 {
            lemma_decode_zero();
            v.lemma_units_positive();
            let p = pow2(1074);
            assert(0 * p == 0) by (nonlinear_arith);
            lemma_encode_zero(v.units());
        }
    }

    /// In reverse a command is held to the same limits: driving the other way, from
    /// the opposite speed, gives the opposite speed and the same yaw rate.
    pub proof fn law_envelope_backward(self, cmd: VelocityCommand, dt: Double)
        requires
            self.within_envelope(),
            !cmd.linear_x.nan() && !cmd.angular_z.nan(),
            Double::zero().le(dt),
        ensures
            ({
                let out = self.enveloped(cmd, dt);
                let back = (Arbitrator { prev_linear: self.prev_linear.negate(), ..self }).enveloped(
                    VelocityCommand { linear_x: cmd.linear_x.negate(), ..cmd },
                    dt,
                );
                &&& opposite(back.linear_x, out.linear_x)
                &&& alike(back.angular_z, out.angular_z)
            }),
    {
        let other = Arbitrator { prev_linear: self.prev_linear.negate(), ..self };
        let rev = VelocityCommand { linear_x: cmd.linear_x.negate(), ..cmd };
        let (a, b) = (self.bounded_speed(cmd.linear_x), other.bounded_speed(rev.linear_x));
        cmd.linear_x.lemma_negate();
        self.config.safety.max_speed.lemma_negate();
        self.prev_linear.lemma_negate();
        self.law_speed_approaches_target(cmd, dt);
        other.law_speed_approaches_target(rev, dt);
        assert(b.key() == -a.key());
        let (p, q) = (self.prev_linear, other.prev_linear);
        let (up, down) = self.speed_change(dt);
        let (over, under) = other.speed_change(dt);
        let acc = self.config.safety.max_acceleration.times(dt);
        let dec = self.config.safety.max_deceleration.times(dt);
        acc.lemma_negate();
        dec.lemma_negate();
        self.config.safety.max_acceleration.lemma_times_positive(dt);
        self.config.safety.max_deceleration.lemma_times_positive(dt);
        assert(over == down.negate() && under == up.negate());
        down.lemma_negate();
        up.lemma_negate();
        a.lemma_plus_negate(p.negate());
        b.lemma_plus_alike(q.negate(), a.negate(), p);
        a.lemma_negate();
        a.negate().lemma_plus_commutes(p);
        assert(opposite(b.minus(q), a.minus(p)));
        p.lemma_plus_negate(up);
        p.lemma_plus_negate(down);
        let (v, u) = (self.enveloped(cmd, dt).linear_x, other.enveloped(rev, dt).linear_x);
        assert(opposite(u, v));
        let w = self.bounded_turn(cmd.angular_z);
        let k = self.config.safety.max_curvature;
        assert(u.mag() == v.mag());
        assert(w.over(u).mag() == w.over(v).mag()) by {
            reveal(Double::spec_over);
        }
    }

    /// A command that keeps the speed and stays within all limits passes unchanged,
    /// and is not reported as clipped.
    pub proof fn law_steady_command_passes(self, cmd: VelocityCommand, dt: Double)
        requires
            self.within_envelope(),
            Double::zero().le(dt),
            cmd.linear_x == self.prev_linear,
            cmd.angular_z.abs().le(self.config.safety.max_angular_speed),
            cmd.linear_x.abs().le(Double::ratio(1, 100)) || cmd.angular_z.over(
                cmd.linear_x,
            ).abs().le(self.config.safety.max_curvature),
        ensures
            self.enveloped(cmd, dt) == cmd,
            !self.clips(cmd, dt),
    {
        let p = self.prev_linear;
        self.config.safety.max_acceleration.lemma_times_positive(dt);
        self.config.safety.max_deceleration.lemma_times_positive(dt);
        p.lemma_minus(p);
        lemma_rounded_zero();
    }

    /// What is not reported as clipped is the command that was asked for. The
    /// confidence is handed on in any case.
    pub proof fn law_clipping_is_reported(self, cmd: VelocityCommand, dt: Double)
        ensures
            !self.clips(cmd, dt) ==> {
                let out = self.enveloped(cmd, dt);
                out.linear_x.same(cmd.linear_x) && out.angular_z.same(cmd.angular_z)
            },
            self.enveloped(cmd, dt).confidence == cmd.confidence,
    {
    }

    /// The degraded regime slows a command down and nothing else: the speed keeps its
    /// sign, one within the cap stays, a faster one becomes the cap. One that is next
    /// to nothing becomes a stop.
    pub proof fn law_cap_slows_down(self, cmd: VelocityCommand)
        requires
            !cmd.linear_x.nan(),
            self.config.degraded_speed_cap.positive(),
        ensures
            ({
                let (out, cap) = (self.capped(cmd), self.config.degraded_speed_cap);
                let (v, u) = (cmd.linear_x, out.linear_x);
                &&& u.key() > 0 ==> v.key() > 0
                &&& u.key() < 0 ==> v.key() < 0
                &&& u.abs().le(v.abs()) && u.abs().le(cap)
                &&& Double::ratio(2, 100).le(v.abs()) ==> {
                    &&& v.abs().le(cap) ==> out == cmd
                    &&& cap.le(v.abs()) ==> u.mag() == cap.mag()
                    &&& out.angular_z == cmd.angular_z
                }
                &&& v.abs().lt(Double::ratio(2, 100)) ==> u == Double::zero() && out.angular_z
                    == Double::zero()
                &&& out.confidence == cmd.confidence
            }),
    {
        self.config.degraded_speed_cap.lemma_negate();
    }

    /// The speed that leaves the arbitrator is the one that the next cycle starts
    /// from; an emergency stop starts it from rest. The mode stays, and outside the
    /// traditional pipeline the degraded regime does too.
    pub proof fn law_last_speed_is_kept(
        self,
        traditional: VelocityCommand,
        e2e: Option<&VelocityCommand>,
        dt: Double,
    )
        ensures
            ({
                let next = self.state_after(traditional, e2e, dt);
                let out = self.decision(traditional, e2e, dt);
                &&& next.prev_linear == out.command.linear_x
                &&& out.emergency_stop ==> next.prev_linear == Double::zero()
                    && out.command.angular_z == Double::zero() && !out.safety_clipped
                &&& next.mode == self.mode && next.config == self.config
                &&& self.mode == PipelineMode::E2E ==> next.degraded == self.degraded
                    && next.recovery_streak == self.recovery_streak
            }),
    {
    }

    /// In one cycle the speed grows by no more than the acceleration allows and falls by
    /// no more than the deceleration allows, seen the way the robot goes; what is asked
    /// for beyond that is approached by all that is allowed. From a standstill both ways
    /// are a speeding up.
    pub proof fn law_speed_changes_by_the_limits(self, cmd: VelocityCommand, dt: Double)
        requires
            self.within_envelope(),
            self.prev_linear.finite(),
            !cmd.linear_x.nan(),
            Double::zero().le(dt),
        ensures
            ({
                let v = self.enveloped(cmd, dt).linear_x;
                let asked = self.bounded_speed(cmd.linear_x);
                let from = self.prev_linear;
                let gain = self.config.safety.max_acceleration.times(dt);
                let loss = self.config.safety.max_deceleration.times(dt);
                let change = asked.minus(from);
                &&& from.key() >= 0 && gain.lt(change) ==> v == from.plus(gain)
                &&& from.key() > 0 && change.lt(loss.negate()) ==> v == from.plus(loss.negate())
                &&& from.key() <= 0 && change.lt(gain.negate()) ==> v == from.plus(gain.negate())
                &&& from.key() < 0 && loss.lt(change) ==> v == from.plus(loss)
                &&& change.abs().le(gain) && change.abs().le(loss) ==> v == asked
            }),
    {
        let (s, z) = (self.config.safety, Double::zero());
        s.max_acceleration.lemma_times_positive(dt);
        s.max_deceleration.lemma_times_positive(dt);
        s.max_acceleration.times(dt).lemma_negate();
        s.max_deceleration.times(dt).lemma_negate();
    }

    /// The learned command is used where it is there and as confident as it has to be;
    /// one that is more confident is used too. In the traditional pipeline a command that
    /// is confident enough passes as it is, unless the robot is in the degraded regime.
    pub proof fn law_confidence_decides(
        self,
        traditional: VelocityCommand,
        e2e: VelocityCommand,
        surer: VelocityCommand,
        dt: Double,
    )
        requires
            e2e.confidence.le(surer.confidence),
            !self.config.e2e_confidence_threshold.nan(),
        ensures
            ({
                let enough = self.config.e2e_confidence_threshold;
                &&& enough.le(e2e.confidence) ==> self.usable(Some(&e2e)) && self.usable(
                    Some(&surer),
                )
                &&& e2e.confidence.lt(enough) ==> !self.usable(Some(&e2e))
                &&& !self.usable(None)
                &&& self.mode != PipelineMode::E2E && !self.degraded
                    && self.config.fallback_min_confidence.le(traditional.confidence)
                    ==> self.selected(traditional, Some(&e2e)).0 == traditional
            }),
    {
    }
}

} // verus!
