//! The arbitrator: selects between the traditional and the end-to-end
//! pipeline and is the last gate before a command is published. No command
//! leaves it that violates the safety envelope, whatever its source.
pub mod envelope_laws;
pub mod laws;

use crate::fault::{
    first_fault, lemma_no_fault, positive, report, rule, rule_pair, rule_plain, verdict,
    ConfigError, Quantity,
};
use crate::ieee::double::Double;
use crate::ieee::single::Single;
use crate::local_planner::VelocityCommand;
use vstd::prelude::*;

verus! {

/// Which pipeline drives.
#[derive(Clone, Copy, Debug, PartialEq, Eq, Structural)]
pub enum PipelineMode {
    Traditional,
    E2E,
    /// The traditional pipeline drives, the end-to-end one runs along.
    Shadow,
}

#[derive(Clone, Copy, Debug)]
pub struct ArbitratorConfig {
    pub rate_hz: u32,
    pub safety: SafetyEnvelopeConfig,
    /// End-to-end commands below this confidence are not used.
    pub e2e_confidence_threshold: Single,
    /// Confidence that the traditional pipeline needs, as a fallback from the
    /// end-to-end one or to drive without the degraded speed cap.
    pub fallback_min_confidence: Single,
    /// Speed cap (m/s) on low-confidence commands.
    pub degraded_speed_cap: Double,
    /// Consecutive confident cycles before the cap is lifted.
    pub confidence_recovery_cycles: u32,
}

#[derive(Clone, Copy, Debug)]
pub struct SafetyEnvelopeConfig {
    /// m/s
    pub max_speed: Double,
    /// m/s^2
    pub max_acceleration: Double,
    /// m/s^2
    pub max_deceleration: Double,
    /// rad/s
    pub max_angular_speed: Double,
    /// 1/m
    pub max_curvature: Double,
}

pub fn default_rate_hz() -> (r: u32)
    ensures
        r == 10,
{
    10
}

pub fn default_confidence_recovery_cycles() -> (r: u32)
    ensures
        r == 5,
{
    5
}

impl Default for ArbitratorConfig {
    fn default() -> (r: ArbitratorConfig)
        ensures
            r == (ArbitratorConfig {
                rate_hz: 10,
                safety: SafetyEnvelopeConfig::standard(),
                e2e_confidence_threshold: Double::ratio(7, 10).narrow(),
                fallback_min_confidence: Double::ratio(3, 10).narrow(),
                degraded_speed_cap: Double::ratio(15, 100),
                confidence_recovery_cycles: 5,
            }),
    {
        ArbitratorConfig {
            rate_hz: default_rate_hz(),
            safety: SafetyEnvelopeConfig::default(),
            e2e_confidence_threshold: Double::ratio(7, 10).narrow(),
            fallback_min_confidence: Double::ratio(3, 10).narrow(),
            degraded_speed_cap: Double::ratio(15, 100),
            confidence_recovery_cycles: default_confidence_recovery_cycles(),
        }
    }
}

impl Default for SafetyEnvelopeConfig {
    fn default() -> (r: SafetyEnvelopeConfig)
        ensures
            r == SafetyEnvelopeConfig::standard(),
    {
        SafetyEnvelopeConfig {
            max_speed: Double::ratio(22, 10),
            max_acceleration: Double::ratio(5, 2),
            max_deceleration: Double::of(3),
            max_angular_speed: Double::ratio(9, 2),
            max_curvature: Double::of(2),
        }
    }
}

impl SafetyEnvelopeConfig {
    /// The default envelope. Its angular limit leaves room for the full
    /// curvature at full speed.
    pub open spec fn standard() -> SafetyEnvelopeConfig {
        SafetyEnvelopeConfig {
            max_speed: Double::ratio(22, 10),
            max_acceleration: Double::ratio(5, 2),
            max_deceleration: Double::of(3),
            max_angular_speed: Double::ratio(9, 2),
            max_curvature: Double::of(2),
        }
    }

    /// Every limit is a positive finite number.
    pub open spec fn valid(self) -> bool {
        &&& self.max_speed.positive()
        &&& self.max_acceleration.positive()
        &&& self.max_deceleration.positive()
        &&& self.max_angular_speed.positive()
        &&& self.max_curvature.positive()
    }

    pub open spec fn checks(self) -> Seq<Option<ConfigError>> {
        seq![
            positive(self.max_speed, "safety.max_speed must be > 0, got {}"),
            positive(self.max_acceleration, "safety.max_acceleration must be > 0, got {}"),
            positive(self.max_deceleration, "safety.max_deceleration must be > 0, got {}"),
            positive(self.max_angular_speed, "safety.max_angular_speed must be > 0, got {}"),
            positive(self.max_curvature, "safety.max_curvature must be > 0, got {}"),
        ]
    }

    /// Refuses limits that would switch the safety gate off.
    pub fn validate(&self) -> (r: Result<(), ConfigError>)
        ensures
            r is Ok <==> self.valid(),
            r == verdict(first_fault(self.checks())),
    {
        let checks = vec![
            positive(self.max_speed, "safety.max_speed must be > 0, got {}"),
            positive(self.max_acceleration, "safety.max_acceleration must be > 0, got {}"),
            positive(self.max_deceleration, "safety.max_deceleration must be > 0, got {}"),
            positive(self.max_angular_speed, "safety.max_angular_speed must be > 0, got {}"),
            positive(self.max_curvature, "safety.max_curvature must be > 0, got {}"),
        ];
        proof {
            let c = self.checks();
            assert(checks@ == c);
            lemma_no_fault(c);
            assert(c[0] is None && c[1] is None && c[2] is None && c[3] is None && c[4] is None
                <==> self.valid());
        }
        report(checks)
    }
}

/// A confidence is a number from 0 to 1.
pub open spec fn spec_is_confidence(c: Single) -> bool {
    Single { bits: 0 }.le(c) && c.le(Single { bits: 0x3f80_0000 })
}

#[verifier::when_used_as_spec(spec_is_confidence)]
pub fn is_confidence(c: Single) -> (r: bool)
    ensures
        r == spec_is_confidence(c),
{
    Single { bits: 0 }.le(c) && c.le(Single { bits: 0x3f80_0000 })
}

impl ArbitratorConfig {
    /// The envelope is valid, confidences are in range, and the degraded cap
    /// is a positive speed within the envelope that takes at least one
    /// confident cycle to lift.
    pub open spec fn valid(self) -> bool {
        &&& self.safety.valid()
        &&& is_confidence(self.e2e_confidence_threshold)
        &&& is_confidence(self.fallback_min_confidence)
        &&& self.degraded_speed_cap.positive()
        &&& self.degraded_speed_cap.le(self.safety.max_speed)
        &&& self.confidence_recovery_cycles >= 1
    }

    /// Checks beyond those on the envelope.
    pub open spec fn checks(self) -> Seq<Option<ConfigError>> {
        seq![
            rule(
                is_confidence(self.e2e_confidence_threshold),
                "e2e_confidence_threshold must be in [0, 1], got {}",
                Quantity::Narrow(self.e2e_confidence_threshold),
            ),
            rule(
                is_confidence(self.fallback_min_confidence),
                "fallback_min_confidence must be in [0, 1], got {}",
                Quantity::Narrow(self.fallback_min_confidence),
            ),
            positive(self.degraded_speed_cap, "degraded_speed_cap must be > 0, got {}"),
            rule_pair(
                !self.safety.max_speed.lt(self.degraded_speed_cap),
                "degraded_speed_cap ({}) must not exceed safety.max_speed ({})",
                Quantity::Wide(self.degraded_speed_cap),
                Quantity::Wide(self.safety.max_speed),
            ),
            rule_plain(
                self.confidence_recovery_cycles != 0,
                "confidence_recovery_cycles must be >= 1",
            ),
        ]
    }

    pub fn validate(&self) -> (r: Result<(), ConfigError>)
        ensures
            r is Ok <==> self.valid(),
            r == verdict(
                if self.safety.valid() {
                    first_fault(self.checks())
                } else {
                    first_fault(self.safety.checks())
                },
            ),
    {
        self.safety.validate()?;
        let checks = vec![
            rule(
                is_confidence(self.e2e_confidence_threshold),
                "e2e_confidence_threshold must be in [0, 1], got {}",
                Quantity::Narrow(self.e2e_confidence_threshold),
            ),
            rule(
                is_confidence(self.fallback_min_confidence),
                "fallback_min_confidence must be in [0, 1], got {}",
                Quantity::Narrow(self.fallback_min_confidence),
            ),
            positive(self.degraded_speed_cap, "degraded_speed_cap must be > 0, got {}"),
            rule_pair(
                !self.safety.max_speed.lt(self.degraded_speed_cap),
                "degraded_speed_cap ({}) must not exceed safety.max_speed ({})",
                Quantity::Wide(self.degraded_speed_cap),
                Quantity::Wide(self.safety.max_speed),
            ),
            rule_plain(
                self.confidence_recovery_cycles != 0,
                "confidence_recovery_cycles must be >= 1",
            ),
        ];
        proof {
            let c = self.checks();
            assert(checks@ == c);
            lemma_no_fault(c);
            assert(c[0] is None && c[1] is None && c[2] is None && c[3] is None && c[4] is None
                <==> self.valid());
        }
        report(checks)
    }
}

/// What the arbitrator decides in one cycle.
#[derive(Clone, Copy, Debug)]
pub struct ArbitratorOutput {
    pub command: VelocityCommand,
    pub source: PipelineMode,
    pub emergency_stop: bool,
    pub safety_clipped: bool,
}

/// Header of a message on the wire.
#[derive(Clone, Debug)]
pub struct Header {
    pub timestamp_ns: u64,
    pub sequence: u32,
    pub frame_id: String,
}

/// Source of a command as the wire names it.
#[derive(Clone, Copy, Debug, PartialEq, Eq, Structural)]
pub enum PipelineSource {
    SourceTraditional,
    SourceE2e,
}

/// Planar velocity.
#[derive(Clone, Copy, Debug)]
pub struct Twist2D {
    pub linear_x: Double,
    pub linear_y: Double,
    pub angular_z: Double,
}

/// Payload of a control command.
#[derive(Clone, Copy, Debug)]
pub enum Command {
    VelocityCmd(Twist2D),
}

/// The control command that is published.
#[derive(Clone, Debug)]
pub struct ControlCommand {
    pub header: Option<Header>,
    pub source: PipelineSource,
    pub command: Option<Command>,
    pub confidence: Single,
    pub emergency_stop: bool,
}

/// The message that publishes an arbitrator output. In shadow mode the command
/// is the traditional one, and the wire names that source: shadow is a mode of
/// the arbitrator, not a source.
pub fn encode_control_command(out: &ArbitratorOutput, sequence: u32, timestamp_ns: u64) -> (r:
    ControlCommand)
    ensures
        r.header matches Some(h) && h.timestamp_ns == timestamp_ns && h.sequence == sequence
            && h.frame_id@ == ""@,
        r.source == (if out.source == PipelineMode::E2E {
            PipelineSource::SourceE2e
        } else {
            PipelineSource::SourceTraditional
        }),
        r.command == Some(
            Command::VelocityCmd(
                Twist2D {
                    linear_x: out.command.linear_x,
                    linear_y: Double::zero(),
                    angular_z: out.command.angular_z,
                },
            ),
        ),
        r.confidence == out.command.confidence,
        r.emergency_stop == out.emergency_stop,
{
    ControlCommand {
        header: Some(Header { timestamp_ns, sequence, frame_id: "".to_owned() }),
        source: match out.source {
            PipelineMode::Traditional => PipelineSource::SourceTraditional,
            PipelineMode::E2E => PipelineSource::SourceE2e,
            PipelineMode::Shadow => PipelineSource::SourceTraditional,
        },
        command: Some(
            Command::VelocityCmd(
                Twist2D {
                    linear_x: out.command.linear_x,
                    linear_y: Double::zero(),
                    angular_z: out.command.angular_z,
                },
            ),
        ),
        confidence: out.command.confidence,
        emergency_stop: out.emergency_stop,
    }
}

/// Speeds below this (m/s) count as a zero command.
pub open spec fn spec_near_zero_speed() -> Double {
    Double::spec_ratio(2, 100)
}

#[verifier::when_used_as_spec(spec_near_zero_speed)]
pub fn near_zero_speed() -> (r: Double)
    ensures
        r == spec_near_zero_speed(),
{
    Double::ratio(2, 100)
}

/// `[-m, m]` is an interval.
pub open spec fn symmetric(m: Double) -> bool {
    m.negate().le(m)
}

pub struct Arbitrator {
    pub config: ArbitratorConfig,
    pub mode: PipelineMode,
    /// Speed of the last command let through.
    pub prev_linear: Double,
    /// Low-confidence regime: the speed cap is on.
    pub degraded: bool,
    /// Consecutive confident cycles while degraded.
    pub recovery_streak: u32,
}

impl Arbitrator {
    /// The streak has not yet reached the length that lifts the cap.
    pub open spec fn wf(self) -> bool {
        self.recovery_streak == 0 || self.recovery_streak < self.config.confidence_recovery_cycles
    }

    /// The degraded latch and the streak after a cycle.
    pub open spec fn latch_after(self, confidence: Single) -> (bool, u32) {
        if confidence.lt(self.config.fallback_min_confidence) {
            (true, 0)
        } else if !self.degraded {
            (false, self.recovery_streak)
        } else if self.recovery_streak + 1 >= self.config.confidence_recovery_cycles {
            (false, 0)
        } else {
            (true, (self.recovery_streak + 1) as u32)
        }
    }

    /// The state after the latch has seen a confidence.
    pub open spec fn latched(self, confidence: Single) -> Arbitrator {
        let (degraded, recovery_streak) = self.latch_after(confidence);
        Arbitrator { degraded, recovery_streak, ..self }
    }

    /// The cap applies to the cycle: its confidence is low, or the regime still
    /// lasted when it began. So the cycle that lifts the regime is capped too.
    pub open spec fn cap_applies(self, confidence: Single) -> bool {
        self.degraded || confidence.lt(self.config.fallback_min_confidence)
    }

    /// The command under the degraded cap: a near-zero one becomes a stop, any
    /// other is held to the cap.
    pub open spec fn capped(self, cmd: VelocityCommand) -> VelocityCommand {
        if cmd.linear_x.abs().lt(near_zero_speed()) {
            VelocityCommand {
                linear_x: Double::zero(),
                angular_z: Double::zero(),
                confidence: cmd.confidence,
            }
        } else {
            let cap = self.config.degraded_speed_cap;
            VelocityCommand {
                linear_x: cmd.linear_x.clamp(cap.negate(), cap),
                angular_z: cmd.angular_z,
                confidence: cmd.confidence,
            }
        }
    }

    /// The end-to-end command where it is confident enough.
    pub open spec fn usable(self, e2e: Option<&VelocityCommand>) -> bool {
        e2e matches Some(c) && self.config.e2e_confidence_threshold.le(c.confidence)
    }

    /// Neither pipeline may drive in end-to-end mode.
    pub open spec fn stops(self, traditional: VelocityCommand, e2e: Option<&VelocityCommand>) -> bool {
        self.mode == PipelineMode::E2E && !self.usable(e2e) && traditional.confidence.lt(
            self.config.fallback_min_confidence,
        )
    }

    /// The traditional command after the graduated low-confidence response.
    pub open spec fn graduated(self, traditional: VelocityCommand) -> VelocityCommand {
        if self.cap_applies(traditional.confidence) {
            self.capped(traditional)
        } else {
            traditional
        }
    }

    /// The command that enters the envelope, and its source.
    pub open spec fn selected(self, traditional: VelocityCommand, e2e: Option<&VelocityCommand>) -> (
        VelocityCommand,
        PipelineMode,
    ) {
        if self.mode != PipelineMode::E2E {
            (self.graduated(traditional), self.mode)
        } else if self.usable(e2e) {
            (*e2e->0, PipelineMode::E2E)
        } else {
            (traditional, PipelineMode::Traditional)
        }
    }

    /// Largest and smallest change of speed in a cycle of length `dt`. Away
    /// from zero is acceleration, toward zero is deceleration, in either
    /// driving direction; at rest both ways are acceleration.
    pub open spec fn speed_change(self, dt: Double) -> (Double, Double) {
        let accel = self.config.safety.max_acceleration.times(dt);
        let decel = self.config.safety.max_deceleration.times(dt);
        if Double::zero().lt(self.prev_linear) {
            (accel, decel.negate())
        } else if self.prev_linear.lt(Double::zero()) {
            (decel, accel.negate())
        } else {
            (accel, accel.negate())
        }
    }

    /// Speed after the speed limit.
    pub open spec fn bounded_speed(self, v: Double) -> Double {
        v.clamp(self.config.safety.max_speed.negate(), self.config.safety.max_speed)
    }

    /// Speed after the acceleration limit, given the bounded speed.
    pub open spec fn reached_speed(self, v: Double, dt: Double) -> Double {
        let (up, down) = self.speed_change(dt);
        let dv = v.minus(self.prev_linear);
        if up.lt(dv) {
            self.prev_linear.plus(up)
        } else if dv.lt(down) {
            self.prev_linear.plus(down)
        } else {
            v
        }
    }

    /// The acceleration limit binds.
    pub open spec fn rate_limited(self, v: Double, dt: Double) -> bool {
        let (up, down) = self.speed_change(dt);
        let dv = v.minus(self.prev_linear);
        up.lt(dv) || dv.lt(down)
    }

    /// Yaw rate after the angular limit.
    pub open spec fn bounded_turn(self, w: Double) -> Double {
        let m = self.config.safety.max_angular_speed;
        w.clamp(m.negate(), m)
    }

    /// The curvature limit binds at speed `v`.
    pub open spec fn too_tight(self, v: Double, w: Double) -> bool {
        Double::ratio(1, 100).lt(v.abs()) && self.config.safety.max_curvature.lt(w.over(v).abs())
    }

    /// Yaw rate after the curvature limit, given the bounded one.
    pub open spec fn reached_turn(self, v: Double, w: Double) -> Double {
        if self.too_tight(v, w) {
            w.signum().times(self.config.safety.max_curvature).times(v.abs())
        } else {
            w
        }
    }

    /// The command after the safety envelope.
    pub open spec fn enveloped(self, cmd: VelocityCommand, dt: Double) -> VelocityCommand {
        let v = self.reached_speed(self.bounded_speed(cmd.linear_x), dt);
        VelocityCommand {
            linear_x: v,
            angular_z: self.reached_turn(v, self.bounded_turn(cmd.angular_z)),
            confidence: cmd.confidence,
        }
    }

    /// The envelope changed the command.
    pub open spec fn clips(self, cmd: VelocityCommand, dt: Double) -> bool {
        let v = self.bounded_speed(cmd.linear_x);
        let w = self.bounded_turn(cmd.angular_z);
        ||| !v.same(cmd.linear_x)
        ||| self.rate_limited(v, dt)
        ||| !w.same(cmd.angular_z)
        ||| self.too_tight(self.reached_speed(v, dt), w)
    }

    /// The limits that the cycle applies are intervals.
    pub open spec fn limits_apply(self, traditional: VelocityCommand, e2e: Option<&VelocityCommand>) -> bool {
        !self.stops(traditional, e2e) ==> {
            &&& symmetric(self.config.safety.max_speed)
            &&& symmetric(self.config.safety.max_angular_speed)
            &&& self.mode != PipelineMode::E2E && self.cap_applies(traditional.confidence)
                && !traditional.linear_x.abs().lt(near_zero_speed())
                ==> symmetric(self.config.degraded_speed_cap)
        }
    }

    /// The state after a cycle.
    pub open spec fn state_after(
        self,
        traditional: VelocityCommand,
        e2e: Option<&VelocityCommand>,
        dt: Double,
    ) -> Arbitrator {
        if self.stops(traditional, e2e) {
            Arbitrator { prev_linear: Double::zero(), ..self }
        } else {
            let (degraded, recovery_streak) = if self.mode == PipelineMode::E2E {
                (self.degraded, self.recovery_streak)
            } else {
                self.latch_after(traditional.confidence)
            };
            Arbitrator {
                prev_linear: self.enveloped(self.selected(traditional, e2e).0, dt).linear_x,
                degraded,
                recovery_streak,
                ..self
            }
        }
    }

    /// The decision of a cycle.
    pub open spec fn decision(
        self,
        traditional: VelocityCommand,
        e2e: Option<&VelocityCommand>,
        dt: Double,
    ) -> ArbitratorOutput {
        if self.stops(traditional, e2e) {
            self.stop_output()
        } else {
            let (cmd, source) = self.selected(traditional, e2e);
            ArbitratorOutput {
                command: self.enveloped(cmd, dt),
                source,
                emergency_stop: false,
                safety_clipped: self.clips(cmd, dt),
            }
        }
    }

    /// The emergency stop as an output.
    pub open spec fn stop_output(self) -> ArbitratorOutput {
        ArbitratorOutput {
            command: VelocityCommand {
                linear_x: Double::zero(),
                angular_z: Double::zero(),
                confidence: Single { bits: 0x3f80_0000 },
            },
            source: self.mode,
            emergency_stop: true,
            safety_clipped: false,
        }
    }

    pub fn new(config: ArbitratorConfig) -> (r: Arbitrator)
        ensures
            r == (Arbitrator {
                config,
                mode: PipelineMode::Traditional,
                prev_linear: Double::zero(),
                degraded: false,
                recovery_streak: 0,
            }),
            r.wf(),
    {
        Arbitrator {
            config,
            mode: PipelineMode::Traditional,
            prev_linear: Double::zero(),
            degraded: false,
            recovery_streak: 0,
        }
    }

    /// True while the degraded speed cap is on.
    pub fn is_degraded(&self) -> (r: bool)
        ensures
            r == self.degraded,
    {
        self.degraded
    }

    /// Updates the latch and says whether the cap applies in this cycle. The
    /// latch closes at once and opens after enough consecutive confident cycles,
    /// the last of which is still capped.
    pub fn update_degraded(&mut self, confidence: Single) -> (r: bool)
        requires
            old(self).wf(),
        ensures
            final(self).wf(),
            *final(self) == old(self).latched(confidence),
            r == old(self).cap_applies(confidence),
    {
        if confidence.lt(self.config.fallback_min_confidence) {
            self.degraded = true;
            self.recovery_streak = 0;
            true
        } else if self.degraded {
            self.recovery_streak = self.recovery_streak + 1;
            if self.recovery_streak >= self.config.confidence_recovery_cycles {
                self.degraded = false;
                self.recovery_streak = 0;
            }
            true
        } else {
            false
        }
    }

    fn apply_degraded_cap(&self, cmd: &VelocityCommand) -> (r: VelocityCommand)
        requires
            !cmd.linear_x.abs().lt(near_zero_speed()) ==> symmetric(self.config.degraded_speed_cap),
        ensures
            r == self.capped(*cmd),
    {
        let mut out = *cmd;
        if out.linear_x.abs().lt(near_zero_speed()) {
            out.linear_x = Double::zero();
            out.angular_z = Double::zero();
        } else {
            let cap = self.config.degraded_speed_cap;
            out.linear_x = out.linear_x.clamp(cap.negate(), cap);
        }
        out
    }

    pub fn set_mode(&mut self, mode: PipelineMode)
        ensures
            *final(self) == (Arbitrator { mode, ..*old(self) }),
    {
        self.mode = mode;
    }

    pub fn mode(&self) -> (r: PipelineMode)
        ensures
            r == self.mode,
    {
        self.mode
    }

    /// Selects a command and holds it to the safety envelope.
    ///
    /// In end-to-end mode a command below the threshold falls back to the
    /// traditional one, and an untrustworthy fallback is an emergency stop. In
    /// the other modes low confidence gets a graduated response instead: a
    /// zero command becomes a controlled stop, any other one is speed-capped
    /// until confidence has recovered.
    pub fn arbitrate(
        &mut self,
        traditional: &VelocityCommand,
        e2e: Option<&VelocityCommand>,
        dt: Double,
    ) -> (r: ArbitratorOutput)
        requires
            old(self).wf(),
            old(self).limits_apply(*traditional, e2e),
        ensures
            final(self).wf(),
            *final(self) == old(self).state_after(*traditional, e2e, dt),
            r == old(self).decision(*traditional, e2e, dt),
    {
        let (raw_cmd, source) = match self.mode {
            PipelineMode::Traditional => {
                let cmd = if self.update_degraded(traditional.confidence) {
                    self.apply_degraded_cap(traditional)
                } else {
                    *traditional
                };
                (cmd, PipelineMode::Traditional)
            },
            PipelineMode::E2E => {
                let e2e_usable = match e2e {
                    Some(c) => {
                        if self.config.e2e_confidence_threshold.le(c.confidence) {
                            Some(*c)
                        } else {
                            None
                        }
                    },
                    None => None,
                };
                match e2e_usable {
                    Some(c) => (c, PipelineMode::E2E),
                    None => {
                        if traditional.confidence.lt(self.config.fallback_min_confidence) {
                            return self.emergency_stop();
                        }
                        (*traditional, PipelineMode::Traditional)
                    },
                }
            },
            PipelineMode::Shadow => {
                let cmd = if self.update_degraded(traditional.confidence) {
                    self.apply_degraded_cap(traditional)
                } else {
                    *traditional
                };
                (cmd, PipelineMode::Shadow)
            },
        };
        let (safe_cmd, clipped) = self.apply_safety_envelope(&raw_cmd, dt);
        self.prev_linear = safe_cmd.linear_x;
        ArbitratorOutput {
            command: safe_cmd,
            source,
            emergency_stop: false,
            safety_clipped: clipped,
        }
    }

    /// Forces an emergency stop.
    pub fn emergency_stop(&mut self) -> (r: ArbitratorOutput)
        ensures
            *final(self) == (Arbitrator { prev_linear: Double::zero(), ..*old(self) }),
            r == old(self).stop_output(),
    {
        self.prev_linear = Double::zero();
        ArbitratorOutput {
            command: VelocityCommand {
                linear_x: Double::zero(),
                angular_z: Double::zero(),
                confidence: Single { bits: 0x3f80_0000 },
            },
            source: self.mode,
            emergency_stop: true,
            safety_clipped: false,
        }
    }

    /// Holds a command to the safety limits; says whether that changed it.
    pub fn apply_safety_envelope(&self, cmd: &VelocityCommand, dt: Double) -> (r: (
        VelocityCommand,
        bool,
    ))
        requires
            symmetric(self.config.safety.max_speed),
            symmetric(self.config.safety.max_angular_speed),
        ensures
            r.0 == self.enveloped(*cmd, dt),
            r.1 == self.clips(*cmd, dt),
    {
        let mut clipped = false;
        let mut v = cmd.linear_x.clamp(
            self.config.safety.max_speed.negate(),
            self.config.safety.max_speed,
        );
        if !v.same(cmd.linear_x) {
            clipped = true;
        }
        let dv = v.minus(self.prev_linear);
        let max_dv_accel = self.config.safety.max_acceleration.times(dt);
        let max_dv_decel = self.config.safety.max_deceleration.times(dt);
        let (dv_max, dv_min) = if Double::zero().lt(self.prev_linear) {
            (max_dv_accel, max_dv_decel.negate())
        } else if self.prev_linear.lt(Double::zero()) {
            (max_dv_decel, max_dv_accel.negate())
        } else {
            (max_dv_accel, max_dv_accel.negate())
        };
        if dv_max.lt(dv) {
            v = self.prev_linear.plus(dv_max);
            clipped = true;
        } else if dv.lt(dv_min) {
            v = self.prev_linear.plus(dv_min);
            clipped = true;
        }
        let mut w = cmd.angular_z.clamp(
            self.config.safety.max_angular_speed.negate(),
            self.config.safety.max_angular_speed,
        );
        if !w.same(cmd.angular_z) {
            clipped = true;
        }
        if Double::ratio(1, 100).lt(v.abs()) {
            let curvature = w.over(v).abs();
            if self.config.safety.max_curvature.lt(curvature) {
                w = w.signum().times(self.config.safety.max_curvature).times(v.abs());
                clipped = true;
            }
        }
        (VelocityCommand { linear_x: v, angular_z: w, confidence: cmd.confidence }, clipped)
    }
}

} // verus!
