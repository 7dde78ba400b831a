//! Each rule of each configuration, with a value that breaks it and no other.
use planning::arbitrator::{ArbitratorConfig, SafetyEnvelopeConfig};
use planning::behavior::BehaviorConfig;
use planning::config::{FaultToleranceConfig, PlanningConfig, RoadmapConfig, TransportConfig};
use planning::e2e::{E2EConfig, E2EInference};
use planning::fault::{ConfigError, Quantity};
use planning::global_planner::HybridAStarConfig;
use planning::ieee::double::Double;
use planning::ieee::single::Single;
use planning::local_planner::dwa::DwaConfig;
use planning::local_planner::pursuit::PursuitConfig;
use planning::local_planner::tracking_mpc::TrackingMpcConfig;
use planning::local_planner::LocalPlannerConfig;

fn d(x: f64) -> Double {
    Double { bits: x.to_bits() }
}

fn f(x: Double) -> f64 {
    f64::from_bits(x.bits)
}

fn s(x: f32) -> Single {
    Single { bits: x.to_bits() }
}

fn quote(q: Option<Quantity>) -> Option<f64> {
    q.map(|q| match q {
        Quantity::Wide(x) => f(x),
        Quantity::Narrow(x) => f64::from(f32::from_bits(x.bits)),
        Quantity::Count(n) => n as f64,
    })
}

/// The refusal with its numbers in the places that the message leaves for them.
fn text(r: Result<(), ConfigError>) -> String {
    let e = match r {
        Ok(()) => return String::new(),
        Err(e) => e,
    };
    let mut out = e.template.to_string();
    for q in [quote(e.first), quote(e.second)].into_iter().flatten() {
        out = out.replacen("{}", &format!("{q}"), 1);
    }
    out
}

fn safety(change: fn(&mut SafetyEnvelopeConfig)) -> String {
    let mut c = SafetyEnvelopeConfig::default();
    change(&mut c);
    text(c.validate())
}

fn arbitrator(change: fn(&mut ArbitratorConfig)) -> String {
    let mut c = ArbitratorConfig::default();
    change(&mut c);
    text(c.validate())
}

fn behavior(change: fn(&mut BehaviorConfig)) -> String {
    let mut c = BehaviorConfig::default();
    change(&mut c);
    text(c.validate())
}

fn roadmap(change: fn(&mut RoadmapConfig)) -> String {
    let mut c = RoadmapConfig::default();
    change(&mut c);
    text(c.validate())
}

fn search(change: fn(&mut HybridAStarConfig)) -> String {
    let mut c = HybridAStarConfig::default();
    change(&mut c);
    text(c.validate())
}

fn dwa(change: fn(&mut DwaConfig)) -> String {
    let mut c = DwaConfig::default();
    change(&mut c);
    text(c.validate())
}

fn pursuit(change: fn(&mut PursuitConfig)) -> String {
    let mut c = PursuitConfig::default();
    change(&mut c);
    text(c.validate())
}

fn tracking(change: fn(&mut TrackingMpcConfig)) -> String {
    let mut c = TrackingMpcConfig::default();
    change(&mut c);
    text(c.validate())
}

fn local(change: fn(&mut LocalPlannerConfig)) -> String {
    let mut c = LocalPlannerConfig::default();
    change(&mut c);
    text(c.validate())
}

#[test]
fn the_safety_envelope_must_be_positive() {
    assert_eq!(safety(|_| ()), "");
    assert_eq!(safety(|c| c.max_speed = d(0.0)), "safety.max_speed must be > 0, got 0");
    assert_eq!(
        safety(|c| c.max_angular_speed = d(-1.0)),
        "safety.max_angular_speed must be > 0, got -1"
    );
    assert_eq!(
        safety(|c| c.max_acceleration = d(f64::NAN)),
        "safety.max_acceleration must be > 0, got NaN"
    );
    assert_eq!(
        safety(|c| c.max_deceleration = d(f64::INFINITY)),
        "safety.max_deceleration must be > 0, got inf"
    );
    assert_eq!(safety(|c| c.max_curvature = d(-0.0)), "safety.max_curvature must be > 0, got -0");
}

#[test]
fn each_rule_of_the_arbitrator_is_checked() {
    assert_eq!(arbitrator(|_| ()), "");
    assert_eq!(
        arbitrator(|c| c.safety.max_speed = d(0.0)),
        "safety.max_speed must be > 0, got 0"
    );
    assert_eq!(
        arbitrator(|c| c.fallback_min_confidence = s(1.5)),
        "fallback_min_confidence must be in [0, 1], got 1.5"
    );
    assert_eq!(
        arbitrator(|c| c.fallback_min_confidence = s(-0.5)),
        "fallback_min_confidence must be in [0, 1], got -0.5"
    );
    assert_eq!(
        arbitrator(|c| c.degraded_speed_cap = d(0.0)),
        "degraded_speed_cap must be > 0, got 0"
    );
    assert_eq!(
        arbitrator(|c| {
            c.safety.max_speed = d(1.0);
            c.degraded_speed_cap = d(1.25);
        }),
        "degraded_speed_cap (1.25) must not exceed safety.max_speed (1)"
    );
    assert_eq!(
        arbitrator(|c| c.e2e_confidence_threshold = s(2.0)),
        "e2e_confidence_threshold must be in [0, 1], got 2"
    );
    assert_eq!(
        arbitrator(|c| c.confidence_recovery_cycles = 0),
        "confidence_recovery_cycles must be >= 1"
    );
}

#[test]
fn each_rule_of_the_behaviour_is_checked() {
    assert_eq!(behavior(|_| ()), "");
    assert_eq!(
        behavior(|c| c.obstacle_avoidance_speed_factor = d(0.0)),
        "behavior.obstacle_avoidance_speed_factor must be in (0, 1], got 0"
    );
    assert_eq!(
        behavior(|c| c.obstacle_avoidance_speed_factor = d(1.5)),
        "behavior.obstacle_avoidance_speed_factor must be in (0, 1], got 1.5"
    );
    assert_eq!(
        behavior(|c| c.stuck_cycles_before_recovery = 0),
        "behavior.stuck_cycles_before_recovery must be >= 1"
    );
    assert_eq!(
        behavior(|c| c.recovery_reverse_min_m = d(0.0)),
        "behavior.recovery_reverse_min_m must be > 0, got 0"
    );
    assert_eq!(
        behavior(|c| {
            c.recovery_reverse_min_m = d(0.5);
            c.recovery_reverse_max_m = d(0.25);
        }),
        "behavior.recovery_reverse_max_m must be finite and >= recovery_reverse_min_m (0.5), \
         got 0.25"
    );
    assert_eq!(
        behavior(|c| c.recovery_reverse_max_s = d(-1.0)),
        "behavior.recovery_reverse_max_s must be > 0, got -1"
    );
    assert_eq!(
        behavior(|c| c.recovery_max_attempts = 0),
        "behavior.recovery_max_attempts must be >= 1"
    );
    assert_eq!(
        behavior(|c| c.recovery_progress_reset_m = d(0.0)),
        "behavior.recovery_progress_reset_m must be > 0, got 0"
    );
    assert_eq!(
        behavior(|c| c.recovery_exit_feasible_cycles = 0),
        "behavior.recovery_exit_feasible_cycles must be >= 1"
    );
    assert_eq!(
        behavior(|c| c.hold_retry_period_s = d(0.0)),
        "behavior.hold_retry_period_s must be > 0, got 0"
    );
}

#[test]
fn each_rule_of_the_roadmap_is_checked() {
    assert_eq!(roadmap(|_| ()), "");
    assert_eq!(
        roadmap(|c| c.blocked_link_timeout_s = d(0.0)),
        "roadmap.blocked_link_timeout_s must be positive, got 0"
    );
    assert_eq!(
        roadmap(|c| c.link_block_after_s = d(-1.0)),
        "roadmap.link_block_after_s must be positive, got -1"
    );
    assert_eq!(roadmap(|c| c.leg_min_m = d(0.0)), "roadmap.leg_min_m must be positive, got 0");
    assert_eq!(
        roadmap(|c| c.leg_max_m = d(f64::INFINITY)),
        "roadmap.leg_max_m must be positive, got inf"
    );
    assert_eq!(roadmap(|c| c.deviation_m = d(0.0)), "roadmap.deviation_m must be positive, got 0");
    assert_eq!(
        roadmap(|c| c.leg_min_m = d(4.0)),
        "roadmap.leg_min_m (4) must be < roadmap.leg_max_m (4)"
    );
    assert_eq!(
        roadmap(|c| {
            c.enabled = true;
            c.file = String::new();
        }),
        "roadmap.file must be set when roadmap.enabled"
    );
}

#[test]
fn each_staleness_threshold_is_checked() {
    let mut c = FaultToleranceConfig::default();
    c.world_state_stale_ms = 0;
    assert_eq!(
        c.validate(),
        Err("fault_tolerance.world_state_stale_ms must be > 0".to_string())
    );
    c.vehicle_state_stale_ms = 0;
    assert_eq!(
        c.validate(),
        Err("fault_tolerance.world_state_stale_ms must be > 0".to_string())
    );
    c.world_state_stale_ms = 1;
    assert_eq!(
        c.validate(),
        Err("fault_tolerance.vehicle_state_stale_ms must be > 0".to_string())
    );
}

#[test]
fn each_rule_of_the_search_is_checked() {
    assert_eq!(search(|_| ()), "");
    assert_eq!(
        search(|c| c.smoothing_alpha = d(0.75)),
        "global_planner.smoothing_alpha must be in [0, 0.5] (got 0.75)"
    );
    assert_eq!(
        search(|c| c.smoothing_clearance_beta = d(-1.0)),
        "global_planner.smoothing_clearance_beta must be finite and >= 0 (got -1)"
    );
    assert_eq!(
        search(|c| {
            c.smoothing_enabled = true;
            c.smoothing_iterations = 0;
        }),
        "global_planner.smoothing_iterations must be >= 1 when smoothing is enabled"
    );
    assert_eq!(
        search(|c| {
            c.smoothing_enabled = false;
            c.smoothing_iterations = 0;
        }),
        ""
    );
    assert_eq!(
        search(|c| c.clearance_cost_weight = d(-0.5)),
        "global_planner.clearance_cost_weight must be finite and >= 0 (got -0.5)"
    );
    assert_eq!(
        search(|c| c.clearance_decay_m = d(f64::NAN)),
        "global_planner.clearance_decay_m must be finite and >= 0 (got NaN)"
    );
    assert_eq!(
        search(|c| c.path_improvement_threshold = d(1.0)),
        "global_planner.path_improvement_threshold must be in [0, 1) (got 1)"
    );
    assert_eq!(
        search(|c| c.reverse_cost_multiplier = d(0.5)),
        "global_planner.reverse_cost_multiplier must be finite and >= 1 (got 0.5)"
    );
    assert_eq!(
        search(|c| c.direction_switch_penalty = d(-2.0)),
        "global_planner.direction_switch_penalty must be finite and >= 0 (got -2)"
    );
    assert_eq!(
        search(|c| c.rs_expansion_radius = d(-1.0)),
        "global_planner.rs_expansion_radius must be finite and >= 0 (got -1)"
    );
    assert_eq!(
        search(|c| c.start_escape_radius = d(f64::INFINITY)),
        "global_planner.start_escape_radius must be finite and >= 0 (got inf)"
    );
}

#[test]
fn each_rule_of_the_window_search_is_checked() {
    assert_eq!(dwa(|_| ()), "");
    assert_eq!(dwa(|c| c.max_speed = d(0.0)), "dwa.max_speed must be > 0, got 0");
    assert_eq!(
        dwa(|c| c.max_angular_speed = d(0.0)),
        "dwa.max_angular_speed must be > 0, got 0"
    );
    assert_eq!(
        dwa(|c| c.max_acceleration = d(-1.0)),
        "dwa.max_acceleration must be > 0, got -1"
    );
    assert_eq!(
        dwa(|c| c.max_deceleration = d(0.0)),
        "dwa.max_deceleration must be > 0, got 0"
    );
    assert_eq!(
        dwa(|c| c.max_angular_accel = d(0.0)),
        "dwa.max_angular_accel must be > 0, got 0"
    );
    assert_eq!(dwa(|c| c.max_curvature = d(0.0)), "dwa.max_curvature must be > 0, got 0");
    assert_eq!(dwa(|c| c.robot_radius = d(0.0)), "dwa.robot_radius must be > 0, got 0");
    assert_eq!(dwa(|c| c.sim_time = d(f64::NAN)), "dwa.sim_time must be > 0, got NaN");
    assert_eq!(dwa(|c| c.sim_dt = d(0.0)), "dwa.sim_dt must be > 0, got 0");
    assert_eq!(
        dwa(|c| {
            c.sim_time = d(1.0);
            c.sim_dt = d(1.5);
        }),
        "dwa.sim_dt (1.5) must not exceed dwa.sim_time (1)"
    );
    assert_eq!(
        dwa(|c| {
            c.v_samples = 1;
            c.w_samples = 7;
        }),
        "dwa.v_samples/w_samples must be >= 2, got 1/7"
    );
    assert_eq!(
        dwa(|c| c.margin_low_speed_scale = d(-1.0)),
        "dwa.margin_low_speed_scale must be >= 0 and finite, got -1"
    );
    assert_eq!(
        dwa(|c| c.high_speed_margin_gain = d(-1.0)),
        "dwa.high_speed_margin_gain must be >= 0 and finite, got -1"
    );
    assert_eq!(
        dwa(|c| c.moving_obstacle_margin_gain = d(f64::INFINITY)),
        "dwa.moving_obstacle_margin_gain must be >= 0 and finite, got inf"
    );
    assert_eq!(
        dwa(|c| c.recovery_margin_scale = d(-0.5)),
        "dwa.recovery_margin_scale must be >= 0 and finite, got -0.5"
    );
}

#[test]
fn each_rule_of_the_pursuit_is_checked() {
    assert_eq!(pursuit(|_| ()), "");
    assert_eq!(
        pursuit(|c| c.lookahead_min = d(0.0)),
        "pursuit.lookahead_min must be > 0, got 0"
    );
    assert_eq!(
        pursuit(|c| {
            c.lookahead_min = d(1.5);
            c.lookahead_max = d(1.0);
        }),
        "pursuit.lookahead_max (1) must be >= pursuit.lookahead_min (1.5)"
    );
    assert_eq!(pursuit(|c| c.k_v = d(-1.0)), "pursuit.k_v must be >= 0 and finite, got -1");
    assert_eq!(pursuit(|c| c.a_lat_max = d(0.0)), "pursuit.a_lat_max must be > 0, got 0");
    assert_eq!(pursuit(|c| c.v_turn_min = d(0.0)), "pursuit.v_turn_min must be > 0, got 0");
    assert_eq!(
        pursuit(|c| c.reverse_speed_cap = d(0.0)),
        "pursuit.reverse_speed_cap must be > 0, got 0"
    );
    assert_eq!(
        pursuit(|c| c.curvature_lookahead_gain = d(-1.0)),
        "pursuit.curvature_lookahead_gain must be >= 0 and finite, got -1"
    );
    assert_eq!(
        pursuit(|c| c.heading_error_lookahead_gain = d(-1.0)),
        "pursuit.heading_error_lookahead_gain must be >= 0 and finite, got -1"
    );
}

#[test]
fn each_rule_of_the_tracking_is_checked() {
    assert_eq!(tracking(|_| ()), "");
    assert_eq!(
        tracking(|c| c.horizon_steps = 0),
        "tracking_mpc.horizon_steps must be in 1..=100, got 0"
    );
    assert_eq!(tracking(|c| c.horizon_steps = 100), "");
    assert_eq!(
        tracking(|c| c.horizon_steps = 101),
        "tracking_mpc.horizon_steps must be in 1..=100, got 101"
    );
    assert_eq!(tracking(|c| c.dt = d(0.0)), "tracking_mpc.dt must be > 0, got 0");
    assert_eq!(tracking(|c| c.phase1_s = d(0.0)), "tracking_mpc.phase1_s must be > 0, got 0");
    assert_eq!(tracking(|c| c.finish_m = d(0.0)), "tracking_mpc.finish_m must be > 0, got 0");
    assert_eq!(tracking(|c| c.a_lat_max = d(0.0)), "tracking_mpc.a_lat_max must be > 0, got 0");
    assert_eq!(tracking(|c| c.w_lat = d(-1.0)), "tracking_mpc.w_lat must be >= 0, got -1");
    assert_eq!(tracking(|c| c.w_head = d(-1.0)), "tracking_mpc.w_head must be >= 0, got -1");
    assert_eq!(tracking(|c| c.w_speed = d(-1.0)), "tracking_mpc.w_speed must be >= 0, got -1");
    assert_eq!(tracking(|c| c.w_dkappa = d(-1.0)), "tracking_mpc.w_dkappa must be >= 0, got -1");
    assert_eq!(
        tracking(|c| c.w_kappa_cont = d(-1.0)),
        "tracking_mpc.w_kappa_cont must be >= 0, got -1"
    );
    assert_eq!(tracking(|c| c.w_lat = d(0.0)), "");
}

#[test]
fn the_local_planner_checks_its_parts_and_their_fit() {
    assert_eq!(local(|_| ()), "");
    assert_eq!(local(|c| c.dwa.max_speed = d(0.0)), "dwa.max_speed must be > 0, got 0");
    assert_eq!(local(|c| c.pursuit.k_v = d(-1.0)), "pursuit.k_v must be >= 0 and finite, got -1");
    assert_eq!(local(|c| c.tracking_mpc.dt = d(0.0)), "tracking_mpc.dt must be > 0, got 0");
    assert_eq!(
        local(|c| c.mpc.wheelbase = d(0.0)),
        "mpc.wheelbase must be > 0 (pursuit curvature profile depends on it), got 0"
    );
    assert_eq!(
        local(|c| {
            c.dwa.max_speed = d(0.5);
            c.pursuit.v_turn_min = d(0.75);
        }),
        "pursuit.v_turn_min (0.75) must be <= dwa.max_speed (0.5)"
    );
    assert_eq!(
        local(|c| c.actuation_delay_s = d(1.5)),
        "actuation_delay_s must be in [0, 1], got 1.5"
    );
    assert_eq!(local(|c| c.actuation_delay_s = d(1.0)), "");
}

#[test]
fn of_several_faults_the_first_is_reported() {
    assert_eq!(
        behavior(|c| {
            c.hold_retry_period_s = d(0.0);
            c.recovery_max_attempts = 0;
        }),
        "behavior.recovery_max_attempts must be >= 1"
    );
    assert_eq!(
        local(|c| {
            c.actuation_delay_s = d(2.0);
            c.tracking_mpc.dt = d(0.0);
            c.pursuit.k_v = d(-1.0);
        }),
        "pursuit.k_v must be >= 0 and finite, got -1"
    );
}

#[test]
fn a_valid_local_planner_is_operable() {
    let c = LocalPlannerConfig::default();
    assert!(c.validate().is_ok());
    assert!(f(c.dwa.max_speed) > 0.0 && f(c.dwa.max_curvature) > 0.0);
    assert!(f(c.mpc.wheelbase) > 0.0);
    assert!(c.tracking_mpc.horizon_steps >= 1);
}

#[test]
fn the_default_endpoints_are_local() {
    let c = TransportConfig::default();
    assert_eq!(c.ch1_endpoint, "tcp://localhost:5551");
    assert_eq!(c.ch2_endpoint, "tcp://*:5552");
    assert_eq!(c.ch3_endpoint, "tcp://localhost:5553");
}

#[test]
fn a_default_configuration_is_valid_throughout() {
    let c = PlanningConfig::default();
    assert!(c.behavior.validate().is_ok());
    assert!(c.global_planner.validate().is_ok());
    assert!(c.local_planner.validate().is_ok());
    assert!(c.arbitrator.validate().is_ok());
    assert!(c.roadmap.validate().is_ok());
    assert!(c.fault_tolerance.validate().is_ok());
}

#[test]
fn the_learned_driver_is_off_and_says_nothing() {
    let c = E2EConfig::default();
    assert!(!c.enabled);
    assert_eq!(c.rate_hz, 15);
    assert_eq!(f32::from_bits(c.confidence_threshold.bits), 0.7);
    let e = E2EInference::new(c);
    assert!(!e.is_enabled());
    assert!(e.infer(&[1, 2, 3]).is_none());
    let mut on = E2EConfig::default();
    on.enabled = true;
    let e = E2EInference::new(on);
    assert!(e.is_enabled());
    assert!(e.infer(&[]).is_none());
}
