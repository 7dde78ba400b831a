//! Rules of the arbitrator and of the behaviour on chosen cycles.
use planning::arbitrator::{
    near_zero_speed, Arbitrator, ArbitratorConfig, PipelineMode, SafetyEnvelopeConfig,
};
use planning::behavior::{
    recovery_crawl_speed, BehaviorConfig, BehaviorInput, BehaviorPlanner, DrivingState, Goal,
    RecoveryEpisode, RecoveryPhase, RecoveryStatus,
};
use planning::ieee::double::Double;
use planning::ieee::single::Single;
use planning::local_planner::VelocityCommand;

fn d(x: f64) -> Double {
    Double { bits: x.to_bits() }
}

fn f(x: Double) -> f64 {
    f64::from_bits(x.bits)
}

fn s(x: f32) -> Single {
    Single { bits: x.to_bits() }
}

fn command(v: f64, w: f64, confidence: f32) -> VelocityCommand {
    VelocityCommand { linear_x: d(v), angular_z: d(w), confidence: s(confidence) }
}

#[test]
fn the_default_envelope_is_the_documented_one() {
    let e = SafetyEnvelopeConfig::default();
    assert_eq!(f(e.max_speed), 2.2);
    assert_eq!(f(e.max_acceleration), 2.5);
    assert_eq!(f(e.max_deceleration), 3.0);
    assert_eq!(f(e.max_angular_speed), 4.5);
    assert_eq!(f(e.max_curvature), 2.0);
    let c = ArbitratorConfig::default();
    assert_eq!(c.rate_hz, 10);
    assert_eq!(f32::from_bits(c.e2e_confidence_threshold.bits), 0.7);
    assert_eq!(f32::from_bits(c.fallback_min_confidence.bits), 0.3);
    assert_eq!(f(c.degraded_speed_cap), 0.15);
    assert_eq!(c.confidence_recovery_cycles, 5);
    assert_eq!(f(near_zero_speed()), 0.02);
}

#[test]
fn a_speed_moves_towards_its_target_and_not_past_it() {
    for prev in [-1.5, -0.1, 0.0, 0.05, 2.0] {
        for target in [-3.0, -0.2, 0.0, 0.1, 1.0] {
            let mut a = Arbitrator::new(ArbitratorConfig::default());
            a.prev_linear = d(prev);
            let v = f(a.arbitrate(&command(target, 0.0, 0.9), None, d(0.1)).command.linear_x);
            let bounded = f64::clamp(target, -2.2, 2.2);
            assert!(prev.min(bounded) <= v && v <= prev.max(bounded));
        }
    }
}

#[test]
fn one_step_of_deceleration_is_a_stop() {
    let mut a = Arbitrator::new(ArbitratorConfig::default());
    a.prev_linear = d(0.29);
    assert_eq!(f(a.arbitrate(&command(0.0, 0.0, 0.9), None, d(0.1)).command.linear_x), 0.0);
    a.prev_linear = d(1.0);
    let out = a.arbitrate(&command(0.0, 0.0, 0.9), None, d(0.1));
    assert_eq!(f(out.command.linear_x), 1.0 - 3.0 * 0.1);
    assert!(out.safety_clipped);
}

#[test]
fn a_turn_is_no_tighter_than_the_limit() {
    let mut a = Arbitrator::new(ArbitratorConfig::default());
    a.prev_linear = d(1.0);
    let out = a.arbitrate(&command(1.0, -4.0, 0.9), None, d(0.1)).command;
    assert_eq!((f(out.linear_x), f(out.angular_z)), (1.0, -2.0));
    let out = a.arbitrate(&command(1.0, 1.5, 0.9), None, d(0.1)).command;
    assert_eq!((f(out.linear_x), f(out.angular_z)), (1.0, 1.5));
}

#[test]
fn no_series_of_commands_leaves_the_envelope() {
    let mut a = Arbitrator::new(ArbitratorConfig::default());
    for k in 0..200 {
        let t = f64::from(k);
        let cmd = command(10.0 * (t * 0.7).sin(), 20.0 * (t * 1.3).cos(), 0.9);
        let out = a.arbitrate(&cmd, None, d(0.1)).command;
        assert!(f(out.linear_x).abs() <= 2.2);
        assert!(f(out.angular_z).abs() <= 4.5);
    }
}

#[test]
fn the_learned_command_counts_only_in_its_mode() {
    let e2e = command(1.0, 0.5, 1.0);
    for mode in [PipelineMode::Traditional, PipelineMode::Shadow] {
        let mut a = Arbitrator::new(ArbitratorConfig::default());
        a.set_mode(mode);
        let with = a.arbitrate(&command(0.1, 0.0, 0.9), Some(&e2e), d(0.1));
        let mut b = Arbitrator::new(ArbitratorConfig::default());
        b.set_mode(mode);
        let without = b.arbitrate(&command(0.1, 0.0, 0.9), None, d(0.1));
        assert_eq!(with.command.linear_x.bits, without.command.linear_x.bits);
        assert_eq!(with.source, mode);
        assert!(!with.emergency_stop);
    }
}

#[test]
fn the_ladder_of_the_learned_mode() {
    let config = ArbitratorConfig::default();
    let run = |traditional: f32, e2e: Option<f32>| {
        let mut a = Arbitrator::new(config);
        a.set_mode(PipelineMode::E2E);
        let e = e2e.map(|c| command(0.2, 0.1, c));
        a.arbitrate(&command(0.1, 0.0, traditional), e.as_ref(), d(0.1))
    };
    let out = run(0.9, Some(0.7));
    assert_eq!((out.source, out.emergency_stop), (PipelineMode::E2E, false));
    assert_eq!(f(out.command.linear_x), 0.2);
    let out = run(0.3, Some(0.69));
    assert_eq!((out.source, out.emergency_stop), (PipelineMode::Traditional, false));
    assert_eq!(f(out.command.linear_x), 0.1);
    let out = run(0.29, Some(0.69));
    assert!(out.emergency_stop);
    assert_eq!((f(out.command.linear_x), f(out.command.angular_z)), (0.0, 0.0));
    assert_eq!(f32::from_bits(out.command.confidence.bits), 1.0);
    assert!(run(0.1, None).emergency_stop);
}

#[test]
fn low_confidence_caps_up_to_and_with_the_cycle_that_lifts_it() {
    let mut a = Arbitrator::new(ArbitratorConfig::default());
    a.prev_linear = d(0.15);
    let fast = command(0.2, 0.0, 0.9);
    a.arbitrate(&command(0.2, 0.0, 0.1), None, d(0.1));
    assert!(a.is_degraded());
    for k in 1..=5 {
        let out = a.arbitrate(&fast, None, d(0.1));
        assert_eq!(f(out.command.linear_x), 0.15, "cycle {k} is capped");
        assert_eq!(a.is_degraded(), k < 5);
    }
    assert_eq!(f(a.arbitrate(&fast, None, d(0.1)).command.linear_x), 0.2);
}

#[test]
fn a_low_cycle_starts_the_count_anew() {
    let mut a = Arbitrator::new(ArbitratorConfig::default());
    a.arbitrate(&command(0.1, 0.0, 0.1), None, d(0.1));
    for _ in 0..4 {
        a.arbitrate(&command(0.1, 0.0, 0.9), None, d(0.1));
    }
    assert_eq!(a.recovery_streak, 4);
    a.arbitrate(&command(0.1, 0.0, 0.2), None, d(0.1));
    assert_eq!(a.recovery_streak, 0);
    assert!(a.is_degraded());
}

#[test]
fn a_near_zero_command_of_low_confidence_is_a_stop() {
    let mut a = Arbitrator::new(ArbitratorConfig::default());
    let out = a.arbitrate(&command(0.019, 0.5, 0.1), None, d(0.1));
    assert_eq!((f(out.command.linear_x), f(out.command.angular_z)), (0.0, 0.0));
    assert!(!out.emergency_stop);
}

fn input() -> BehaviorInput {
    BehaviorInput {
        robot_x: d(0.0),
        robot_y: d(0.0),
        robot_theta: d(0.0),
        localization_confidence: s(0.9),
        nearest_obstacle_distance: d(5.0),
        emergency_stop: false,
        dt: d(0.1),
        robot_speed: d(0.0),
        planner_infeasible: false,
        planner_feasible: true,
        rear_clear: true,
    }
}

fn stuck() -> BehaviorInput {
    BehaviorInput { planner_infeasible: true, planner_feasible: false, ..input() }
}

fn goal(x: f64) -> Goal {
    Goal { x: d(x), y: d(0.0), theta: d(0.0), tolerance: None, speed: None }
}

fn recovering() -> BehaviorPlanner {
    let mut bp = BehaviorPlanner::new(BehaviorConfig::default());
    bp.set_goal(goal(5.0));
    bp.update(&input());
    for _ in 0..bp.config.stuck_cycles_before_recovery {
        bp.update(&stuck());
    }
    assert_eq!(bp.state(), DrivingState::Recovery);
    bp
}

#[test]
fn an_emergency_stop_keeps_the_goal() {
    let mut bp = recovering();
    let out = bp.update(&BehaviorInput { emergency_stop: true, ..input() });
    assert_eq!(out.state, DrivingState::EmergencyStop);
    assert_eq!(f(out.desired_speed), 0.0);
    assert!(!out.replan_requested);
    assert!(out.recovery_phase.is_none());
    assert!(bp.goal.is_some());
}

#[test]
fn poor_localization_stops_in_every_state() {
    let poor = BehaviorInput { localization_confidence: s(0.29), ..input() };
    let mut idle = BehaviorPlanner::new(BehaviorConfig::default());
    assert_eq!(idle.update(&poor).state, DrivingState::Degraded);
    let mut bp = recovering();
    let out = bp.update(&poor);
    assert_eq!(out.state, DrivingState::Degraded);
    assert_eq!(f(out.desired_speed), 0.0);
    let fair = BehaviorInput { localization_confidence: s(0.3), ..input() };
    let mut other = BehaviorPlanner::new(BehaviorConfig::default());
    assert_eq!(other.update(&fair).state, DrivingState::Idle);
}

#[test]
fn poor_localization_lasts_until_it_is_good() {
    let mut bp = recovering();
    bp.update(&BehaviorInput { localization_confidence: s(0.1), ..input() });
    let fair = BehaviorInput { localization_confidence: s(0.49), ..input() };
    assert_eq!(bp.update(&fair).state, DrivingState::Degraded);
    let good = BehaviorInput { localization_confidence: s(0.5), ..input() };
    assert_eq!(bp.update(&good).state, DrivingState::Following);
    let mut idle = BehaviorPlanner::new(BehaviorConfig::default());
    idle.update(&BehaviorInput { localization_confidence: s(0.1), ..input() });
    assert_eq!(idle.update(&good).state, DrivingState::Idle);
}

#[test]
fn an_emergency_stop_ends_with_its_cause() {
    let mut bp = recovering();
    bp.update(&BehaviorInput { emergency_stop: true, ..input() });
    assert_eq!(bp.update(&input()).state, DrivingState::Following);
    let mut idle = BehaviorPlanner::new(BehaviorConfig::default());
    idle.update(&BehaviorInput { emergency_stop: true, ..input() });
    assert_eq!(idle.update(&input()).state, DrivingState::Idle);
}

#[test]
fn only_consecutive_stuck_cycles_lead_to_recovery() {
    let mut bp = BehaviorPlanner::new(BehaviorConfig::default());
    bp.set_goal(goal(5.0));
    bp.update(&input());
    let n = bp.config.stuck_cycles_before_recovery;
    for _ in 0..3 {
        for _ in 0..n - 1 {
            bp.update(&stuck());
        }
        assert_ne!(bp.state(), DrivingState::Recovery);
        bp.update(&input());
        assert_eq!(bp.stuck_count, 0);
    }
}

#[test]
fn a_new_goal_ends_a_recovery() {
    let mut bp = recovering();
    assert!(bp.recovery.is_some());
    bp.set_goal(goal(3.0));
    assert_eq!(bp.state(), DrivingState::Following);
    assert!(bp.recovery.is_none());
    assert!(bp.episode.is_some(), "the episode goes on");
    assert!(bp.update(&input()).recovery_phase.is_none());
    bp.clear_goal();
    assert_eq!(bp.state(), DrivingState::Idle);
    assert!(bp.episode.is_none());
}

#[test]
fn a_goal_brings_its_own_tolerance_and_speed() {
    let mut bp = BehaviorPlanner::new(BehaviorConfig::default());
    let usual = f(bp.config.goal_tolerance);
    let base = f(bp.config.default_speed);
    assert_eq!(f(bp.arrival_tolerance(&goal(1.0))), usual);
    let own = Goal { tolerance: Some(d(0.7)), ..goal(1.0) };
    assert_eq!(f(bp.arrival_tolerance(&own)), 0.7);
    let void = Goal { tolerance: Some(d(0.0)), ..goal(1.0) };
    assert_eq!(f(bp.arrival_tolerance(&void)), usual);
    assert_eq!(f(bp.leg_speed()), base);
    bp.set_goal(Goal { speed: Some(d(base / 2.0)), ..goal(1.0) });
    assert_eq!(f(bp.leg_speed()), base / 2.0);
    bp.set_goal(Goal { speed: Some(d(base * 2.0)), ..goal(1.0) });
    assert_eq!(f(bp.leg_speed()), base);
    bp.set_goal(Goal { speed: Some(d(-1.0)), ..goal(1.0) });
    assert_eq!(f(bp.leg_speed()), base);
}

#[test]
fn a_reverse_grows_with_the_rounds_up_to_the_cap() {
    let mut bp = BehaviorPlanner::new(BehaviorConfig::default());
    let (least, most) =
        (f(bp.config.recovery_reverse_min_m), f(bp.config.recovery_reverse_max_m));
    assert_eq!(f(recovery_crawl_speed()), 0.1);
    let mut before = 0.0;
    for n in 0..6 {
        let mut e = RecoveryEpisode::new(d(0.0), d(0.0));
        e.attempts = n;
        bp.episode = Some(e);
        let target = f(bp.reverse_target_m());
        assert_eq!(target, (least * f64::from(n + 1)).min(most));
        assert!(before <= target);
        assert_eq!(
            f(bp.reverse_time_allowance_s()),
            (target / 0.1 + 1.0).max(f(bp.config.recovery_reverse_max_s))
        );
        before = target;
    }
}

#[test]
fn movement_ends_a_recovery_and_keeps_the_attempts() {
    let mut bp = recovering();
    let mut e = RecoveryEpisode::new(d(0.0), d(0.0));
    e.attempts = 2;
    bp.episode = Some(e);
    bp.update(&BehaviorInput { robot_x: d(0.29), ..stuck() });
    assert_eq!(bp.state(), DrivingState::Recovery);
    bp.update(&BehaviorInput { robot_x: d(0.31), ..stuck() });
    assert_ne!(bp.state(), DrivingState::Recovery);
    assert!(bp.recovery.is_none());
    assert_eq!(bp.episode.map(|e| e.attempts), Some(2));
}

#[test]
fn a_committed_reverse_does_not_look_at_forward_plans() {
    let mut bp = recovering();
    let mut r = RecoveryStatus::new(d(0.0), d(0.0));
    r.phase = RecoveryPhase::Reverse;
    r.reverse_start = Some((d(0.0), d(0.0)));
    bp.recovery = Some(r);
    let mut other = bp;
    bp.update(&BehaviorInput { planner_feasible: true, ..input() });
    other.update(&BehaviorInput { planner_feasible: false, ..input() });
    assert_eq!(bp.recovery.map(|r| r.phase), Some(RecoveryPhase::Reverse));
    assert_eq!(other.recovery.map(|r| r.phase), Some(RecoveryPhase::Reverse));
    assert_eq!(bp.recovery.map(|r| r.feasible_streak), other.recovery.map(|r| r.feasible_streak));
}

#[test]
fn hold_retries_after_its_period_but_not_into_a_blocked_rear() {
    let mut bp = recovering();
    let mut r = RecoveryStatus::new(d(0.0), d(0.0));
    r.phase = RecoveryPhase::Hold;
    r.hold_elapsed = d(f(bp.config.hold_retry_period_s) - 0.05);
    bp.recovery = Some(r);
    let out = bp.update(&BehaviorInput { rear_clear: false, ..stuck() });
    assert_eq!(out.recovery_phase, Some(RecoveryPhase::ForwardRetry));
    for _ in 0..100 {
        let out = bp.update(&BehaviorInput { rear_clear: false, ..stuck() });
        assert_ne!(out.recovery_phase, Some(RecoveryPhase::Reverse));
        if out.recovery_phase == Some(RecoveryPhase::Hold) {
            assert_eq!(f(out.desired_speed), 0.0);
        }
    }
}

#[test]
fn outside_recovery_the_speed_is_within_the_default() {
    let mut bp = BehaviorPlanner::new(BehaviorConfig::default());
    bp.set_goal(goal(2.0));
    let base = f(bp.config.default_speed);
    for k in 0..20 {
        let out = bp.update(&BehaviorInput {
            robot_x: d(0.1 * f64::from(k)),
            nearest_obstacle_distance: d(if k % 3 == 0 { 0.3 } else { 5.0 }),
            robot_speed: d(0.5),
            ..input()
        });
        assert!((0.0..=base).contains(&f(out.desired_speed)));
        assert_eq!(out.recovery_phase.is_some(), out.state == DrivingState::Recovery);
    }
}
