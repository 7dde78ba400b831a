use planning::behavior::{
    BehaviorConfig, BehaviorInput, BehaviorOutput, BehaviorPlanner, DrivingState, Goal,
    RecoveryPhase,
};
use planning::ieee::double::Double;
use planning::ieee::single::Single;

fn d(x: f64) -> Double {
    Double { bits: x.to_bits() }
}

fn f(x: Double) -> f64 {
    f64::from_bits(x.bits)
}

fn s(x: f32) -> Single {
    Single { bits: x.to_bits() }
}

fn default_input() -> BehaviorInput {
    BehaviorInput {
        robot_x: d(0.0),
        robot_y: d(0.0),
        robot_theta: d(0.0),
        localization_confidence: s(0.9),
        nearest_obstacle_distance: d(5.0),
        emergency_stop: false,
        dt: d(0.1),
        robot_speed: d(0.0),
        planner_infeasible: false,
        planner_feasible: true,
        rear_clear: true,
    }
}

/// Input describing a stuck robot: stationary, planner infeasible.
fn stuck_input() -> BehaviorInput {
    BehaviorInput {
        robot_speed: d(0.0),
        planner_infeasible: true,
        planner_feasible: false,
        ..default_input()
    }
}

/// Drive the planner into Recovery via the stuck counter.
fn enter_recovery(bp: &mut BehaviorPlanner) {
    bp.set_goal(Goal {
        x: d(5.0),
        y: d(0.0),
        theta: d(0.0),
        tolerance: None,
        speed: None,
    });
    bp.update(&default_input());
    for _ in 0..BehaviorConfig::default().stuck_cycles_before_recovery {
        bp.update(&stuck_input());
    }
    assert_eq!(bp.state(), DrivingState::Recovery);
}

#[test]
fn test_idle_to_following() {
    let mut bp = BehaviorPlanner::new(BehaviorConfig::default());
    assert_eq!(bp.state(), DrivingState::Idle);

    bp.set_goal(Goal {
        x: d(5.0),
        y: d(0.0),
        theta: d(0.0),
        tolerance: None,
        speed: None,
    });
    let out = bp.update(&default_input());
    assert_eq!(out.state, DrivingState::Following);
    assert!(f(out.desired_speed) > 0.0);
}

#[test]
fn test_goal_reached() {
    let mut bp = BehaviorPlanner::new(BehaviorConfig::default());
    bp.set_goal(Goal {
        x: d(0.05),
        y: d(0.05),
        theta: d(0.0),
        tolerance: None,
        speed: None,
    });

    let out = bp.update(&default_input());
    assert_eq!(out.state, DrivingState::GoalReached);
    assert_eq!(f(out.desired_speed), 0.0);
}

#[test]
fn test_emergency_stop_override() {
    let mut bp = BehaviorPlanner::new(BehaviorConfig::default());
    bp.set_goal(Goal {
        x: d(5.0),
        y: d(0.0),
        theta: d(0.0),
        tolerance: None,
        speed: None,
    });

    let mut input = default_input();
    input.emergency_stop = true;
    let out = bp.update(&input);
    assert_eq!(out.state, DrivingState::EmergencyStop);
    assert_eq!(f(out.desired_speed), 0.0);
}

#[test]
fn test_obstacle_avoidance() {
    let mut bp = BehaviorPlanner::new(BehaviorConfig::default());
    bp.set_goal(Goal {
        x: d(5.0),
        y: d(0.0),
        theta: d(0.0),
        tolerance: None,
        speed: None,
    });
    bp.update(&default_input());

    let mut input = default_input();
    input.nearest_obstacle_distance = d(0.2);
    let out = bp.update(&input);
    assert_eq!(out.state, DrivingState::ObstacleAvoidance);
    let cfg = BehaviorConfig::default();
    assert!(f(out.desired_speed) < f(cfg.default_speed));
    assert!(
        (f(out.desired_speed) - f(cfg.default_speed) * f(cfg.obstacle_avoidance_speed_factor)).abs()
            < 1e-9
    );
}

#[test]
fn test_obstacle_avoidance_speed_factor_is_configurable() {
    let cfg = BehaviorConfig {
        obstacle_avoidance_speed_factor: d(0.5),
        ..Default::default()
    };
    assert!(cfg.validate().is_ok());
    let mut bp = BehaviorPlanner::new(cfg.clone());
    bp.set_goal(Goal {
        x: d(5.0),
        y: d(0.0),
        theta: d(0.0),
        tolerance: None,
        speed: None,
    });
    bp.update(&default_input());
    let mut input = default_input();
    input.nearest_obstacle_distance = d(0.2);
    let out = bp.update(&input);
    assert_eq!(out.state, DrivingState::ObstacleAvoidance);
    assert!((f(out.desired_speed) - f(cfg.default_speed) * 0.5).abs() < 1e-9);

    assert!(BehaviorConfig {
        obstacle_avoidance_speed_factor: d(0.0),
        ..Default::default()
    }
    .validate()
    .is_err());
    assert!(BehaviorConfig {
        obstacle_avoidance_speed_factor: d(1.5),
        ..Default::default()
    }
    .validate()
    .is_err());
}

#[test]
fn test_per_leg_speed_caps_desired_speed() {
    let cfg = BehaviorConfig::default();
    let mut bp = BehaviorPlanner::new(cfg.clone());
    bp.set_goal(Goal {
        x: d(5.0),
        y: d(0.0),
        theta: d(0.0),
        tolerance: None,
        speed: Some(d(1.0)),
    });
    let out = bp.update(&default_input());
    assert_eq!(out.state, DrivingState::Following);
    assert!((f(out.desired_speed) - 1.0).abs() < 1e-9);

    let mut input = default_input();
    input.nearest_obstacle_distance = d(0.2);
    let out = bp.update(&input);
    assert_eq!(out.state, DrivingState::ObstacleAvoidance);
    assert!((f(out.desired_speed) - 1.0 * f(cfg.obstacle_avoidance_speed_factor)).abs() < 1e-9);

    let mut bp = BehaviorPlanner::new(cfg.clone());
    bp.set_goal(Goal {
        x: d(5.0),
        y: d(0.0),
        theta: d(0.0),
        tolerance: None,
        speed: Some(d(9.9)),
    });
    let out = bp.update(&default_input());
    assert!((f(out.desired_speed) - f(cfg.default_speed)).abs() < 1e-9);

    let mut bp = BehaviorPlanner::new(cfg.clone());
    bp.set_goal(Goal {
        x: d(5.0),
        y: d(0.0),
        theta: d(0.0),
        tolerance: None,
        speed: Some(d(0.0)),
    });
    let out = bp.update(&default_input());
    assert!((f(out.desired_speed) - f(cfg.default_speed)).abs() < 1e-9);
}

#[test]
fn test_per_goal_tolerance_overrides_config() {
    let mut bp = BehaviorPlanner::new(BehaviorConfig::default());
    bp.set_goal(Goal {
        x: d(0.2),
        y: d(0.0),
        theta: d(0.0),
        tolerance: Some(d(0.3)),
        speed: None,
    });
    let out = bp.update(&default_input());
    assert_eq!(out.state, DrivingState::GoalReached);
}

#[test]
fn test_config_tolerance_when_goal_has_none() {
    let mut bp = BehaviorPlanner::new(BehaviorConfig::default());
    bp.set_goal(Goal {
        x: d(0.2),
        y: d(0.0),
        theta: d(0.0),
        tolerance: None,
        speed: None,
    });
    let out = bp.update(&default_input());
    assert_eq!(out.state, DrivingState::Approaching);
}

#[test]
fn test_recovery_entry_requires_consecutive_stuck_cycles() {
    let mut bp = BehaviorPlanner::new(BehaviorConfig::default());
    bp.set_goal(Goal {
        x: d(5.0),
        y: d(0.0),
        theta: d(0.0),
        tolerance: None,
        speed: None,
    });
    bp.update(&default_input());
    assert_eq!(bp.state(), DrivingState::Following);

    let n = BehaviorConfig::default().stuck_cycles_before_recovery;

    for _ in 0..n - 1 {
        let out = bp.update(&stuck_input());
        assert_ne!(out.state, DrivingState::Recovery);
    }
    bp.update(&default_input());
    for _ in 0..n - 1 {
        let out = bp.update(&stuck_input());
        assert_ne!(
            out.state,
            DrivingState::Recovery,
            "stuck counter must reset on a feasible cycle"
        );
    }
    let out = bp.update(&stuck_input());
    assert_eq!(out.state, DrivingState::Recovery);
    assert_eq!(out.recovery_phase, Some(RecoveryPhase::ForwardRetry));
    assert!((f(out.desired_speed) - 0.1).abs() < 1e-9, "phase A crawls");
}

#[test]
fn test_recovery_never_entered_from_goal_reached_or_idle() {
    let mut bp = BehaviorPlanner::new(BehaviorConfig::default());
    bp.set_goal(Goal {
        x: d(0.05),
        y: d(0.0),
        theta: d(0.0),
        tolerance: None,
        speed: None,
    });
    bp.update(&default_input());
    assert_eq!(bp.state(), DrivingState::GoalReached);
    for _ in 0..3 * BehaviorConfig::default().stuck_cycles_before_recovery {
        let out = bp.update(&stuck_input());
        assert_eq!(out.state, DrivingState::GoalReached);
    }

    let mut bp = BehaviorPlanner::new(BehaviorConfig::default());
    for _ in 0..3 * BehaviorConfig::default().stuck_cycles_before_recovery {
        let out = bp.update(&stuck_input());
        assert_eq!(out.state, DrivingState::Idle);
    }
}

#[test]
fn test_recovery_exit_requires_consecutive_feasible_cycles() {
    let n = BehaviorConfig::default().recovery_exit_feasible_cycles;
    let mut bp = BehaviorPlanner::new(BehaviorConfig::default());
    enter_recovery(&mut bp);

    for i in 0..n - 1 {
        let out = bp.update(&default_input());
        assert_eq!(
            out.state,
            DrivingState::Recovery,
            "exited after only {} feasible cycle(s)",
            i + 1
        );
    }
    bp.update(&stuck_input());
    for _ in 0..n - 1 {
        let out = bp.update(&default_input());
        assert_eq!(
            out.state,
            DrivingState::Recovery,
            "feasible streak must reset on an infeasible cycle"
        );
    }
    let out = bp.update(&default_input());
    assert_eq!(out.state, DrivingState::Following);
    assert_eq!(out.recovery_phase, None);
}

#[test]
fn test_recovery_exits_on_movement() {
    let mut bp = BehaviorPlanner::new(BehaviorConfig::default());
    enter_recovery(&mut bp);

    let moved = BehaviorInput {
        robot_x: d(0.35),
        ..stuck_input()
    };
    let out = bp.update(&moved);
    assert_eq!(out.state, DrivingState::Following);
}

#[test]
fn test_recovery_phase_a_then_reverse_when_rear_clear() {
    let mut bp = BehaviorPlanner::new(BehaviorConfig::default());
    enter_recovery(&mut bp);

    let mut out = bp.update(&stuck_input());
    assert_eq!(out.recovery_phase, Some(RecoveryPhase::ForwardRetry));
    for _ in 0..30 {
        out = bp.update(&stuck_input());
    }
    assert_eq!(
        out.recovery_phase,
        Some(RecoveryPhase::Reverse),
        "phase A must hand over to reverse after ~3s without progress"
    );
    assert!((f(out.desired_speed) - 0.1).abs() < 1e-9);

    for _ in 0..31 {
        out = bp.update(&stuck_input());
    }
    assert_eq!(out.recovery_phase, Some(RecoveryPhase::ForwardRetry));
}

#[test]
fn test_recovery_reverse_blocked_rear_returns_to_forward_retry() {
    let mut bp = BehaviorPlanner::new(BehaviorConfig::default());
    enter_recovery(&mut bp);

    let mut out = bp.update(&stuck_input());
    for _ in 0..30 {
        out = bp.update(&stuck_input());
    }
    assert_eq!(out.recovery_phase, Some(RecoveryPhase::Reverse));

    let blocked = BehaviorInput {
        rear_clear: false,
        ..stuck_input()
    };
    let out = bp.update(&blocked);
    assert_eq!(
        out.recovery_phase,
        Some(RecoveryPhase::ForwardRetry),
        "blocked rear must fall back to forward retries, not reverse"
    );
    assert_ne!(out.recovery_phase, Some(RecoveryPhase::Reverse));
}

#[test]
fn test_recovery_aborts_after_max_attempts_and_holds() {
    let cfg = BehaviorConfig::default();
    let mut bp = BehaviorPlanner::new(cfg.clone());
    enter_recovery(&mut bp);

    let mut out = bp.update(&stuck_input());
    let mut rounds = 0;
    while out.recovery_phase != Some(RecoveryPhase::Hold) {
        out = run_one_round(&mut bp, &stuck_input());
        rounds += 1;
        assert!(
            rounds <= cfg.recovery_max_attempts,
            "Hold not reached after {} rounds",
            rounds
        );
    }
    assert_eq!(rounds, cfg.recovery_max_attempts);
    assert_eq!(out.state, DrivingState::Recovery);
    assert_eq!(
        out.recovery_phase,
        Some(RecoveryPhase::Hold),
        "exhausted recovery must hold stopped"
    );
    assert_eq!(f(out.desired_speed), 0.0);

    let mut out = bp.update(&default_input());
    for _ in 0..cfg.recovery_exit_feasible_cycles {
        out = bp.update(&default_input());
    }
    assert_eq!(out.state, DrivingState::Following);
}

/// Drive an in-Recovery planner with stuck cycles until phase B starts,
/// then until the round closes (reverse timeout with no movement).
/// Returns the output of the cycle on which the reverse ended.
fn run_one_round(bp: &mut BehaviorPlanner, template: &BehaviorInput) -> BehaviorOutput {
    let mut out = bp.update(template);
    let mut guard = 0;
    while out.recovery_phase != Some(RecoveryPhase::Reverse) {
        out = bp.update(template);
        guard += 1;
        assert!(guard < 100, "never reached Reverse phase");
    }
    while out.recovery_phase == Some(RecoveryPhase::Reverse) {
        out = bp.update(template);
        guard += 1;
        assert!(guard < 200, "reverse phase never ended");
    }
    out
}

#[test]
fn test_committed_reverse_ignores_feasibility_until_min_distance() {
    let cfg = BehaviorConfig::default();
    let mut bp = BehaviorPlanner::new(cfg.clone());
    enter_recovery(&mut bp);

    let mut out = bp.update(&stuck_input());
    while out.recovery_phase != Some(RecoveryPhase::Reverse) {
        out = bp.update(&stuck_input());
    }

    for i in 0..2 * cfg.recovery_exit_feasible_cycles {
        let out = bp.update(&default_input());
        assert_eq!(
            out.recovery_phase,
            Some(RecoveryPhase::Reverse),
            "committed reverse aborted by feasible cycle {} before any displacement",
            i + 1
        );
    }

    let reversed = BehaviorInput {
        robot_x: d(-(f(cfg.recovery_reverse_min_m) + 0.01)),
        ..default_input()
    };
    let mut out = bp.update(&reversed);
    for _ in 0..cfg.recovery_exit_feasible_cycles {
        out = bp.update(&reversed);
    }
    assert_eq!(
        out.state,
        DrivingState::Following,
        "after min reverse distance, consecutive feasible cycles must exit"
    );
}

#[test]
fn test_committed_reverse_ends_on_blocked_rear_or_movement() {
    let cfg = BehaviorConfig::default();
    let mut bp = BehaviorPlanner::new(cfg);
    enter_recovery(&mut bp);
    let mut out = bp.update(&stuck_input());
    while out.recovery_phase != Some(RecoveryPhase::Reverse) {
        out = bp.update(&stuck_input());
    }

    let blocked = BehaviorInput {
        rear_clear: false,
        ..stuck_input()
    };
    let out = bp.update(&blocked);
    assert_eq!(out.recovery_phase, Some(RecoveryPhase::ForwardRetry));

    let mut bp = BehaviorPlanner::new(BehaviorConfig::default());
    enter_recovery(&mut bp);
    let mut out = bp.update(&stuck_input());
    while out.recovery_phase != Some(RecoveryPhase::Reverse) {
        out = bp.update(&stuck_input());
    }
    let moved = BehaviorInput {
        robot_x: d(-0.35),
        ..stuck_input()
    };
    let out = bp.update(&moved);
    assert_eq!(out.state, DrivingState::Following);
}

#[test]
fn test_reverse_distance_gate_escalates_per_round_and_caps() {
    let cfg = BehaviorConfig::default();
    assert_eq!(cfg.recovery_max_attempts, 3, "test assumes 3 attempts");
    let mut bp = BehaviorPlanner::new(cfg.clone());
    enter_recovery(&mut bp);
    assert!((f(bp.reverse_target_m()) - 0.15).abs() < 1e-9);

    run_one_round(&mut bp, &stuck_input());
    assert!((f(bp.reverse_target_m()) - 0.30).abs() < 1e-9);
    run_one_round(&mut bp, &stuck_input());
    assert!((f(bp.reverse_target_m()) - 0.45).abs() < 1e-9);
    run_one_round(&mut bp, &stuck_input());
    assert!(
        (f(bp.reverse_target_m()) - f(cfg.recovery_reverse_max_m)).abs() < 1e-9,
        "gate must cap at recovery_reverse_max_m, got {}",
        f(bp.reverse_target_m())
    );
}

#[test]
fn test_committed_reverse_gate_uses_escalated_distance() {
    let cfg = BehaviorConfig::default();
    let mut bp = BehaviorPlanner::new(cfg.clone());
    enter_recovery(&mut bp);
    run_one_round(&mut bp, &stuck_input());
    assert!((f(bp.reverse_target_m()) - 0.30).abs() < 1e-9);

    let mut out = bp.update(&stuck_input());
    while out.recovery_phase != Some(RecoveryPhase::Reverse) {
        out = bp.update(&stuck_input());
    }

    let reversed = BehaviorInput {
        robot_x: d(-0.2),
        ..default_input()
    };
    for i in 0..2 * cfg.recovery_exit_feasible_cycles {
        let out = bp.update(&reversed);
        assert_eq!(
            out.recovery_phase,
            Some(RecoveryPhase::Reverse),
            "escalated committed reverse aborted by feasible cycle {} at only 0.2m",
            i + 1
        );
    }
}

#[test]
fn test_reverse_time_allowance_scales_with_escalated_distance() {
    let cfg = BehaviorConfig::default();
    let mut bp = BehaviorPlanner::new(cfg.clone());
    enter_recovery(&mut bp);
    run_one_round(&mut bp, &stuck_input());

    let mut out = bp.update(&stuck_input());
    while out.recovery_phase != Some(RecoveryPhase::Reverse) {
        out = bp.update(&stuck_input());
    }
    for _ in 0..35 {
        out = bp.update(&stuck_input());
        assert_eq!(
            out.recovery_phase,
            Some(RecoveryPhase::Reverse),
            "escalated round's reverse must outlast the flat 3s timeout"
        );
    }
    for _ in 0..7 {
        out = bp.update(&stuck_input());
    }
    assert_ne!(
        out.recovery_phase,
        Some(RecoveryPhase::Reverse),
        "reverse burst must end once the scaled allowance elapses"
    );
}

#[test]
fn test_attempts_persist_across_no_progress_exits() {
    let cfg = BehaviorConfig::default();
    assert_eq!(cfg.recovery_max_attempts, 3, "test assumes 3 attempts");
    let mut bp = BehaviorPlanner::new(cfg.clone());
    enter_recovery(&mut bp);

    let out = run_one_round(&mut bp, &stuck_input());
    assert_eq!(out.recovery_phase, Some(RecoveryPhase::ForwardRetry));

    for _ in 0..cfg.recovery_exit_feasible_cycles {
        bp.update(&default_input());
    }
    assert_eq!(bp.state(), DrivingState::Following);

    for _ in 0..cfg.stuck_cycles_before_recovery {
        bp.update(&stuck_input());
    }
    assert_eq!(bp.state(), DrivingState::Recovery);

    let out = run_one_round(&mut bp, &stuck_input());
    assert_eq!(out.recovery_phase, Some(RecoveryPhase::ForwardRetry));
    let out = run_one_round(&mut bp, &stuck_input());
    assert_eq!(
        out.recovery_phase,
        Some(RecoveryPhase::Hold),
        "attempt counter must persist across exits without net progress"
    );
}

#[test]
fn test_attempts_reset_on_net_displacement() {
    let cfg = BehaviorConfig::default();
    let mut bp = BehaviorPlanner::new(cfg.clone());
    enter_recovery(&mut bp);
    run_one_round(&mut bp, &stuck_input());

    let far = BehaviorInput {
        robot_x: d(f(cfg.recovery_progress_reset_m) + 0.2),
        ..default_input()
    };
    for _ in 0..cfg.recovery_exit_feasible_cycles + 1 {
        bp.update(&far);
    }
    assert_eq!(bp.state(), DrivingState::Following);

    let stuck_far = BehaviorInput {
        robot_x: d(f(cfg.recovery_progress_reset_m) + 0.2),
        ..stuck_input()
    };
    for _ in 0..cfg.stuck_cycles_before_recovery {
        bp.update(&stuck_far);
    }
    assert_eq!(bp.state(), DrivingState::Recovery);
    run_one_round(&mut bp, &stuck_far);
    let out = run_one_round(&mut bp, &stuck_far);
    assert_eq!(
        out.recovery_phase,
        Some(RecoveryPhase::ForwardRetry),
        "episode must have been cleared by net displacement"
    );
}

#[test]
fn test_attempts_reset_after_stable_following() {
    let cfg = BehaviorConfig::default();
    let mut bp = BehaviorPlanner::new(cfg.clone());
    enter_recovery(&mut bp);
    run_one_round(&mut bp, &stuck_input());

    for _ in 0..cfg.recovery_exit_feasible_cycles {
        bp.update(&default_input());
    }
    assert_eq!(bp.state(), DrivingState::Following);
    for _ in 0..51 {
        bp.update(&default_input());
    }

    for _ in 0..cfg.stuck_cycles_before_recovery {
        bp.update(&stuck_input());
    }
    assert_eq!(bp.state(), DrivingState::Recovery);
    run_one_round(&mut bp, &stuck_input());
    let out = run_one_round(&mut bp, &stuck_input());
    assert_eq!(
        out.recovery_phase,
        Some(RecoveryPhase::ForwardRetry),
        "episode must have been cleared by 5s of stable Following"
    );
}

#[test]
fn test_hold_retries_phase_a_periodically() {
    let cfg = BehaviorConfig::default();
    let mut bp = BehaviorPlanner::new(cfg.clone());
    enter_recovery(&mut bp);
    let mut out = run_one_round(&mut bp, &stuck_input());
    while out.recovery_phase != Some(RecoveryPhase::Hold) {
        out = run_one_round(&mut bp, &stuck_input());
    }

    let period_cycles = (f(cfg.hold_retry_period_s) / 0.1) as u32;
    let mut cycles = 0;
    loop {
        let out = bp.update(&stuck_input());
        cycles += 1;
        if out.recovery_phase == Some(RecoveryPhase::ForwardRetry) {
            assert!((f(out.desired_speed) - 0.1).abs() < 1e-9, "retry round crawls");
            break;
        }
        assert_eq!(out.recovery_phase, Some(RecoveryPhase::Hold));
        assert_eq!(f(out.desired_speed), 0.0);
        assert!(cycles <= period_cycles + 2, "hold retry never fired");
    }
    assert!(
        cycles >= period_cycles - 1,
        "hold retry fired after only {} cycles",
        cycles
    );

    let mut saw_reverse = false;
    let mut guard = 0;
    loop {
        let out = bp.update(&stuck_input());
        if out.recovery_phase == Some(RecoveryPhase::Reverse) {
            saw_reverse = true;
        }
        if out.recovery_phase == Some(RecoveryPhase::Hold) {
            break;
        }
        guard += 1;
        assert!(guard < 200, "retry round never returned to Hold");
    }
    assert!(
        saw_reverse,
        "clear-rear hold retry must attempt a reverse leg"
    );

    let mut cycles = 0;
    loop {
        let out = bp.update(&stuck_input());
        cycles += 1;
        if out.recovery_phase == Some(RecoveryPhase::ForwardRetry) {
            break;
        }
        assert!(cycles < period_cycles + 5, "second hold retry never fired");
    }
    let blocked = BehaviorInput {
        rear_clear: false,
        ..stuck_input()
    };
    let mut guard = 0;
    loop {
        let out = bp.update(&blocked);
        assert_ne!(
            out.recovery_phase,
            Some(RecoveryPhase::Reverse),
            "blocked-rear hold retry must not reverse"
        );
        if out.recovery_phase == Some(RecoveryPhase::Hold) {
            break;
        }
        guard += 1;
        assert!(guard < 40, "blocked-rear retry never returned to Hold");
    }
}

#[test]
fn test_behavior_config_validation() {
    assert!(BehaviorConfig::default().validate().is_ok());
    assert!(BehaviorConfig {
        stuck_cycles_before_recovery: 0,
        ..Default::default()
    }
    .validate()
    .is_err());
    assert!(BehaviorConfig {
        recovery_reverse_max_s: d(0.0),
        ..Default::default()
    }
    .validate()
    .is_err());
    assert!(BehaviorConfig {
        recovery_max_attempts: 0,
        ..Default::default()
    }
    .validate()
    .is_err());
    assert!(BehaviorConfig {
        recovery_reverse_min_m: d(0.0),
        ..Default::default()
    }
    .validate()
    .is_err());
    assert!(BehaviorConfig {
        recovery_reverse_max_m: d(0.1),
        ..Default::default()
    }
    .validate()
    .is_err());
    assert!(BehaviorConfig {
        recovery_reverse_max_m: d(f64::INFINITY),
        ..Default::default()
    }
    .validate()
    .is_err());
    assert!(BehaviorConfig {
        recovery_exit_feasible_cycles: 0,
        ..Default::default()
    }
    .validate()
    .is_err());
    assert!(BehaviorConfig {
        recovery_progress_reset_m: d(f64::NAN),
        ..Default::default()
    }
    .validate()
    .is_err());
    assert!(BehaviorConfig {
        hold_retry_period_s: d(-1.0),
        ..Default::default()
    }
    .validate()
    .is_err());
}

#[test]
fn test_nonpositive_goal_tolerance_falls_back_to_config() {
    let mut bp = BehaviorPlanner::new(BehaviorConfig::default());
    bp.set_goal(Goal {
        x: d(0.05),
        y: d(0.0),
        theta: d(0.0),
        tolerance: Some(d(0.0)),
        speed: None,
    });
    let out = bp.update(&default_input());
    assert_eq!(out.state, DrivingState::GoalReached);
}
