//! Series of cycles of the behaviour and of the arbitrator.
use planning::arbitrator::{Arbitrator, ArbitratorConfig};
use planning::behavior::{
    BehaviorConfig, BehaviorInput, BehaviorPlanner, DrivingState, Goal, RecoveryEpisode,
    RecoveryPhase, RecoveryStatus,
};
use planning::ieee::double::Double;
use planning::ieee::single::Single;
use planning::local_planner::VelocityCommand;

fn d(x: f64) -> Double {
    Double { bits: x.to_bits() }
}

fn f(x: Double) -> f64 {
    f64::from_bits(x.bits)
}

fn s(x: f32) -> Single {
    Single { bits: x.to_bits() }
}

fn free() -> BehaviorInput {
    BehaviorInput {
        robot_x: d(0.0),
        robot_y: d(0.0),
        robot_theta: d(0.0),
        localization_confidence: s(0.9),
        nearest_obstacle_distance: d(5.0),
        emergency_stop: false,
        dt: d(0.5),
        robot_speed: d(0.0),
        planner_infeasible: false,
        planner_feasible: true,
        rear_clear: true,
    }
}

fn stuck(rear_clear: bool) -> BehaviorInput {
    BehaviorInput { planner_infeasible: true, planner_feasible: false, rear_clear, ..free() }
}

fn following() -> BehaviorPlanner {
    let mut bp = BehaviorPlanner::new(BehaviorConfig::default());
    bp.set_goal(Goal { x: d(5.0), y: d(0.0), theta: d(0.0), tolerance: None, speed: None });
    bp.update(&free());
    bp
}

fn in_phase(phase: RecoveryPhase) -> BehaviorPlanner {
    let mut bp = following();
    let mut r = RecoveryStatus::new(d(0.0), d(0.0));
    r.phase = phase;
    if phase == RecoveryPhase::Reverse {
        r.reverse_start = Some((d(0.0), d(0.0)));
    }
    bp.recovery = Some(r);
    bp.episode = Some(RecoveryEpisode::new(d(0.0), d(0.0)));
    bp.state = DrivingState::Recovery;
    bp
}

fn phase(bp: &BehaviorPlanner) -> Option<RecoveryPhase> {
    bp.recovery.map(|r| r.phase)
}

#[test]
fn the_last_of_the_stuck_cycles_enters_a_recovery() {
    let mut bp = following();
    for _ in 0..19 {
        assert_ne!(bp.update(&stuck(true)).state, DrivingState::Recovery);
    }
    bp.update(&free());
    for k in 1..=20 {
        let out = bp.update(&stuck(true));
        assert_eq!(out.state == DrivingState::Recovery, k == 20, "cycle {k}");
        if k == 20 {
            assert_eq!(out.recovery_phase, Some(RecoveryPhase::ForwardRetry));
            assert_eq!(f(out.desired_speed), 0.1);
        }
    }
}

#[test]
fn a_reverse_is_not_entered_with_the_rear_blocked() {
    let mut bp = in_phase(RecoveryPhase::ForwardRetry);
    let mut seen = vec![];
    for _ in 0..18 {
        let out = bp.update(&stuck(false));
        assert_ne!(out.recovery_phase, Some(RecoveryPhase::Reverse));
        assert!(f(out.desired_speed) >= 0.0);
        seen.push((phase(&bp), bp.episode.map_or(0, |e| e.attempts)));
    }
    let retry = Some(RecoveryPhase::ForwardRetry);
    assert_eq!((seen[4], seen[5]), ((retry, 0), (retry, 1)));
    assert_eq!((seen[10], seen[11]), ((retry, 1), (retry, 2)));
    assert_eq!((seen[16], seen[17]), ((retry, 2), (Some(RecoveryPhase::Hold), 3)));
    assert!(bp.recovery.unwrap().abort_logged);
}

#[test]
fn a_forward_retry_gives_way_to_a_reverse_after_three_seconds() {
    let mut bp = in_phase(RecoveryPhase::ForwardRetry);
    for k in 1..=6 {
        bp.update(&stuck(true));
        let due = k == 6;
        assert_eq!(phase(&bp) == Some(RecoveryPhase::Reverse), due, "cycle {k}");
    }
    assert_eq!(bp.episode.unwrap().attempts, 0, "the round goes on");
    bp.update(&stuck(false));
    assert_eq!(phase(&bp), Some(RecoveryPhase::ForwardRetry));
    assert_eq!(bp.episode.unwrap().attempts, 1);
}

#[test]
fn a_reverse_lasts_until_its_time_is_up() {
    let mut bp = in_phase(RecoveryPhase::Reverse);
    assert_eq!(f(bp.reverse_time_allowance_s()), 3.0);
    for k in 1..=6 {
        let out = bp.update(&stuck(true));
        let wanted = if k < 6 { RecoveryPhase::Reverse } else { RecoveryPhase::ForwardRetry };
        assert_eq!(out.recovery_phase, Some(wanted), "cycle {k}");
    }
    assert_eq!(bp.episode.unwrap().attempts, 1);
}

#[test]
fn a_single_feasible_cycle_does_not_end_hold() {
    let mut bp = in_phase(RecoveryPhase::Hold);
    for k in 1..=20 {
        let input = if k % 3 == 0 { stuck(true) } else { free() };
        let out = bp.update(&input);
        assert_eq!(out.recovery_phase == Some(RecoveryPhase::Hold), k < 20, "cycle {k}");
    }
}

#[test]
fn one_cycle_of_the_recovery_alone() {
    let mut bp = in_phase(RecoveryPhase::ForwardRetry);
    bp.recovery = bp.recovery.map(|r| RecoveryStatus { phase_elapsed: d(2.5), ..r });
    let mut blocked = bp;
    bp.update_recovery(&stuck(true));
    blocked.update_recovery(&stuck(false));
    assert_eq!(phase(&bp), Some(RecoveryPhase::Reverse));
    assert_eq!(phase(&blocked), Some(RecoveryPhase::ForwardRetry));
    assert_eq!(blocked.episode.unwrap().attempts, 1);
    assert!(blocked.recovery.unwrap().reverse_start.is_none());
}

#[test]
fn feasible_cycles_in_a_row_end_a_recovery() {
    let mut bp = in_phase(RecoveryPhase::ForwardRetry);
    let hopeful = BehaviorInput { dt: d(0.1), ..free() };
    let barren = BehaviorInput { dt: d(0.1), ..stuck(true) };
    bp.update(&hopeful);
    bp.update(&hopeful);
    bp.update(&barren);
    for k in 1..=3 {
        let out = bp.update(&hopeful);
        assert_eq!(out.state == DrivingState::Recovery, k < 3, "cycle {k}");
    }
    assert_eq!(bp.state(), DrivingState::Following);
}

#[test]
fn a_committed_reverse_forgets_the_feasible_cycles() {
    let mut bp = in_phase(RecoveryPhase::Reverse);
    bp.recovery = bp.recovery.map(|r| RecoveryStatus { feasible_streak: 2, ..r });
    let out = bp.update(&BehaviorInput { dt: d(0.1), ..free() });
    assert_eq!(out.state, DrivingState::Recovery);
    assert_eq!(bp.recovery.unwrap().feasible_streak, 0);
    let mut done = in_phase(RecoveryPhase::Reverse);
    done.recovery = done.recovery.map(|r| RecoveryStatus { feasible_streak: 2, ..r });
    let back = BehaviorInput { robot_x: d(-0.2), dt: d(0.1), ..free() };
    assert_ne!(done.update(&back).state, DrivingState::Recovery, "15 cm have been driven");
}

#[test]
fn the_rounds_of_an_episode_outlast_its_recoveries() {
    let mut bp = in_phase(RecoveryPhase::Reverse);
    for n in 1..=3 {
        bp.update(&stuck(false));
        assert_eq!(bp.episode.unwrap().attempts, n);
        let wanted = if n < 3 { RecoveryPhase::ForwardRetry } else { RecoveryPhase::Hold };
        assert_eq!(phase(&bp), Some(wanted));
        let hopeful = BehaviorInput { dt: d(0.1), ..free() };
        for _ in 0..3 {
            bp.update(&hopeful);
        }
        assert!(bp.recovery.is_none());
        for _ in 0..20 {
            bp.update(&BehaviorInput { dt: d(0.01), ..stuck(true) });
        }
        assert_eq!(phase(&bp), Some(RecoveryPhase::ForwardRetry));
        bp.recovery = bp.recovery.map(|r| RecoveryStatus {
            phase: RecoveryPhase::Reverse,
            reverse_start: Some((d(0.0), d(0.0))),
            ..r
        });
    }
}

#[test]
fn hold_lasts_ten_seconds_and_is_never_final() {
    let mut bp = in_phase(RecoveryPhase::Hold);
    for k in 1..=20 {
        let out = bp.update(&stuck(false));
        let wanted = if k < 20 { RecoveryPhase::Hold } else { RecoveryPhase::ForwardRetry };
        assert_eq!(out.recovery_phase, Some(wanted), "cycle {k}");
    }
    assert!(bp.recovery.unwrap().hold_retry);
    for k in 1..=6 {
        let out = bp.update(&stuck(false));
        let wanted = if k < 6 { RecoveryPhase::ForwardRetry } else { RecoveryPhase::Hold };
        assert_eq!(out.recovery_phase, Some(wanted), "cycle {k}");
    }
    assert_eq!(f(bp.recovery.unwrap().hold_elapsed), 0.0);
    assert_eq!(bp.episode.unwrap().attempts, 0, "no round was closed");
}

fn command(v: f64) -> VelocityCommand {
    VelocityCommand { linear_x: d(v), angular_z: d(0.0), confidence: s(0.9) }
}

#[test]
fn a_speed_is_clamped_to_what_one_cycle_reaches() {
    for prev in [-2.0, -0.2, 0.0, 0.4, 2.1] {
        for target in [-9.0, -0.3, 0.0, 0.7, 2.0, 9.0] {
            let mut a = Arbitrator::new(ArbitratorConfig::default());
            a.prev_linear = d(prev);
            let (out, _) = a.apply_safety_envelope(&command(target), d(0.1));
            let (accel, decel) = (2.5 * 0.1, 3.0 * 0.1);
            let up = prev + if prev < 0.0 { decel } else { accel };
            let down = prev - if prev > 0.0 { decel } else { accel };
            let bounded = f64::clamp(target, -2.2, 2.2);
            assert_eq!(f(out.linear_x), bounded.clamp(down, up), "{target} from {prev}");
        }
    }
}

#[test]
fn the_latch_remembers_the_last_cycles() {
    let pattern = [0.9, 0.1, 0.9, 0.9, 0.9, 0.2, 0.3, 0.9, 0.9, 0.9, 0.9, 0.9, 0.29, 0.9];
    let mut a = Arbitrator::new(ArbitratorConfig::default());
    for n in 1..=pattern.len() {
        a.update_degraded(s(pattern[n - 1]));
        let low = pattern[n.saturating_sub(5)..n].iter().any(|c| *c < 0.3);
        assert_eq!(a.is_degraded(), low, "after {n} cycles");
    }
}
