//! Formulas and rules of the local planners on chosen values.
use planning::global_planner::{PathWaypoint, SegmentDir};
use planning::ieee::double::Double;
use planning::ieee::single::Single;
use planning::local_planner::arc::{
    check_spacing, cycle, reaction_distance, simulate_arc, simulate_committed_stop, speed_left,
    substeps_for, wedged_allowance, Stop,
};
use planning::local_planner::dwa::{
    cruise_fraction, find_local_goal, goal_reach, infeasible_stop, robot_footprint_radius,
    speed_scaled_radius, velocity_score, DwaConfig, DwaPlanner, Window,
};
use planning::local_planner::obstacle::prediction_uncertainty;
use planning::local_planner::pursuit::{
    blocked_log_permitted, curvature_scaled_lookahead, lookahead_distance, pinned, speed_step,
    BlockedPhase, PursuitConfig, PursuitDefer, PursuitPlanner,
};
use planning::local_planner::run::{active_run, active_segment_reverse, cusp_arrival};
use planning::local_planner::tracking_mpc::{
    kappa_offset, project, wrap, RefFrame, TrackingMpc, TrackingMpcConfig,
};
use planning::local_planner::{
    active_run_truncation_index, plan_reverse_escape, project_state, rear_corridor_clear,
    reverse_arc_blocker, Obstacle, RobotState,
};
use planning::trig::Circular;

fn d(x: f64) -> Double {
    Double { bits: x.to_bits() }
}

fn f(x: Double) -> f64 {
    f64::from_bits(x.bits)
}

fn g(x: Single) -> f32 {
    f32::from_bits(x.bits)
}

fn math(k: Circular, x: Double, y: Double) -> Double {
    let (x, y) = (f(x), f(y));
    d(match k {
        Circular::Sin => x.sin(),
        Circular::Cos => x.cos(),
        Circular::Tan => x.tan(),
        Circular::Asin => x.asin(),
        Circular::Atan => x.atan(),
        Circular::Atan2 => x.atan2(y),
    })
}

fn robot(x: f64, y: f64, theta: f64, v: f64, w: f64) -> RobotState {
    RobotState { x: d(x), y: d(y), theta: d(theta), linear_vel: d(v), angular_vel: d(w) }
}

fn at(x: f64, y: f64, dir: SegmentDir) -> PathWaypoint {
    PathWaypoint { x: d(x), y: d(y), theta: d(0.0), steering: d(0.0), dir }
}

const FWD: SegmentDir = SegmentDir::Forward;
const REV: SegmentDir = SegmentDir::Reverse;

#[test]
fn the_constants_of_the_rollouts() {
    assert_eq!(f(check_spacing()), 0.05);
    assert_eq!(f(reaction_distance()), 0.15);
    assert_eq!(f(cycle()), 0.1);
    assert_eq!(f(prediction_uncertainty()), 0.4);
    assert_eq!(f(robot_footprint_radius()), 0.19);
    assert_eq!(f(cusp_arrival()), 0.12);
}

#[test]
fn the_default_window_search_is_the_documented_one() {
    let c = DwaConfig::default();
    assert_eq!(f(c.max_speed), 2.2);
    assert_eq!(f(c.max_angular_speed), 4.5);
    assert_eq!(f(c.max_acceleration), 2.5);
    assert_eq!(f(c.max_deceleration), 3.0);
    assert_eq!(f(c.max_angular_accel), 8.0);
    assert_eq!((f(c.sim_time), f(c.sim_dt)), (1.5, 0.1));
    assert_eq!((c.v_samples, c.w_samples), (13, 15));
    assert_eq!(f(c.robot_radius), 0.24);
    assert_eq!(f(c.recovery_margin_scale), 0.8);
    assert_eq!(f(c.margin_low_speed_scale), 0.4);
    assert_eq!(f(c.moving_obstacle_margin_gain), 0.4);
    assert_eq!(f(c.high_speed_margin_gain), 0.06);
    assert_eq!(f(c.max_curvature), 2.0);
}

#[test]
fn the_required_radius_follows_the_speed() {
    let at = |v: f64| f(speed_scaled_radius(d(v), d(0.24), d(0.4), d(0.06)));
    assert_eq!(f(cruise_fraction(d(0.1))), 0.0);
    assert_eq!(f(cruise_fraction(d(-0.5))), 1.0);
    assert_eq!(at(0.0), 0.19 + (0.24 - 0.19) * 0.4);
    assert_eq!(at(0.5), 0.19 + (0.24 - 0.19) * (0.4 + (1.0 - 0.4) * 1.0));
    assert_eq!(at(-2.0), at(2.0));
    assert_eq!(at(2.0), 0.19 + (0.24 - 0.19) * (0.4 + (1.0 - 0.4) * 1.0) + 0.06 * (2.0 - 1.0));
    let mut before = 0.0;
    for k in 0..30 {
        let r = at(0.1 * f64::from(k));
        assert!(0.19 <= r && before <= r);
        before = r;
    }
    assert_eq!(f(speed_scaled_radius(d(0.5), d(0.1), d(0.4), d(0.06))), 0.19);
    let p = DwaPlanner::new(DwaConfig::default());
    assert_eq!(f(p.relaxed_radius()), 0.19 + (0.24 - 0.19) * 0.8);
}

#[test]
fn the_speed_score_falls_away_from_the_target() {
    assert_eq!(f(velocity_score(d(0.5), d(0.5), d(2.0))), 1.0);
    assert_eq!(f(velocity_score(d(1.0), d(0.5), d(2.0))), 1.0 - 0.5 / 2.0);
    assert_eq!(f(velocity_score(d(0.0), d(0.5), d(0.01))), 1.0 - 0.5 / 0.1);
    assert!(
        f(velocity_score(d(0.4), d(0.5), d(2.0))) > f(velocity_score(d(0.2), d(0.5), d(2.0)))
    );
}

#[test]
fn the_window_holds_what_a_cycle_can_reach() {
    let c = DwaConfig::default();
    let s = robot(0.0, 0.0, 0.0, 1.0, 0.0);
    let (lo, hi) = Window::speeds(c, s, d(2.0));
    assert_eq!((f(lo), f(hi)), (1.0 - 2.5 * 0.1, 1.0 + 2.5 * 0.1));
    let (lo, hi) = Window::speeds(c, s, d(0.2));
    assert_eq!((f(lo), f(hi)), (0.75, 0.75), "braking reaches no less");
    let (lo, hi) = Window::rates(c, s);
    assert_eq!((f(lo), f(hi)), (-0.8, 0.8));
    let w = Window::of(c, s, d(2.0));
    assert_eq!(f(w.v(0)), 0.75);
    assert!((f(w.v(12)) - 1.25).abs() < 1e-12);
}

#[test]
fn the_local_goal_lies_ahead_by_the_speed() {
    assert_eq!(f(goal_reach(robot(0.0, 0.0, 0.0, 0.0, 0.0))), 1.0);
    assert_eq!(f(goal_reach(robot(0.0, 0.0, 0.0, 1.5, 0.0))), 1.3 * 1.5);
    assert_eq!(f(goal_reach(robot(0.0, 0.0, 0.0, -9.0, 0.0))), 3.0);
    let path = [at(0.5, 0.0, FWD), at(1.0, 0.0, FWD), at(1.5, 0.0, FWD)];
    let s = robot(0.0, 0.0, 0.0, 0.0, 0.0);
    assert_eq!(f(find_local_goal(&s, &path).x), 1.0);
    assert_eq!(f(find_local_goal(&s, &path[..1]).x), 0.5);
    assert_eq!(f(find_local_goal(&robot(7.0, 0.0, 0.0, 0.0, 0.0), &[]).x), 7.0);
}

#[test]
fn a_blocked_window_is_a_stop_of_low_confidence() {
    let c = infeasible_stop();
    assert_eq!((f(c.linear_x), f(c.angular_z), g(c.confidence)), (0.0, 0.0, 0.1));
    let mut p = DwaPlanner::new(DwaConfig::default());
    let s = robot(0.0, 0.0, 0.0, 0.0, 0.0);
    let path = [at(3.0, 0.0, FWD)];
    let wall: Vec<Obstacle> =
        (-8..=8).map(|k| Obstacle::point(d(0.15), d(0.1 * f64::from(k)))).collect();
    let r = p.compute(&math, &s, &path, &wall, d(0.5));
    assert_eq!((f(r.linear_x), g(r.confidence)), (0.0, 0.1));
    let r = p.compute(&math, &s, &path, &[], d(0.5));
    assert!(f(r.linear_x) > 0.0);
    assert_eq!(p.prev_cmd_v.map(f), Some(f(r.linear_x)));
    p.note_external_command(d(0.3));
    assert_eq!(p.prev_cmd_v.map(f), Some(0.3));
}

#[test]
fn a_stop_takes_its_braking_distance() {
    let s = Stop::plan(d(2.0), d(0.0), d(2.0), d(0.15));
    assert_eq!(s.n, 23);
    assert_eq!(f(s.ds), (2.0 * 2.0 / (2.0 * 2.0) + 0.15) / 23.0);
    assert_eq!(f(speed_left(d(2.0), d(2.0), d(0.5))), (4.0f64 - 2.0 * 2.0 * 0.5).sqrt());
    assert_eq!(f(speed_left(d(2.0), d(2.0), d(5.0))), 0.0);
    assert_eq!(substeps_for(d(1.0), d(0.1)), 2);
    assert_eq!(substeps_for(d(0.0), d(0.1)), 1);
}

#[test]
fn an_arc_is_rolled_out_past_each_obstacle() {
    let c = DwaConfig::default();
    let s = robot(0.0, 0.0, 0.0, 0.5, 0.0);
    let obs = [Obstacle::point(d(5.0), d(0.0)), Obstacle::point(d(0.0), d(1.0))];
    let r = simulate_arc(&math, &c, &s, d(0.5), d(0.0), &obs);
    assert!((f(r.end_x) - 0.75).abs() < 1e-9 && f(r.end_y) == 0.0);
    assert!((f(r.min_obstacle_dist) - 1.0).abs() < 0.01);
    let stop = 0.5 * 0.5 / 6.0 + 0.15;
    assert!((f(r.per_obstacle_min[0]) - (5.0 - 0.75 - stop)).abs() < 1e-9);
    assert!((f(r.per_obstacle_braking_min[0]) - (5.0 - 0.75 - stop)).abs() < 1e-9);
    assert!(f(r.braking_min_dist) <= f(r.per_obstacle_braking_min[1]));
    let still = simulate_arc(&math, &c, &s, d(0.0), d(0.0), &obs);
    assert_eq!(f(still.braking_min_dist), f64::INFINITY);
}

#[test]
fn a_committed_stop_holds_four_cycles_and_brakes() {
    let c = DwaConfig::default();
    let s = robot(0.0, 0.0, 0.0, 1.2, 0.0);
    let obs = [Obstacle::point(d(5.0), d(0.0))];
    let r = simulate_committed_stop(&math, &c, &s, d(1.2), d(0.0), &obs);
    let travelled = 1.2 * 0.4 + 1.2 * 1.2 / 6.0;
    assert!((f(r[0]) - (5.0 - travelled)).abs() < 1e-9, "got {}", f(r[0]));
}

#[test]
fn what_is_already_close_may_be_left() {
    let s = robot(0.0, 0.0, 0.0, 0.0, 0.0);
    let o = Obstacle::point(d(0.15), d(0.0));
    assert_eq!(f(wedged_allowance(&math, &s, &o, d(0.24), d(0.4))), 0.15);
    let far = Obstacle::point(d(2.0), d(0.0));
    assert_eq!(f(wedged_allowance(&math, &s, &far, d(0.24), d(0.4))), 0.24);
}

#[test]
fn an_obstacle_moves_and_grows() {
    let mut o = Obstacle::point(d(1.0), d(0.0));
    o.radius = d(0.2);
    o.vx = d(3.0);
    o.vy = d(4.0);
    assert_eq!(f(o.speed()), 5.0);
    let (x, y) = o.position_at(d(0.5));
    assert_eq!((f(x), f(y)), (2.5, 2.0));
    assert_eq!(f(o.growth(d(0.5))), 0.4 * 5.0 * 0.5);
    let far = ((2.5f64).powi(2) + (2.0f64).powi(2)).sqrt() - (0.2 + 0.4 * 5.0 * 0.5);
    assert_eq!(f(o.net_distance_at(&math, d(0.0), d(0.0), d(0.5))), far);
    assert_eq!(f(o.net_clearance(&math, d(0.4), d(0.0), d(0.0), d(0.5))), far - 0.4 * 5.0);
    let p = pinned(o);
    assert_eq!((f(p.vx), f(p.vy), f(p.x), f(p.radius)), (0.0, 0.0, 1.0, 0.2));
    let b = Obstacle::boxed(d(0.0), d(0.0), d(3.0), d(4.0), d(0.0));
    assert_eq!(f(b.radius), 5.0);
    assert_eq!(f(b.net_distance_at(&math, d(6.0), d(8.0), d(0.0))), 5.0);
    assert_eq!(f(b.net_distance_at(&math, d(1.0), d(0.0), d(0.0))), -2.0);
}

#[test]
fn a_state_is_projected_along_its_twist() {
    let s = robot(1.0, 2.0, 0.0, 0.5, 0.0);
    let p = project_state(&math, &s, d(0.2));
    assert_eq!((f(p.x), f(p.y), f(p.theta)), (1.0 + 0.5 * 0.2, 2.0, 0.0));
    let s = robot(0.0, 0.0, 0.0, 1.0, 1.0);
    let p = project_state(&math, &s, d(0.5));
    assert_eq!((f(p.x), f(p.theta)), (0.5f64.sin(), 0.5));
    assert!((f(p.y) - (1.0 - 0.5f64.cos())).abs() < 1e-15);
    assert_eq!((f(p.linear_vel), f(p.angular_vel)), (1.0, 1.0));
    let same = project_state(&math, &s, d(0.0));
    assert_eq!((f(same.x), f(same.y), f(same.theta)), (0.0, 0.0, 0.0));
}

#[test]
fn the_lookahead_is_bounded_and_shortened_by_bends() {
    let c = PursuitConfig::default();
    assert_eq!(f(lookahead_distance(d(0.0), &c)), 0.6);
    assert_eq!(f(lookahead_distance(d(-1.2), &c)), 1.2);
    assert_eq!(f(lookahead_distance(d(9.0), &c)), 2.5);
    let l = |k: f64, gain: f64| f(curvature_scaled_lookahead(d(2.0), d(k), d(gain), d(0.6)));
    assert_eq!(l(1.0, 0.5), 2.0 / (1.0 + 0.5 * 1.0 * 2.0));
    assert_eq!(l(-1.0, 0.5), l(1.0, 0.5));
    assert_eq!(l(3.0, 0.0), 2.0);
    assert_eq!(l(50.0, 1.0), 0.6);
    assert!(l(2.0, 0.5) <= l(1.0, 0.5));
}

fn pursuit() -> PursuitPlanner {
    PursuitPlanner::new(PursuitConfig::default(), DwaConfig::default(), d(0.2))
}

#[test]
fn a_stop_ramp_brakes_straight_on() {
    let p = pursuit();
    let r = p.stop_ramp(d(-1.0));
    assert_eq!(f(r.command.linear_x), -(1.0 - 3.0 * 0.1));
    assert_eq!(f(r.command.angular_z), 0.0);
    assert_eq!(g(r.command.confidence), 0.9);
    assert!(r.maneuver);
    assert_eq!(f(p.stop_ramp(d(0.2)).command.linear_x), 0.0);
}

#[test]
fn the_speeds_of_a_leg() {
    let p = pursuit();
    assert_eq!(f(p.leg_speed(d(9.0), FWD)), 2.2);
    assert_eq!(f(p.leg_speed(d(1.0), REV)), 0.4);
    assert_eq!(f(p.leg_speed(d(0.3), REV)), 0.3);
    assert_eq!(f(p.bounded(d(2.0), d(0.5), d(9.0))), (2.0f64 / 0.5).sqrt());
    assert_eq!(f(p.bounded(d(2.0), d(0.0), d(1.5))), 1.5);
    assert_eq!(f(p.bounded(d(2.0), d(1e6), d(9.0))), 0.2);
    assert_eq!(f(p.stop_speed(d(0.56))), (2.0 * 3.0 * (0.56 - 0.5 * 0.12f64)).sqrt());
    assert_eq!(f(p.stop_speed(d(0.01))), 0.0);
    let (lo, hi) = p.reach(d(1.0));
    assert_eq!((f(lo), f(hi)), (1.0 - 3.0 * 0.1, 1.0 + 2.5 * 0.1));
    let (lo, hi) = p.reach(d(2.2));
    assert_eq!((f(lo), f(hi)), (2.2 - 3.0 * 0.1, 2.2));
    assert_eq!(f(p.prev_travel(REV, d(-0.3))), 0.3);
    assert_eq!(f(p.prev_travel(FWD, d(-0.3))), 0.0);
    assert_eq!(f(p.bend_horizon(d(1.0))), 3.0);
    assert_eq!(f(p.bend_horizon(d(6.0))), 36.0 / 6.0 + 0.5);
    let steps: Vec<f64> = (0..5).map(|i| f(speed_step(d(2.0), i))).collect();
    assert_eq!(steps, vec![2.0, 1.6, 1.2, 0.8, 0.1]);
}

#[test]
fn a_bend_can_be_met_from_the_speed_it_allows() {
    let p = pursuit();
    let limit = (2.0f64 / 2.0).sqrt();
    assert_eq!(
        f(p.bend_speed(d(2.0), d(1.0), d(2.2), d(1.0))),
        (limit * limit + 2.0 * 3.0 * (1.0 - 1.0 * 0.1)).sqrt()
    );
    assert_eq!(f(p.bend_speed(d(2.0), d(0.0), d(2.2), d(1.0))), 1.0);
}

#[test]
fn a_refused_arc_is_reported_twice_a_second() {
    assert!(blocked_log_permitted(1500, 1000));
    assert!(!blocked_log_permitted(1499, 1000));
    assert!(!blocked_log_permitted(500, 1000));
}

#[test]
fn the_reasons_have_names() {
    let reasons = [
        (PursuitDefer::Blocked(None), "Blocked"),
        (PursuitDefer::TargetBehind, "TargetBehind"),
        (PursuitDefer::PathExhausted, "PathExhausted"),
        (PursuitDefer::NoPath, "NoPath"),
        (PursuitDefer::StopRequested, "StopRequested"),
        (PursuitDefer::ReverseRampOut, "ReverseRampOut"),
    ];
    for (r, name) in reasons {
        assert_eq!(r.as_str(), name);
    }
    assert_eq!(BlockedPhase::Horizon.as_str(), "horizon");
    assert_eq!(BlockedPhase::BrakingExt.as_str(), "braking-ext");
    assert_eq!(BlockedPhase::CommittedStop.as_str(), "committed-stop");
}

#[test]
fn each_reason_of_the_pursuit_has_its_cause() {
    let p = pursuit();
    let s = robot(0.0, 0.0, 0.0, 0.0, 0.0);
    let ahead = [at(0.0, 0.0, FWD), at(1.0, 0.0, FWD), at(3.0, 0.0, FWD)];
    let why = |path: &[PathWaypoint], obs: &[Obstacle], v: f64| {
        p.compute(&math, &s, path, obs, d(v), d(0.0)).err().map(|e| e.as_str())
    };
    assert_eq!(why(&[], &[], 0.5), Some("NoPath"));
    assert_eq!(why(&ahead, &[], 0.0), Some("StopRequested"));
    assert_eq!(why(&[at(0.1, 0.0, FWD)], &[], 0.5), Some("PathExhausted"));
    assert_eq!(why(&[at(-1.0, 0.0, FWD), at(-3.0, 0.0, FWD)], &[], 0.5), Some("TargetBehind"));
    assert_eq!(why(&ahead, &[Obstacle::point(d(0.3), d(0.0))], 0.5), Some("Blocked"));
    assert_eq!(why(&ahead, &[], 0.5), None);
}

#[test]
fn runs_and_their_ends() {
    let path = [at(0.0, 0.0, FWD), at(1.0, 0.0, FWD), at(0.5, 0.0, REV), at(0.0, 0.0, REV)];
    assert_eq!(active_run(&path), (1, FWD));
    assert!(!active_segment_reverse(&path));
    assert!(active_segment_reverse(&path[1..]));
    assert_eq!(active_run_truncation_index(&path, d(0.2), d(0.0)), 0);
    assert_eq!(active_run_truncation_index(&path, d(0.9), d(0.0)), 1);
}

#[test]
fn the_way_back_is_checked() {
    let s = robot(0.0, 0.0, 0.0, 0.0, 0.0);
    let behind = [Obstacle::point(d(-0.6), d(0.0)), Obstacle::point(d(-0.7), d(0.0))];
    let b = reverse_arc_blocker(&math, &s, &behind, d(0.2), d(0.05), d(0.4), d(0.5), d(0.0));
    let b = b.unwrap();
    assert_eq!((f(b.x), f(b.y)), (-0.6, 0.0));
    assert!((f(b.surface_dist) - 0.1).abs() < 1e-9);
    assert!(!rear_corridor_clear(&math, &s, &behind, d(0.2), d(0.05), d(0.4), d(0.5)));
    assert!(rear_corridor_clear(&math, &s, &behind, d(0.2), d(0.05), d(0.4), d(0.0)));
    let close_ahead = [Obstacle::point(d(0.1), d(0.0))];
    assert!(rear_corridor_clear(&math, &s, &close_ahead, d(0.2), d(0.05), d(0.4), d(0.5)));
}

#[test]
fn an_escape_turns_the_nose_away() {
    let s = robot(0.0, 0.0, 0.0, 0.0, 0.0);
    let left = [Obstacle::point(d(0.4), d(0.1))];
    let out = |o: &[Obstacle]| {
        plan_reverse_escape(&math, &s, o, d(0.2), d(0.05), d(0.4), d(0.3), d(0.1), d(2.0))
    };
    let c = out(&left).unwrap();
    assert_eq!((f(c.linear_x), f(c.angular_z), g(c.confidence)), (-0.1, -0.2, 0.9));
    let right = [Obstacle::point(d(0.4), d(-0.1))];
    assert_eq!(f(out(&right).unwrap().angular_z), 0.2);
    assert_eq!(f(out(&[]).unwrap().angular_z), 0.0);
    let boxed_in: Vec<Obstacle> =
        (-6..=6).map(|k| Obstacle::point(d(-0.3), d(0.1 * f64::from(k)))).collect();
    assert!(out(&boxed_in).is_err());
}

#[test]
fn a_point_is_projected_onto_a_run() {
    let run = [at(0.0, 0.0, FWD), at(2.0, 0.0, FWD), at(2.0, 3.0, FWD)];
    let p = project(&math, &run, d(0.5), d(0.25)).unwrap();
    assert_eq!((f(p.e_lat), f(p.tangent), f(p.s_remaining)), (0.25, 0.0, 1.5 + 3.0));
    let p = project(&math, &run, d(2.5), d(1.0)).unwrap();
    assert_eq!((f(p.e_lat), f(p.s_remaining)), (-0.5, 2.0));
    assert!(project(&math, &run[..1], d(0.0), d(0.0)).is_none());
}

#[test]
fn a_reference_brakes_before_its_end_and_its_bends() {
    let t = TrackingMpc::new(TrackingMpcConfig::default(), DwaConfig::default());
    let run: Vec<PathWaypoint> = (0..=40).map(|i| at(0.1 * f64::from(i), 0.0, FWD)).collect();
    let frame = RefFrame::build(t.reference(&run, d(2.0), true)).unwrap();
    let decel = 0.7 * 3.0;
    assert_eq!(f(frame.cap_at(d(9.0))), 0.0);
    for w in 0..40 {
        let (a, b) = (f(frame.v_cap[w]), f(frame.v_cap[w + 1]));
        assert!(a <= 2.0);
        assert!(a * a <= b * b + 2.0 * decel * 0.1 + 1e-9);
    }
    let on = RefFrame::build(t.reference(&run, d(2.0), false)).unwrap();
    assert_eq!(f(on.cap_at(d(4.0))), 2.0);
    let bend = [at(0.0, 0.0, FWD), at(1.0, 0.0, FWD), at(1.0, 1.0, FWD)];
    let frame = RefFrame::build(t.reference(&bend, d(2.0), false)).unwrap();
    let k = 2.0 * 1.0 / (1.0 * 1.0 * 2.0f64.sqrt());
    assert_eq!(f(frame.v_cap[1]), (1.5f64 / k).sqrt());
    assert!(RefFrame::build(t.reference(&bend[..1], d(2.0), false)).is_none());
}

#[test]
fn candidates_spread_around_the_feedback() {
    let offsets: Vec<f64> = (0..7).map(|i| f(kappa_offset(i))).collect();
    assert_eq!(offsets, vec![-0.5, -0.25, -0.1, 0.0, 0.1, 0.25, 0.5]);
    let t = TrackingMpc::new(TrackingMpcConfig::default(), DwaConfig::default());
    assert_eq!(t.phase1(), 4);
    assert_eq!(f(wrap(d(0.0))), 0.0);
}

#[test]
fn the_speed_of_a_step_can_be_driven() {
    let t = TrackingMpc::new(TrackingMpcConfig::default(), DwaConfig::default());
    let run = [at(0.0, 0.0, FWD), at(5.0, 0.0, FWD)];
    let r = t.reference(&run, d(2.0), true);
    let c = t.candidate(robot(0.0, 0.0, 0.0, 1.0, 0.0), &[], r, d(0.8), d(0.1), 10);
    assert_eq!((f(c.v0), f(c.kappa1), f(c.accel)), (1.0, 0.1, 0.0));
    let next = |v: f64, a: f64, vr: f64| f(c.next_speed(d(v), d(a), d(vr)));
    assert_eq!(next(1.0, 2.5, 2.0), 1.0 + 2.5 * 0.1);
    assert_eq!(next(1.0, 2.5, 0.5), 1.0 - 3.0 * 0.1);
    assert_eq!(next(1.0, 2.5, 0.8), 0.8);
    assert_eq!(next(0.1, -3.0, 2.0), 0.0);
    assert!(c.dawdles(d(1.0), d(0.9), d(0.5)));
    assert!(!c.dawdles(d(1.0), d(0.7), d(0.5)));
    assert!(!c.dawdles(d(1.0), d(0.9), d(0.9)));
    assert_eq!(
        f(c.price(d(0.5), d(0.2), d(0.1), d(0.3))),
        6.0 * 0.5 * 0.5 + 1.5 * 0.2 * 0.2 + 1.0 * 0.1 * 0.1 + 0.6 * 0.3 * 0.3
    );
}

#[test]
fn the_tracking_declines_without_a_trace() {
    let mut t = TrackingMpc::new(TrackingMpcConfig::default(), DwaConfig::default());
    t.prev_kappa1 = Some(d(0.5));
    let run = [at(0.0, 0.0, FWD), at(5.0, 0.0, FWD)];
    let s = robot(0.0, 0.0, 0.0, -0.2, 0.0);
    assert!(t.compute(&math, &s, &run, &[], d(1.0), d(0.0), true).is_none());
    assert_eq!(t.prev_kappa1.map(f), Some(0.5));
    let near = robot(4.8, 0.0, 0.0, 0.2, 0.0);
    assert!(t.compute(&math, &near, &run, &[], d(1.0), d(0.0), true).is_none());
    assert_eq!(t.prev_kappa1.map(f), Some(0.5));
    let s = robot(0.0, 0.0, 0.0, 0.2, 0.0);
    let wall: Vec<Obstacle> =
        (-9..=9).map(|k| Obstacle::point(d(0.3), d(0.1 * f64::from(k)))).collect();
    assert!(t.compute(&math, &s, &run, &wall, d(1.0), d(0.2), true).is_none());
    assert!(t.prev_kappa1.is_none(), "a blocked cycle forgets the curvature");
    let (c, poses) = t.compute(&math, &s, &run, &[], d(1.0), d(0.2), true).unwrap();
    assert_eq!(poses.len(), 14);
    assert!(f(c.linear_x) <= 0.2 + 2.5 * 0.1);
    assert_eq!(g(c.confidence), 0.9);
    assert!(t.prev_kappa1.is_some());
}
