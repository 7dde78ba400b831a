//! The local planner as a whole, and the optimiser, on chosen cycles.
use planning::global_planner::{PathWaypoint, SegmentDir};
use planning::ieee::double::Double;
use planning::ieee::single::Single;
use planning::local_planner::mpc::{ControlInput, MpcConfig, SimpleMpc};
use planning::local_planner::{
    Executor, LocalPlanner, LocalPlannerConfig, Obstacle, RobotState, VelocityCommand,
};
use planning::trig::Circular;

fn d(x: f64) -> Double {
    Double { bits: x.to_bits() }
}

fn f(x: Double) -> f64 {
    f64::from_bits(x.bits)
}

fn g(x: Single) -> f32 {
    f32::from_bits(x.bits)
}

fn math(k: Circular, x: Double, y: Double) -> Double {
    let (x, y) = (f(x), f(y));
    d(match k {
        Circular::Sin => x.sin(),
        Circular::Cos => x.cos(),
        Circular::Tan => x.tan(),
        Circular::Asin => x.asin(),
        Circular::Atan => x.atan(),
        Circular::Atan2 => x.atan2(y),
    })
}

fn robot(x: f64, v: f64) -> RobotState {
    RobotState { x: d(x), y: d(0.0), theta: d(0.0), linear_vel: d(v), angular_vel: d(0.0) }
}

fn line(n: i32, step: f64, dir: SegmentDir) -> Vec<PathWaypoint> {
    (0..=n)
        .map(|i| PathWaypoint {
            x: d(step * f64::from(i)),
            y: d(0.0),
            theta: d(0.0),
            steering: d(0.0),
            dir,
        })
        .collect()
}

#[test]
fn without_a_path_the_robot_stops_in_full_confidence() {
    let mut p = LocalPlanner::new(LocalPlannerConfig::default());
    let (plan, why) = p.compute_with_defer(&math, &robot(0.0, 0.5), &[], &[], d(0.5));
    assert_eq!((f(plan.command.linear_x), f(plan.command.angular_z)), (0.0, 0.0));
    assert_eq!(g(plan.command.confidence), 1.0);
    assert!(plan.trajectory.is_empty());
    assert!(why.is_none());
    assert_eq!(p.prev_cmd_v.map(f), Some(0.0));
}

#[test]
fn the_last_speed_is_remembered_whoever_gave_it() {
    let mut p = LocalPlanner::new(LocalPlannerConfig::default());
    let path = line(40, 0.1, SegmentDir::Forward);
    for obs in [vec![], vec![Obstacle::point(d(0.4), d(0.0))]] {
        let (plan, _) = p.compute_with_defer(&math, &robot(0.0, 0.2), &path, &obs, d(0.5));
        assert_eq!(p.prev_cmd_v.map(f), Some(f(plan.command.linear_x)));
    }
    p.compute_with_defer(&math, &robot(0.0, 0.2), &[], &[], d(0.5));
    assert_eq!(p.prev_cmd_v.map(f), Some(0.0));
}

#[test]
fn a_clear_run_is_tracked_and_its_trajectory_is_finite() {
    let mut p = LocalPlanner::new(LocalPlannerConfig::default());
    let path = line(40, 0.1, SegmentDir::Forward);
    let (plan, why) = p.compute_with_defer(&math, &robot(0.0, 0.5), &path, &[], d(1.0));
    assert_eq!(plan.executor, Executor::Mpc);
    assert!(why.is_none());
    assert!(!plan.trajectory.is_empty());
    for q in &plan.trajectory {
        assert!(f(q.x).is_finite() && f(q.y).is_finite() && f(q.theta).is_finite());
    }
}

#[test]
fn in_reverse_only_the_pursuit_drives() {
    let mut p = LocalPlanner::new(LocalPlannerConfig::default());
    let path = line(20, -0.1, SegmentDir::Reverse);
    let (plan, why) = p.compute_with_defer(&math, &robot(0.0, 0.0), &path, &[], d(0.3));
    assert_eq!(plan.executor, Executor::Pursuit);
    assert!(f(plan.command.linear_x) < 0.0);
    assert!(plan.planned_maneuver && why.is_none());
    let wall: Vec<Obstacle> = (-5..=5)
        .map(|k| Obstacle::point(d(-0.35), d(0.1 * f64::from(k))))
        .collect();
    let mut p = LocalPlanner::new(LocalPlannerConfig::default());
    let (plan, why) = p.compute_with_defer(&math, &robot(0.0, 0.0), &path, &wall, d(0.3));
    assert_eq!(plan.executor, Executor::Pursuit);
    assert_eq!((f(plan.command.linear_x), g(plan.command.confidence)), (0.0, 0.1));
    assert_eq!(why.map(|w| w.as_str()), Some("Blocked"));
    assert!(!plan.planned_maneuver);
}

#[test]
fn a_reason_is_given_where_the_pursuit_is_passed_over() {
    let mut p = LocalPlanner::new(LocalPlannerConfig::default());
    let path = line(40, 0.1, SegmentDir::Forward);
    let obs = [Obstacle::point(d(0.35), d(0.0))];
    let (plan, why) = p.compute_with_defer(&math, &robot(0.0, 0.0), &path, &obs, d(0.5));
    assert_eq!(plan.executor != Executor::Pursuit, why.is_some());
    assert_eq!(why.map(|w| w.as_str()), Some("Blocked"));
}

#[test]
fn the_executors_have_names() {
    assert_eq!(Executor::Pursuit.as_str(), "pursuit");
    assert_eq!(Executor::Dwa.as_str(), "dwa");
    assert_eq!(Executor::Mpc.as_str(), "mpc");
    assert_eq!(Executor::Scripted.as_str(), "scripted");
}

#[test]
fn a_scripted_command_is_rolled_out() {
    let mut p = LocalPlanner::new(LocalPlannerConfig::default());
    let c = VelocityCommand {
        linear_x: d(-0.1),
        angular_z: d(0.0),
        confidence: Single { bits: 0.9f32.to_bits() },
    };
    let plan = p.scripted_plan(&math, &robot(0.0, 0.0), c);
    assert_eq!(f(plan.command.linear_x), -0.1);
    let last = &plan.trajectory[plan.trajectory.len() - 1];
    assert!((f(last.x) + 0.1 * 1.5).abs() < 1e-9);
    assert_eq!(plan.executor, Executor::Scripted);
    assert_eq!(p.prev_cmd_v.map(f), Some(-0.1));
}

#[test]
fn the_optimiser_keeps_its_limits_and_goes_on_from_its_last_solution() {
    let c = MpcConfig::default();
    let mut m = SimpleMpc::new(c);
    assert_eq!(m.noise, 12345);
    assert_eq!(m.prev_controls.len(), 5);
    let path = line(30, 0.1, SegmentDir::Forward);
    for _ in 0..20 {
        let r = m.compute(&math, &robot(0.0, 0.3), &path, &[], d(0.4));
        assert!((0.0..=0.4).contains(&f(r.linear_x)));
        assert!(f(r.angular_z).abs() <= 1.5);
        assert!((0.1..=1.0).contains(&g(r.confidence)));
        for k in &m.prev_controls {
            assert!((0.0..=0.4).contains(&f(k.velocity)));
            assert!(f(k.steering).abs() <= 0.48);
        }
    }
    assert!(f(m.prev_controls[0].velocity) > 0.0);
}

#[test]
fn a_search_never_ends_worse_than_it_began() {
    let c = MpcConfig::default();
    let mut m = SimpleMpc::new(c);
    let path = line(30, 0.1, SegmentDir::Forward);
    let s = robot(0.0, 0.3);
    let refs = c.find_reference_points(&s, &path);
    for _ in 0..10 {
        let mut start: Vec<ControlInput> = m.prev_controls[1..].to_vec();
        start.push(m.prev_controls[m.prev_controls.len() - 1]);
        let before = f(c.evaluate_cost(&math, &s, &start, &refs, &[]));
        m.compute(&math, &s, &path, &[], d(0.4));
        assert!(f(c.evaluate_cost(&math, &s, &m.prev_controls, &refs, &[])) <= before);
    }
}

#[test]
fn the_costs_of_the_optimiser() {
    let c = MpcConfig::default();
    assert_eq!(f(c.stride()), 0.5 * 1.0 * 0.2);
    let near = Obstacle::point(d(0.3), d(0.0));
    assert_eq!(f(c.obstacle_cost(d(1.0), d(0.0), d(0.0), near)), 1.0 + 10.0 / (0.3 + 0.01));
    let far = Obstacle::point(d(0.4), d(0.0));
    assert_eq!(f(c.obstacle_cost(d(1.0), d(0.0), d(0.0), far)), 1.0);
    let k = ControlInput { velocity: d(0.5), steering: d(0.2) };
    assert_eq!(f(c.control_cost(d(1.0), k, true, d(0.1))), 1.0 + 3.0 * (0.2f64 - 0.1).powi(2));
    assert_eq!(
        f(c.control_cost(d(1.0), k, false, d(0.2))),
        1.0 + 1.0 * 0.5f64.powi(2)
    );
    let refs = c.find_reference_points(&robot(0.0, 0.0), &line(30, 0.08, SegmentDir::Forward));
    let along: Vec<f64> = refs.iter().map(|w| f(w.x)).collect();
    assert_eq!(along.len(), 5);
    assert!(along.windows(2).all(|w| w[0] <= w[1]));
}
