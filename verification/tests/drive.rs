//! Bounds on what the local planners command, on chosen cycles.
use planning::global_planner::{PathWaypoint, SegmentDir};
use planning::ieee::double::Double;
use planning::ieee::single::Single;
use planning::local_planner::dwa::{speed_scaled_radius, DwaConfig, DwaPlanner};
use planning::local_planner::pursuit::{report_blocked, PursuitConfig, PursuitPlanner};
use planning::local_planner::{LocalPlanner, LocalPlannerConfig, Obstacle, RobotState};
use planning::trig::Circular;

fn d(x: f64) -> Double {
    Double { bits: x.to_bits() }
}

fn f(x: Double) -> f64 {
    f64::from_bits(x.bits)
}

fn g(x: Single) -> f32 {
    f32::from_bits(x.bits)
}

fn math(k: Circular, x: Double, y: Double) -> Double {
    let (x, y) = (f(x), f(y));
    d(match k {
        Circular::Sin => x.sin(),
        Circular::Cos => x.cos(),
        Circular::Tan => x.tan(),
        Circular::Asin => x.asin(),
        Circular::Atan => x.atan(),
        Circular::Atan2 => x.atan2(y),
    })
}

fn robot(v: f64, w: f64) -> RobotState {
    RobotState { x: d(0.0), y: d(0.0), theta: d(0.0), linear_vel: d(v), angular_vel: d(w) }
}

fn at(x: f64, y: f64, dir: SegmentDir) -> PathWaypoint {
    PathWaypoint { x: d(x), y: d(y), theta: d(0.0), steering: d(0.0), dir }
}

fn curve(dir: SegmentDir) -> Vec<PathWaypoint> {
    let sign = if dir == SegmentDir::Forward { 1.0 } else { -1.0 };
    (0..=40)
        .map(|i| {
            let a = f64::from(i) * 0.05;
            at(sign * 1.5 * a.sin(), 1.5 * (1.0 - a.cos()), dir)
        })
        .collect()
}

#[test]
fn the_radius_is_constant_at_rest_and_when_cruising() {
    let at = |v: f64| f(speed_scaled_radius(d(v), d(0.24), d(0.4), d(0.06)));
    for v in [0.0, 0.02, 0.07, 0.1] {
        assert_eq!(at(v), 0.19 + (0.24 - 0.19) * 0.4);
        assert_eq!(at(-v), at(v));
    }
    for v in [0.3, 0.45, 0.8, 1.0] {
        assert_eq!(at(v), 0.19 + (0.24 - 0.19) * (0.4 + (1.0 - 0.4)));
        assert_eq!(at(-v), at(v));
    }
}

#[test]
fn the_window_search_stays_within_the_limits() {
    let path = curve(SegmentDir::Forward);
    let obstacles = [Obstacle::point(d(1.2), d(-0.4)), Obstacle::point(d(0.4), d(0.9))];
    for v in [-0.3, 0.0, 0.6, 1.9, 2.2] {
        for w in [-4.0, 0.0, 1.5] {
            for target in [0.0, 0.3, 2.2] {
                let mut p = DwaPlanner::new(DwaConfig::default());
                let c = p.compute(&math, &robot(v, w), &path, &obstacles, d(target));
                let (v_out, w_out) = (f(c.linear_x), f(c.angular_z));
                assert!((0.0..=2.2).contains(&v_out));
                assert!(v_out <= v.max(0.0) + 2.5 * 0.1);
                assert!(w_out.abs() <= 4.5);
            }
        }
    }
}

#[test]
fn the_pursuit_drives_within_the_limits() {
    let p = PursuitPlanner::new(PursuitConfig::default(), DwaConfig::default(), d(0.2));
    for dir in [SegmentDir::Forward, SegmentDir::Reverse] {
        let sign = if dir == SegmentDir::Forward { 1.0 } else { -1.0 };
        let path = curve(dir);
        for prev in [0.0, 0.3, 1.0, 2.2] {
            let last = sign * prev;
            let r = p.compute(&math, &robot(last, 0.0), &path, &[], d(1.5), d(last));
            let c = r.unwrap();
            let v = sign * f(c.command.linear_x);
            let w = f(c.command.angular_z);
            assert!((0.0..=2.2).contains(&v));
            assert!(v <= prev + 2.5 * 0.1);
            assert!(prev - 3.0 * 0.1 <= v);
            assert!(w.abs() <= 4.5 && w.abs() <= 2.0 * v);
            assert!((0.6..=0.9).contains(&g(c.command.confidence)));
            assert_eq!(c.maneuver, dir == SegmentDir::Reverse);
        }
    }
}

#[test]
fn a_straight_path_is_planned_whatever_the_optimiser_allows() {
    let straight: Vec<PathWaypoint> =
        (0..=30).map(|i| at(0.1 * f64::from(i), 0.0, SegmentDir::Forward)).collect();
    let mut config = LocalPlannerConfig::default();
    config.mpc.horizon = 0;
    config.mpc.max_speed = d(-1.0);
    let mut odd = LocalPlanner::new(config);
    let mut usual = LocalPlanner::new(LocalPlannerConfig::default());
    for path in [&straight[..], &[]] {
        let a = odd.compute(&math, &robot(0.2, 0.0), path, &[], d(0.5));
        let b = usual.compute(&math, &robot(0.2, 0.0), path, &[], d(0.5));
        assert_eq!(f(a.command.linear_x), f(b.command.linear_x));
        assert_eq!(a.executor, b.executor);
    }
}

#[test]
fn a_negative_speed_is_no_reason_to_fail() {
    let straight: Vec<PathWaypoint> =
        (0..=30).map(|i| at(0.1 * f64::from(i), 0.0, SegmentDir::Forward)).collect();
    let mut p = LocalPlanner::new(LocalPlannerConfig::default());
    let (plan, _) = p.compute_with_defer(&math, &robot(0.0, 0.0), &straight, &[], d(-0.5));
    assert!(f(plan.command.linear_x) <= 0.25);
    let (plan, why) = p.compute_with_defer(&math, &robot(0.0, 0.0), &[], &[], d(-0.5));
    assert_eq!(f(plan.command.linear_x), 0.0);
    assert!(why.is_none());
}

#[test]
fn reports_of_refused_arcs_keep_half_a_second_apart() {
    let mut last = 0;
    let mut reports = vec![];
    for now in [40, 600, 700, 1099, 1100, 1101, 900, 1599, 1601, 5000, 5499] {
        let (reported, next) = report_blocked(now, last);
        if reported {
            reports.push(now);
            assert_eq!(next, now);
        } else {
            assert_eq!(next, last);
        }
        last = next;
    }
    assert_eq!(reports, vec![600, 1100, 1601, 5000]);
}
