use planning::fault::ConfigError;
use planning::global_planner::SegmentDir;
use planning::ieee::double::Double;
use planning::local_planner as lib;
use planning::local_planner::dwa;
use planning::trig::Circular;

fn d(x: f64) -> Double {
    Double { bits: x.to_bits() }
}

fn f(x: Double) -> f64 {
    f64::from_bits(x.bits)
}

fn math(k: Circular, x: Double, y: Double) -> Double {
    let (x, y) = (f(x), f(y));
    d(match k {
        Circular::Sin => x.sin(),
        Circular::Cos => x.cos(),
        Circular::Tan => x.tan(),
        Circular::Asin => x.asin(),
        Circular::Atan => x.atan(),
        Circular::Atan2 => x.atan2(y),
    })
}

// The library's types with hardware numbers in place of bit patterns.

#[derive(Debug, Clone, Default)]
struct VelocityCommand {
    linear_x: f64,
    angular_z: f64,
    confidence: f32,
}

fn command(c: lib::VelocityCommand) -> VelocityCommand {
    VelocityCommand {
        linear_x: f(c.linear_x),
        angular_z: f(c.angular_z),
        confidence: f32::from_bits(c.confidence.bits),
    }
}

#[derive(Debug, Clone, Default)]
struct RobotState {
    x: f64,
    y: f64,
    theta: f64,
    linear_vel: f64,
    angular_vel: f64,
}

impl RobotState {
    fn lib(&self) -> lib::RobotState {
        lib::RobotState {
            x: d(self.x),
            y: d(self.y),
            theta: d(self.theta),
            linear_vel: d(self.linear_vel),
            angular_vel: d(self.angular_vel),
        }
    }
}

#[derive(Debug, Clone, Default)]
struct Obstacle {
    x: f64,
    y: f64,
    vx: f64,
    vy: f64,
    radius: f64,
    half_x: f64,
    half_y: f64,
    heading: f64,
}

impl Obstacle {
    fn point(x: f64, y: f64) -> Self {
        Obstacle {
            x,
            y,
            ..Default::default()
        }
    }

    fn lib(&self) -> lib::Obstacle {
        lib::Obstacle {
            x: d(self.x),
            y: d(self.y),
            vx: d(self.vx),
            vy: d(self.vy),
            radius: d(self.radius),
            half_x: d(self.half_x),
            half_y: d(self.half_y),
            heading: d(self.heading),
        }
    }
}

fn obstacles_lib(obstacles: &[Obstacle]) -> Vec<lib::Obstacle> {
    obstacles.iter().map(|o| o.lib()).collect()
}

#[derive(Debug, Clone)]
struct PathWaypoint {
    x: f64,
    y: f64,
    theta: f64,
    steering: f64,
    dir: SegmentDir,
}

fn path_lib(path: &[PathWaypoint]) -> Vec<planning::global_planner::PathWaypoint> {
    path.iter()
        .map(|w| planning::global_planner::PathWaypoint {
            x: d(w.x),
            y: d(w.y),
            theta: d(w.theta),
            steering: d(w.steering),
            dir: w.dir,
        })
        .collect()
}

#[derive(Debug, Clone)]
struct DwaConfig {
    max_speed: f64,
    max_angular_speed: f64,
    max_acceleration: f64,
    max_deceleration: f64,
    max_angular_accel: f64,
    sim_time: f64,
    sim_dt: f64,
    v_samples: usize,
    w_samples: usize,
    heading_weight: f64,
    distance_weight: f64,
    velocity_weight: f64,
    obstacle_weight: f64,
    weight_continuity: f64,
    robot_radius: f64,
    recovery_margin_scale: f64,
    margin_low_speed_scale: f64,
    moving_obstacle_margin_gain: f64,
    high_speed_margin_gain: f64,
    max_curvature: f64,
}

impl Default for DwaConfig {
    fn default() -> Self {
        let c = dwa::DwaConfig::default();
        DwaConfig {
            max_speed: f(c.max_speed),
            max_angular_speed: f(c.max_angular_speed),
            max_acceleration: f(c.max_acceleration),
            max_deceleration: f(c.max_deceleration),
            max_angular_accel: f(c.max_angular_accel),
            sim_time: f(c.sim_time),
            sim_dt: f(c.sim_dt),
            v_samples: c.v_samples,
            w_samples: c.w_samples,
            heading_weight: f(c.heading_weight),
            distance_weight: f(c.distance_weight),
            velocity_weight: f(c.velocity_weight),
            obstacle_weight: f(c.obstacle_weight),
            weight_continuity: f(c.weight_continuity),
            robot_radius: f(c.robot_radius),
            recovery_margin_scale: f(c.recovery_margin_scale),
            margin_low_speed_scale: f(c.margin_low_speed_scale),
            moving_obstacle_margin_gain: f(c.moving_obstacle_margin_gain),
            high_speed_margin_gain: f(c.high_speed_margin_gain),
            max_curvature: f(c.max_curvature),
        }
    }
}

impl DwaConfig {
    fn lib(&self) -> dwa::DwaConfig {
        dwa::DwaConfig {
            max_speed: d(self.max_speed),
            max_angular_speed: d(self.max_angular_speed),
            max_acceleration: d(self.max_acceleration),
            max_deceleration: d(self.max_deceleration),
            max_angular_accel: d(self.max_angular_accel),
            sim_time: d(self.sim_time),
            sim_dt: d(self.sim_dt),
            v_samples: self.v_samples,
            w_samples: self.w_samples,
            heading_weight: d(self.heading_weight),
            distance_weight: d(self.distance_weight),
            velocity_weight: d(self.velocity_weight),
            obstacle_weight: d(self.obstacle_weight),
            weight_continuity: d(self.weight_continuity),
            robot_radius: d(self.robot_radius),
            recovery_margin_scale: d(self.recovery_margin_scale),
            margin_low_speed_scale: d(self.margin_low_speed_scale),
            moving_obstacle_margin_gain: d(self.moving_obstacle_margin_gain),
            high_speed_margin_gain: d(self.high_speed_margin_gain),
            max_curvature: d(self.max_curvature),
        }
    }

    fn validate(&self) -> Result<(), ConfigError> {
        self.lib().validate()
    }
}

struct DwaPlanner(dwa::DwaPlanner);

impl DwaPlanner {
    fn new(config: DwaConfig) -> Self {
        DwaPlanner(dwa::DwaPlanner::new(config.lib()))
    }

    fn relaxed_radius(&self) -> f64 {
        f(self.0.relaxed_radius())
    }

    fn compute(
        &mut self,
        state: &RobotState,
        path: &[PathWaypoint],
        obstacles: &[Obstacle],
        desired_speed: f64,
    ) -> VelocityCommand {
        command(self.0.compute(
            &math,
            &state.lib(),
            &path_lib(path),
            &obstacles_lib(obstacles),
            d(desired_speed),
        ))
    }

    fn compute_with_radius(
        &mut self,
        state: &RobotState,
        path: &[PathWaypoint],
        obstacles: &[Obstacle],
        desired_speed: f64,
        radius: f64,
    ) -> VelocityCommand {
        command(self.0.compute_with_radius(
            &math,
            &state.lib(),
            &path_lib(path),
            &obstacles_lib(obstacles),
            d(desired_speed),
            d(radius),
        ))
    }
}

struct ArcRollout {
    end_x: f64,
    min_obstacle_dist: f64,
    braking_min_dist: f64,
}

fn simulate_arc(
    config: &DwaConfig,
    state: &RobotState,
    v: f64,
    w: f64,
    obstacles: &[Obstacle],
) -> ArcRollout {
    let r = dwa::simulate_arc(
        &math,
        &config.lib(),
        &state.lib(),
        d(v),
        d(w),
        &obstacles_lib(obstacles),
    );
    ArcRollout {
        end_x: f(r.end_x),
        min_obstacle_dist: f(r.min_obstacle_dist),
        braking_min_dist: f(r.braking_min_dist),
    }
}

fn speed_scaled_radius(v: f64, base: f64, low: f64, gain: f64) -> f64 {
    f(dwa::speed_scaled_radius(d(v), d(base), d(low), d(gain)))
}

fn velocity_score(v: f64, target: f64, max_speed: f64) -> f64 {
    f(dwa::velocity_score(d(v), d(target), d(max_speed)))
}

struct Goal {
    x: f64,
}

fn find_local_goal(state: &RobotState, path: &[PathWaypoint]) -> Goal {
    Goal {
        x: f(dwa::find_local_goal(&state.lib(), &path_lib(path)).x),
    }
}

const ROBOT_FOOTPRINT_RADIUS: f64 = 0.19;

#[test]
fn simulate_arc_reverse_command_sweeps_and_brakes_backwards() {
    let cfg = DwaConfig::default();
    let state = RobotState {
        x: 0.0,
        y: 0.0,
        theta: 0.0,
        linear_vel: -0.3,
        angular_vel: 0.0,
    };
    let behind = vec![Obstacle::point(-0.75, 0.0)];
    let roll = simulate_arc(&cfg, &state, -0.4, 0.0, &behind);
    assert!(
        (roll.end_x - (-0.6)).abs() < 1e-6,
        "reverse rollout must end 0.6m back, ended at {}",
        roll.end_x
    );
    assert!(roll.min_obstacle_dist > 0.14 && roll.min_obstacle_dist < 0.2);
    assert!(
        roll.braking_min_dist < 0.05,
        "reverse braking extension missed the obstacle behind: {}",
        roll.braking_min_dist
    );

    let fwd = simulate_arc(&cfg, &state, 0.4, 0.0, &behind);
    assert!(fwd.min_obstacle_dist > 0.7);
    assert!(fwd.braking_min_dist > 0.7);
}

#[test]
fn test_dwa_straight_no_obstacles() {
    let mut planner = DwaPlanner::new(DwaConfig::default());
    let state = RobotState {
        x: 0.0,
        y: 0.0,
        theta: 0.0,
        linear_vel: 0.3,
        angular_vel: 0.0,
    };
    let path = vec![
        PathWaypoint {
            x: 1.0,
            y: 0.0,
            theta: 0.0,
            steering: 0.0,
            dir: Default::default(),
        },
        PathWaypoint {
            x: 2.0,
            y: 0.0,
            theta: 0.0,
            steering: 0.0,
            dir: Default::default(),
        },
    ];

    let cmd = planner.compute(&state, &path, &[], 0.5);
    assert!(cmd.linear_x > 0.0, "Should move forward");
    assert!(cmd.angular_z.abs() < 0.5, "Should be roughly straight");
}

#[test]
fn test_dwa_propagates_moving_obstacles() {
    let mut planner = DwaPlanner::new(DwaConfig::default());
    let state = RobotState {
        x: 0.0,
        y: 0.0,
        theta: 0.0,
        linear_vel: 0.5,
        angular_vel: 0.0,
    };
    let path = vec![PathWaypoint {
        x: 3.0,
        y: 0.0,
        theta: 0.0,
        steering: 0.0,
        dir: Default::default(),
    }];
    let crossing = Obstacle {
        x: 0.75,
        y: -0.55,
        vx: 0.0,
        vy: 0.5,
        radius: 0.15,
        ..Default::default()
    };
    let mut parked = crossing.clone();
    parked.vy = 0.0;

    let cmd_static = planner.compute(&state, &path, &[parked], 0.5);
    let cmd_moving = planner.compute(&state, &path, &[crossing], 0.5);

    assert!(cmd_static.linear_x > 0.3);
    assert!(cmd_static.angular_z.abs() < 0.15);
    let evaded =
        cmd_moving.linear_x < cmd_static.linear_x - 0.05 || cmd_moving.angular_z.abs() > 0.2;
    assert!(
        evaded,
        "planner ignored the crossing pedestrian: static=({:.2},{:.2}) moving=({:.2},{:.2})",
        cmd_static.linear_x, cmd_static.angular_z, cmd_moving.linear_x, cmd_moving.angular_z
    );
}

#[test]
fn test_dwa_respects_obstacle_extent_radius() {
    let mut planner = DwaPlanner::new(DwaConfig::default());
    let state = RobotState {
        x: 0.0,
        y: 0.0,
        theta: 0.0,
        linear_vel: 0.4,
        angular_vel: 0.0,
    };
    let path = vec![PathWaypoint {
        x: 3.0,
        y: 0.0,
        theta: 0.0,
        steering: 0.0,
        dir: Default::default(),
    }];
    let fat = Obstacle {
        x: 0.8,
        y: 0.4,
        vx: 0.0,
        vy: 0.0,
        radius: 0.3,
        ..Default::default()
    };
    let cmd = planner.compute(&state, &path, &[fat], 0.5);
    let point = Obstacle::point(0.8, 0.4);
    let cmd_point = planner.compute(&state, &path, &[point], 0.5);
    assert!(cmd_point.angular_z.abs() < 0.15);
    let evaded = cmd.linear_x < cmd_point.linear_x - 0.05 || cmd.angular_z.abs() >= 0.15;
    assert!(
        evaded,
        "extent radius ignored: ({:.2},{:.2})",
        cmd.linear_x, cmd.angular_z
    );
}

#[test]
fn test_dwa_output_stays_inside_curvature_envelope() {
    let config = DwaConfig::default();
    let max_curvature = config.max_curvature;
    let mut planner = DwaPlanner::new(config);
    let state = RobotState {
        x: 0.0,
        y: 0.0,
        theta: 0.0,
        linear_vel: 0.4,
        angular_vel: 0.0,
    };
    let path = vec![PathWaypoint {
        x: 0.0,
        y: 2.0,
        theta: std::f64::consts::FRAC_PI_2,
        steering: 0.0,
        dir: Default::default(),
    }];

    let cmd = planner.compute(&state, &path, &[], 0.5);
    assert!(
        cmd.angular_z.abs() <= cmd.linear_x * max_curvature + 1e-6,
        "command (v={}, w={}) exceeds curvature envelope {}",
        cmd.linear_x,
        cmd.angular_z,
        max_curvature
    );
}

#[test]
fn test_dwa_stationary_cannot_spin_in_place() {
    let mut planner = DwaPlanner::new(DwaConfig::default());
    let state = RobotState {
        x: 0.0,
        y: 0.0,
        theta: 0.0,
        linear_vel: 0.0,
        angular_vel: 0.0,
    };
    let path = vec![PathWaypoint {
        x: -1.0,
        y: 0.5,
        theta: 0.0,
        steering: 0.0,
        dir: Default::default(),
    }];

    let cmd = planner.compute(&state, &path, &[], 0.5);
    assert!(
        cmd.angular_z.abs() <= cmd.linear_x * DwaConfig::default().max_curvature + 1e-6,
        "spin-in-place command is not executable by Ackermann steering"
    );
}

#[test]
fn test_dwa_avoids_obstacle() {
    let mut planner = DwaPlanner::new(DwaConfig::default());
    let state = RobotState {
        x: 0.0,
        y: 0.0,
        theta: 0.0,
        linear_vel: 0.3,
        angular_vel: 0.0,
    };
    let path = vec![PathWaypoint {
        x: 2.0,
        y: 0.0,
        theta: 0.0,
        steering: 0.0,
        dir: Default::default(),
    }];
    let obstacles = vec![Obstacle::point(0.5, 0.0)];

    let cmd = planner.compute(&state, &path, &obstacles, 0.5);
    assert!(
        cmd.angular_z.abs() > 0.01 || cmd.linear_x < 0.1,
        "Should avoid obstacle by turning or slowing"
    );
}

#[test]
fn test_dwa_zero_target_decelerates_to_stop() {
    let config = DwaConfig::default();
    let max_dv = config.max_acceleration * 0.1;
    let mut planner = DwaPlanner::new(config);
    let path = vec![PathWaypoint {
        x: 3.0,
        y: 0.0,
        theta: 0.0,
        steering: 0.0,
        dir: Default::default(),
    }];

    let mut state = RobotState {
        x: 0.0,
        y: 0.0,
        theta: 0.0,
        linear_vel: 0.5,
        angular_vel: 0.0,
    };

    for cycle in 0..12 {
        let cmd = planner.compute(&state, &path, &[], 0.0);
        assert!(
            cmd.linear_x <= state.linear_vel + 1e-9,
            "cycle {}: command {} accelerates past current speed {}",
            cycle,
            cmd.linear_x,
            state.linear_vel
        );
        if state.linear_vel > 0.0 {
            assert!(
                cmd.linear_x < state.linear_vel,
                "cycle {}: command {} does not decelerate from {}",
                cycle,
                cmd.linear_x,
                state.linear_vel
            );
        }
        assert!(
            state.linear_vel - cmd.linear_x <= max_dv + 1e-9,
            "cycle {}: deceleration {} exceeds accel limit {}",
            cycle,
            state.linear_vel - cmd.linear_x,
            max_dv
        );
        state.linear_vel = cmd.linear_x;
        state.angular_vel = cmd.angular_z;
        if state.linear_vel == 0.0 {
            break;
        }
    }
    assert_eq!(
        state.linear_vel, 0.0,
        "did not reach a full stop within the accel-limited horizon"
    );
}

#[test]
fn test_dwa_velocity_score_never_prefers_exceeding_target() {
    let max_speed = 1.0;
    for &target in &[0.0, 0.2, 0.5, 1.0] {
        let peak = velocity_score(target, target, max_speed);
        let mut v = target;
        let mut prev = peak;
        while v < max_speed {
            v = (v + 0.05).min(max_speed);
            let s = velocity_score(v, target, max_speed);
            assert!(
                s <= peak + 1e-12 && s <= prev + 1e-12,
                "score prefers v={} over target {} (score {} vs peak {})",
                v,
                target,
                s,
                peak
            );
            prev = s;
        }
    }
}

#[test]
fn test_dwa_command_never_exceeds_target_when_at_or_below_it() {
    let mut planner = DwaPlanner::new(DwaConfig::default());
    let state = RobotState {
        x: 0.0,
        y: 0.0,
        theta: 0.0,
        linear_vel: 0.5,
        angular_vel: 0.0,
    };
    let path = vec![PathWaypoint {
        x: 10.0,
        y: 0.0,
        theta: 0.0,
        steering: 0.0,
        dir: Default::default(),
    }];
    let cmd = planner.compute(&state, &path, &[], 0.5);
    assert!(
        cmd.linear_x <= 0.5 + 1e-9,
        "command {} exceeds desired speed 0.5",
        cmd.linear_x
    );
}

#[test]
fn test_dwa_empty_path() {
    let mut planner = DwaPlanner::new(DwaConfig::default());
    let state = RobotState::default();

    let cmd = planner.compute(&state, &[], &[], 0.5);
    assert_eq!(cmd.linear_x, 0.0);
}

#[test]
fn test_dwa_continuity_prefers_velocity_near_previous_command() {
    let config = DwaConfig {
        velocity_weight: 0.0,
        distance_weight: 0.0,
        weight_continuity: 0.1,
        ..Default::default()
    };
    let mut planner = DwaPlanner::new(config);
    let state = RobotState {
        x: 0.0,
        y: 0.0,
        theta: 0.0,
        linear_vel: 0.5,
        angular_vel: 0.0,
    };
    let path = vec![PathWaypoint {
        x: 10.0,
        y: 0.0,
        theta: 0.0,
        steering: 0.0,
        dir: Default::default(),
    }];

    let cmd = planner.compute(&state, &path, &[], 1.0);
    assert!(
        (cmd.linear_x - 0.5).abs() < 1e-6,
        "expected v near previous 0.5, got {}",
        cmd.linear_x
    );

    let mut free = DwaPlanner::new(DwaConfig {
        velocity_weight: 0.0,
        distance_weight: 0.0,
        weight_continuity: 0.0,
        ..Default::default()
    });
    let cmd_free = free.compute(&state, &path, &[], 1.0);
    assert!(
        (cmd_free.linear_x - 0.5).abs() > 1e-6,
        "control experiment: ties should NOT land on 0.5 without continuity"
    );

    let state2 = RobotState {
        linear_vel: cmd.linear_x,
        ..state
    };
    let cmd2 = planner.compute(&state2, &path, &[], 1.0);
    assert!(
        (cmd2.linear_x - cmd.linear_x).abs() < 1e-6,
        "command jumped from {} to {} between equal-scoring cycles",
        cmd.linear_x,
        cmd2.linear_x
    );
}

#[test]
fn test_dwa_standstill_escape_outruns_closing_obstacle() {
    let config = DwaConfig::default();
    let max_curvature = config.max_curvature;
    let accel_step = config.max_acceleration * 0.1;
    let mut planner = DwaPlanner::new(config);
    let state = RobotState {
        x: 0.0,
        y: 0.0,
        theta: 0.0,
        linear_vel: 0.0,
        angular_vel: 0.0,
    };
    let path = vec![PathWaypoint {
        x: 3.0,
        y: 0.0,
        theta: 0.0,
        steering: 0.0,
        dir: Default::default(),
    }];
    let closing = Obstacle {
        x: -0.6,
        y: 0.0,
        vx: 0.2,
        vy: 0.0,
        radius: 0.0,
        ..Default::default()
    };

    let cmd = planner.compute(&state, &path, &[closing], 0.5);
    assert!(
        cmd.linear_x > 0.0,
        "standstill escape not found: v={} conf={}",
        cmd.linear_x,
        cmd.confidence
    );
    assert!(
        (cmd.linear_x - accel_step).abs() < 1e-9,
        "escape first-cycle speed {} must be the one-cycle accel step {}",
        cmd.linear_x,
        accel_step
    );
    assert!(
        cmd.angular_z.abs() <= cmd.linear_x * max_curvature + 1e-9,
        "escape command must stay inside the curvature envelope"
    );
    assert!(
        cmd.confidence >= 0.3,
        "escape confidence {} must clear the arbitrator fallback floor",
        cmd.confidence
    );
}

#[test]
fn test_dwa_standstill_boxed_in_stays_infeasible() {
    let mut planner = DwaPlanner::new(DwaConfig::default());
    let state = RobotState {
        x: 0.0,
        y: 0.0,
        theta: 0.0,
        linear_vel: 0.0,
        angular_vel: 0.0,
    };
    let path = vec![PathWaypoint {
        x: 3.0,
        y: 0.0,
        theta: 0.0,
        steering: 0.0,
        dir: Default::default(),
    }];
    let ring: Vec<Obstacle> = (0..12)
        .map(|i| {
            let a = i as f64 * std::f64::consts::TAU / 12.0;
            Obstacle::point(0.2 * a.cos(), 0.2 * a.sin())
        })
        .collect();

    let cmd = planner.compute(&state, &path, &ring, 0.5);
    assert_eq!(cmd.linear_x, 0.0, "boxed-in must not move");
    assert!(
        cmd.confidence <= 0.1 + 1e-6,
        "boxed-in must stay infeasible"
    );
}

#[test]
fn test_dwa_standstill_static_frontal_trap_needs_reverse_not_escape() {
    let mut planner = DwaPlanner::new(DwaConfig::default());
    let state = RobotState {
        x: 0.0,
        y: 0.0,
        theta: 0.0,
        linear_vel: 0.0,
        angular_vel: 0.0,
    };
    let path = vec![PathWaypoint {
        x: 3.0,
        y: 0.0,
        theta: 0.0,
        steering: 0.0,
        dir: Default::default(),
    }];
    let cone = Obstacle {
        x: 0.3,
        y: 0.0,
        vx: 0.0,
        vy: 0.0,
        radius: 0.1,
        ..Default::default()
    };
    let cmd = planner.compute(&state, &path, &[cone], 0.5);
    assert_eq!(cmd.linear_x, 0.0);
    assert!(cmd.confidence <= 0.1 + 1e-6);
}

#[test]
fn test_relaxed_radius_scales_margin_never_below_footprint() {
    let planner = DwaPlanner::new(DwaConfig::default());
    let relaxed = planner.relaxed_radius();
    assert!(relaxed < DwaConfig::default().robot_radius);
    assert!((relaxed - (0.19 + 0.05 * 0.8)).abs() < 1e-9);

    let planner = DwaPlanner::new(DwaConfig {
        recovery_margin_scale: 0.0,
        ..Default::default()
    });
    assert!((planner.relaxed_radius() - ROBOT_FOOTPRINT_RADIUS).abs() < 1e-9);

    let planner = DwaPlanner::new(DwaConfig {
        robot_radius: 0.1,
        ..Default::default()
    });
    assert!(planner.relaxed_radius() >= ROBOT_FOOTPRINT_RADIUS);
}

#[test]
fn test_dwa_relaxed_radius_unlocks_tight_gap() {
    let config = DwaConfig {
        recovery_margin_scale: 0.0,
        ..Default::default()
    };
    let mut planner = DwaPlanner::new(config);
    assert!((planner.relaxed_radius() - ROBOT_FOOTPRINT_RADIUS).abs() < 1e-9);
    let half_gap = 0.2;

    let state = RobotState {
        x: 0.0,
        y: 0.0,
        theta: 0.0,
        linear_vel: 0.1,
        angular_vel: 0.0,
    };
    let path = vec![PathWaypoint {
        x: 3.0,
        y: 0.0,
        theta: 0.0,
        steering: 0.0,
        dir: Default::default(),
    }];
    let mut obstacles = Vec::new();
    let mut x = -0.5;
    while x <= 3.0 {
        obstacles.push(Obstacle::point(x, half_gap));
        obstacles.push(Obstacle::point(x, -half_gap));
        x += 0.05;
    }

    let strict = planner.compute(&state, &path, &obstacles, 0.1);
    assert!(
        strict.confidence <= 0.1 + 1e-6 && strict.linear_x == 0.0,
        "corridor should be infeasible at full radius, got v={} conf={}",
        strict.linear_x,
        strict.confidence
    );

    let relaxed_cmd =
        planner.compute_with_radius(&state, &path, &obstacles, 0.1, planner.relaxed_radius());
    assert!(
        relaxed_cmd.confidence > 0.5 && relaxed_cmd.linear_x > 0.0,
        "relaxed margin should unlock the corridor, got v={} conf={}",
        relaxed_cmd.linear_x,
        relaxed_cmd.confidence
    );
}

#[test]
fn test_dwa_moving_obstacle_margin_rejects_crawl_pass() {
    let path = vec![PathWaypoint {
        x: 3.0,
        y: 0.0,
        theta: 0.0,
        steering: 0.0,
        dir: Default::default(),
    }];
    let crawl_state = RobotState {
        x: 0.0,
        y: 0.0,
        theta: 0.0,
        linear_vel: 0.1,
        angular_vel: 0.0,
    };
    let make_obs = |vx: f64| Obstacle {
        x: 0.12,
        y: 0.25,
        vx,
        vy: 0.0,
        radius: 0.0,
        ..Default::default()
    };

    let mut planner = DwaPlanner::new(DwaConfig::default());
    let cmd = planner.compute(&crawl_state, &path, &[make_obs(0.0)], 0.1);
    assert!(
        cmd.linear_x > 0.0,
        "crawl past a STATIC obstacle at 0.25m must stay feasible, got v={} conf={}",
        cmd.linear_x,
        cmd.confidence
    );

    let mut planner = DwaPlanner::new(DwaConfig::default());
    let cmd = planner.compute(&crawl_state, &path, &[make_obs(0.75)], 0.1);
    assert!(
        cmd.linear_x == 0.0 && cmd.confidence <= 0.1 + 1e-6,
        "crawl past a 0.75 m/s obstacle at 0.25m must be rejected, got v={} conf={}",
        cmd.linear_x,
        cmd.confidence
    );

    let mut planner = DwaPlanner::new(DwaConfig {
        moving_obstacle_margin_gain: 0.0,
        ..Default::default()
    });
    let cmd = planner.compute(&crawl_state, &path, &[make_obs(0.75)], 0.1);
    assert!(
        cmd.linear_x > 0.0,
        "with gain 0 the pass must be accepted, got v={}",
        cmd.linear_x
    );
}

#[test]
fn test_dwa_scoring_prefers_side_away_from_mover() {
    let config = DwaConfig {
        heading_weight: 0.2,
        ..Default::default()
    };
    let state = RobotState {
        x: 0.0,
        y: 0.0,
        theta: 0.0,
        linear_vel: 0.3,
        angular_vel: 0.0,
    };
    let path = vec![PathWaypoint {
        x: 3.0,
        y: 0.0,
        theta: 0.0,
        steering: 0.0,
        dir: Default::default(),
    }];
    let cone = Obstacle {
        x: 1.2,
        y: 0.5,
        vx: 0.0,
        vy: 0.0,
        radius: 0.1,
        ..Default::default()
    };
    let mut mover = Obstacle {
        x: 1.2,
        y: -0.5,
        vx: -0.2,
        vy: 0.0,
        radius: 0.1,
        ..Default::default()
    };

    let mut planner = DwaPlanner::new(config.clone());
    let cmd = planner.compute(&state, &path, &[cone.clone(), mover.clone()], 0.5);
    assert!(cmd.linear_x > 0.0, "scene must stay feasible");
    assert!(
        cmd.angular_z > 0.05,
        "scoring must steer away from the mover (left), got w={}",
        cmd.angular_z
    );

    mover.vx = 0.0;
    let mut planner = DwaPlanner::new(config);
    let cmd = planner.compute(&state, &path, &[cone, mover], 0.5);
    assert!(
        cmd.angular_z.abs() < 0.05,
        "static-symmetric control must stay near straight, got w={}",
        cmd.angular_z
    );
}

#[test]
fn test_speed_scaled_radius_lerps_crawl_to_cruise() {
    let base = DwaConfig::default().robot_radius;
    let low = DwaConfig::default().margin_low_speed_scale;
    let gain = DwaConfig::default().high_speed_margin_gain;

    assert!((speed_scaled_radius(0.0, base, low, gain) - 0.21).abs() < 1e-9);
    assert!((speed_scaled_radius(0.1, base, low, gain) - 0.21).abs() < 1e-9);
    assert!((speed_scaled_radius(0.3, base, low, gain) - base).abs() < 1e-9);
    assert!((speed_scaled_radius(1.0, base, low, gain) - base).abs() < 1e-9);
    assert!((speed_scaled_radius(0.2, base, low, gain) - 0.225).abs() < 1e-9);
    let mut prev = 0.0;
    let mut v = 0.0;
    while v <= 2.5 {
        let r = speed_scaled_radius(v, base, low, gain);
        assert!(r >= prev && r >= ROBOT_FOOTPRINT_RADIUS);
        prev = r;
        v += 0.02;
    }
    assert!((speed_scaled_radius(-0.1, base, low, gain) - 0.21).abs() < 1e-9);
}

#[test]
fn test_speed_scaled_radius_high_speed_margin_growth() {
    let base = DwaConfig::default().robot_radius;
    let low = DwaConfig::default().margin_low_speed_scale;
    let gain = DwaConfig::default().high_speed_margin_gain;

    assert!((speed_scaled_radius(1.5, base, low, gain) - (base + 0.03)).abs() < 1e-9);
    assert!((speed_scaled_radius(2.2, base, low, gain) - (base + 0.072)).abs() < 1e-9);
    assert!((speed_scaled_radius(2.2, base, low, 0.0) - base).abs() < 1e-9);
    assert!(
        (speed_scaled_radius(-2.2, base, low, gain)
            - speed_scaled_radius(2.2, base, low, gain))
        .abs()
            < 1e-12
    );
}

#[test]
fn test_dwa_crawl_accepts_clearance_that_cruise_rejects() {
    let half_gap = 0.215;
    let path = vec![PathWaypoint {
        x: 3.0,
        y: 0.0,
        theta: 0.0,
        steering: 0.0,
        dir: Default::default(),
    }];
    let mut obstacles = Vec::new();
    let mut x = -0.5;
    while x <= 3.0 {
        obstacles.push(Obstacle::point(x, half_gap));
        obstacles.push(Obstacle::point(x, -half_gap));
        x += 0.05;
    }

    let mut planner = DwaPlanner::new(DwaConfig::default());
    let crawl_state = RobotState {
        x: 0.0,
        y: 0.0,
        theta: 0.0,
        linear_vel: 0.1,
        angular_vel: 0.0,
    };
    let crawl = planner.compute(&crawl_state, &path, &obstacles, 0.1);
    assert!(
        crawl.linear_x > 0.0 && crawl.confidence > 0.5,
        "crawl through 0.215m clearance must be feasible, got v={} conf={}",
        crawl.linear_x,
        crawl.confidence
    );

    let mut planner = DwaPlanner::new(DwaConfig::default());
    let cruise_state = RobotState {
        x: 0.0,
        y: 0.0,
        theta: 0.0,
        linear_vel: 0.5,
        angular_vel: 0.0,
    };
    let cruise = planner.compute(&cruise_state, &path, &obstacles, 0.5);
    assert!(
        cruise.linear_x == 0.0 && cruise.confidence <= 0.1 + 1e-6,
        "cruise sample below the speed-scaled clearance must be rejected, got v={} conf={}",
        cruise.linear_x,
        cruise.confidence
    );
}

#[test]
fn test_dwa_substep_catches_cone_the_coarse_stride_tunnels_over() {
    let config = DwaConfig {
        robot_radius: ROBOT_FOOTPRINT_RADIUS,
        high_speed_margin_gain: 0.0,
        ..Default::default()
    };
    let state = RobotState {
        x: 0.0,
        y: 0.0,
        theta: 0.0,
        linear_vel: 2.0,
        angular_vel: 0.0,
    };
    let path = vec![PathWaypoint {
        x: 8.0,
        y: 0.0,
        theta: 0.0,
        steering: 0.0,
        dir: Default::default(),
    }];
    let cone = Obstacle::point(0.5, 0.18);

    let mut planner = DwaPlanner::new(config.clone());
    let clear = planner.compute(&state, &path, &[Obstacle::point(0.5, 0.21)], 2.0);
    assert!(
        clear.linear_x > 1.9 && clear.angular_z.abs() < 0.05,
        "control: cone outside the radius must not deflect the cruise, got ({:.2},{:.2})",
        clear.linear_x,
        clear.angular_z
    );

    let mut planner = DwaPlanner::new(config);
    let cmd = planner.compute(&state, &path, &[cone], 2.0);
    assert!(
        cmd.angular_z < -0.05 || cmd.linear_x < 1.5,
        "coarse-stride tunneling: planner kept the straight cruise ({:.2},{:.2}) \
         through a cone 0.18m off the path centerline",
        cmd.linear_x,
        cmd.angular_z
    );
}

#[test]
fn test_dwa_braking_distance_rejects_endpoint_too_close_to_wall() {
    let config = DwaConfig {
        obstacle_weight: 0.0,
        ..Default::default()
    };
    let state = RobotState {
        x: 0.0,
        y: 0.0,
        theta: 0.0,
        linear_vel: 2.2,
        angular_vel: 0.0,
    };
    let path = vec![PathWaypoint {
        x: 10.0,
        y: 0.0,
        theta: 0.0,
        steering: 0.0,
        dir: Default::default(),
    }];
    let wall = |x0: f64| -> Vec<Obstacle> {
        let mut w = Vec::new();
        let mut y = -2.0;
        while y <= 2.0 {
            w.push(Obstacle::point(x0, y));
            y += 0.1;
        }
        w
    };

    let mut planner = DwaPlanner::new(config.clone());
    let clear = planner.compute(&state, &path, &wall(6.0), 2.2);
    assert!(
        clear.linear_x > 1.9 && clear.angular_z.abs() < 0.05,
        "control: wall beyond horizon+braking distance must not slow the cruise, \
         got ({:.2},{:.2})",
        clear.linear_x,
        clear.angular_z
    );

    let mut planner = DwaPlanner::new(config);
    let cmd = planner.compute(&state, &path, &wall(3.8), 2.2);
    assert!(
        cmd.linear_x < 2.0 || cmd.angular_z.abs() > 0.3,
        "endpoint inside braking distance of the wall must not be driven straight \
         at cruise, got ({:.2},{:.2})",
        cmd.linear_x,
        cmd.angular_z
    );
}

#[test]
fn test_local_goal_lookahead_scales_with_speed() {
    let path: Vec<PathWaypoint> = (1..=10)
        .map(|i| PathWaypoint {
            x: 0.5 * i as f64,
            y: 0.0,
            theta: 0.0,
            steering: 0.0,
            dir: Default::default(),
        })
        .collect();
    let at_speed = |v: f64| RobotState {
        x: 0.0,
        y: 0.0,
        theta: 0.0,
        linear_vel: v,
        angular_vel: 0.0,
    };

    assert_eq!(find_local_goal(&at_speed(0.0), &path).x, 1.0);
    assert_eq!(find_local_goal(&at_speed(0.5), &path).x, 1.0);
    assert_eq!(find_local_goal(&at_speed(1.0), &path).x, 1.5);
    assert_eq!(find_local_goal(&at_speed(2.2), &path).x, 3.0);
    assert_eq!(find_local_goal(&at_speed(10.0), &path).x, 3.0);
    assert_eq!(find_local_goal(&at_speed(-2.2), &path).x, 3.0);
}

#[test]
fn test_dwa_config_validation() {
    assert!(DwaConfig::default().validate().is_ok());
    assert!(DwaConfig {
        max_deceleration: 0.0,
        ..Default::default()
    }
    .validate()
    .is_err());
    assert!(DwaConfig {
        max_speed: -1.0,
        ..Default::default()
    }
    .validate()
    .is_err());
    assert!(DwaConfig {
        sim_dt: 2.0,
        ..Default::default()
    }
    .validate()
    .is_err());
    assert!(DwaConfig {
        v_samples: 1,
        ..Default::default()
    }
    .validate()
    .is_err());
    assert!(DwaConfig {
        high_speed_margin_gain: -0.1,
        ..Default::default()
    }
    .validate()
    .is_err());
    assert!(DwaConfig {
        moving_obstacle_margin_gain: f64::NAN,
        ..Default::default()
    }
    .validate()
    .is_err());
    assert!(DwaConfig {
        high_speed_margin_gain: 0.0,
        moving_obstacle_margin_gain: 0.0,
        ..Default::default()
    }
    .validate()
    .is_ok());
}
