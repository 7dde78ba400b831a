use planning::fault::ConfigError;
use planning::global_planner::SegmentDir;
use planning::ieee::double::Double;
use planning::ieee::single::Single;
use planning::local_planner as lib;
use planning::local_planner::dwa;
use planning::local_planner::motion;
use planning::local_planner::mpc;
use planning::local_planner::pursuit;
use planning::local_planner::tracking_mpc;
use planning::local_planner::Executor;
use planning::trig::Circular;

fn d(x: f64) -> Double {
    Double { bits: x.to_bits() }
}

fn f(x: Double) -> f64 {
    f64::from_bits(x.bits)
}

fn math(k: Circular, x: Double, y: Double) -> Double {
    let (x, y) = (f(x), f(y));
    d(match k {
        Circular::Sin => x.sin(),
        Circular::Cos => x.cos(),
        Circular::Tan => x.tan(),
        Circular::Asin => x.asin(),
        Circular::Atan => x.atan(),
        Circular::Atan2 => x.atan2(y),
    })
}

// The library's types with hardware numbers in place of bit patterns.

#[derive(Debug, Clone, Default)]
struct VelocityCommand {
    linear_x: f64,
    angular_z: f64,
    confidence: f32,
}

impl VelocityCommand {
    fn lib(&self) -> lib::VelocityCommand {
        lib::VelocityCommand {
            linear_x: d(self.linear_x),
            angular_z: d(self.angular_z),
            confidence: Single {
                bits: self.confidence.to_bits(),
            },
        }
    }
}

fn command(c: lib::VelocityCommand) -> VelocityCommand {
    VelocityCommand {
        linear_x: f(c.linear_x),
        angular_z: f(c.angular_z),
        confidence: f32::from_bits(c.confidence.bits),
    }
}

#[derive(Debug, Clone, Default)]
struct RobotState {
    x: f64,
    y: f64,
    theta: f64,
    linear_vel: f64,
    angular_vel: f64,
}

impl RobotState {
    fn lib(&self) -> lib::RobotState {
        lib::RobotState {
            x: d(self.x),
            y: d(self.y),
            theta: d(self.theta),
            linear_vel: d(self.linear_vel),
            angular_vel: d(self.angular_vel),
        }
    }
}

#[derive(Debug, Clone, Default)]
struct Obstacle {
    x: f64,
    y: f64,
    vx: f64,
    vy: f64,
    radius: f64,
    half_x: f64,
    half_y: f64,
    heading: f64,
}

impl Obstacle {
    fn point(x: f64, y: f64) -> Self {
        Obstacle {
            x,
            y,
            ..Default::default()
        }
    }

    fn boxed(x: f64, y: f64, half_x: f64, half_y: f64, heading: f64) -> Self {
        let o = lib::Obstacle::boxed(d(x), d(y), d(half_x), d(half_y), d(heading));
        Obstacle {
            x: f(o.x),
            y: f(o.y),
            vx: f(o.vx),
            vy: f(o.vy),
            radius: f(o.radius),
            half_x: f(o.half_x),
            half_y: f(o.half_y),
            heading: f(o.heading),
        }
    }

    fn speed(&self) -> f64 {
        f(self.lib().speed())
    }

    fn net_distance_at(&self, px: f64, py: f64, t: f64) -> f64 {
        f(self.lib().net_distance_at(&math, d(px), d(py), d(t)))
    }

    fn lib(&self) -> lib::Obstacle {
        lib::Obstacle {
            x: d(self.x),
            y: d(self.y),
            vx: d(self.vx),
            vy: d(self.vy),
            radius: d(self.radius),
            half_x: d(self.half_x),
            half_y: d(self.half_y),
            heading: d(self.heading),
        }
    }
}

fn obstacles_lib(obstacles: &[Obstacle]) -> Vec<lib::Obstacle> {
    obstacles.iter().map(|o| o.lib()).collect()
}

#[derive(Debug, Clone)]
struct PathWaypoint {
    x: f64,
    y: f64,
    theta: f64,
    steering: f64,
    dir: SegmentDir,
}

fn path_lib(path: &[PathWaypoint]) -> Vec<planning::global_planner::PathWaypoint> {
    path.iter()
        .map(|w| planning::global_planner::PathWaypoint {
            x: d(w.x),
            y: d(w.y),
            theta: d(w.theta),
            steering: d(w.steering),
            dir: w.dir,
        })
        .collect()
}

#[derive(Debug, Clone)]
struct DwaConfig {
    max_speed: f64,
    max_angular_speed: f64,
    max_acceleration: f64,
    max_deceleration: f64,
    max_angular_accel: f64,
    sim_time: f64,
    sim_dt: f64,
    v_samples: usize,
    w_samples: usize,
    heading_weight: f64,
    distance_weight: f64,
    velocity_weight: f64,
    obstacle_weight: f64,
    weight_continuity: f64,
    robot_radius: f64,
    recovery_margin_scale: f64,
    margin_low_speed_scale: f64,
    moving_obstacle_margin_gain: f64,
    high_speed_margin_gain: f64,
    max_curvature: f64,
}

impl Default for DwaConfig {
    fn default() -> Self {
        let c = dwa::DwaConfig::default();
        DwaConfig {
            max_speed: f(c.max_speed),
            max_angular_speed: f(c.max_angular_speed),
            max_acceleration: f(c.max_acceleration),
            max_deceleration: f(c.max_deceleration),
            max_angular_accel: f(c.max_angular_accel),
            sim_time: f(c.sim_time),
            sim_dt: f(c.sim_dt),
            v_samples: c.v_samples,
            w_samples: c.w_samples,
            heading_weight: f(c.heading_weight),
            distance_weight: f(c.distance_weight),
            velocity_weight: f(c.velocity_weight),
            obstacle_weight: f(c.obstacle_weight),
            weight_continuity: f(c.weight_continuity),
            robot_radius: f(c.robot_radius),
            recovery_margin_scale: f(c.recovery_margin_scale),
            margin_low_speed_scale: f(c.margin_low_speed_scale),
            moving_obstacle_margin_gain: f(c.moving_obstacle_margin_gain),
            high_speed_margin_gain: f(c.high_speed_margin_gain),
            max_curvature: f(c.max_curvature),
        }
    }
}

impl DwaConfig {
    fn lib(&self) -> dwa::DwaConfig {
        dwa::DwaConfig {
            max_speed: d(self.max_speed),
            max_angular_speed: d(self.max_angular_speed),
            max_acceleration: d(self.max_acceleration),
            max_deceleration: d(self.max_deceleration),
            max_angular_accel: d(self.max_angular_accel),
            sim_time: d(self.sim_time),
            sim_dt: d(self.sim_dt),
            v_samples: self.v_samples,
            w_samples: self.w_samples,
            heading_weight: d(self.heading_weight),
            distance_weight: d(self.distance_weight),
            velocity_weight: d(self.velocity_weight),
            obstacle_weight: d(self.obstacle_weight),
            weight_continuity: d(self.weight_continuity),
            robot_radius: d(self.robot_radius),
            recovery_margin_scale: d(self.recovery_margin_scale),
            margin_low_speed_scale: d(self.margin_low_speed_scale),
            moving_obstacle_margin_gain: d(self.moving_obstacle_margin_gain),
            high_speed_margin_gain: d(self.high_speed_margin_gain),
            max_curvature: d(self.max_curvature),
        }
    }
}

#[derive(Debug, Clone)]
struct MpcConfig {
    horizon: usize,
    dt: f64,
    max_speed: f64,
    max_angular_speed: f64,
    wheelbase: f64,
    max_steering_angle: f64,
    iterations: usize,
    robot_radius: f64,
    weight_position: f64,
    weight_heading: f64,
    weight_velocity: f64,
    weight_steer_rate: f64,
    weight_obstacle: f64,
}

impl Default for MpcConfig {
    fn default() -> Self {
        let c = mpc::MpcConfig::default();
        MpcConfig {
            horizon: c.horizon,
            dt: f(c.dt),
            max_speed: f(c.max_speed),
            max_angular_speed: f(c.max_angular_speed),
            wheelbase: f(c.wheelbase),
            max_steering_angle: f(c.max_steering_angle),
            iterations: c.iterations,
            robot_radius: f(c.robot_radius),
            weight_position: f(c.weight_position),
            weight_heading: f(c.weight_heading),
            weight_velocity: f(c.weight_velocity),
            weight_steer_rate: f(c.weight_steer_rate),
            weight_obstacle: f(c.weight_obstacle),
        }
    }
}

impl MpcConfig {
    fn lib(&self) -> mpc::MpcConfig {
        mpc::MpcConfig {
            horizon: self.horizon,
            dt: d(self.dt),
            max_speed: d(self.max_speed),
            max_angular_speed: d(self.max_angular_speed),
            wheelbase: d(self.wheelbase),
            max_steering_angle: d(self.max_steering_angle),
            iterations: self.iterations,
            robot_radius: d(self.robot_radius),
            weight_position: d(self.weight_position),
            weight_heading: d(self.weight_heading),
            weight_velocity: d(self.weight_velocity),
            weight_steer_rate: d(self.weight_steer_rate),
            weight_obstacle: d(self.weight_obstacle),
        }
    }
}

#[derive(Debug, Clone)]
struct PursuitConfig {
    k_v: f64,
    lookahead_min: f64,
    lookahead_max: f64,
    a_lat_max: f64,
    reverse_speed_cap: f64,
    v_turn_min: f64,
    curvature_lookahead_gain: f64,
    heading_error_lookahead_gain: f64,
}

impl Default for PursuitConfig {
    fn default() -> Self {
        let c = pursuit::PursuitConfig::default();
        PursuitConfig {
            k_v: f(c.k_v),
            lookahead_min: f(c.lookahead_min),
            lookahead_max: f(c.lookahead_max),
            a_lat_max: f(c.a_lat_max),
            reverse_speed_cap: f(c.reverse_speed_cap),
            v_turn_min: f(c.v_turn_min),
            curvature_lookahead_gain: f(c.curvature_lookahead_gain),
            heading_error_lookahead_gain: f(c.heading_error_lookahead_gain),
        }
    }
}

impl PursuitConfig {
    fn lib(&self) -> pursuit::PursuitConfig {
        pursuit::PursuitConfig {
            k_v: d(self.k_v),
            lookahead_min: d(self.lookahead_min),
            lookahead_max: d(self.lookahead_max),
            a_lat_max: d(self.a_lat_max),
            reverse_speed_cap: d(self.reverse_speed_cap),
            v_turn_min: d(self.v_turn_min),
            curvature_lookahead_gain: d(self.curvature_lookahead_gain),
            heading_error_lookahead_gain: d(self.heading_error_lookahead_gain),
        }
    }
}

#[derive(Debug, Clone)]
struct TrackingMpcConfig {
    enabled: bool,
    horizon_steps: usize,
    dt: f64,
    phase1_s: f64,
    w_lat: f64,
    w_head: f64,
    w_speed: f64,
    w_dkappa: f64,
    w_kappa_cont: f64,
    finish_m: f64,
    a_lat_max: f64,
}

impl Default for TrackingMpcConfig {
    fn default() -> Self {
        let c = tracking_mpc::TrackingMpcConfig::default();
        TrackingMpcConfig {
            enabled: c.enabled,
            horizon_steps: c.horizon_steps,
            dt: f(c.dt),
            phase1_s: f(c.phase1_s),
            w_lat: f(c.w_lat),
            w_head: f(c.w_head),
            w_speed: f(c.w_speed),
            w_dkappa: f(c.w_dkappa),
            w_kappa_cont: f(c.w_kappa_cont),
            finish_m: f(c.finish_m),
            a_lat_max: f(c.a_lat_max),
        }
    }
}

impl TrackingMpcConfig {
    fn lib(&self) -> tracking_mpc::TrackingMpcConfig {
        tracking_mpc::TrackingMpcConfig {
            enabled: self.enabled,
            horizon_steps: self.horizon_steps,
            dt: d(self.dt),
            phase1_s: d(self.phase1_s),
            w_lat: d(self.w_lat),
            w_head: d(self.w_head),
            w_speed: d(self.w_speed),
            w_dkappa: d(self.w_dkappa),
            w_kappa_cont: d(self.w_kappa_cont),
            finish_m: d(self.finish_m),
            a_lat_max: d(self.a_lat_max),
        }
    }
}

#[derive(Debug, Clone)]
struct LocalPlannerConfig {
    rate_hz: u32,
    dwa: DwaConfig,
    mpc: MpcConfig,
    pursuit: PursuitConfig,
    tracking_mpc: TrackingMpcConfig,
    mpc_trigger_curvature: f64,
    actuation_delay_s: f64,
}

impl Default for LocalPlannerConfig {
    fn default() -> Self {
        let c = lib::LocalPlannerConfig::default();
        LocalPlannerConfig {
            rate_hz: c.rate_hz,
            dwa: DwaConfig::default(),
            mpc: MpcConfig::default(),
            pursuit: PursuitConfig::default(),
            tracking_mpc: TrackingMpcConfig::default(),
            mpc_trigger_curvature: f(c.mpc_trigger_curvature),
            actuation_delay_s: f(c.actuation_delay_s),
        }
    }
}

impl LocalPlannerConfig {
    fn lib(&self) -> lib::LocalPlannerConfig {
        lib::LocalPlannerConfig {
            rate_hz: self.rate_hz,
            dwa: self.dwa.lib(),
            mpc: self.mpc.lib(),
            pursuit: self.pursuit.lib(),
            tracking_mpc: self.tracking_mpc.lib(),
            mpc_trigger_curvature: d(self.mpc_trigger_curvature),
            actuation_delay_s: d(self.actuation_delay_s),
        }
    }

    fn validate(&self) -> Result<(), ConfigError> {
        self.lib().validate()
    }
}

#[derive(Debug, Clone)]
struct TrajPoint {
    x: f64,
    y: f64,
    theta: f64,
}

fn poses(t: &[lib::TrajPoint]) -> Vec<TrajPoint> {
    t.iter()
        .map(|p| TrajPoint {
            x: f(p.x),
            y: f(p.y),
            theta: f(p.theta),
        })
        .collect()
}

struct LocalPlan {
    command: VelocityCommand,
    trajectory: Vec<TrajPoint>,
    executor: Executor,
    planned_maneuver: bool,
}

fn plan_of(p: lib::LocalPlan) -> LocalPlan {
    LocalPlan {
        command: command(p.command),
        trajectory: poses(&p.trajectory),
        executor: p.executor,
        planned_maneuver: p.planned_maneuver,
    }
}

struct LocalPlanner(lib::LocalPlanner);

impl LocalPlanner {
    fn new(config: LocalPlannerConfig) -> Self {
        LocalPlanner(lib::LocalPlanner::new(config.lib()))
    }

    fn compute(
        &mut self,
        state: &RobotState,
        path: &[PathWaypoint],
        obstacles: &[Obstacle],
        desired_speed: f64,
    ) -> LocalPlan {
        plan_of(self.0.compute(
            &math,
            &state.lib(),
            &path_lib(path),
            &obstacles_lib(obstacles),
            d(desired_speed),
        ))
    }

    fn compute_relaxed(
        &mut self,
        state: &RobotState,
        path: &[PathWaypoint],
        obstacles: &[Obstacle],
        desired_speed: f64,
    ) -> LocalPlan {
        plan_of(self.0.compute_relaxed(
            &math,
            &state.lib(),
            &path_lib(path),
            &obstacles_lib(obstacles),
            d(desired_speed),
        ))
    }

    fn scripted_plan(&mut self, state: &RobotState, command: VelocityCommand) -> LocalPlan {
        plan_of(self.0.scripted_plan(&math, &state.lib(), command.lib()))
    }
}

fn rollout(state: &RobotState, cmd: &VelocityCommand, horizon: f64, dt: f64) -> Vec<TrajPoint> {
    poses(&motion::rollout(
        &math,
        &state.lib(),
        &cmd.lib(),
        d(horizon),
        d(dt),
    ))
}

fn project_state(s: &RobotState, tau: f64) -> RobotState {
    let p = lib::project_state(&math, &s.lib(), d(tau));
    RobotState {
        x: f(p.x),
        y: f(p.y),
        theta: f(p.theta),
        linear_vel: f(p.linear_vel),
        angular_vel: f(p.angular_vel),
    }
}

fn active_run_truncation_index(path: &[PathWaypoint], x: f64, y: f64) -> usize {
    lib::active_run_truncation_index(&path_lib(path), d(x), d(y))
}

fn rear_corridor_clear(
    state: &RobotState,
    obstacles: &[Obstacle],
    robot_radius: f64,
    margin: f64,
    moving_margin_gain: f64,
    reverse_dist: f64,
) -> bool {
    lib::rear_corridor_clear(
        &math,
        &state.lib(),
        &obstacles_lib(obstacles),
        d(robot_radius),
        d(margin),
        d(moving_margin_gain),
        d(reverse_dist),
    )
}

#[derive(Debug)]
struct RearBlocker {
    x: f64,
    surface_dist: f64,
}

fn plan_reverse_escape(
    state: &RobotState,
    obstacles: &[Obstacle],
    robot_radius: f64,
    margin: f64,
    moving_margin_gain: f64,
    reverse_dist: f64,
    speed: f64,
    max_curvature: f64,
) -> Result<VelocityCommand, RearBlocker> {
    lib::plan_reverse_escape(
        &math,
        &state.lib(),
        &obstacles_lib(obstacles),
        d(robot_radius),
        d(margin),
        d(moving_margin_gain),
        d(reverse_dist),
        d(speed),
        d(max_curvature),
    )
    .map(command)
    .map_err(|b| RearBlocker {
        x: f(b.x),
        surface_dist: f(b.surface_dist),
    })
}

#[test]
fn rollout_straight_line_advances_along_x() {
    let state = RobotState {
        x: 0.0,
        y: 0.0,
        theta: 0.0,
        linear_vel: 0.0,
        angular_vel: 0.0,
    };
    let cmd = VelocityCommand {
        linear_x: 0.5,
        angular_z: 0.0,
        confidence: 0.9,
    };
    let traj = rollout(&state, &cmd, 1.0, 0.1);
    assert_eq!(traj.len(), 10);
    let last = traj.last().unwrap();
    assert!((last.x - 0.5).abs() < 1e-9);
    assert!(last.y.abs() < 1e-9);
    assert!(last.theta.abs() < 1e-9);
}

#[test]
fn rollout_pure_rotation_keeps_position() {
    let state = RobotState {
        x: 1.0,
        y: 2.0,
        theta: 0.0,
        linear_vel: 0.0,
        angular_vel: 0.0,
    };
    let cmd = VelocityCommand {
        linear_x: 0.0,
        angular_z: 1.0,
        confidence: 0.9,
    };
    let traj = rollout(&state, &cmd, 1.0, 0.1);
    let last = traj.last().unwrap();
    assert!((last.x - 1.0).abs() < 1e-9);
    assert!((last.y - 2.0).abs() < 1e-9);
    assert!((last.theta - 1.0).abs() < 1e-9);
}

#[test]
fn empty_path_is_confident_stop_not_planner_failure() {
    let mut planner = LocalPlanner::new(LocalPlannerConfig::default());
    let plan = planner.compute(&RobotState::default(), &[], &[], 0.5);
    assert_eq!(plan.command.linear_x, 0.0);
    assert_eq!(plan.command.angular_z, 0.0);
    assert!(plan.command.confidence >= 0.9);
    assert!(plan.trajectory.is_empty());
}

#[test]
fn rear_corridor_blocked_by_obstacle_behind() {
    let state = RobotState {
        x: 0.0,
        y: 0.0,
        theta: 0.0,
        linear_vel: 0.0,
        angular_vel: 0.0,
    };
    let behind = vec![Obstacle::point(-0.2, 0.0)];
    assert!(!rear_corridor_clear(&state, &behind, 0.22, 0.05, 0.4, 0.3));

    let at_end = vec![Obstacle::point(-0.45, 0.0)];
    assert!(!rear_corridor_clear(&state, &at_end, 0.22, 0.05, 0.4, 0.3));

    let fat = vec![Obstacle {
        x: -0.2,
        y: 0.5,
        vx: 0.0,
        vy: 0.0,
        radius: 0.3,
        ..Default::default()
    }];
    assert!(!rear_corridor_clear(&state, &fat, 0.22, 0.05, 0.4, 0.3));
}

#[test]
fn rear_corridor_clear_when_obstacles_ahead_or_offset() {
    let state = RobotState {
        x: 0.0,
        y: 0.0,
        theta: 0.0,
        linear_vel: 0.0,
        angular_vel: 0.0,
    };
    let front = vec![Obstacle::point(0.3, 0.0)];
    assert!(rear_corridor_clear(&state, &front, 0.22, 0.05, 0.4, 0.3));
    let side = vec![Obstacle::point(-0.2, 0.6)];
    assert!(rear_corridor_clear(&state, &side, 0.22, 0.05, 0.4, 0.3));
    let far = vec![Obstacle::point(-1.0, 0.0)];
    assert!(rear_corridor_clear(&state, &far, 0.22, 0.05, 0.4, 0.3));
    assert!(rear_corridor_clear(&state, &[], 0.22, 0.05, 0.4, 0.3));

    let flipped = RobotState {
        theta: std::f64::consts::PI,
        ..state
    };
    assert!(!rear_corridor_clear(&flipped, &front, 0.22, 0.05, 0.4, 0.3));
}

#[test]
fn rear_corridor_clear_when_wedged_against_frontal_cone() {
    let state = RobotState {
        x: 0.0,
        y: 0.0,
        theta: 0.0,
        linear_vel: 0.0,
        angular_vel: 0.0,
    };
    let bearing = std::f64::consts::FRAC_PI_4;
    let mut obstacles = vec![Obstacle {
        x: 0.35 * bearing.cos(),
        y: 0.35 * bearing.sin(),
        vx: 0.0,
        vy: 0.0,
        radius: 0.12,
        ..Default::default()
    }];
    let mut x = -1.5;
    while x <= 0.5 {
        obstacles.push(Obstacle::point(x, -0.6));
        x += 0.1;
    }
    assert!(
        rear_corridor_clear(&state, &obstacles, 0.22, 0.05, 0.4, 0.3),
        "open rear corridor vetoed by the frontal cone the robot is escaping from"
    );
}

#[test]
fn reverse_escape_steers_nose_away_from_frontal_obstacle() {
    let state = RobotState {
        x: 0.0,
        y: 0.0,
        theta: 0.0,
        linear_vel: 0.0,
        angular_vel: 0.0,
    };
    let max_curvature = 2.0;
    let speed = 0.1;

    let left = vec![Obstacle::point(0.3, 0.2)];
    let cmd = plan_reverse_escape(&state, &left, 0.22, 0.05, 0.4, 0.3, speed, max_curvature)
        .expect("open rear must yield an escape");
    assert_eq!(cmd.linear_x, -speed);
    assert!(
        cmd.angular_z < 0.0,
        "nose must rotate away from left obstacle"
    );
    assert!(cmd.angular_z.abs() <= speed * max_curvature + 1e-9);

    let right = vec![Obstacle::point(0.3, -0.2)];
    let cmd = plan_reverse_escape(&state, &right, 0.22, 0.05, 0.4, 0.3, speed, max_curvature)
        .expect("open rear must yield an escape");
    assert!(
        cmd.angular_z > 0.0,
        "nose must rotate away from right obstacle"
    );

    let none: Vec<Obstacle> = Vec::new();
    let cmd = plan_reverse_escape(&state, &none, 0.22, 0.05, 0.4, 0.3, speed, max_curvature)
        .expect("empty world must yield an escape");
    assert_eq!(cmd.angular_z, 0.0, "no side identified => straight reverse");
}

#[test]
fn reverse_escape_sweeps_actual_arc_and_falls_back_to_straight() {
    let state = RobotState {
        x: 0.0,
        y: 0.0,
        theta: 0.0,
        linear_vel: 0.0,
        angular_vel: 0.0,
    };
    let obstacles = vec![
        Obstacle::point(0.3, 0.2),
        Obstacle::point(-0.25, 0.3),
    ];
    let cmd = plan_reverse_escape(&state, &obstacles, 0.22, 0.05, 0.4, 0.3, 0.1, 2.0)
        .expect("straight corridor is open");
    assert_eq!(
        cmd.angular_z, 0.0,
        "arc blocked by swept check must fall back to straight reverse"
    );

    let boxed = vec![
        Obstacle::point(0.3, 0.2),
        Obstacle::point(-0.2, 0.0),
    ];
    let blocker = plan_reverse_escape(&state, &boxed, 0.22, 0.05, 0.4, 0.3, 0.1, 2.0)
        .expect_err("blocked rear must refuse");
    assert!((blocker.x - (-0.2)).abs() < 1e-9);
    assert!(blocker.surface_dist < 0.27);
}

#[test]
fn reverse_sweep_moving_obstacle_demands_wider_berth() {
    let state = RobotState {
        x: 0.0,
        y: 0.0,
        theta: 0.0,
        linear_vel: 0.0,
        angular_vel: 0.0,
    };
    let static_side = vec![Obstacle::point(-0.2, 0.35)];
    assert!(
        rear_corridor_clear(&state, &static_side, 0.22, 0.05, 0.4, 0.3),
        "static obstacle 0.35m off the corridor must not veto the reverse"
    );
    let moving_side = vec![Obstacle {
        x: -0.2,
        y: 0.35,
        vx: 0.0,
        vy: 0.75,
        radius: 0.0,
        ..Default::default()
    }];
    assert!(
        !rear_corridor_clear(&state, &moving_side, 0.22, 0.05, 0.4, 0.3),
        "0.75 m/s obstacle at the same distance must veto the reverse"
    );
    assert!(rear_corridor_clear(
        &state,
        &moving_side,
        0.22,
        0.05,
        0.0,
        0.3
    ));
}

#[test]
fn obstacle_speed_magnitude() {
    assert_eq!(Obstacle::point(1.0, 2.0).speed(), 0.0);
    let ped = Obstacle {
        x: 0.0,
        y: 0.0,
        vx: 0.45,
        vy: -0.6,
        radius: 0.15,
        ..Default::default()
    };
    assert!((ped.speed() - 0.75).abs() < 1e-12);
}

fn s_curve_path() -> Vec<PathWaypoint> {
    let mut path = Vec::new();
    let step = 0.05;
    let quarter = std::f64::consts::FRAC_PI_2;
    let mut t = step;
    while t <= quarter {
        path.push(PathWaypoint {
            x: t.sin(),
            y: 1.0 - t.cos(),
            theta: t,
            steering: 0.0,
            dir: Default::default(),
        });
        t += step;
    }
    let mut t = step;
    while t <= quarter {
        path.push(PathWaypoint {
            x: 2.0 - t.cos(),
            y: 1.0 + t.sin(),
            theta: quarter - t,
            steering: 0.0,
            dir: Default::default(),
        });
        t += step;
    }
    path
}

fn pursuit_only() -> LocalPlannerConfig {
    let mut cfg = LocalPlannerConfig::default();
    cfg.tracking_mpc.enabled = false;
    cfg
}

#[test]
fn s_curve_pursuit_tracks_apex_without_zero_speed() {
    let mut planner = LocalPlanner::new(pursuit_only());
    let path = s_curve_path();
    let goal = path.last().unwrap().clone();
    let mut state = RobotState {
        x: 0.0,
        y: 0.0,
        theta: 0.0,
        linear_vel: 0.5,
        angular_vel: 0.0,
    };
    let dt = 0.1;
    let mut reached = false;
    for cycle in 0..120 {
        let dist_to_goal = ((state.x - goal.x).powi(2) + (state.y - goal.y).powi(2)).sqrt();
        if dist_to_goal < 0.65 {
            reached = true;
            break;
        }
        let plan = planner.compute(&state, &path, &[], 1.5);
        assert_eq!(
            plan.executor,
            Executor::Pursuit,
            "cycle {}: expected the pursuit executor on an open S-curve",
            cycle
        );
        assert!(
            plan.command.linear_x > 0.05,
            "cycle {}: apex hitch — commanded near-zero speed {} at ({:.2},{:.2})",
            cycle,
            plan.command.linear_x,
            state.x,
            state.y
        );
        assert!(
            plan.command.angular_z.abs()
                <= plan.command.linear_x * LocalPlannerConfig::default().dwa.max_curvature
                    + 1e-9,
            "cycle {}: command outside the curvature envelope",
            cycle
        );
        state.x += plan.command.linear_x * state.theta.cos() * dt;
        state.y += plan.command.linear_x * state.theta.sin() * dt;
        state.theta += plan.command.angular_z * dt;
        state.linear_vel = plan.command.linear_x;
        state.angular_vel = plan.command.angular_z;
    }
    assert!(
        reached,
        "S-curve not completed: stalled at ({:.2},{:.2})",
        state.x, state.y
    );
}

fn point_segment_dist(px: f64, py: f64, a: &PathWaypoint, b: &PathWaypoint) -> f64 {
    let (dx, dy) = (b.x - a.x, b.y - a.y);
    let len2 = dx * dx + dy * dy;
    let t = if len2 < 1e-12 {
        0.0
    } else {
        (((px - a.x) * dx + (py - a.y) * dy) / len2).clamp(0.0, 1.0)
    };
    let (cx, cy) = (a.x + t * dx, a.y + t * dy);
    ((px - cx).powi(2) + (py - cy).powi(2)).sqrt()
}

fn s_curve_max_cross_track(gain: f64) -> f64 {
    let mut cfg = pursuit_only();
    cfg.pursuit.curvature_lookahead_gain = gain;
    let mut planner = LocalPlanner::new(cfg);
    let path = s_curve_path();
    let goal = path.last().unwrap().clone();
    let mut state = RobotState {
        x: 0.0,
        y: 0.0,
        theta: 0.0,
        linear_vel: 0.5,
        angular_vel: 0.0,
    };
    let dt = 0.1;
    let mut worst = 0.0f64;
    for _ in 0..120 {
        if ((state.x - goal.x).powi(2) + (state.y - goal.y).powi(2)).sqrt() < 0.65 {
            break;
        }
        let plan = planner.compute(&state, &path, &[], 1.5);
        state.x += plan.command.linear_x * state.theta.cos() * dt;
        state.y += plan.command.linear_x * state.theta.sin() * dt;
        state.theta += plan.command.angular_z * dt;
        state.linear_vel = plan.command.linear_x;
        state.angular_vel = plan.command.angular_z;
        let cross = path
            .windows(2)
            .map(|w| point_segment_dist(state.x, state.y, &w[0], &w[1]))
            .fold(f64::INFINITY, f64::min);
        worst = worst.max(cross);
    }
    worst
}

#[test]
fn s_curve_curvature_lookahead_reduces_cross_track_error() {
    let gain = LocalPlannerConfig::default()
        .pursuit
        .curvature_lookahead_gain;
    assert!(gain > 0.0, "shipped default must enable the shrink");
    let adaptive = s_curve_max_cross_track(gain);
    let speed_only = s_curve_max_cross_track(0.0);
    assert!(
        adaptive < speed_only - 0.05,
        "curvature-adaptive lookahead must cut cross-track error: adaptive {:.3} vs speed-only {:.3}",
        adaptive,
        speed_only
    );
}

#[test]
fn local_planner_config_cross_validation() {
    assert!(LocalPlannerConfig::default().validate().is_ok());
    let mut cfg = LocalPlannerConfig::default();
    cfg.pursuit.v_turn_min = cfg.dwa.max_speed + 0.1;
    assert!(cfg.validate().is_err());
    let mut cfg = LocalPlannerConfig::default();
    cfg.mpc.wheelbase = 0.0;
    assert!(cfg.validate().is_err());
}

#[test]
fn blocked_pursuit_defers_to_dwa_executor() {
    let mut planner = LocalPlanner::new(pursuit_only());
    let state = RobotState {
        x: 0.0,
        y: 0.0,
        theta: 0.0,
        linear_vel: 0.3,
        angular_vel: 0.0,
    };
    let path: Vec<PathWaypoint> = (1..=30)
        .map(|i| PathWaypoint {
            x: 0.1 * i as f64,
            y: 0.0,
            theta: 0.0,
            steering: 0.0,
            dir: Default::default(),
        })
        .collect();
    let mut wall = Vec::new();
    let mut y = -1.0;
    while y <= 1.0 {
        wall.push(Obstacle::point(0.35, y));
        y += 0.05;
    }
    let plan = planner.compute(&state, &path, &wall, 0.5);
    assert_eq!(
        plan.executor,
        Executor::Dwa,
        "blocked pursuit must defer to the DWA fallback"
    );

    let open = planner.compute(&state, &path, &[], 0.5);
    assert_eq!(open.executor, Executor::Pursuit);
    assert!(open.command.linear_x > 0.0);
}

#[test]
fn net_distance_shape_awareness() {
    let b = Obstacle::boxed(0.0, 0.0, 0.2, 0.1, 0.0);
    assert!((b.net_distance_at(0.5, 0.0, 0.0) - 0.3).abs() < 1e-9);
    assert!((b.net_distance_at(0.0, 0.5, 0.0) - 0.4).abs() < 1e-9);
    let corner = ((0.3f64).powi(2) + (0.2f64).powi(2)).sqrt();
    assert!((b.net_distance_at(0.5, 0.3, 0.0) - corner).abs() < 1e-9);
    assert!(b.net_distance_at(0.0, 0.0, 0.0) < 0.0, "inside is negative");
    let r = Obstacle::boxed(0.0, 0.0, 0.2, 0.1, std::f64::consts::FRAC_PI_2);
    assert!((r.net_distance_at(0.5, 0.0, 0.0) - 0.4).abs() < 1e-9);
    assert!((r.net_distance_at(0.0, 0.5, 0.0) - 0.3).abs() < 1e-9);
    let c = Obstacle {
        x: 0.0,
        y: 0.0,
        radius: 0.25,
        ..Default::default()
    };
    assert!((c.net_distance_at(1.0, 0.0, 0.0) - 0.75).abs() < 1e-9);
    assert!(b.radius > 0.2 && b.radius < 0.23);
}

#[test]
fn project_state_arc_and_straight() {
    let s = RobotState {
        x: 1.0,
        y: 2.0,
        theta: 0.0,
        linear_vel: 1.5,
        angular_vel: 0.0,
    };
    let p = project_state(&s, 0.2);
    assert!((p.x - 1.3).abs() < 1e-9 && (p.y - 2.0).abs() < 1e-9);
    let s = RobotState {
        x: 0.0,
        y: 0.0,
        theta: 0.0,
        linear_vel: 1.0,
        angular_vel: std::f64::consts::FRAC_PI_2,
    };
    let p = project_state(&s, 1.0);
    let r = 1.0 / std::f64::consts::FRAC_PI_2;
    assert!((p.x - r).abs() < 1e-9, "arc x {} vs {}", p.x, r);
    assert!((p.y - r).abs() < 1e-9, "arc y {} vs {}", p.y, r);
    assert!((p.theta - std::f64::consts::FRAC_PI_2).abs() < 1e-9);
    let p = project_state(&s, 0.0);
    assert_eq!((p.x, p.y), (0.0, 0.0));
}

#[test]
fn scripted_and_relaxed_plans_carry_executor_labels() {
    let mut planner = LocalPlanner::new(LocalPlannerConfig::default());
    let state = RobotState::default();
    let scripted = planner.scripted_plan(
        &state,
        VelocityCommand {
            linear_x: -0.1,
            angular_z: 0.0,
            confidence: 0.9,
        },
    );
    assert_eq!(scripted.executor, Executor::Scripted);

    let path = vec![PathWaypoint {
        x: 3.0,
        y: 0.0,
        theta: 0.0,
        steering: 0.0,
        dir: Default::default(),
    }];
    let relaxed = planner.compute_relaxed(&state, &path, &[], 0.1);
    assert_eq!(relaxed.executor, Executor::Dwa);

    assert_eq!(Executor::Pursuit.as_str(), "pursuit");
    assert_eq!(Executor::Dwa.as_str(), "dwa");
    assert_eq!(Executor::Mpc.as_str(), "mpc");
    assert_eq!(Executor::Scripted.as_str(), "scripted");
}

#[test]
fn two_segment_reverse_then_forward_closed_loop() {
    let cfg = pursuit_only();
    let (max_acc, max_dec, max_kappa, max_speed) = (
        cfg.dwa.max_acceleration,
        cfg.dwa.max_deceleration,
        cfg.dwa.max_curvature,
        cfg.dwa.max_speed,
    );
    let reverse_cap = cfg.pursuit.reverse_speed_cap;
    let mut planner = LocalPlanner::new(cfg);

    let mut path: Vec<PathWaypoint> = Vec::new();
    for i in 1..=10 {
        path.push(PathWaypoint {
            x: -0.05 * i as f64,
            y: 0.0,
            theta: 0.0,
            steering: 0.0,
            dir: SegmentDir::Reverse,
        });
    }
    let mut t = 0.05;
    while t <= std::f64::consts::FRAC_PI_2 {
        path.push(PathWaypoint {
            x: -0.5 + t.sin(),
            y: 1.0 - t.cos(),
            theta: t,
            steering: 0.0,
            dir: SegmentDir::Forward,
        });
        t += 0.05;
    }
    let goal = path.last().unwrap().clone();

    let mut state = RobotState::default();
    let mut wpath = path.clone();
    let dt = 0.1;
    let mut prev_v = 0.0f64;
    let (mut reversed, mut stopped_at_cusp, mut forward_after_stop) = (false, false, false);
    let mut reached = false;

    for cycle in 0..300 {
        let near = active_run_truncation_index(&wpath, state.x, state.y);
        if near > 0 {
            wpath.drain(..near);
        }
        let d_goal = ((state.x - goal.x).powi(2) + (state.y - goal.y).powi(2)).sqrt();
        if forward_after_stop && d_goal < 0.4 {
            reached = true;
            break;
        }

        let plan = planner.compute(&state, &wpath, &[], 1.0);
        let (v, w) = (plan.command.linear_x, plan.command.angular_z);

        assert!(v.abs() <= max_speed + 1e-9, "cycle {cycle}: |v|={v}");
        assert!(
            w.abs() <= v.abs() * max_kappa + 1e-9,
            "cycle {cycle}: curvature envelope violated v={v} w={w}"
        );
        assert!(
            (v - prev_v).abs() <= max_acc.max(max_dec) * dt + 1e-6,
            "cycle {cycle}: accel jump {prev_v} -> {v}"
        );

        if v < -0.05 {
            assert!(
                v >= -reverse_cap - 1e-9,
                "cycle {cycle}: reverse cap violated v={v}"
            );
            assert_eq!(plan.executor, Executor::Pursuit, "cycle {cycle}");
            assert!(plan.planned_maneuver, "cycle {cycle}: reverse not flagged");
            assert!(
                !forward_after_stop,
                "cycle {cycle}: reverse after forward leg"
            );
            reversed = true;
        }
        if reversed && !forward_after_stop && v.abs() < 1e-9 {
            stopped_at_cusp = true;
        }
        if stopped_at_cusp && v > 0.05 {
            forward_after_stop = true;
        }

        state.x += v * state.theta.cos() * dt;
        state.y += v * state.theta.sin() * dt;
        state.theta += w * dt;
        state.linear_vel = v;
        state.angular_vel = w;
        prev_v = v;
    }
    assert!(reversed, "robot never executed the reverse segment");
    assert!(stopped_at_cusp, "robot never stopped at the cusp");
    assert!(
        forward_after_stop,
        "robot never proceeded forward after the cusp"
    );
    assert!(
        reached,
        "goal not reached: stalled at ({:.2},{:.2})",
        state.x, state.y
    );
}

#[test]
fn blocked_reverse_segment_stops_instead_of_dwa() {
    let mut planner = LocalPlanner::new(LocalPlannerConfig::default());
    let path: Vec<PathWaypoint> = (1..=20)
        .map(|i| PathWaypoint {
            x: -0.05 * i as f64,
            y: 0.0,
            theta: 0.0,
            steering: 0.0,
            dir: SegmentDir::Reverse,
        })
        .collect();
    let mut wall = Vec::new();
    let mut y = -1.0;
    while y <= 1.0 {
        wall.push(Obstacle::point(-0.3, y));
        y += 0.05;
    }
    let plan = planner.compute(&RobotState::default(), &path, &wall, 0.5);
    assert_eq!(plan.executor, Executor::Pursuit);
    assert_eq!(plan.command.linear_x, 0.0);
    assert!(
        plan.command.confidence <= 0.2,
        "blockage must read infeasible"
    );
    assert!(!plan.planned_maneuver);

    let open = planner.compute(&RobotState::default(), &path, &[], 0.5);
    assert!(open.command.linear_x < 0.0);
    assert!(open.planned_maneuver);
}

#[test]
fn truncation_is_scoped_to_the_active_run() {
    let mut path: Vec<PathWaypoint> = Vec::new();
    for i in 1..=10 {
        path.push(PathWaypoint {
            x: -0.05 * i as f64,
            y: 0.0,
            theta: 0.0,
            steering: 0.0,
            dir: SegmentDir::Reverse,
        });
    }
    for i in 0..=20 {
        path.push(PathWaypoint {
            x: -0.5 + 0.1 * i as f64,
            y: 0.02,
            theta: 0.0,
            steering: 0.0,
            dir: SegmentDir::Forward,
        });
    }
    assert_eq!(active_run_truncation_index(&path, 0.0, 0.0), 0);
    assert_eq!(active_run_truncation_index(&path, -0.26, 0.0), 4);
    assert_eq!(active_run_truncation_index(&[], 0.0, 0.0), 0);
}

#[test]
fn rollout_empty_horizon_is_empty() {
    let state = RobotState::default();
    let cmd = VelocityCommand {
        linear_x: 1.0,
        angular_z: 0.0,
        confidence: 0.9,
    };
    assert!(rollout(&state, &cmd, 0.0, 0.1).is_empty());
}
