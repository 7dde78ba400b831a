use planning::fault::ConfigError;
use planning::global_planner::SegmentDir;
use planning::ieee::double::Double;
use planning::local_planner as lib;
use planning::local_planner::dwa;
use planning::local_planner::tracking_mpc;
use planning::trig::Circular;

fn d(x: f64) -> Double {
    Double { bits: x.to_bits() }
}

fn f(x: Double) -> f64 {
    f64::from_bits(x.bits)
}

fn math(k: Circular, x: Double, y: Double) -> Double {
    let (x, y) = (f(x), f(y));
    d(match k {
        Circular::Sin => x.sin(),
        Circular::Cos => x.cos(),
        Circular::Tan => x.tan(),
        Circular::Asin => x.asin(),
        Circular::Atan => x.atan(),
        Circular::Atan2 => x.atan2(y),
    })
}

// The library's types with hardware numbers in place of bit patterns.

#[derive(Debug, Clone, Default)]
struct VelocityCommand {
    linear_x: f64,
    angular_z: f64,
    confidence: f32,
}

fn command(c: lib::VelocityCommand) -> VelocityCommand {
    VelocityCommand {
        linear_x: f(c.linear_x),
        angular_z: f(c.angular_z),
        confidence: f32::from_bits(c.confidence.bits),
    }
}

#[derive(Debug, Clone, Default)]
struct RobotState {
    x: f64,
    y: f64,
    theta: f64,
    linear_vel: f64,
    angular_vel: f64,
}

impl RobotState {
    fn lib(&self) -> lib::RobotState {
        lib::RobotState {
            x: d(self.x),
            y: d(self.y),
            theta: d(self.theta),
            linear_vel: d(self.linear_vel),
            angular_vel: d(self.angular_vel),
        }
    }
}

#[derive(Debug, Clone, Default)]
struct Obstacle {
    x: f64,
    y: f64,
    vx: f64,
    vy: f64,
    radius: f64,
    half_x: f64,
    half_y: f64,
    heading: f64,
}

impl Obstacle {
    fn point(x: f64, y: f64) -> Self {
        Obstacle {
            x,
            y,
            ..Default::default()
        }
    }

    fn lib(&self) -> lib::Obstacle {
        lib::Obstacle {
            x: d(self.x),
            y: d(self.y),
            vx: d(self.vx),
            vy: d(self.vy),
            radius: d(self.radius),
            half_x: d(self.half_x),
            half_y: d(self.half_y),
            heading: d(self.heading),
        }
    }
}

fn obstacles_lib(obstacles: &[Obstacle]) -> Vec<lib::Obstacle> {
    obstacles.iter().map(|o| o.lib()).collect()
}

#[derive(Debug, Clone)]
struct PathWaypoint {
    x: f64,
    y: f64,
    theta: f64,
    steering: f64,
    dir: SegmentDir,
}

fn path_lib(path: &[PathWaypoint]) -> Vec<planning::global_planner::PathWaypoint> {
    path.iter()
        .map(|w| planning::global_planner::PathWaypoint {
            x: d(w.x),
            y: d(w.y),
            theta: d(w.theta),
            steering: d(w.steering),
            dir: w.dir,
        })
        .collect()
}

#[derive(Debug, Clone)]
struct DwaConfig {
    max_speed: f64,
    max_angular_speed: f64,
    max_acceleration: f64,
    max_deceleration: f64,
    max_angular_accel: f64,
    sim_time: f64,
    sim_dt: f64,
    v_samples: usize,
    w_samples: usize,
    heading_weight: f64,
    distance_weight: f64,
    velocity_weight: f64,
    obstacle_weight: f64,
    weight_continuity: f64,
    robot_radius: f64,
    recovery_margin_scale: f64,
    margin_low_speed_scale: f64,
    moving_obstacle_margin_gain: f64,
    high_speed_margin_gain: f64,
    max_curvature: f64,
}

impl Default for DwaConfig {
    fn default() -> Self {
        let c = dwa::DwaConfig::default();
        DwaConfig {
            max_speed: f(c.max_speed),
            max_angular_speed: f(c.max_angular_speed),
            max_acceleration: f(c.max_acceleration),
            max_deceleration: f(c.max_deceleration),
            max_angular_accel: f(c.max_angular_accel),
            sim_time: f(c.sim_time),
            sim_dt: f(c.sim_dt),
            v_samples: c.v_samples,
            w_samples: c.w_samples,
            heading_weight: f(c.heading_weight),
            distance_weight: f(c.distance_weight),
            velocity_weight: f(c.velocity_weight),
            obstacle_weight: f(c.obstacle_weight),
            weight_continuity: f(c.weight_continuity),
            robot_radius: f(c.robot_radius),
            recovery_margin_scale: f(c.recovery_margin_scale),
            margin_low_speed_scale: f(c.margin_low_speed_scale),
            moving_obstacle_margin_gain: f(c.moving_obstacle_margin_gain),
            high_speed_margin_gain: f(c.high_speed_margin_gain),
            max_curvature: f(c.max_curvature),
        }
    }
}

impl DwaConfig {
    fn lib(&self) -> dwa::DwaConfig {
        dwa::DwaConfig {
            max_speed: d(self.max_speed),
            max_angular_speed: d(self.max_angular_speed),
            max_acceleration: d(self.max_acceleration),
            max_deceleration: d(self.max_deceleration),
            max_angular_accel: d(self.max_angular_accel),
            sim_time: d(self.sim_time),
            sim_dt: d(self.sim_dt),
            v_samples: self.v_samples,
            w_samples: self.w_samples,
            heading_weight: d(self.heading_weight),
            distance_weight: d(self.distance_weight),
            velocity_weight: d(self.velocity_weight),
            obstacle_weight: d(self.obstacle_weight),
            weight_continuity: d(self.weight_continuity),
            robot_radius: d(self.robot_radius),
            recovery_margin_scale: d(self.recovery_margin_scale),
            margin_low_speed_scale: d(self.margin_low_speed_scale),
            moving_obstacle_margin_gain: d(self.moving_obstacle_margin_gain),
            high_speed_margin_gain: d(self.high_speed_margin_gain),
            max_curvature: d(self.max_curvature),
        }
    }
}

#[derive(Debug, Clone)]
struct TrackingMpcConfig {
    enabled: bool,
    horizon_steps: usize,
    dt: f64,
    phase1_s: f64,
    w_lat: f64,
    w_head: f64,
    w_speed: f64,
    w_dkappa: f64,
    w_kappa_cont: f64,
    finish_m: f64,
    a_lat_max: f64,
}

impl Default for TrackingMpcConfig {
    fn default() -> Self {
        let c = tracking_mpc::TrackingMpcConfig::default();
        TrackingMpcConfig {
            enabled: c.enabled,
            horizon_steps: c.horizon_steps,
            dt: f(c.dt),
            phase1_s: f(c.phase1_s),
            w_lat: f(c.w_lat),
            w_head: f(c.w_head),
            w_speed: f(c.w_speed),
            w_dkappa: f(c.w_dkappa),
            w_kappa_cont: f(c.w_kappa_cont),
            finish_m: f(c.finish_m),
            a_lat_max: f(c.a_lat_max),
        }
    }
}

impl TrackingMpcConfig {
    fn lib(&self) -> tracking_mpc::TrackingMpcConfig {
        tracking_mpc::TrackingMpcConfig {
            enabled: self.enabled,
            horizon_steps: self.horizon_steps,
            dt: d(self.dt),
            phase1_s: d(self.phase1_s),
            w_lat: d(self.w_lat),
            w_head: d(self.w_head),
            w_speed: d(self.w_speed),
            w_dkappa: d(self.w_dkappa),
            w_kappa_cont: d(self.w_kappa_cont),
            finish_m: d(self.finish_m),
            a_lat_max: d(self.a_lat_max),
        }
    }

    fn validate(&self) -> Result<(), ConfigError> {
        self.lib().validate()
    }
}

struct TrackingMpc(tracking_mpc::TrackingMpc);

impl TrackingMpc {
    fn new(config: TrackingMpcConfig, dwa: DwaConfig) -> Self {
        TrackingMpc(tracking_mpc::TrackingMpc::new(config.lib(), dwa.lib()))
    }

    fn compute(
        &mut self,
        state: &RobotState,
        run: &[PathWaypoint],
        obstacles: &[Obstacle],
        desired_speed: f64,
        prev_cmd_v: f64,
        stop_at_end: bool,
    ) -> Option<(VelocityCommand, Vec<lib::TrajPoint>)> {
        self.0
            .compute(
                &math,
                &state.lib(),
                &path_lib(run),
                &obstacles_lib(obstacles),
                d(desired_speed),
                d(prev_cmd_v),
                stop_at_end,
            )
            .map(|(c, t)| (command(c), t))
    }
}

fn straight_run(len_m: f64, spacing: f64) -> Vec<PathWaypoint> {
    let n = (len_m / spacing) as usize;
    (0..=n)
        .map(|i| PathWaypoint {
            x: spacing * i as f64,
            y: 0.0,
            theta: 0.0,
            steering: 0.0,
            dir: SegmentDir::Forward,
        })
        .collect()
}

fn mpc() -> TrackingMpc {
    TrackingMpc::new(TrackingMpcConfig::default(), DwaConfig::default())
}

fn simulate(
    mut state: RobotState,
    run: &[PathWaypoint],
    cycles: usize,
) -> (f64, RobotState, f64) {
    let mut mpc = mpc();
    let mut prev_v = state.linear_vel;
    let mut crossed = state.y < 0.0;
    let mut overshoot: f64 = 0.0;
    for _ in 0..cycles {
        let Some((cmd, _)) = mpc.compute(&state, run, &[], 2.0, prev_v, true) else {
            break;
        };
        let (v, w) = (cmd.linear_x, cmd.angular_z);
        for _ in 0..5 {
            state.x += v * state.theta.cos() * 0.02;
            state.y += v * state.theta.sin() * 0.02;
            state.theta += w * 0.02;
        }
        state.linear_vel = v;
        state.angular_vel = w;
        prev_v = v;
        if state.y < 0.0 {
            crossed = true;
        }
        if crossed {
            overshoot = overshoot.max(-state.y);
        }
    }
    (overshoot, state, prev_v)
}

#[test]
fn test_mpc_converges_with_small_overshoot() {
    let state = RobotState {
        x: 0.0,
        y: 1.0,
        theta: 0.0,
        linear_vel: 1.2,
        angular_vel: 0.0,
    };
    let run = straight_run(20.0, 0.25);
    let (overshoot, end, _) = simulate(state, &run, 80);
    assert!(
        overshoot < 0.15,
        "overshoot {overshoot:.3}m exceeds the 0.15m tracking bound"
    );
    assert!(
        end.y.abs() < 0.12,
        "must settle onto the reference, ended at e={:.3}",
        end.y
    );
    assert!(
        end.x > 4.0,
        "must make progress along the run, x={:.2}",
        end.x
    );
}

#[test]
fn test_mpc_stops_at_run_end() {
    let state = RobotState {
        x: 0.0,
        y: 0.0,
        theta: 0.0,
        linear_vel: 1.5,
        angular_vel: 0.0,
    };
    let run = straight_run(4.0, 0.25);
    let (_, end, last_v) = simulate(state, &run, 100);
    assert!(
        end.x <= 4.0 + 0.05,
        "must not overrun the stop point, x={:.2}",
        end.x
    );
    assert!(end.x >= 3.0, "must reach the handoff zone, x={:.2}", end.x);
    let dec = DwaConfig::default().max_deceleration;
    let envelope = (2.0 * dec * 0.55).sqrt();
    assert!(
        last_v <= envelope + 0.05,
        "handoff speed {last_v:.2} exceeds the physical stop envelope {envelope:.2}"
    );
    assert!(last_v < 1.9, "braking must have begun (v={last_v:.2})");
}

#[test]
fn test_mpc_rejects_blocked_window_and_respects_disable() {
    let state = RobotState {
        x: 0.0,
        y: 0.0,
        theta: 0.0,
        linear_vel: 1.0,
        angular_vel: 0.0,
    };
    let run = straight_run(6.0, 0.25);
    let mut wall = Vec::new();
    let mut yy = -1.0;
    while yy <= 1.0 {
        wall.push(Obstacle::point(0.5, yy));
        yy += 0.05;
    }
    assert!(mpc().compute(&state, &run, &wall, 1.5, 1.0, true).is_none());

    let mut off = TrackingMpc::new(
        TrackingMpcConfig {
            enabled: false,
            ..Default::default()
        },
        DwaConfig::default(),
    );
    assert!(off.compute(&state, &run, &[], 1.5, 1.0, true).is_none());
}

#[test]
fn test_config_validation() {
    assert!(TrackingMpcConfig::default().validate().is_ok());
    assert!(TrackingMpcConfig {
        horizon_steps: 0,
        ..Default::default()
    }
    .validate()
    .is_err());
    assert!(TrackingMpcConfig {
        dt: 0.0,
        ..Default::default()
    }
    .validate()
    .is_err());
    assert!(TrackingMpcConfig {
        w_lat: -1.0,
        ..Default::default()
    }
    .validate()
    .is_err());
}
