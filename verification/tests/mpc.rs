use planning::global_planner::SegmentDir;
use planning::ieee::double::Double;
use planning::local_planner as lib;
use planning::local_planner::mpc;
use planning::trig::Circular;

fn d(x: f64) -> Double {
    Double { bits: x.to_bits() }
}

fn f(x: Double) -> f64 {
    f64::from_bits(x.bits)
}

fn math(k: Circular, x: Double, y: Double) -> Double {
    let (x, y) = (f(x), f(y));
    d(match k {
        Circular::Sin => x.sin(),
        Circular::Cos => x.cos(),
        Circular::Tan => x.tan(),
        Circular::Asin => x.asin(),
        Circular::Atan => x.atan(),
        Circular::Atan2 => x.atan2(y),
    })
}

// The library's types with hardware numbers in place of bit patterns.

#[derive(Debug, Clone, Default)]
struct VelocityCommand {
    linear_x: f64,
    angular_z: f64,
    confidence: f32,
}

fn command(c: lib::VelocityCommand) -> VelocityCommand {
    VelocityCommand {
        linear_x: f(c.linear_x),
        angular_z: f(c.angular_z),
        confidence: f32::from_bits(c.confidence.bits),
    }
}

#[derive(Debug, Clone, Default)]
struct RobotState {
    x: f64,
    y: f64,
    theta: f64,
    linear_vel: f64,
    angular_vel: f64,
}

impl RobotState {
    fn lib(&self) -> lib::RobotState {
        lib::RobotState {
            x: d(self.x),
            y: d(self.y),
            theta: d(self.theta),
            linear_vel: d(self.linear_vel),
            angular_vel: d(self.angular_vel),
        }
    }
}

#[derive(Debug, Clone, Default)]
struct Obstacle {
    x: f64,
    y: f64,
    vx: f64,
    vy: f64,
    radius: f64,
    half_x: f64,
    half_y: f64,
    heading: f64,
}

impl Obstacle {
    fn point(x: f64, y: f64) -> Self {
        Obstacle {
            x,
            y,
            ..Default::default()
        }
    }

    fn lib(&self) -> lib::Obstacle {
        lib::Obstacle {
            x: d(self.x),
            y: d(self.y),
            vx: d(self.vx),
            vy: d(self.vy),
            radius: d(self.radius),
            half_x: d(self.half_x),
            half_y: d(self.half_y),
            heading: d(self.heading),
        }
    }
}

fn obstacles_lib(obstacles: &[Obstacle]) -> Vec<lib::Obstacle> {
    obstacles.iter().map(|o| o.lib()).collect()
}

#[derive(Debug, Clone)]
struct PathWaypoint {
    x: f64,
    y: f64,
    theta: f64,
    steering: f64,
    dir: SegmentDir,
}

fn path_lib(path: &[PathWaypoint]) -> Vec<planning::global_planner::PathWaypoint> {
    path.iter()
        .map(|w| planning::global_planner::PathWaypoint {
            x: d(w.x),
            y: d(w.y),
            theta: d(w.theta),
            steering: d(w.steering),
            dir: w.dir,
        })
        .collect()
}

#[derive(Debug, Clone)]
struct MpcConfig {
    horizon: usize,
    dt: f64,
    max_speed: f64,
    max_angular_speed: f64,
    wheelbase: f64,
    max_steering_angle: f64,
    iterations: usize,
    robot_radius: f64,
    weight_position: f64,
    weight_heading: f64,
    weight_velocity: f64,
    weight_steer_rate: f64,
    weight_obstacle: f64,
}

impl Default for MpcConfig {
    fn default() -> Self {
        let c = mpc::MpcConfig::default();
        MpcConfig {
            horizon: c.horizon,
            dt: f(c.dt),
            max_speed: f(c.max_speed),
            max_angular_speed: f(c.max_angular_speed),
            wheelbase: f(c.wheelbase),
            max_steering_angle: f(c.max_steering_angle),
            iterations: c.iterations,
            robot_radius: f(c.robot_radius),
            weight_position: f(c.weight_position),
            weight_heading: f(c.weight_heading),
            weight_velocity: f(c.weight_velocity),
            weight_steer_rate: f(c.weight_steer_rate),
            weight_obstacle: f(c.weight_obstacle),
        }
    }
}

impl MpcConfig {
    fn lib(&self) -> mpc::MpcConfig {
        mpc::MpcConfig {
            horizon: self.horizon,
            dt: d(self.dt),
            max_speed: d(self.max_speed),
            max_angular_speed: d(self.max_angular_speed),
            wheelbase: d(self.wheelbase),
            max_steering_angle: d(self.max_steering_angle),
            iterations: self.iterations,
            robot_radius: d(self.robot_radius),
            weight_position: d(self.weight_position),
            weight_heading: d(self.weight_heading),
            weight_velocity: d(self.weight_velocity),
            weight_steer_rate: d(self.weight_steer_rate),
            weight_obstacle: d(self.weight_obstacle),
        }
    }
}

struct SimpleMpc(mpc::SimpleMpc);

impl SimpleMpc {
    fn new(config: MpcConfig) -> Self {
        SimpleMpc(mpc::SimpleMpc::new(config.lib()))
    }

    fn compute(
        &mut self,
        state: &RobotState,
        path: &[PathWaypoint],
        obstacles: &[Obstacle],
        desired_speed: f64,
    ) -> VelocityCommand {
        command(self.0.compute(
            &math,
            &state.lib(),
            &path_lib(path),
            &obstacles_lib(obstacles),
            d(desired_speed),
        ))
    }
}

#[test]
fn test_mpc_straight() {
    let mut mpc = SimpleMpc::new(MpcConfig::default());
    let state = RobotState { x: 0.0, y: 0.0, theta: 0.0, linear_vel: 0.3, angular_vel: 0.0 };
    let path = vec![
        PathWaypoint { x: 0.5, y: 0.0, theta: 0.0, steering: 0.0, dir: SegmentDir::Forward },
        PathWaypoint { x: 1.0, y: 0.0, theta: 0.0, steering: 0.0, dir: SegmentDir::Forward },
        PathWaypoint { x: 1.5, y: 0.0, theta: 0.0, steering: 0.0, dir: SegmentDir::Forward },
        PathWaypoint { x: 2.0, y: 0.0, theta: 0.0, steering: 0.0, dir: SegmentDir::Forward },
    ];

    let cmd = mpc.compute(&state, &path, &[], 0.5);
    assert!(cmd.linear_x > 0.0, "MPC should produce forward velocity");
}

#[test]
fn test_mpc_obstacle_penalty() {
    let mut mpc = SimpleMpc::new(MpcConfig::default());
    let state = RobotState { x: 0.0, y: 0.0, theta: 0.0, linear_vel: 0.3, angular_vel: 0.0 };
    let path = vec![
        PathWaypoint { x: 1.0, y: 0.0, theta: 0.0, steering: 0.0, dir: SegmentDir::Forward },
    ];
    let obstacles = vec![Obstacle { x: 0.3, y: 0.0, ..Default::default() }];

    let cmd = mpc.compute(&state, &path, &obstacles, 0.5);
    assert!(cmd.linear_x < 0.5 || cmd.angular_z.abs() > 0.01);
}
