use planning::global_planner as lib;
use planning::global_planner::SegmentDir;
use planning::ieee::double::Double;
use planning::trig::Circular;

fn d(x: f64) -> Double {
    Double { bits: x.to_bits() }
}

fn f(x: Double) -> f64 {
    f64::from_bits(x.bits)
}

fn math(k: Circular, x: Double, y: Double) -> Double {
    let (x, y) = (f(x), f(y));
    d(match k {
        Circular::Sin => x.sin(),
        Circular::Cos => x.cos(),
        Circular::Tan => x.tan(),
        Circular::Asin => x.asin(),
        Circular::Atan => x.atan(),
        Circular::Atan2 => x.atan2(y),
    })
}

// The library's types with hardware numbers in place of bit patterns.

#[derive(Debug, Clone)]
struct Pose {
    x: f64,
    y: f64,
    theta: f64,
}

impl Pose {
    fn lib(&self) -> lib::Pose {
        lib::Pose {
            x: d(self.x),
            y: d(self.y),
            theta: d(self.theta),
        }
    }
}

#[derive(Debug, Clone)]
struct PathWaypoint {
    x: f64,
    y: f64,
    theta: f64,
    steering: f64,
    dir: SegmentDir,
}

fn from_lib(path: Vec<lib::PathWaypoint>) -> Vec<PathWaypoint> {
    path.iter()
        .map(|w| PathWaypoint {
            x: f(w.x),
            y: f(w.y),
            theta: f(w.theta),
            steering: f(w.steering),
            dir: w.dir,
        })
        .collect()
}

struct OccupancyGrid(lib::OccupancyGrid);

impl OccupancyGrid {
    fn new(width: usize, height: usize, resolution: f64, ox: f64, oy: f64) -> Self {
        OccupancyGrid(lib::OccupancyGrid::new(width, height, d(resolution), d(ox), d(oy)))
    }

    fn set_occupied(&mut self, x: f64, y: f64) {
        self.0.set_occupied(d(x), d(y))
    }
}

struct ClearanceField(lib::ClearanceField);

impl ClearanceField {
    fn build(grid: &OccupancyGrid, cap: f64) -> Self {
        ClearanceField(lib::ClearanceField::build(&grid.0, d(cap)))
    }

    fn distance_at(&self, x: f64, y: f64) -> f64 {
        f(self.0.distance_at(d(x), d(y)))
    }
}

fn normalize_angle(a: f64) -> f64 {
    f(planning::trig::normalize_angle(d(a)))
}

#[derive(Debug, Clone)]
struct HybridAStarConfig {
    wheelbase: f64,
    max_steering_angle: f64,
    step_size: f64,
    max_iterations: usize,
    clearance_cost_weight: f64,
    clearance_decay_m: f64,
    smoothing_enabled: bool,
    smoothing_alpha: f64,
    smoothing_clearance_beta: f64,
    smoothing_iterations: usize,
    path_improvement_threshold: f64,
    reverse_enabled: bool,
    direction_switch_penalty: f64,
    reverse_cost_multiplier: f64,
    rs_expansion_enabled: bool,
    rs_expansion_radius: f64,
    start_escape_radius: f64,
}

impl Default for HybridAStarConfig {
    fn default() -> Self {
        let c = lib::HybridAStarConfig::default();
        HybridAStarConfig {
            wheelbase: f(c.wheelbase),
            max_steering_angle: f(c.max_steering_angle),
            step_size: f(c.step_size),
            max_iterations: c.max_iterations,
            clearance_cost_weight: f(c.clearance_cost_weight),
            clearance_decay_m: f(c.clearance_decay_m),
            smoothing_enabled: c.smoothing_enabled,
            smoothing_alpha: f(c.smoothing_alpha),
            smoothing_clearance_beta: f(c.smoothing_clearance_beta),
            smoothing_iterations: c.smoothing_iterations,
            path_improvement_threshold: f(c.path_improvement_threshold),
            reverse_enabled: c.reverse_enabled,
            direction_switch_penalty: f(c.direction_switch_penalty),
            reverse_cost_multiplier: f(c.reverse_cost_multiplier),
            rs_expansion_enabled: c.rs_expansion_enabled,
            rs_expansion_radius: f(c.rs_expansion_radius),
            start_escape_radius: f(c.start_escape_radius),
        }
    }
}

impl HybridAStarConfig {
    fn lib(&self) -> lib::HybridAStarConfig {
        lib::HybridAStarConfig {
            wheelbase: d(self.wheelbase),
            max_steering_angle: d(self.max_steering_angle),
            step_size: d(self.step_size),
            max_iterations: self.max_iterations,
            clearance_cost_weight: d(self.clearance_cost_weight),
            clearance_decay_m: d(self.clearance_decay_m),
            smoothing_enabled: self.smoothing_enabled,
            smoothing_alpha: d(self.smoothing_alpha),
            smoothing_clearance_beta: d(self.smoothing_clearance_beta),
            smoothing_iterations: self.smoothing_iterations,
            path_improvement_threshold: d(self.path_improvement_threshold),
            reverse_enabled: self.reverse_enabled,
            direction_switch_penalty: d(self.direction_switch_penalty),
            reverse_cost_multiplier: d(self.reverse_cost_multiplier),
            rs_expansion_enabled: self.rs_expansion_enabled,
            rs_expansion_radius: d(self.rs_expansion_radius),
            start_escape_radius: d(self.start_escape_radius),
            ..Default::default()
        }
    }
}

const PATH_SAMPLE_STEP_M: f64 = 0.05;

fn connect(
    from: &Pose,
    goal: &Pose,
    kappa: f64,
    dir: SegmentDir,
    cfg: &HybridAStarConfig,
    grid: &OccupancyGrid,
    clearance: Option<&ClearanceField>,
) -> Option<Vec<PathWaypoint>> {
    lib::reeds_shepp::connect(
        &math,
        &from.lib(),
        &goal.lib(),
        d(kappa),
        dir,
        &cfg.lib(),
        &grid.0,
        clearance.map(|c| &c.0),
        None,
    )
    .map(from_lib)
}

const KAPPA: f64 = 2.36;

fn open_grid() -> OccupancyGrid {
    OccupancyGrid::new(400, 400, 0.1, -20.0, -20.0)
}

fn cfg() -> HybridAStarConfig {
    HybridAStarConfig::default()
}

fn end_pose_error(path: &[PathWaypoint], goal: &Pose) -> (f64, f64) {
    let last = path.last().unwrap();
    let dpos = ((last.x - goal.x).powi(2) + (last.y - goal.y).powi(2)).sqrt();
    let dth = normalize_angle(last.theta - goal.theta).abs();
    (dpos, dth)
}

/// Chain continuity + endpoint exactness over a spread of goal poses:
/// every consecutive waypoint gap ≤ 5cm + slack, headings consistent
/// with travel, endpoint exactly the goal.
#[test]
fn rs_connects_pose_grid_exactly() {
    let grid = open_grid();
    let from = Pose {
        x: 0.0,
        y: 0.0,
        theta: 0.0,
    };
    let mut solved = 0;
    for &gx in &[-1.5, -0.5, 0.5, 1.5] {
        for &gy in &[-1.2, 0.0, 1.2] {
            for &gth in &[-2.5, -1.0, 0.0, 1.6, 3.0] {
                let goal = Pose {
                    x: gx,
                    y: gy,
                    theta: gth,
                };
                let Some(path) = connect(
                    &from,
                    &goal,
                    KAPPA,
                    SegmentDir::Forward,
                    &cfg(),
                    &grid,
                    None,
) else {
                    continue;
                };
                solved += 1;
                let (dpos, dth) = end_pose_error(&path, &goal);
                assert!(
                    dpos < 1e-6,
                    "endpoint off goal by {dpos} for {gx},{gy},{gth}"
                );
                assert!(dth < 1e-6, "heading off goal by {dth} for {gx},{gy},{gth}");
                for w in path.windows(2) {
                    let gap = ((w[1].x - w[0].x).powi(2) + (w[1].y - w[0].y).powi(2)).sqrt();
                    assert!(gap < PATH_SAMPLE_STEP_M + 0.02, "gap {gap} too wide");
                }
            }
        }
    }
    assert!(solved >= 50, "only {solved}/60 poses solved");
}

#[test]
fn rs_collision_rejects_blocked_connection() {
    let mut grid = open_grid();
    let mut y = -2.0;
    while y <= 2.0 {
        for xo in [0.7, 0.75, 0.8] {
            grid.set_occupied(xo, y);
        }
        y += 0.05;
    }
    let from = Pose {
        x: 0.0,
        y: 0.0,
        theta: 0.0,
    };
    let goal = Pose {
        x: 1.5,
        y: 0.0,
        theta: 0.0,
    };
    assert!(
        connect(
            &from,
            &goal,
            KAPPA,
            SegmentDir::Forward,
            &cfg(),
            &grid,
            None,
)
        .is_none(),
        "a straight-blocked goal 1.5m out must not connect (detours would \
         need to leave the wall's span, which the sampler rejects)"
    );
}

#[test]
fn rs_clearance_no_worse_rule_rejects_pinch() {
    let mut grid = open_grid();
    grid.set_occupied(0.75, 0.35);
    let field = ClearanceField::build(&grid, 0.5);
    let from = Pose {
        x: 0.0,
        y: 0.0,
        theta: 0.0,
    };
    let goal = Pose {
        x: 1.5,
        y: 0.0,
        theta: 0.0,
    };
    let with_rule = connect(
        &from,
        &goal,
        KAPPA,
        SegmentDir::Forward,
        &cfg(),
        &grid,
        Some(&field),
);
    if let Some(path) = with_rule {
        let req = field
            .distance_at(from.x, from.y)
            .min(field.distance_at(goal.x, goal.y));
        for p in &path {
            assert!(
                field.distance_at(p.x, p.y) >= req - 1e-9,
                "sample at ({:.2},{:.2}) violates the no-worse rule",
                p.x,
                p.y
            );
        }
    }
    assert!(connect(
        &from,
        &goal,
        KAPPA,
        SegmentDir::Forward,
        &cfg(),
        &grid,
        None,
)
    .is_some());
}
