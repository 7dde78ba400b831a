use planning::global_planner as lib;
use planning::global_planner::{CostPenalties as LibPenalties, PlanStats, SegmentDir};
use planning::ieee::double::Double;
use planning::trig::Circular;

fn d(x: f64) -> Double {
    Double { bits: x.to_bits() }
}

fn f(x: Double) -> f64 {
    f64::from_bits(x.bits)
}

fn math(k: Circular, x: Double, y: Double) -> Double {
    let (x, y) = (f(x), f(y));
    d(match k {
        Circular::Sin => x.sin(),
        Circular::Cos => x.cos(),
        Circular::Tan => x.tan(),
        Circular::Asin => x.asin(),
        Circular::Atan => x.atan(),
        Circular::Atan2 => x.atan2(y),
    })
}

// The library's types with hardware numbers in place of bit patterns.

#[derive(Debug, Clone)]
struct Pose {
    x: f64,
    y: f64,
    theta: f64,
}

impl Pose {
    fn lib(&self) -> lib::Pose {
        lib::Pose {
            x: d(self.x),
            y: d(self.y),
            theta: d(self.theta),
        }
    }
}

#[derive(Debug, Clone)]
struct PathWaypoint {
    x: f64,
    y: f64,
    theta: f64,
    steering: f64,
    dir: SegmentDir,
}

fn to_lib(path: &[PathWaypoint]) -> Vec<lib::PathWaypoint> {
    path.iter()
        .map(|w| lib::PathWaypoint {
            x: d(w.x),
            y: d(w.y),
            theta: d(w.theta),
            steering: d(w.steering),
            dir: w.dir,
        })
        .collect()
}

fn from_lib(path: Vec<lib::PathWaypoint>) -> Vec<PathWaypoint> {
    path.iter()
        .map(|w| PathWaypoint {
            x: f(w.x),
            y: f(w.y),
            theta: f(w.theta),
            steering: f(w.steering),
            dir: w.dir,
        })
        .collect()
}

struct OccupancyGrid(lib::OccupancyGrid);

impl OccupancyGrid {
    fn new(width: usize, height: usize, resolution: f64, ox: f64, oy: f64) -> Self {
        OccupancyGrid(lib::OccupancyGrid::new(width, height, d(resolution), d(ox), d(oy)))
    }

    fn is_occupied(&self, x: f64, y: f64) -> bool {
        self.0.is_occupied(d(x), d(y))
    }

    fn set_occupied(&mut self, x: f64, y: f64) {
        self.0.set_occupied(d(x), d(y))
    }
}

#[derive(Debug, Clone, Copy)]
struct PhysicalObstacle {
    x: f64,
    y: f64,
    radius: f64,
}

struct EscapeZone {
    cx: f64,
    cy: f64,
    radius: f64,
    obstacles: Vec<lib::PhysicalObstacle>,
}

impl EscapeZone {
    fn with<R>(&self, run: impl Fn(&lib::EscapeZone) -> R) -> R {
        run(&lib::EscapeZone {
            cx: d(self.cx),
            cy: d(self.cy),
            radius: d(self.radius),
            obstacles: &self.obstacles,
        })
    }
}

fn physical_lib(obstacles: &[PhysicalObstacle]) -> Vec<lib::PhysicalObstacle> {
    obstacles
        .iter()
        .map(|o| lib::PhysicalObstacle {
            x: d(o.x),
            y: d(o.y),
            radius: d(o.radius),
        })
        .collect()
}

fn start_escape_zone(
    grid: &OccupancyGrid,
    obstacles: &[PhysicalObstacle],
    x: f64,
    y: f64,
    radius: f64,
) -> Option<EscapeZone> {
    let obstacles = physical_lib(obstacles);
    let (cx, cy, r) = lib::start_escape_zone(&grid.0, &obstacles, d(x), d(y), d(radius))
        .map(|z| (f(z.cx), f(z.cy), f(z.radius)))?;
    Some(EscapeZone {
        cx,
        cy,
        radius: r,
        obstacles,
    })
}

fn pose_blocked(grid: &OccupancyGrid, escape: Option<&EscapeZone>, x: f64, y: f64) -> bool {
    match escape {
        None => lib::pose_blocked(&grid.0, None, d(x), d(y)),
        Some(z) => z.with(|z| lib::pose_blocked(&grid.0, Some(z), d(x), d(y))),
    }
}

struct ClearanceField(lib::ClearanceField);

impl ClearanceField {
    fn build(grid: &OccupancyGrid, cap: f64) -> Self {
        ClearanceField(lib::ClearanceField::build(&grid.0, d(cap)))
    }

    fn distance_at(&self, x: f64, y: f64) -> f64 {
        f(self.0.distance_at(d(x), d(y)))
    }
}

fn path_remains_valid(path: &[PathWaypoint], grid: &OccupancyGrid) -> bool {
    lib::path_remains_valid(&to_lib(path), &grid.0)
}

fn path_remains_valid_with_escape(
    path: &[PathWaypoint],
    grid: &OccupancyGrid,
    escape: Option<&EscapeZone>,
) -> bool {
    let path = to_lib(path);
    match escape {
        None => lib::path_remains_valid_with_escape(&path, &grid.0, None),
        Some(z) => z.with(|z| lib::path_remains_valid_with_escape(&path, &grid.0, Some(z))),
    }
}

fn nearest_waypoint_index(path: &[PathWaypoint], x: f64, y: f64) -> usize {
    lib::nearest_waypoint_index(&to_lib(path), d(x), d(y))
}

#[derive(Clone, Copy)]
struct CostPenalties {
    reverse_cost_multiplier: f64,
    direction_switch_penalty: f64,
}

impl CostPenalties {
    fn none() -> Self {
        let p = LibPenalties::none();
        CostPenalties {
            reverse_cost_multiplier: f(p.reverse_cost_multiplier),
            direction_switch_penalty: f(p.direction_switch_penalty),
        }
    }
}

fn path_cost(
    path: &[PathWaypoint],
    clearance: Option<&ClearanceField>,
    weight: f64,
    decay: f64,
    penalties: CostPenalties,
) -> f64 {
    f(lib::path_cost(
        &to_lib(path),
        clearance.map(|c| &c.0),
        d(weight),
        d(decay),
        LibPenalties {
            reverse_cost_multiplier: d(penalties.reverse_cost_multiplier),
            direction_switch_penalty: d(penalties.direction_switch_penalty),
        },
    ))
}

fn normalize_angle(a: f64) -> f64 {
    f(planning::trig::normalize_angle(d(a)))
}

#[derive(Debug, Clone)]
struct HybridAStarConfig {
    wheelbase: f64,
    max_steering_angle: f64,
    step_size: f64,
    max_iterations: usize,
    clearance_cost_weight: f64,
    clearance_decay_m: f64,
    smoothing_enabled: bool,
    smoothing_alpha: f64,
    smoothing_clearance_beta: f64,
    smoothing_iterations: usize,
    path_improvement_threshold: f64,
    reverse_enabled: bool,
    direction_switch_penalty: f64,
    reverse_cost_multiplier: f64,
    rs_expansion_enabled: bool,
    rs_expansion_radius: f64,
    start_escape_radius: f64,
}

impl Default for HybridAStarConfig {
    fn default() -> Self {
        let c = lib::HybridAStarConfig::default();
        HybridAStarConfig {
            wheelbase: f(c.wheelbase),
            max_steering_angle: f(c.max_steering_angle),
            step_size: f(c.step_size),
            max_iterations: c.max_iterations,
            clearance_cost_weight: f(c.clearance_cost_weight),
            clearance_decay_m: f(c.clearance_decay_m),
            smoothing_enabled: c.smoothing_enabled,
            smoothing_alpha: f(c.smoothing_alpha),
            smoothing_clearance_beta: f(c.smoothing_clearance_beta),
            smoothing_iterations: c.smoothing_iterations,
            path_improvement_threshold: f(c.path_improvement_threshold),
            reverse_enabled: c.reverse_enabled,
            direction_switch_penalty: f(c.direction_switch_penalty),
            reverse_cost_multiplier: f(c.reverse_cost_multiplier),
            rs_expansion_enabled: c.rs_expansion_enabled,
            rs_expansion_radius: f(c.rs_expansion_radius),
            start_escape_radius: f(c.start_escape_radius),
        }
    }
}

impl HybridAStarConfig {
    fn lib(&self) -> lib::HybridAStarConfig {
        lib::HybridAStarConfig {
            wheelbase: d(self.wheelbase),
            max_steering_angle: d(self.max_steering_angle),
            step_size: d(self.step_size),
            max_iterations: self.max_iterations,
            clearance_cost_weight: d(self.clearance_cost_weight),
            clearance_decay_m: d(self.clearance_decay_m),
            smoothing_enabled: self.smoothing_enabled,
            smoothing_alpha: d(self.smoothing_alpha),
            smoothing_clearance_beta: d(self.smoothing_clearance_beta),
            smoothing_iterations: self.smoothing_iterations,
            path_improvement_threshold: d(self.path_improvement_threshold),
            reverse_enabled: self.reverse_enabled,
            direction_switch_penalty: d(self.direction_switch_penalty),
            reverse_cost_multiplier: d(self.reverse_cost_multiplier),
            rs_expansion_enabled: self.rs_expansion_enabled,
            rs_expansion_radius: d(self.rs_expansion_radius),
            start_escape_radius: d(self.start_escape_radius),
            ..Default::default()
        }
    }

    fn validate(&self) -> Result<(), planning::fault::ConfigError> {
        self.lib().validate()
    }
}

struct HybridAStar {
    config: HybridAStarConfig,
    inner: lib::HybridAStar,
}

impl HybridAStar {
    fn new(config: HybridAStarConfig) -> Self {
        HybridAStar {
            inner: lib::HybridAStar::new(config.lib()),
            config,
        }
    }

    fn build_clearance(&self, grid: &OccupancyGrid) -> Option<ClearanceField> {
        self.inner.build_clearance(&grid.0).map(ClearanceField)
    }

    fn plan(&self, start: &Pose, goal: &Pose, grid: &OccupancyGrid) -> Option<Vec<PathWaypoint>> {
        self.inner
            .plan(&math, &start.lib(), &goal.lib(), &grid.0)
            .map(from_lib)
    }

    fn plan_with_stats(
        &self,
        start: &Pose,
        goal: &Pose,
        grid: &OccupancyGrid,
        clearance: Option<&ClearanceField>,
    ) -> (Option<Vec<PathWaypoint>>, PlanStats) {
        let (p, s) = self.inner.plan_with_stats(
            &math,
            &start.lib(),
            &goal.lib(),
            &grid.0,
            clearance.map(|c| &c.0),
        );
        (p.map(from_lib), s)
    }

    fn plan_with_obstacles(
        &self,
        start: &Pose,
        goal: &Pose,
        grid: &OccupancyGrid,
        physical: &[PhysicalObstacle],
    ) -> Option<Vec<PathWaypoint>> {
        let physical = physical_lib(physical);
        self.inner
            .plan_with_obstacles(&math, &start.lib(), &goal.lib(), &grid.0, &physical)
            .map(from_lib)
    }

    fn plan_with_escape(
        &self,
        start: &Pose,
        goal: &Pose,
        grid: &OccupancyGrid,
        clearance: Option<&ClearanceField>,
        zone: Option<&EscapeZone>,
    ) -> (Option<Vec<PathWaypoint>>, PlanStats) {
        let run = |z: Option<&lib::EscapeZone>| {
            self.inner.plan_with_escape(
                &math,
                &start.lib(),
                &goal.lib(),
                &grid.0,
                clearance.map(|c| &c.0),
                z,
            )
        };
        let (p, s) = match zone {
            None => run(None),
            Some(z) => z.with(|z| run(Some(z))),
        };
        (p.map(from_lib), s)
    }

    fn bicycle_step(&self, x: f64, y: f64, theta: f64, steer: f64, dir: SegmentDir) -> (f64, f64, f64) {
        let (x, y, t) = self
            .inner
            .bicycle_step(&math, d(x), d(y), d(theta), d(steer), dir);
        (f(x), f(y), f(t))
    }
}

fn smooth_path(
    raw: &[PathWaypoint],
    grid: &OccupancyGrid,
    clearance: Option<&ClearanceField>,
    cfg: &HybridAStarConfig,
    kappa: f64,
    escape: Option<&EscapeZone>,
) -> Vec<PathWaypoint> {
    let raw = to_lib(raw);
    let run = |z: Option<&lib::EscapeZone>| {
        lib::smoother::smooth_path(
            &math,
            &raw,
            &grid.0,
            clearance.map(|c| &c.0),
            &cfg.lib(),
            d(kappa),
            z,
        )
    };
    from_lib(match escape {
        None => run(None),
        Some(z) => z.with(|z| run(Some(z))),
    })
}

fn empty_grid() -> OccupancyGrid {
    OccupancyGrid::new(100, 100, 0.1, -5.0, -5.0)
}

#[test]
fn test_plan_straight_line() {
    let planner = HybridAStar::new(HybridAStarConfig::default());
    let start = Pose {
        x: 0.0,
        y: 0.0,
        theta: 0.0,
    };
    let goal = Pose {
        x: 2.0,
        y: 0.0,
        theta: 0.0,
    };

    let path = planner.plan(&start, &goal, &empty_grid());
    assert!(path.is_some(), "Should find a straight-line path");

    let path = path.unwrap();
    assert!(path.len() > 2, "Path should have multiple waypoints");

    assert!((path[0].x).abs() < 0.2);
    let last = path.last().unwrap();
    assert!(
        (last.x - 2.0).abs() < 0.5,
        "Last waypoint should be near goal"
    );
}

#[test]
fn test_plan_with_obstacle() {
    let planner = HybridAStar::new(HybridAStarConfig::default());
    let start = Pose {
        x: 0.0,
        y: 0.0,
        theta: 0.0,
    };
    let goal = Pose {
        x: 3.0,
        y: 0.0,
        theta: 0.0,
    };

    let mut grid = empty_grid();
    for x_offset in &[1.4, 1.45, 1.5, 1.55, 1.6] {
        for y_step in -40..40 {
            grid.set_occupied(*x_offset, y_step as f64 * 0.05);
        }
    }

    let path = planner.plan(&start, &goal, &grid);
    assert!(path.is_some(), "Should find a path around the wall");

    let path = path.unwrap();
    let max_y = path.iter().map(|p| p.y.abs()).fold(0.0_f64, f64::max);
    assert!(
        max_y > 0.5,
        "Path should deviate significantly to avoid wall"
    );
}

#[test]
fn test_no_path_blocked() {
    let planner = HybridAStar::new(HybridAStarConfig {
        max_iterations: 5000,
        ..Default::default()
    });
    let start = Pose {
        x: 0.0,
        y: 0.0,
        theta: 0.0,
    };
    let goal = Pose {
        x: 3.0,
        y: 0.0,
        theta: 0.0,
    };

    let mut grid = empty_grid();
    for gx in 0..100 {
        for gy in 0..100 {
            let wx = -5.0 + gx as f64 * 0.1;
            let wy = -5.0 + gy as f64 * 0.1;
            let dist = (wx * wx + wy * wy).sqrt();
            if dist > 0.15 {
                grid.set_occupied(wx, wy);
            }
        }
    }

    let path = planner.plan(&start, &goal, &grid);
    assert!(
        path.is_none(),
        "Should not find a path when completely blocked"
    );
}

/// Corridor along +x with walls at y = ±1.0 and a cone (hard extent
/// ~0.15m of occupied cells) at (2.0, 0.3), offset from the centerline:
/// the free gap on the -y side (~1.15m) is much wider than on the +y side
/// (~0.55m). Start (0,0,0), goal (4,0,0).
fn corridor_with_offset_cone() -> OccupancyGrid {
    let mut grid = empty_grid();
    let mut x = -0.5;
    while x <= 4.5 {
        for wall_y in &[1.0, 1.05, -1.0, -1.05] {
            grid.set_occupied(x, *wall_y);
        }
        x += 0.05;
    }
    let mut cx: f64 = -0.2;
    while cx <= 0.2 {
        let mut cy: f64 = -0.2;
        while cy <= 0.2 {
            if (cx * cx + cy * cy).sqrt() <= 0.15 {
                grid.set_occupied(2.0 + cx, 0.3 + cy);
            }
            cy += 0.05;
        }
        cx += 0.05;
    }
    grid
}

/// Minimum distance from any path waypoint to the cone center (2.0, 0.3).
fn min_dist_to_cone(path: &[PathWaypoint]) -> f64 {
    path.iter()
        .map(|p| ((p.x - 2.0).powi(2) + (p.y - 0.3).powi(2)).sqrt())
        .fold(f64::INFINITY, f64::min)
}

#[test]
fn test_clearance_centers_path_on_wide_side_of_cone() {
    let planner = HybridAStar::new(HybridAStarConfig::default());
    let start = Pose {
        x: 0.0,
        y: 0.0,
        theta: 0.0,
    };
    let goal = Pose {
        x: 4.0,
        y: 0.0,
        theta: 0.0,
    };
    let path = planner
        .plan(&start, &goal, &corridor_with_offset_cone())
        .expect("corridor with offset cone must be traversable");

    let min_dist = min_dist_to_cone(&path);
    assert!(
        min_dist >= 0.15 + 0.2,
        "path hugs the cone: min distance to cone center {:.3} < hard extent + half decay",
        min_dist
    );
    for p in path.iter().filter(|p| p.x > 1.6 && p.x < 2.4) {
        assert!(
            p.y < 0.3,
            "path passed the cone on the narrow side at ({:.2}, {:.2})",
            p.x,
            p.y
        );
    }
}

#[test]
fn test_clearance_off_reproduces_edge_hugging() {
    let planner = HybridAStar::new(HybridAStarConfig {
        clearance_cost_weight: 0.0,
        ..Default::default()
    });
    let start = Pose {
        x: 0.0,
        y: 0.0,
        theta: 0.0,
    };
    let goal = Pose {
        x: 4.0,
        y: 0.0,
        theta: 0.0,
    };
    let path = planner
        .plan(&start, &goal, &corridor_with_offset_cone())
        .expect("corridor must be traversable with the cost layer off");
    assert!(
        min_dist_to_cone(&path) < 0.15 + 0.2,
        "with weight 0 the shortest path should pass closer than the soft band"
    );
}

#[test]
fn test_clearance_narrow_gate_stays_traversable_and_centered() {
    let planner = HybridAStar::new(HybridAStarConfig::default());
    let mut grid = empty_grid();
    for wall_x in &[1.9, 1.95, 2.0, 2.05, 2.1] {
        let mut y: f64 = -4.9;
        while y <= 4.9 {
            if y.abs() >= 0.55 {
                grid.set_occupied(*wall_x, y);
            }
            y += 0.05;
        }
    }
    let start = Pose {
        x: 0.0,
        y: 0.0,
        theta: 0.0,
    };
    let goal = Pose {
        x: 4.0,
        y: 0.0,
        theta: 0.0,
    };
    let path = planner
        .plan(&start, &goal, &grid)
        .expect("1.1m gate must remain traversable with the clearance layer on");
    let crossing: Vec<&PathWaypoint> = path.iter().filter(|p| p.x > 1.7 && p.x < 2.3).collect();
    assert!(!crossing.is_empty(), "path must actually cross the opening");
    for p in crossing {
        assert!(
            p.y.abs() < 0.25,
            "gate crossing off-center at ({:.2}, {:.2})",
            p.x,
            p.y
        );
    }
}

#[test]
fn test_clearance_field_distances() {
    let mut grid = OccupancyGrid::new(40, 40, 0.1, -2.0, -2.0);
    grid.set_occupied(0.0, 0.0);
    let field = ClearanceField::build(&grid, 0.5);
    assert_eq!(field.distance_at(0.0, 0.0), 0.0);
    assert!((field.distance_at(0.1, 0.0) - 0.1).abs() < 1e-6);
    assert!((field.distance_at(0.02, -0.06) - 0.1).abs() < 1e-6);
    assert!((field.distance_at(0.1, 0.1) - 0.1 * std::f64::consts::SQRT_2).abs() < 1e-6);
    assert_eq!(field.distance_at(1.5, 1.5), 0.5);
    assert_eq!(field.distance_at(10.0, 10.0), 0.5);
    let empty = OccupancyGrid::new(10, 10, 0.1, 0.0, 0.0);
    let field = ClearanceField::build(&empty, 0.5);
    assert_eq!(field.distance_at(0.5, 0.5), 0.5);
}

#[test]
fn test_clearance_config_validation() {
    assert!(HybridAStarConfig::default().validate().is_ok());
    assert!(HybridAStarConfig {
        clearance_cost_weight: -1.0,
        ..Default::default()
    }
    .validate()
    .is_err());
    assert!(HybridAStarConfig {
        clearance_decay_m: f64::NAN,
        ..Default::default()
    }
    .validate()
    .is_err());
    assert!(HybridAStarConfig {
        clearance_cost_weight: 0.0,
        ..Default::default()
    }
    .validate()
    .is_ok());
    assert!(HybridAStarConfig {
        smoothing_alpha: 0.6,
        ..Default::default()
    }
    .validate()
    .is_err());
    assert!(HybridAStarConfig {
        smoothing_clearance_beta: -0.1,
        ..Default::default()
    }
    .validate()
    .is_err());
    assert!(HybridAStarConfig {
        smoothing_iterations: 0,
        ..Default::default()
    }
    .validate()
    .is_err());
    assert!(HybridAStarConfig {
        smoothing_enabled: false,
        smoothing_iterations: 0,
        ..Default::default()
    }
    .validate()
    .is_ok());
    assert!(HybridAStarConfig {
        path_improvement_threshold: 1.0,
        ..Default::default()
    }
    .validate()
    .is_err());
    assert!(HybridAStarConfig {
        direction_switch_penalty: -0.1,
        ..Default::default()
    }
    .validate()
    .is_err());
    assert!(HybridAStarConfig {
        reverse_cost_multiplier: 0.5,
        ..Default::default()
    }
    .validate()
    .is_err());
    assert!(HybridAStarConfig {
        rs_expansion_radius: f64::NAN,
        ..Default::default()
    }
    .validate()
    .is_err());
    assert!(HybridAStarConfig {
        start_escape_radius: -0.1,
        ..Default::default()
    }
    .validate()
    .is_err());
    assert!(HybridAStarConfig {
        start_escape_radius: f64::NAN,
        ..Default::default()
    }
    .validate()
    .is_err());
    assert!(HybridAStarConfig {
        start_escape_radius: 0.0,
        ..Default::default()
    }
    .validate()
    .is_ok());
    assert!(HybridAStarConfig {
        direction_switch_penalty: 0.0,
        reverse_cost_multiplier: 1.0,
        ..Default::default()
    }
    .validate()
    .is_ok());
    assert!(HybridAStarConfig {
        path_improvement_threshold: -0.1,
        ..Default::default()
    }
    .validate()
    .is_err());
}

fn wp(x: f64, y: f64) -> PathWaypoint {
    PathWaypoint {
        x,
        y,
        theta: 0.0,
        steering: 0.0,
        dir: Default::default(),
    }
}

#[test]
fn test_path_validity_reverification() {
    let mut grid = empty_grid();
    let path = vec![wp(0.0, 0.0), wp(1.0, 0.0), wp(2.0, 0.0)];
    assert!(path_remains_valid(&path, &grid));

    grid.set_occupied(1.5, 0.0);
    assert!(!path_remains_valid(&path, &grid));

    let mut grid2 = empty_grid();
    grid2.set_occupied(1.5, 1.0);
    assert!(path_remains_valid(&path, &grid2));

    assert!(!path_remains_valid(&[], &grid2));
}

#[test]
fn test_nearest_waypoint_index() {
    let path = vec![wp(0.0, 0.0), wp(1.0, 0.0), wp(2.0, 0.0)];
    assert_eq!(nearest_waypoint_index(&path, -1.0, 0.0), 0);
    assert_eq!(nearest_waypoint_index(&path, 1.1, 0.3), 1);
    assert_eq!(nearest_waypoint_index(&path, 5.0, 5.0), 2);
    assert_eq!(nearest_waypoint_index(&[], 0.0, 0.0), 0);
}

#[test]
fn test_path_cost_length_plus_clearance_penalty() {
    let empty = empty_grid();
    let field = ClearanceField::build(&empty, 0.5);
    let path = vec![wp(0.0, 0.0), wp(2.0, 0.0)];
    let no_pen = CostPenalties::none();
    assert!((path_cost(&path, Some(&field), 3.0, 0.5, no_pen) - 2.0).abs() < 1e-9);
    assert!((path_cost(&path, None, 3.0, 0.5, no_pen) - 2.0).abs() < 1e-9);

    let mut grid = empty_grid();
    grid.set_occupied(1.0, 0.2);
    let field = ClearanceField::build(&grid, 0.5);
    let hugging = path_cost(&path, Some(&field), 3.0, 0.5, no_pen);
    assert!(hugging > 2.0);
    let clear = vec![wp(0.0, -1.0), wp(2.0, -1.0)];
    assert!(path_cost(&clear, Some(&field), 3.0, 0.5, no_pen) < hugging);
}

#[test]
fn test_bicycle_step_straight() {
    let planner = HybridAStar::new(HybridAStarConfig::default());
    let (nx, ny, nt) = planner.bicycle_step(0.0, 0.0, 0.0, 0.0, SegmentDir::Forward);
    let step = planner.config.step_size;
    assert!((nx - step).abs() < 1e-6);
    assert!(ny.abs() < 1e-6);
    assert!(nt.abs() < 1e-6);
}


fn pose(x: f64, y: f64, theta: f64) -> Pose {
    Pose { x, y, theta }
}

/// Cornered start: robot facing a wall 0.3m ahead inside a pocket whose
/// side walls (y = ±0.35, x ∈ [-0.5, 0.4]) leave no lateral room to arc
/// away forward at the 0.38m minimum turn radius; the only open space is
/// BEHIND. Goal ahead-left beyond the frontal wall.
fn cornered_pocket() -> OccupancyGrid {
    let mut grid = OccupancyGrid::new(100, 100, 0.1, -5.0, -5.0);
    for xo in [0.3, 0.35, 0.4] {
        let mut y = -1.2;
        while y <= 1.2 {
            grid.set_occupied(xo, y);
            y += 0.05;
        }
    }
    let mut x = -0.5;
    while x <= 0.4 {
        for yo in [0.35, 0.4, -0.35, -0.4] {
            grid.set_occupied(x, yo);
        }
        x += 0.05;
    }
    grid
}

#[test]
fn cornered_start_plans_reverse_then_forward() {
    let planner = HybridAStar::new(HybridAStarConfig::default());
    let start = pose(0.0, 0.0, 0.0);
    let goal = pose(2.0, 1.8, 0.0);
    let path = planner
        .plan(&start, &goal, &cornered_pocket())
        .expect("bidirectional search must escape the pocket");

    let first_rev = path.iter().position(|w| w.dir == SegmentDir::Reverse);
    let first_rev = first_rev.expect("plan must contain a reverse segment");
    assert!(
        path[first_rev..]
            .iter()
            .any(|w| w.dir == SegmentDir::Forward),
        "plan must continue forward after the reverse escape"
    );
    let last = path.last().unwrap();
    assert!(
        ((last.x - goal.x).powi(2) + (last.y - goal.y).powi(2)).sqrt() < 0.5,
        "path must end near the goal"
    );
}

#[test]
fn cornered_start_forward_only_control_fails() {
    let planner = HybridAStar::new(HybridAStarConfig {
        reverse_enabled: false,
        ..Default::default()
    });
    let start = pose(0.0, 0.0, 0.0);
    let goal = pose(2.0, 1.8, 0.0);
    assert!(
        planner.plan(&start, &goal, &cornered_pocket()).is_none(),
        "forward-only search must fail from the cornered pose"
    );
}

#[test]
fn open_corridor_stays_pure_forward() {
    let planner = HybridAStar::new(HybridAStarConfig::default());
    let mut grid = OccupancyGrid::new(100, 100, 0.1, -5.0, -5.0);
    let mut x = -0.5;
    while x <= 4.5 {
        for yo in [1.0, 1.05, -1.0, -1.05] {
            grid.set_occupied(x, yo);
        }
        x += 0.05;
    }
    let path = planner
        .plan(&pose(0.0, 0.0, 0.0), &pose(4.0, 0.0, 0.0), &grid)
        .expect("open corridor must be plannable");
    assert!(
        path.iter().all(|w| w.dir == SegmentDir::Forward),
        "corridor plan must not contain reverse segments"
    );
}

#[test]
fn rs_expansion_connects_heading_flip() {
    let cfg = HybridAStarConfig::default();
    let kappa_max = cfg.max_steering_angle.tan() / cfg.wheelbase;
    let planner = HybridAStar::new(cfg);
    let grid = OccupancyGrid::new(200, 200, 0.1, -10.0, -10.0);
    let start = pose(0.0, 0.0, 0.0);
    let goal = pose(1.2, 0.9, 2.0);
    let (path, stats) = planner.plan_with_stats(&start, &goal, &grid, None);
    let path = path.expect("open-space RS connection must exist");
    assert!(stats.rs_connected, "plan must end in an RS analytic tail");

    let last = path.last().unwrap();
    assert!(
        ((last.x - goal.x).powi(2) + (last.y - goal.y).powi(2)).sqrt() < 1e-6,
        "RS tail must end exactly at the goal position"
    );
    let dth = normalize_angle(last.theta - goal.theta).abs();
    assert!(dth < 0.1, "goal heading missed by {dth:.3} rad");

    for w in path.windows(3) {
        if w[1].dir != w[0].dir || w[2].dir != w[1].dir {
            continue;
        }
        let ab = ((w[1].x - w[0].x).powi(2) + (w[1].y - w[0].y).powi(2)).sqrt();
        let bc = ((w[2].x - w[1].x).powi(2) + (w[2].y - w[1].y).powi(2)).sqrt();
        let ac = ((w[2].x - w[0].x).powi(2) + (w[2].y - w[0].y).powi(2)).sqrt();
        let cross =
            (w[1].x - w[0].x) * (w[2].y - w[1].y) - (w[1].y - w[0].y) * (w[2].x - w[1].x);
        let denom = ab * bc * ac;
        if denom < 1e-12 {
            continue;
        }
        let kappa = (2.0 * cross / denom).abs();
        assert!(
            kappa <= kappa_max * 1.05 + 1e-9,
            "path curvature {kappa:.2} exceeds the steering limit {kappa_max:.2}"
        );
    }
}

fn wp_dir(x: f64, y: f64, dir: SegmentDir) -> PathWaypoint {
    PathWaypoint {
        x,
        y,
        theta: 0.0,
        steering: 0.0,
        dir,
    }
}

#[test]
fn path_cost_charges_reverse_and_switch_penalties() {
    let shuttle = vec![
        wp_dir(0.0, 0.0, SegmentDir::Forward),
        wp_dir(1.0, 0.0, SegmentDir::Forward),
        wp_dir(0.5, 0.0, SegmentDir::Reverse),
        wp_dir(1.5, 0.0, SegmentDir::Forward),
    ];
    let pen = CostPenalties {
        reverse_cost_multiplier: 2.0,
        direction_switch_penalty: 0.6,
    };
    let cost = path_cost(&shuttle, None, 0.0, 0.0, pen);
    assert!((cost - 4.2).abs() < 1e-9, "shuttle cost {cost} != 4.2");
    let neutral = path_cost(&shuttle, None, 0.0, 0.0, CostPenalties::none());
    assert!(
        (neutral - 2.5).abs() < 1e-9,
        "neutral cost {neutral} != 2.5"
    );
}

/// Expansion counts and times on a 40m x 40m grid with a slalom of cones.
#[test]
fn bidirectional_search_budget_gauntlet_scale() {
    let mut grid = OccupancyGrid::new(400, 400, 0.1, -20.0, -20.0);
    let mut x = -0.5;
    while x <= 12.5 {
        for yo in [1.2, 1.25, -1.2, -1.25] {
            grid.set_occupied(x, yo);
        }
        x += 0.05;
    }
    for i in 0..6 {
        let cx = 1.5 + 1.8 * i as f64;
        let cy = if i % 2 == 0 { 0.45 } else { -0.45 };
        let mut dx = -0.15;
        while dx <= 0.15 {
            let mut dy = -0.15;
            while dy <= 0.15 {
                grid.set_occupied(cx + dx, cy + dy);
                dy += 0.05;
            }
            dx += 0.05;
        }
    }
    let start = Pose {
        x: 0.0,
        y: 0.0,
        theta: 0.0,
    };
    let goal = Pose {
        x: 12.0,
        y: 0.0,
        theta: 0.0,
    };
    let mut results = Vec::new();
    for (label, rev, rs) in [
        ("forward-only", false, false),
        ("bidirectional", true, false),
        ("bidirectional+RS", true, true),
    ] {
        let planner = HybridAStar::new(HybridAStarConfig {
            reverse_enabled: rev,
            rs_expansion_enabled: rs,
            ..Default::default()
        });
        let clearance = planner.build_clearance(&grid);
        let t0 = std::time::Instant::now();
        let (path, stats) = planner.plan_with_stats(&start, &goal, &grid, clearance.as_ref());
        let elapsed = t0.elapsed();
        println!(
            "{label}: found={} iters={} rs_attempts={} rs_connected={} time={:?}",
            path.is_some(),
            stats.iterations,
            stats.rs_attempts,
            stats.rs_connected,
            elapsed
        );
        assert!(path.is_some(), "{label} must solve the gauntlet corridor");
        results.push((label, stats.iterations, elapsed));
    }
    for (label, iters, elapsed) in &results {
        assert!(
            *iters < 100_000,
            "{label} used {iters} expansions on a clear route"
        );
        assert!(
            *elapsed < std::time::Duration::from_millis(250),
            "{label} took {elapsed:?} — exceeds the replan slot even in debug"
        );
    }
}


/// Tracked cone (physical extent 0.15m) dead ahead of the origin-facing
/// robot: center distance 0.38 puts the robot inside the hard-inflation
/// band (0.39 = dwa.robot_radius 0.24 + extent) while staying outside
/// the true-footprint threshold (0.37 = 0.15 + 0.19 + 0.03).
const CONE: PhysicalObstacle = PhysicalObstacle {
    x: 0.38,
    y: 0.0,
    radius: 0.15,
};

/// Wall point samples (untracked, radius 0) flanking the robot at
/// y = ±0.235, x ∈ [-0.2, 0.4]: center distance 0.235 is inside their
/// 0.24 hard inflation and outside the 0.22 true-footprint threshold.
fn wall_points() -> Vec<PhysicalObstacle> {
    let mut pts = Vec::new();
    let mut x = -0.2;
    while x <= 0.4 + 1e-9 {
        for y in [0.235, -0.235] {
            pts.push(PhysicalObstacle { x, y, radius: 0.0 });
        }
        x += 0.05;
    }
    pts
}

/// A grid painted with the hard inflation of the cone and the wall samples.
/// The origin and every first successor land on inflated cells, while the true
/// footprint is free at the origin and straight behind it.
fn pocket() -> (OccupancyGrid, Vec<PhysicalObstacle>) {
    let mut physical = vec![CONE];
    physical.extend(wall_points());
    let mut grid = OccupancyGrid::new(100, 100, 0.1, -5.0, -5.0);
    for obs in &physical {
        let blob = 0.24 + obs.radius;
        let mut dx = -(blob + 0.05);
        while dx <= blob + 0.05 {
            let mut dy = -(blob + 0.05);
            while dy <= blob + 0.05 {
                if (dx * dx + dy * dy).sqrt() <= blob {
                    grid.set_occupied(obs.x + dx, obs.y + dy);
                }
                dy += 0.05;
            }
            dx += 0.05;
        }
    }
    (grid, physical)
}

fn dist_to_cone(wp: &PathWaypoint) -> f64 {
    ((wp.x - CONE.x).powi(2) + (wp.y - CONE.y).powi(2)).sqrt()
}

/// First same-direction run of a path (the leg the executor runs first).
fn first_run(path: &[PathWaypoint]) -> &[PathWaypoint] {
    let dir = path.get(1).map_or(SegmentDir::Forward, |w| w.dir);
    let end = path.iter().position(|w| w.dir != dir).unwrap_or(path.len());
    &path[..end.max(1)]
}

#[test]
fn wedged_start_escape_mode_produces_reverse_escape_plan() {
    let (grid, physical) = pocket();
    let planner = HybridAStar::new(HybridAStarConfig::default());
    let start = Pose {
        x: 0.0,
        y: 0.0,
        theta: 0.0,
    };
    let goal = Pose {
        x: 3.0,
        y: 0.0,
        theta: 0.0,
    };

    assert!(grid.is_occupied(start.x, start.y), "start must be wedged");
    let zone = start_escape_zone(&grid, &physical, start.x, start.y, 0.6);
    assert!(
        zone.is_some(),
        "escape mode must activate: start inside inflation, footprint free"
    );

    assert!(
        planner.plan(&start, &goal, &grid).is_none(),
        "un-relaxed search must fail from the pocket"
    );

    let path = planner
        .plan_with_obstacles(&start, &goal, &grid, &physical)
        .expect("escape mode must produce a plan out of the pocket");
    assert!(path.len() > 2);
    assert_eq!(
        path[1].dir,
        SegmentDir::Reverse,
        "with the cone dead ahead and the rear open, the first segment must be reverse"
    );
    let run = first_run(&path);
    let start_dist = dist_to_cone(&run[0]);
    for w in run {
        assert!(
            dist_to_cone(w) >= start_dist - 1e-9,
            "escape leg approached the wedging cone at ({:.2},{:.2})",
            w.x,
            w.y
        );
    }
    assert!(
        dist_to_cone(run.last().unwrap()) > start_dist + 0.1,
        "escape leg must end clearly farther from the cone"
    );
    let last = path.last().unwrap();
    assert!(
        ((last.x - goal.x).powi(2) + (last.y - goal.y).powi(2)).sqrt() < 0.5,
        "escape plan must still end near the goal"
    );
}

#[test]
fn free_start_is_unchanged_node_for_node() {
    let (grid, physical) = pocket();
    let planner = HybridAStar::new(HybridAStarConfig::default());
    let start = Pose {
        x: -1.5,
        y: 0.5,
        theta: 0.0,
    };
    let goal = Pose {
        x: 3.0,
        y: 0.0,
        theta: 0.0,
    };
    assert!(!grid.is_occupied(start.x, start.y));
    assert!(start_escape_zone(&grid, &physical, start.x, start.y, 0.6).is_none());

    let standard = planner
        .plan(&start, &goal, &grid)
        .expect("free start must plan");
    let with_obstacles = planner
        .plan_with_obstacles(&start, &goal, &grid, &physical)
        .expect("obstacle-aware entry must plan identically");
    assert_eq!(standard.len(), with_obstacles.len());
    for (a, b) in standard.iter().zip(&with_obstacles) {
        assert_eq!(
            (a.x, a.y, a.theta, a.steering, a.dir),
            (b.x, b.y, b.theta, b.steering, b.dir),
            "free-start plan must be unchanged node-for-node"
        );
    }
}

#[test]
fn physical_overlap_keeps_pre_escape_failure_behavior() {
    let (grid, physical) = pocket();
    let planner = HybridAStar::new(HybridAStarConfig::default());
    let start = Pose {
        x: 0.1,
        y: 0.0,
        theta: 0.0,
    };
    let goal = Pose {
        x: 3.0,
        y: 0.0,
        theta: 0.0,
    };
    assert!(
        start_escape_zone(&grid, &physical, start.x, start.y, 0.6).is_none(),
        "physical overlap must never activate escape mode"
    );
    assert!(planner.plan(&start, &goal, &grid).is_none());
    assert!(
        planner
            .plan_with_obstacles(&start, &goal, &grid, &physical)
            .is_none(),
        "an overlapping start must fail"
    );
}

#[test]
fn escape_path_survives_validity_reverification_and_smoothing() {
    let (grid, physical) = pocket();
    let planner = HybridAStar::new(HybridAStarConfig::default());
    let start = Pose {
        x: 0.0,
        y: 0.0,
        theta: 0.0,
    };
    let goal = Pose {
        x: 3.0,
        y: 0.0,
        theta: 0.0,
    };
    let zone = start_escape_zone(&grid, &physical, start.x, start.y, 0.6)
        .expect("escape mode must activate");
    let clearance = planner.build_clearance(&grid);
    let raw = planner
        .plan_with_escape(&start, &goal, &grid, clearance.as_ref(), Some(&zone))
        .0
        .expect("escape plan must exist");

    let escape_leg = first_run(&raw);
    assert!(
        path_remains_valid_with_escape(escape_leg, &grid, Some(&zone)),
        "relaxed re-verification must keep the escape leg valid"
    );
    assert!(
        !path_remains_valid(escape_leg, &grid),
        "the strict check must reject the same leg — the \
         relaxation is load-bearing"
    );

    let cfg = HybridAStarConfig::default();
    let smoothed =
        smooth_path(&raw, &grid, clearance.as_ref(), &cfg, 2.4, Some(&zone));
    assert!(smoothed.len() >= 2);
    assert!(
        (smoothed[0].x - start.x).abs() < 1e-9 && (smoothed[0].y - start.y).abs() < 1e-9,
        "smoothing must preserve the wedged start point"
    );
    assert!(
        path_remains_valid_with_escape(first_run(&smoothed), &grid, Some(&zone)),
        "smoothed escape leg must pass the relaxed re-verification"
    );
}

#[test]
fn pose_blocked_relaxes_only_inside_the_zone() {
    let (grid, physical) = pocket();
    let zone = start_escape_zone(&grid, &physical, 0.0, 0.0, 0.6).expect("zone must build");
    assert!(grid.is_occupied(-0.2, 0.0));
    assert!(!pose_blocked(&grid, Some(&zone), -0.2, 0.0));
    assert!(pose_blocked(&grid, Some(&zone), 0.3, 0.0));
    assert!(pose_blocked(&grid, Some(&zone), 0.62, 0.23));
    assert!(pose_blocked(&grid, None, -0.2, 0.0));
    let corner_zone = EscapeZone {
        cx: -4.95,
        cy: -4.95,
        radius: 0.6,
        obstacles: Vec::new(),
    };
    assert!(pose_blocked(&grid, Some(&corner_zone), -5.2, -4.95));
}

