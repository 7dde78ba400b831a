use planning::global_planner as lib;
use planning::global_planner::smoother::Terrain;
use planning::global_planner::SegmentDir;
use planning::ieee::double::Double;
use planning::trig::Circular;

fn d(x: f64) -> Double {
    Double { bits: x.to_bits() }
}

fn f(x: Double) -> f64 {
    f64::from_bits(x.bits)
}

fn math(k: Circular, x: Double, y: Double) -> Double {
    let (x, y) = (f(x), f(y));
    d(match k {
        Circular::Sin => x.sin(),
        Circular::Cos => x.cos(),
        Circular::Tan => x.tan(),
        Circular::Asin => x.asin(),
        Circular::Atan => x.atan(),
        Circular::Atan2 => x.atan2(y),
    })
}

// The library's types with hardware numbers in place of bit patterns.

#[derive(Debug, Clone)]
struct PathWaypoint {
    x: f64,
    y: f64,
    theta: f64,
    steering: f64,
    dir: SegmentDir,
}

fn to_lib(path: &[PathWaypoint]) -> Vec<lib::PathWaypoint> {
    path.iter()
        .map(|w| lib::PathWaypoint {
            x: d(w.x),
            y: d(w.y),
            theta: d(w.theta),
            steering: d(w.steering),
            dir: w.dir,
        })
        .collect()
}

fn from_lib(path: Vec<lib::PathWaypoint>) -> Vec<PathWaypoint> {
    path.iter()
        .map(|w| PathWaypoint {
            x: f(w.x),
            y: f(w.y),
            theta: f(w.theta),
            steering: f(w.steering),
            dir: w.dir,
        })
        .collect()
}

struct OccupancyGrid(lib::OccupancyGrid);

impl OccupancyGrid {
    fn new(width: usize, height: usize, resolution: f64, ox: f64, oy: f64) -> Self {
        OccupancyGrid(lib::OccupancyGrid::new(width, height, d(resolution), d(ox), d(oy)))
    }

    fn set_occupied(&mut self, x: f64, y: f64) {
        self.0.set_occupied(d(x), d(y))
    }
}

struct ClearanceField(lib::ClearanceField);

impl ClearanceField {
    fn build(grid: &OccupancyGrid, cap: f64) -> Self {
        ClearanceField(lib::ClearanceField::build(&grid.0, d(cap)))
    }

    fn distance_at(&self, x: f64, y: f64) -> f64 {
        f(self.0.distance_at(d(x), d(y)))
    }
}

#[derive(Debug, Clone)]
struct HybridAStarConfig {
    wheelbase: f64,
    max_steering_angle: f64,
    step_size: f64,
    max_iterations: usize,
    clearance_cost_weight: f64,
    clearance_decay_m: f64,
    smoothing_enabled: bool,
    smoothing_alpha: f64,
    smoothing_clearance_beta: f64,
    smoothing_iterations: usize,
    path_improvement_threshold: f64,
    reverse_enabled: bool,
    direction_switch_penalty: f64,
    reverse_cost_multiplier: f64,
    rs_expansion_enabled: bool,
    rs_expansion_radius: f64,
    start_escape_radius: f64,
}

impl Default for HybridAStarConfig {
    fn default() -> Self {
        let c = lib::HybridAStarConfig::default();
        HybridAStarConfig {
            wheelbase: f(c.wheelbase),
            max_steering_angle: f(c.max_steering_angle),
            step_size: f(c.step_size),
            max_iterations: c.max_iterations,
            clearance_cost_weight: f(c.clearance_cost_weight),
            clearance_decay_m: f(c.clearance_decay_m),
            smoothing_enabled: c.smoothing_enabled,
            smoothing_alpha: f(c.smoothing_alpha),
            smoothing_clearance_beta: f(c.smoothing_clearance_beta),
            smoothing_iterations: c.smoothing_iterations,
            path_improvement_threshold: f(c.path_improvement_threshold),
            reverse_enabled: c.reverse_enabled,
            direction_switch_penalty: f(c.direction_switch_penalty),
            reverse_cost_multiplier: f(c.reverse_cost_multiplier),
            rs_expansion_enabled: c.rs_expansion_enabled,
            rs_expansion_radius: f(c.rs_expansion_radius),
            start_escape_radius: f(c.start_escape_radius),
        }
    }
}

impl HybridAStarConfig {
    fn lib(&self) -> lib::HybridAStarConfig {
        lib::HybridAStarConfig {
            wheelbase: d(self.wheelbase),
            max_steering_angle: d(self.max_steering_angle),
            step_size: d(self.step_size),
            max_iterations: self.max_iterations,
            clearance_cost_weight: d(self.clearance_cost_weight),
            clearance_decay_m: d(self.clearance_decay_m),
            smoothing_enabled: self.smoothing_enabled,
            smoothing_alpha: d(self.smoothing_alpha),
            smoothing_clearance_beta: d(self.smoothing_clearance_beta),
            smoothing_iterations: self.smoothing_iterations,
            path_improvement_threshold: d(self.path_improvement_threshold),
            reverse_enabled: self.reverse_enabled,
            direction_switch_penalty: d(self.direction_switch_penalty),
            reverse_cost_multiplier: d(self.reverse_cost_multiplier),
            rs_expansion_enabled: self.rs_expansion_enabled,
            rs_expansion_radius: d(self.rs_expansion_radius),
            start_escape_radius: d(self.start_escape_radius),
            ..Default::default()
        }
    }
}

const RESAMPLE_SPACING_M: f64 = 0.15;

fn point(p: (f64, f64)) -> (Double, Double) {
    (d(p.0), d(p.1))
}

fn points(p: &[(f64, f64)]) -> Vec<(Double, Double)> {
    p.iter().map(|p| point(*p)).collect()
}

fn numbers(p: &[(Double, Double)]) -> Vec<(f64, f64)> {
    p.iter().map(|p| (f(p.0), f(p.1))).collect()
}

fn terrain<'a>(grid: &'a OccupancyGrid, clearance: Option<&'a ClearanceField>) -> Terrain<'a, 'a> {
    Terrain {
        grid: &grid.0,
        clearance: clearance.map(|c| &c.0),
        escape: None,
    }
}

fn smooth_path(
    raw: &[PathWaypoint],
    grid: &OccupancyGrid,
    clearance: Option<&ClearanceField>,
    cfg: &HybridAStarConfig,
    kappa: f64,
) -> Vec<PathWaypoint> {
    from_lib(lib::smoother::smooth_path(
        &math,
        &to_lib(raw),
        &grid.0,
        clearance.map(|c| &c.0),
        &cfg.lib(),
        d(kappa),
        None,
    ))
}

fn resample(pts: &[(f64, f64)], spacing: f64) -> Vec<(f64, f64)> {
    numbers(&lib::smoother::resample(&points(pts), d(spacing)))
}

fn gradient_smooth(
    pts: &mut Vec<(f64, f64)>,
    grid: &OccupancyGrid,
    clearance: Option<&ClearanceField>,
    cfg: &HybridAStarConfig,
    kappa: f64,
) {
    let mut p = points(pts);
    lib::smoother::gradient_smooth(&mut p, &terrain(grid, clearance), &cfg.lib(), d(kappa));
    *pts = numbers(&p);
}

fn menger_curvature(a: (f64, f64), b: (f64, f64), c: (f64, f64)) -> f64 {
    f(lib::smoother::menger_curvature(point(a), point(b), point(c)))
}

fn post_check(pts: &[(f64, f64)], grid: &OccupancyGrid, kappa: f64) -> bool {
    lib::smoother::post_check(&points(pts), &terrain(grid, None), d(kappa))
}

fn segment_admissible(a: (f64, f64), b: (f64, f64), grid: &OccupancyGrid) -> bool {
    lib::smoother::segment_admissible(point(a), point(b), &terrain(grid, None), None)
}

/// Executor curvature envelope (dwa.max_curvature); the smoother bound is
/// 0.9 × this = 2.16.
const EXEC_KAPPA: f64 = 2.4;

fn empty_grid() -> OccupancyGrid {
    OccupancyGrid::new(400, 400, 0.1, -20.0, -20.0)
}

fn cfg() -> HybridAStarConfig {
    HybridAStarConfig::default()
}

/// Dense polyline through the given corner points, stepped at ~5cm like a
/// raw A* primitive chain (theta/steering left zero — smoothing ignores
/// them).
fn chain(corners: &[(f64, f64)]) -> Vec<PathWaypoint> {
    let mut pts = Vec::new();
    for w in corners.windows(2) {
        let (a, b) = (w[0], w[1]);
        let len = ((b.0 - a.0).powi(2) + (b.1 - a.1).powi(2)).sqrt();
        let n = (len / 0.05).ceil().max(1.0) as usize;
        for k in 0..n {
            let t = k as f64 / n as f64;
            pts.push((a.0 + (b.0 - a.0) * t, a.1 + (b.1 - a.1) * t));
        }
    }
    pts.push(*corners.last().unwrap());
    pts.iter()
        .map(|&(x, y)| PathWaypoint {
            x,
            y,
            theta: 0.0,
            steering: 0.0,
            dir: Default::default(),
        })
        .collect()
}

fn length(path: &[PathWaypoint]) -> f64 {
    path.windows(2)
        .map(|w| ((w[1].x - w[0].x).powi(2) + (w[1].y - w[0].y).powi(2)).sqrt())
        .sum()
}

fn max_curvature(path: &[PathWaypoint]) -> f64 {
    path.windows(3)
        .map(|w| menger_curvature((w[0].x, w[0].y), (w[1].x, w[1].y), (w[2].x, w[2].y)).abs())
        .fold(0.0, f64::max)
}

#[test]
fn shortcut_removes_zigzag_in_open_space() {
    let grid = empty_grid();
    let raw = chain(&[
        (0.0, 0.0),
        (0.5, 0.3),
        (1.0, -0.3),
        (1.5, 0.3),
        (2.0, -0.3),
        (2.5, 0.3),
        (3.0, 0.0),
    ]);
    let field = ClearanceField::build(&grid, 0.5);
    let smoothed = smooth_path(&raw, &grid, Some(&field), &cfg(), EXEC_KAPPA);
    assert!(length(&raw) > 3.5, "raw zigzag must be meaningfully longer");
    assert!(
        length(&smoothed) < 3.05,
        "zigzag not shortcut: smoothed length {:.2}",
        length(&smoothed)
    );
    assert!((smoothed[0].x, smoothed[0].y) == (0.0, 0.0));
    let last = smoothed.last().unwrap();
    assert!((last.x - 3.0).abs() < 1e-9 && last.y.abs() < 1e-9);
}

#[test]
fn shortcut_never_cuts_into_soft_band_below_original_clearance() {
    let mut grid = empty_grid();
    grid.set_occupied(2.0, 0.15);
    let field = ClearanceField::build(&grid, 0.5);
    let raw = chain(&[(0.0, 0.0), (1.2, -0.6), (2.8, -0.6), (4.0, 0.0)]);
    let orig_min = raw
        .iter()
        .map(|p| field.distance_at(p.x, p.y))
        .fold(f64::INFINITY, f64::min);
    assert!(orig_min >= 0.5 - 1e-9, "detour must start band-clear");

    let smoothed = smooth_path(&raw, &grid, Some(&field), &cfg(), EXEC_KAPPA);
    let new_min = smoothed
        .iter()
        .map(|p| field.distance_at(p.x, p.y))
        .fold(f64::INFINITY, f64::min);
    assert!(
        new_min >= orig_min - 1e-6,
        "smoothing cut into the soft band: min clearance {:.3} < original {:.3}",
        new_min,
        orig_min
    );

    let open = empty_grid();
    let open_field = ClearanceField::build(&open, 0.5);
    let straight = smooth_path(&raw, &open, Some(&open_field), &cfg(), EXEC_KAPPA);
    assert!(length(&straight) < 4.05);
}

#[test]
fn gradient_smoothing_respects_curvature_bound_on_right_angle() {
    let grid = empty_grid();
    let raw = chain(&[(0.0, 0.0), (2.0, 0.0), (2.0, 2.0)]);
    let mut pts: Vec<(f64, f64)> = raw.iter().map(|p| (p.x, p.y)).collect();
    pts = resample(&pts, RESAMPLE_SPACING_M);
    gradient_smooth(&mut pts, &grid, None, &cfg(), 0.9 * EXEC_KAPPA);
    let final_pts = resample(&pts, RESAMPLE_SPACING_M);
    let worst = final_pts
        .windows(3)
        .map(|w| menger_curvature(w[0], w[1], w[2]).abs())
        .fold(0.0, f64::max);
    assert!(
        worst <= 0.9 * EXEC_KAPPA + 1e-9,
        "right angle not smoothed under the bound: max curvature {:.2}",
        worst
    );
    assert!(post_check(&final_pts, &grid, 0.9 * EXEC_KAPPA));
}

#[test]
fn full_pipeline_l_corridor_stays_bounded_and_collision_free() {
    let mut grid = empty_grid();
    let mut s = -0.5;
    while s <= 2.6 {
        grid.set_occupied(s, -0.6);
        if s <= 0.85 {
            grid.set_occupied(s, 0.6);
        }
        s += 0.05;
    }
    let mut s = -0.6;
    while s <= 2.6 {
        grid.set_occupied(2.6, s);
        if s >= 0.6 {
            grid.set_occupied(1.4, s);
        }
        s += 0.05;
    }
    let raw = chain(&[(0.0, 0.0), (2.0, 0.0), (2.0, 2.0)]);
    let field = ClearanceField::build(&grid, 0.5);
    let smoothed = smooth_path(&raw, &grid, Some(&field), &cfg(), EXEC_KAPPA);
    assert!(
        max_curvature(&smoothed) <= 0.9 * EXEC_KAPPA + 1e-9,
        "corner curvature {:.2} exceeds the bound",
        max_curvature(&smoothed)
    );
    for w in smoothed.windows(2) {
        assert!(
            segment_admissible((w[0].x, w[0].y), (w[1].x, w[1].y), &grid),
            "smoothed path violates hard inflation near ({:.2},{:.2})",
            w[0].x,
            w[0].y
        );
    }
    assert!(max_curvature(&raw) > 0.9 * EXEC_KAPPA);
}

#[test]
fn smoothed_spacing_is_uniform() {
    let grid = empty_grid();
    let raw = chain(&[(0.0, 0.0), (1.0, 0.4), (2.0, -0.4), (3.5, 0.0)]);
    let smoothed = smooth_path(&raw, &grid, None, &cfg(), EXEC_KAPPA);
    assert!(smoothed.len() >= 3);
    let gaps: Vec<f64> = smoothed
        .windows(2)
        .map(|w| ((w[1].x - w[0].x).powi(2) + (w[1].y - w[0].y).powi(2)).sqrt())
        .collect();
    for (i, g) in gaps.iter().enumerate() {
        let (lo, hi) = if i + 1 == gaps.len() {
            (0.5 * RESAMPLE_SPACING_M, 1.5 * RESAMPLE_SPACING_M + 1e-9)
        } else {
            (RESAMPLE_SPACING_M - 1e-6, RESAMPLE_SPACING_M + 1e-6)
        };
        assert!(
            (lo..=hi).contains(g),
            "gap {} of {} is {:.3}m, outside [{:.3}, {:.3}]",
            i,
            gaps.len(),
            g,
            lo,
            hi
        );
    }
}

#[test]
fn disabled_flag_reproduces_raw_output() {
    let grid = empty_grid();
    let raw = chain(&[(0.0, 0.0), (0.5, 0.3), (1.0, -0.3), (1.5, 0.0)]);
    let off = HybridAStarConfig {
        smoothing_enabled: false,
        ..HybridAStarConfig::default()
    };
    let out = smooth_path(&raw, &grid, None, &off, EXEC_KAPPA);
    assert_eq!(out.len(), raw.len());
    for (a, b) in out.iter().zip(raw.iter()) {
        assert_eq!(
            (a.x, a.y, a.theta, a.steering),
            (b.x, b.y, b.theta, b.steering)
        );
    }
}

#[test]
fn impossible_curvature_bound_falls_back_to_raw() {
    let mut grid = empty_grid();
    let mut s = -0.5;
    while s <= 2.6 {
        grid.set_occupied(s, -0.4);
        if s <= 1.2 {
            grid.set_occupied(s, 0.4);
        }
        s += 0.05;
    }
    let mut s = -0.4;
    while s <= 2.6 {
        grid.set_occupied(2.4, s);
        if s >= 0.4 {
            grid.set_occupied(1.6, s);
        }
        s += 0.05;
    }
    let raw = chain(&[(0.0, 0.0), (2.0, 0.0), (2.0, 2.0)]);
    let out = smooth_path(&raw, &grid, None, &cfg(), 0.01);
    assert_eq!(out.len(), raw.len(), "must fall back to the raw path");
    assert_eq!((out[5].x, out[5].y), (raw[5].x, raw[5].y));
}

#[test]
fn smoother_never_smooths_across_a_cusp() {
    let grid = empty_grid();
    let mut raw = chain(&[(0.0, 0.0), (0.5, 0.3), (1.0, -0.3), (1.5, 0.3), (2.0, 0.0)]);
    let mut rev = chain(&[
        (2.0, 0.0),
        (1.7, -0.5),
        (1.3, -0.3),
        (1.0, -1.0),
        (0.8, -1.2),
    ]);
    for w in rev.iter_mut() {
        w.dir = SegmentDir::Reverse;
    }
    raw.extend(rev.into_iter().skip(1));

    let field = ClearanceField::build(&grid, 0.5);
    let sm = smooth_path(&raw, &grid, Some(&field), &cfg(), EXEC_KAPPA);

    let cusps: Vec<usize> = (1..sm.len())
        .filter(|&i| sm[i].dir != sm[i - 1].dir)
        .collect();
    assert_eq!(cusps.len(), 1, "exactly one cusp expected, got {cusps:?}");
    let c = cusps[0];
    assert_eq!(
        (sm[c - 1].x, sm[c - 1].y),
        (2.0, 0.0),
        "cusp point must be preserved exactly"
    );

    let len = |p: &[PathWaypoint]| -> f64 {
        p.windows(2)
            .map(|w| ((w[1].x - w[0].x).powi(2) + (w[1].y - w[0].y).powi(2)).sqrt())
            .sum()
    };
    let fwd_raw: Vec<PathWaypoint> = raw
        .iter()
        .filter(|w| w.dir == SegmentDir::Forward)
        .cloned()
        .collect();
    assert!(
        len(&sm[..c]) < len(&fwd_raw) - 0.3,
        "forward leg not smoothed: {:.2} vs raw {:.2}",
        len(&sm[..c]),
        len(&fwd_raw)
    );
    assert_eq!((sm[0].x, sm[0].y), (0.0, 0.0));
    let last = sm.last().unwrap();
    assert!((last.x - 0.8).abs() < 1e-9 && (last.y - (-1.2)).abs() < 1e-9);

    for w in sm[c..].windows(2) {
        let travel = (w[1].y - w[0].y).atan2(w[1].x - w[0].x);
        let d = (w[0].theta - travel).cos();
        assert!(
            d < 0.0,
            "reverse-leg heading {:.2} does not oppose travel {:.2} at ({:.2},{:.2})",
            w[0].theta,
            travel,
            w[0].x,
            w[0].y
        );
    }
}

#[test]
fn smoothing_budget_fits_the_replan_interval() {
    let mut grid = empty_grid();
    for i in 0..6 {
        let x = 1.5 + 1.8 * i as f64;
        let y = if i % 2 == 0 { 0.45 } else { -0.45 };
        let mut dx = -0.15;
        while dx <= 0.15 {
            let mut dy = -0.15;
            while dy <= 0.15 {
                grid.set_occupied(x + dx, y + dy);
                dy += 0.05;
            }
            dx += 0.05;
        }
    }
    let raw = chain(&[
        (0.0, 0.0),
        (1.5, -0.5),
        (3.3, 0.5),
        (5.1, -0.5),
        (6.9, 0.5),
        (8.7, -0.5),
        (10.5, 0.5),
        (12.0, 0.0),
    ]);
    let field = ClearanceField::build(&grid, 0.5);
    let t0 = std::time::Instant::now();
    let mut out_len = 0;
    for _ in 0..20 {
        out_len = smooth_path(&raw, &grid, Some(&field), &cfg(), EXEC_KAPPA).len();
    }
    let per_call = t0.elapsed() / 20;
    println!(
        "smoothing: {} raw -> {} smoothed waypoints in {:?} per call",
        raw.len(),
        out_len,
        per_call
    );
    assert!(
        per_call < std::time::Duration::from_millis(20),
        "smoothing took {:?} per call — too close to the 250ms replan budget",
        per_call
    );
}
