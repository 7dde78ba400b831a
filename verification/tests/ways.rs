//! Clearance, directions and statistics of global paths on chosen grids.
use planning::global_planner::reeds_shepp::{connect, Seg, Steer, Word};
use planning::global_planner::smoother::smooth_path;
use planning::global_planner::{
    ClearanceField, HybridAStar, HybridAStarConfig, OccupancyGrid, PathWaypoint, Pose, SegmentDir,
};
use planning::ieee::double::Double;
use planning::trig::Circular;

fn d(x: f64) -> Double {
    Double { bits: x.to_bits() }
}

fn f(x: Double) -> f64 {
    f64::from_bits(x.bits)
}

fn math(k: Circular, x: Double, y: Double) -> Double {
    let (x, y) = (f(x), f(y));
    d(match k {
        Circular::Sin => x.sin(),
        Circular::Cos => x.cos(),
        Circular::Tan => x.tan(),
        Circular::Asin => x.asin(),
        Circular::Atan => x.atan(),
        Circular::Atan2 => x.atan2(y),
    })
}

fn middle(i: i32) -> Double {
    d(0.05 * (f64::from(i) + 0.5))
}

fn clearance(field: &ClearanceField, x: i32, y: i32) -> f32 {
    f(field.distance_at(middle(x), middle(y))) as f32
}

/// Length of the way that takes its diagonal steps first going down, last going up.
fn direct(a: (i32, i32), b: (i32, i32)) -> f32 {
    let (dx, dy) = ((a.0 - b.0).abs(), (a.1 - b.1).abs());
    let (n, m) = (dx.max(dy), dx.min(dy));
    let (side, corner) = (0.05f64 as f32, 0.05f64 as f32 * std::f32::consts::SQRT_2);
    let mut sum = 0.0f32;
    for i in 1..=n {
        let diagonal = if a.1 <= b.1 { i <= m } else { i > n - m };
        sum += if diagonal { corner } else { side };
    }
    sum
}

#[test]
fn clearance_is_the_length_of_the_direct_way() {
    let mut g = OccupancyGrid::new(6, 28, d(0.05), d(0.0), d(0.0));
    g.set_occupied(middle(1), middle(24));
    let field = ClearanceField::build(&g, d(10.0));
    for x in 0..6 {
        for y in 0..28 {
            let (c, way) = (clearance(&field, x, y), direct((1, 24), (x, y)));
            assert!(c <= way && way - c < 1e-6, "cell ({x}, {y}): {c}, {way}");
        }
    }
    let row = |n: i32| (0..n).fold(0.0f32, |sum, _| sum + 0.05f64 as f32);
    for x in 0..6 {
        for y in 0..28 {
            let n = (x - 1i32).abs().max((y - 24i32).abs());
            assert!(row(n) <= clearance(&field, x, y));
        }
    }
    assert_eq!(clearance(&field, 1, 3), row(21));
    let capped = ClearanceField::build(&g, d(0.2));
    assert_eq!(clearance(&capped, 1, 0), 0.2);
    assert_eq!(clearance(&capped, 1, 22), 0.1);
}

#[test]
fn clearance_grows_by_one_step_to_the_right_and_below() {
    let mut g = OccupancyGrid::new(6, 28, d(0.05), d(0.0), d(0.0));
    g.set_occupied(middle(1), middle(24));
    let field = ClearanceField::build(&g, d(10.0));
    let (side, corner) = (0.05f64 as f32, 0.05f64 as f32 * std::f32::consts::SQRT_2);
    for x in 0..5 {
        for y in 0..27 {
            let c = clearance(&field, x, y);
            assert!(c <= clearance(&field, x + 1, y) + side);
            assert!(c <= clearance(&field, x, y + 1) + side);
            assert!(c <= clearance(&field, x + 1, y + 1) + corner);
        }
    }
    let (c, left) = (clearance(&field, 5, 22), clearance(&field, 4, 22));
    assert!(c > left + side, "to the left only up to rounding");
    assert!(c - (left + side) < 1e-7);
}

#[test]
fn without_obstacles_clearance_is_the_cap() {
    let g = OccupancyGrid::new(6, 28, d(0.05), d(0.0), d(0.0));
    let field = ClearanceField::build(&g, d(0.5));
    assert!((0..6).all(|x| (0..28).all(|y| clearance(&field, x, y) == 0.5)));
}

fn pose(x: f64, y: f64, theta: f64) -> Pose {
    Pose { x: d(x), y: d(y), theta: d(theta) }
}

fn grid() -> OccupancyGrid {
    OccupancyGrid::new(100, 100, d(0.1), d(-5.0), d(-5.0))
}

const FWD: SegmentDir = SegmentDir::Forward;
const REV: SegmentDir = SegmentDir::Reverse;

#[test]
fn with_reverse_switched_off_a_path_goes_forward() {
    let g = grid();
    let goals = [pose(-1.0, 0.0, 0.0), pose(-0.5, 0.5, 0.0), pose(0.0, 0.0, 3.0)];
    for goal in &goals {
        let mut c = HybridAStarConfig::default();
        c.reverse_enabled = false;
        let h = HybridAStar::new(c);
        if let Some(path) = h.plan(&math, &pose(0.0, 0.0, 0.0), goal, &g) {
            assert!(path.iter().all(|w| w.dir == FWD));
        }
    }
    let mut c = HybridAStarConfig::default();
    c.reverse_enabled = true;
    let path = HybridAStar::new(c).plan(&math, &pose(0.0, 0.0, 0.0), &goals[0], &g).unwrap();
    assert!(path.iter().any(|w| w.dir == REV));
}

#[test]
fn with_reverse_switched_off_a_connection_goes_forward() {
    let g = grid();
    let (from, goal) = (pose(0.0, 0.0, 0.0), pose(-1.0, 0.0, 0.0));
    let mut c = HybridAStarConfig::default();
    c.reverse_enabled = false;
    let forward = connect(&math, &from, &goal, d(2.0), FWD, &c, &g, None, None).unwrap();
    assert!(forward.iter().all(|w| w.dir == FWD));
    let last = &forward[forward.len() - 1];
    assert_eq!((f(last.x), f(last.y)), (-1.0, 0.0));
    c.reverse_enabled = true;
    let path = connect(&math, &from, &goal, d(2.0), FWD, &c, &g, None, None).unwrap();
    assert!(path[1..].iter().all(|w| w.dir == REV));
}

#[test]
fn a_word_goes_forward_if_no_segment_is_negative() {
    let seg = |len: f64| Seg { steer: Steer::Straight, len: d(len) };
    let word = |a: f64, b: f64, c: f64| Word { first: seg(a), middle: seg(b), last: seg(c) };
    assert!(word(1.0, 2.0, 0.5).is_forward());
    assert!(word(0.0, 2.0, -0.0).is_forward());
    assert!(!word(1.0, -0.5, 1.0).is_forward());
    assert!(!word(1.0, 0.5, -1.0).is_forward());
    assert!(!word(-1.0, 0.5, 1.0).is_forward());
    assert!(seg(-0.1).reverses() && !seg(0.1).reverses());
}

#[test]
fn the_statistics_account_for_the_path() {
    let g = grid();
    let (from, goal) = (pose(0.0, 0.0, 0.0), pose(2.0, 0.7, 0.4));
    let mut c = HybridAStarConfig::default();
    c.rs_expansion_enabled = true;
    let h = HybridAStar::new(c);
    let (path, stats) = h.plan_with_stats(&math, &from, &goal, &g, None);
    let path = path.unwrap();
    assert!(stats.rs_connected && stats.rs_attempts > 0);
    assert!(stats.rs_attempts <= stats.iterations);
    let last = &path[path.len() - 1];
    assert_eq!((f(last.x), f(last.y), f(last.theta)), (2.0, 0.7, 0.4));
    let mut c = HybridAStarConfig::default();
    c.rs_expansion_enabled = false;
    let h = HybridAStar::new(c);
    let (path, stats) = h.plan_with_stats(&math, &from, &goal, &g, None);
    assert!(path.is_some());
    assert_eq!((stats.rs_attempts, stats.rs_connected), (0, false));
}

#[test]
fn smoothing_keeps_the_order_of_the_directions() {
    let at = |x: f64, y: f64, dir| PathWaypoint {
        x: d(x),
        y: d(y),
        theta: d(0.0),
        steering: d(0.0),
        dir,
    };
    let raw = [
        at(0.0, 0.0, FWD),
        at(0.5, 0.1, FWD),
        at(1.0, -0.1, FWD),
        at(1.5, 0.0, FWD),
        at(1.0, 0.1, REV),
        at(0.5, 0.0, REV),
        at(1.0, 0.4, FWD),
        at(1.5, 0.8, FWD),
    ];
    let runs = |path: &[PathWaypoint]| {
        let mut dirs = vec![path[0].dir];
        for w in path {
            if dirs[dirs.len() - 1] != w.dir {
                dirs.push(w.dir);
            }
        }
        dirs
    };
    let c = HybridAStarConfig::default();
    let out = smooth_path(&math, &raw, &grid(), None, &c, d(2.0), None);
    assert_eq!(runs(&out), vec![FWD, REV, FWD]);
    assert_eq!(runs(&out), runs(&raw));
}
