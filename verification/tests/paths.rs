//! Paths: their cost, upkeep, smoothing and analytic connections.
use planning::global_planner::path::{path_sample_step_m, pieces, segment_free};
use planning::global_planner::reeds_shepp::{connect, reflect, word_cost, Seg, Steer, Word};
use planning::global_planner::smoother::{
    direction_runs, gradient_smooth, menger_curvature, offending_vertices, resample,
    resample_spacing_m, segment_admissible, shortcut, smooth_path, Terrain,
};
use planning::global_planner::{
    nearest_waypoint_index, path_cost, path_remains_valid, ClearanceField, CostPenalties,
    HybridAStar, HybridAStarConfig, OccupancyGrid, PathWaypoint, Pose, SegmentDir,
};
use planning::ieee::double::Double;
use planning::trig::Circular;
use std::f64::consts::PI;

fn d(x: f64) -> Double {
    Double { bits: x.to_bits() }
}

fn f(x: Double) -> f64 {
    f64::from_bits(x.bits)
}

fn math(k: Circular, x: Double, y: Double) -> Double {
    let (x, y) = (f(x), f(y));
    d(match k {
        Circular::Sin => x.sin(),
        Circular::Cos => x.cos(),
        Circular::Tan => x.tan(),
        Circular::Asin => x.asin(),
        Circular::Atan => x.atan(),
        Circular::Atan2 => x.atan2(y),
    })
}

fn at(x: f64, y: f64, dir: SegmentDir) -> PathWaypoint {
    PathWaypoint { x: d(x), y: d(y), theta: d(0.0), steering: d(0.0), dir }
}

fn grid() -> OccupancyGrid {
    OccupancyGrid::new(100, 100, d(0.1), d(-5.0), d(-5.0))
}

const FWD: SegmentDir = SegmentDir::Forward;
const REV: SegmentDir = SegmentDir::Reverse;

#[test]
fn a_path_costs_its_length_more_in_reverse_and_at_cusps() {
    let path = [at(0.0, 0.0, FWD), at(3.0, 4.0, FWD), at(3.0, 3.0, REV), at(3.0, 1.0, REV)];
    let p = CostPenalties {
        reverse_cost_multiplier: d(2.0),
        direction_switch_penalty: d(0.5),
    };
    assert_eq!(f(path_cost(&path, None, d(1.0), d(1.0), p)), 5.0 + 1.0 * 2.0 + 0.5 + 2.0 * 2.0);
    assert_eq!(f(path_cost(&path, None, d(1.0), d(1.0), CostPenalties::none())), 8.0);
    assert_eq!(f(path_cost(&path[..1], None, d(1.0), d(1.0), p)), 0.0);
    assert_eq!(f(path_cost(&[], None, d(1.0), d(1.0), p)), 0.0);
    let c = HybridAStarConfig::default();
    let q = CostPenalties::from_config(&c);
    assert_eq!(q.reverse_cost_multiplier.bits, c.reverse_cost_multiplier.bits);
    assert_eq!(q.direction_switch_penalty.bits, c.direction_switch_penalty.bits);
}

#[test]
fn forward_is_the_cheapest_way_along_the_same_points() {
    let dirs = [FWD, REV];
    let p = CostPenalties {
        reverse_cost_multiplier: d(1.5),
        direction_switch_penalty: d(0.25),
    };
    let path = |k: usize| -> Vec<PathWaypoint> {
        (0..5).map(|i| at(i as f64 * 0.7, (i * i) as f64 * 0.1, dirs[(k >> i) & 1])).collect()
    };
    let plain = f(path_cost(&path(0), None, d(0.0), d(0.0), p));
    for k in 0..32 {
        assert!(plain <= f(path_cost(&path(k), None, d(0.0), d(0.0), p)));
    }
}

#[test]
fn a_path_near_obstacles_costs_more() {
    let mut g = grid();
    g.set_occupied(d(0.55), d(0.05));
    let field = ClearanceField::build(&g, d(1.0));
    let path = [at(0.05, 0.05, FWD), at(1.05, 0.05, FWD)];
    let p = CostPenalties::none();
    let near = f(path_cost(&path, Some(&field), d(2.0), d(1.0), p));
    assert_eq!(near, 1.0 + 2.0 * 1.0 * (1.0 - 0.0));
    assert_eq!(f(path_cost(&path, Some(&field), d(0.0), d(1.0), p)), 1.0);
    let far = [at(0.05, 3.05, FWD), at(1.05, 3.05, FWD)];
    assert_eq!(f(path_cost(&far, Some(&field), d(2.0), d(1.0), p)), 1.0);
}

#[test]
fn a_path_is_valid_until_something_stands_on_it() {
    let mut g = grid();
    let path = [at(0.0, 0.0, FWD), at(1.0, 0.0, FWD), at(2.0, 0.0, FWD)];
    assert!(path_remains_valid(&path, &g));
    g.set_occupied(d(1.5), d(0.0));
    assert!(!path_remains_valid(&path, &g));
    assert!(path_remains_valid(&path[..2], &g));
}

#[test]
fn a_segment_is_sampled_every_five_centimetres() {
    assert_eq!(f(path_sample_step_m()), 0.05);
    assert_eq!(pieces(d(1.0), d(0.25)), 4);
    assert_eq!(pieces(d(1.1), d(0.25)), 5);
    assert_eq!(pieces(d(0.0), d(0.25)), 1);
    let mut g = grid();
    g.set_occupied(d(0.5), d(0.0));
    assert!(!segment_free(&g, None, (d(0.0), d(0.0)), (d(1.0), d(0.0))));
    assert!(segment_free(&g, None, (d(0.0), d(1.0)), (d(1.0), d(1.0))));
}

#[test]
fn the_first_of_the_nearest_waypoints_counts() {
    let path = [at(0.0, 0.0, FWD), at(2.0, 0.0, FWD), at(2.0, 0.0, FWD), at(9.0, 0.0, FWD)];
    assert_eq!(nearest_waypoint_index(&path, d(2.1), d(0.3)), 1);
    assert_eq!(nearest_waypoint_index(&path, d(-5.0), d(0.0)), 0);
    assert_eq!(nearest_waypoint_index(&path, d(8.0), d(0.0)), 3);
}

#[test]
fn three_points_have_the_curvature_of_their_circle() {
    let on = |a: f64| (d(2.0 * a.cos()), d(2.0 * a.sin()));
    let k = f(menger_curvature(on(0.0), on(0.3), on(0.6)));
    assert!((k - 0.5).abs() < 1e-12, "left turn of radius 2, got {k}");
    let k = f(menger_curvature(on(0.6), on(0.3), on(0.0)));
    assert!((k + 0.5).abs() < 1e-12, "right turn of radius 2, got {k}");
    let line = |x: f64| (d(x), d(0.0));
    assert_eq!(f(menger_curvature(line(0.0), line(1.0), line(2.0))), 0.0);
    assert_eq!(f(menger_curvature(line(1.0), line(1.0), line(1.0))), 0.0);
}

#[test]
fn a_chain_is_brought_to_even_spacing_and_keeps_its_ends() {
    assert_eq!(f(resample_spacing_m()), 0.15);
    let pts = vec![(d(0.0), d(0.0)), (d(1.0), d(0.0)), (d(1.0), d(0.6))];
    let out = resample(&pts, d(0.25));
    assert_eq!((f(out[0].0), f(out[0].1)), (0.0, 0.0));
    let last = out[out.len() - 1];
    assert_eq!((f(last.0), f(last.1)), (1.0, 0.6));
    for w in out[..out.len() - 1].windows(2) {
        let len = (f(w[1].0) - f(w[0].0)).hypot(f(w[1].1) - f(w[0].1));
        assert!((len - 0.25).abs() < 1e-9);
    }
    let one = vec![(d(3.0), d(4.0))];
    assert_eq!(resample(&one, d(0.25)).len(), 1);
    assert_eq!(resample(&Vec::new(), d(0.25)).len(), 0);
}

#[test]
fn a_sharp_corner_and_its_neighbours_offend() {
    let pts: Vec<(Double, Double)> = vec![
        (d(0.0), d(0.0)),
        (d(0.2), d(0.0)),
        (d(0.4), d(0.0)),
        (d(0.4), d(0.2)),
        (d(0.4), d(0.4)),
        (d(0.4), d(0.6)),
        (d(0.4), d(0.8)),
    ];
    let marks = offending_vertices(&pts, d(1.0));
    assert_eq!(marks.len(), pts.len());
    assert!(marks[2]);
    assert!(!marks[6]);
    assert!(offending_vertices(&pts, d(100.0)).iter().all(|m| !m));
}

#[test]
fn a_path_is_made_of_runs_that_share_their_cusps() {
    let path = [
        at(0.0, 0.0, FWD),
        at(1.0, 0.0, FWD),
        at(0.5, 0.0, REV),
        at(0.0, 0.0, REV),
        at(1.0, 0.0, FWD),
    ];
    let runs = direction_runs(&path);
    let ends: Vec<(usize, usize)> = runs.iter().map(|r| (r.start, r.end)).collect();
    assert_eq!(ends, vec![(0, 1), (1, 3), (3, 4)]);
    let one: Vec<(usize, usize)> =
        direction_runs(&path[..2]).iter().map(|r| (r.start, r.end)).collect();
    assert_eq!(one, vec![(0, 1)]);
}

#[test]
fn a_smoothed_path_keeps_its_ends_and_cusps() {
    let g = grid();
    let c = HybridAStarConfig::default();
    let path = [
        at(0.0, 0.0, FWD),
        at(0.5, 0.1, FWD),
        at(1.0, -0.1, FWD),
        at(1.5, 0.0, FWD),
        at(1.0, 0.0, REV),
        at(0.5, 0.0, REV),
    ];
    let out = smooth_path(&math, &path, &g, None, &c, d(2.0), None);
    let spots: Vec<(f64, f64)> = out.iter().map(|w| (f(w.x), f(w.y))).collect();
    assert_eq!(spots[0], (0.0, 0.0));
    assert_eq!(spots[spots.len() - 1], (0.5, 0.0));
    assert!(spots.contains(&(1.5, 0.0)), "the cusp is kept");
    assert_eq!(out[0].dir, FWD);
    assert_eq!(out[out.len() - 1].dir, REV);
}

#[test]
fn shortening_and_smoothing_stay_free() {
    let mut g = grid();
    for i in 0..6 {
        g.set_occupied(d(0.75), d(-0.25 + 0.1 * f64::from(i)));
    }
    let field = ClearanceField::build(&g, d(0.5));
    let ground = Terrain { grid: &g, clearance: Some(&field), escape: None };
    let pts: Vec<(Double, Double)> = [(0.0, 0.0), (0.3, 0.4), (0.6, 0.8), (0.9, 0.8), (1.5, 0.0)]
        .iter()
        .map(|(x, y)| (d(*x), d(*y)))
        .collect();
    let short = shortcut(&pts, &ground);
    assert_eq!((f(short[0].0), f(short[0].1)), (0.0, 0.0));
    for w in short.windows(2) {
        assert!(segment_admissible(w[0], w[1], &ground, None));
    }
    let mut smooth = resample(&short, d(0.15));
    let before = smooth.clone();
    gradient_smooth(&mut smooth, &ground, &HybridAStarConfig::default(), d(1.8));
    assert_eq!(smooth.len(), before.len());
    for (p, q) in smooth.iter().zip(&before) {
        let same = (p.0.bits, p.1.bits) == (q.0.bits, q.1.bits);
        assert!(same || !g.is_occupied(p.0, p.1));
    }
}

fn seg(steer: Steer, len: f64) -> Seg {
    Seg { steer, len: d(len) }
}

#[test]
fn a_word_costs_its_metres_more_in_reverse_and_at_changes() {
    let mut c = HybridAStarConfig::default();
    c.reverse_cost_multiplier = d(2.0);
    c.direction_switch_penalty = d(0.5);
    let w = Word {
        first: seg(Steer::Left, 1.0),
        middle: seg(Steer::Straight, -2.0),
        last: seg(Steer::Right, 0.0),
    };
    assert_eq!(f(word_cost(w, d(3.0), FWD, &c)), 3.0 + 6.0 * 2.0 + 0.5);
    assert_eq!(f(word_cost(w, d(3.0), REV, &c)), 3.0 + 0.5 + 6.0 * 2.0 + 0.5);
    assert!(matches!(reflect(Steer::Left), Steer::Right));
    assert!(matches!(reflect(Steer::Right), Steer::Left));
    assert!(matches!(reflect(Steer::Straight), Steer::Straight));
}

#[test]
fn a_connection_starts_and_ends_where_asked_and_stays_free() {
    let g = grid();
    let c = HybridAStarConfig::default();
    let from = Pose { x: d(0.0), y: d(0.0), theta: d(0.0) };
    let goal = Pose { x: d(2.0), y: d(1.5), theta: d(PI / 2.0) };
    let path = connect(&math, &from, &goal, d(1.0), FWD, &c, &g, None, None).unwrap();
    assert_eq!((f(path[0].x), f(path[0].y)), (0.0, 0.0));
    let last = &path[path.len() - 1];
    assert!((f(last.x) - 2.0).abs() < 1e-6 && (f(last.y) - 1.5).abs() < 1e-6);
    assert!((f(last.theta) - PI / 2.0).abs() < 1e-6);
    for w in &path {
        assert!(!g.is_occupied(w.x, w.y));
    }
    assert!(connect(&math, &from, &goal, d(0.0), FWD, &c, &g, None, None).is_none());
}

#[test]
fn the_cheaper_word_is_driven() {
    let g = grid();
    let mut c = HybridAStarConfig::default();
    c.reverse_cost_multiplier = d(1.5);
    let from = Pose { x: d(0.0), y: d(0.0), theta: d(0.0) };
    let behind = Pose { x: d(-1.5), y: d(0.0), theta: d(0.0) };
    let path = connect(&math, &from, &behind, d(1.0), FWD, &c, &g, None, None).unwrap();
    assert!(path[1..].iter().all(|w| w.dir == REV), "backing up is shorter than two loops");
    let ahead = Pose { x: d(1.5), y: d(0.0), theta: d(0.0) };
    let path = connect(&math, &from, &ahead, d(1.0), FWD, &c, &g, None, None).unwrap();
    assert!(path[1..].iter().all(|w| w.dir == FWD));
}

#[test]
fn the_first_waypoint_has_the_direction_of_the_first_segment() {
    let g = grid();
    let h = HybridAStar::new(HybridAStarConfig::default());
    let from = Pose { x: d(0.0), y: d(0.0), theta: d(0.0) };
    let behind = Pose { x: d(-1.0), y: d(0.0), theta: d(0.0) };
    let path = h.plan(&math, &from, &behind, &g).unwrap();
    assert!(path.len() >= 2);
    assert_eq!(path[0].dir, path[1].dir);
    assert_eq!(path[1].dir, REV);
}

#[test]
fn a_found_path_starts_and_arrives() {
    let mut g = grid();
    for i in 0..30 {
        g.set_occupied(d(1.05), d(-1.0 + 0.1 * f64::from(i)));
    }
    let h = HybridAStar::new(HybridAStarConfig::default());
    let from = Pose { x: d(0.0), y: d(0.0), theta: d(0.0) };
    let goal = Pose { x: d(2.5), y: d(0.0), theta: d(0.0) };
    let path = h.plan(&math, &from, &goal, &g).unwrap();
    assert_eq!((f(path[0].x), f(path[0].y)), (0.0, 0.0));
    let last = &path[path.len() - 1];
    assert!((f(last.x) - 2.5).hypot(f(last.y)) < 0.5);
    assert!(path_remains_valid(&path, &g));
}

#[test]
fn a_clearance_field_can_be_shared() {
    let mut g = grid();
    g.set_occupied(d(1.05), d(0.35));
    let h = HybridAStar::new(HybridAStarConfig::default());
    let from = Pose { x: d(0.0), y: d(0.0), theta: d(0.0) };
    let goal = Pose { x: d(2.5), y: d(0.0), theta: d(0.0) };
    let field = h.build_clearance(&g).unwrap();
    let own = h.plan(&math, &from, &goal, &g).unwrap();
    let shared = h.plan_with_clearance(&math, &from, &goal, &g, Some(&field)).unwrap();
    let (stated, stats) = h.plan_with_stats(&math, &from, &goal, &g, Some(&field));
    let spots = |p: &[PathWaypoint]| -> Vec<(u64, u64)> {
        p.iter().map(|w| (w.x.bits, w.y.bits)).collect()
    };
    assert_eq!(spots(&own), spots(&shared));
    assert_eq!(spots(&own), spots(&stated.unwrap()));
    assert!(stats.iterations >= 1);
    let mut c = HybridAStarConfig::default();
    c.clearance_cost_weight = d(0.0);
    assert!(HybridAStar::new(c).build_clearance(&g).is_none());
}

#[test]
fn no_waypoint_of_a_found_path_is_blocked() {
    let mut g = grid();
    for i in 0..14 {
        g.set_occupied(d(1.05), d(-0.7 + 0.1 * f64::from(i)));
    }
    let h = HybridAStar::new(HybridAStarConfig::default());
    let from = Pose { x: d(0.0), y: d(0.0), theta: d(0.0) };
    let goal = Pose { x: d(2.5), y: d(0.3), theta: d(1.0) };
    let path = h.plan(&math, &from, &goal, &g).unwrap();
    for w in &path[1..] {
        assert!(!g.is_occupied(w.x, w.y));
    }
}

#[test]
fn a_search_that_runs_out_finds_nothing() {
    let g = grid();
    let mut c = HybridAStarConfig::default();
    c.max_iterations = 3;
    c.rs_expansion_enabled = false;
    let h = HybridAStar::new(c);
    let from = Pose { x: d(0.0), y: d(0.0), theta: d(0.0) };
    let goal = Pose { x: d(4.0), y: d(0.0), theta: d(0.0) };
    let (path, stats) = h.plan_with_stats(&math, &from, &goal, &g, None);
    assert!(path.is_none());
    assert_eq!((stats.iterations, stats.rs_attempts, stats.rs_connected), (4, 0, false));
}
