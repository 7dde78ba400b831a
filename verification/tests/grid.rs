//! Occupancy and clearance on chosen grids.
use planning::global_planner::clearance::ClearanceField;
use planning::global_planner::escape::true_footprint_clearance_m;
use planning::global_planner::open_list::{Entry, OpenList};
use planning::global_planner::search::{heading_weight, heuristic, packed};
use planning::global_planner::{
    pose_blocked, start_escape_zone, EscapeZone, HybridAStar, HybridAStarConfig, OccupancyGrid,
    PhysicalObstacle, Pose, SegmentDir,
};
use planning::ieee::double::Double;
use planning::trig::Circular;

fn d(x: f64) -> Double {
    Double { bits: x.to_bits() }
}

fn f(x: Double) -> f64 {
    f64::from_bits(x.bits)
}

fn math(k: Circular, x: Double, y: Double) -> Double {
    let (x, y) = (f(x), f(y));
    d(match k {
        Circular::Sin => x.sin(),
        Circular::Cos => x.cos(),
        Circular::Tan => x.tan(),
        Circular::Asin => x.asin(),
        Circular::Atan => x.atan(),
        Circular::Atan2 => x.atan2(y),
    })
}

fn grid(width: usize, height: usize, resolution: f64) -> OccupancyGrid {
    OccupancyGrid::new(width, height, d(resolution), d(0.0), d(0.0))
}

#[test]
fn a_new_grid_is_free_inside_and_taken_outside() {
    let g = grid(4, 3, 0.5);
    assert!(!g.is_occupied(d(0.25), d(0.25)));
    assert!(!g.is_occupied(d(1.75), d(1.25)));
    assert!(g.in_bounds(d(1.75), d(1.25)));
    assert!(g.is_occupied(d(2.25), d(0.25)));
    assert!(!g.in_bounds(d(2.25), d(0.25)));
    assert!(g.is_occupied(d(0.25), d(1.75)));
    assert!(g.is_occupied(d(-0.75), d(0.25)));
}

#[test]
fn a_grid_ends_at_its_origin() {
    let mut g = grid(4, 3, 0.5);
    assert!(g.in_bounds(d(0.0), d(0.0)));
    assert!(!g.in_bounds(d(-0.01), d(0.25)));
    assert!(!g.in_bounds(d(0.25), d(-0.01)));
    assert!(g.is_occupied(d(-0.01), d(0.25)));
    let field = ClearanceField::build(&g, d(2.5));
    assert_eq!(f(field.distance_at(d(-0.01), d(0.25))), 2.5);
    g.set_occupied(d(-0.01), d(0.25));
    assert!(!g.is_occupied(d(0.25), d(0.25)), "a point outside marks nothing");
}

#[test]
fn a_marked_cell_is_read_back_and_nothing_else_changes() {
    let mut g = grid(4, 3, 0.5);
    g.set_occupied(d(0.6), d(1.1));
    for x in 0..4 {
        for y in 0..3 {
            let (px, py) = (0.25 + 0.5 * f64::from(x), 0.25 + 0.5 * f64::from(y));
            assert_eq!(g.is_occupied(d(px), d(py)), (x, y) == (1, 2));
        }
    }
    g.set_occupied(d(0.25), d(0.25));
    assert!(g.is_occupied(d(0.6), d(1.1)), "marking frees nothing");
    let before = g.data.clone();
    g.set_occupied(d(9.0), d(9.0));
    assert_eq!(g.data, before, "a point outside is passed over");
}

#[test]
fn clearance_is_capped_and_zero_on_taken_cells() {
    let mut g = grid(5, 5, 1.0);
    let free = ClearanceField::build(&g, d(2.5));
    assert_eq!(f(free.distance_at(d(2.5), d(2.5))), 2.5);
    g.set_occupied(d(0.5), d(0.5));
    let field = ClearanceField::build(&g, d(2.5));
    assert_eq!(f(field.distance_at(d(0.5), d(0.5))), 0.0);
    assert_eq!(f(field.distance_at(d(1.5), d(0.5))), 1.0);
    assert_eq!(f(field.distance_at(d(0.5), d(2.5))), 2.0);
    let diagonal = f64::from(std::f32::consts::SQRT_2);
    assert_eq!(f(field.distance_at(d(1.5), d(1.5))), diagonal);
    assert_eq!(f(field.distance_at(d(4.5), d(4.5))), 2.5);
    assert_eq!(f(field.distance_at(d(-3.0), d(0.5))), 2.5, "outside");
}

#[test]
fn clearance_grows_by_at_most_a_step_between_neighbours() {
    let mut g = grid(7, 6, 1.0);
    g.set_occupied(d(1.5), d(1.5));
    g.set_occupied(d(5.5), d(3.5));
    let field = ClearanceField::build(&g, d(10.0));
    let at = |x: i32, y: i32| {
        f(field.distance_at(d(f64::from(x) + 0.5), d(f64::from(y) + 0.5))) as f32
    };
    for x in 0..6 {
        for y in 0..5 {
            assert!(at(x, y) <= at(x + 1, y) + 1.0);
            assert!(at(x, y) <= at(x, y + 1) + 1.0);
            assert!(at(x, y) <= at(x + 1, y + 1) + std::f32::consts::SQRT_2);
        }
    }
}

#[test]
fn an_escape_is_admitted_only_near_the_start() {
    let mut g = grid(40, 40, 0.1);
    g.set_occupied(d(1.05), d(1.05));
    g.set_occupied(d(3.05), d(3.05));
    let obstacles: Vec<PhysicalObstacle> = Vec::new();
    let zone = start_escape_zone(&g, &obstacles, d(1.05), d(1.05), d(0.5));
    assert!(zone.is_some());
    let zone = zone.unwrap();
    assert!(!pose_blocked(&g, Some(&zone), d(1.05), d(1.05)));
    assert!(pose_blocked(&g, None, d(1.05), d(1.05)));
    assert!(pose_blocked(&g, Some(&zone), d(3.05), d(3.05)));
    assert!(pose_blocked(&g, Some(&zone), d(-1.0), d(1.05)));
    assert!(start_escape_zone(&g, &obstacles, d(2.05), d(2.05), d(0.5)).is_none(), "free");
    assert!(start_escape_zone(&g, &obstacles, d(1.05), d(1.05), d(0.0)).is_none(), "no radius");
    let contact = [PhysicalObstacle { x: d(1.05), y: d(1.05), radius: d(0.1) }];
    assert!(start_escape_zone(&g, &contact, d(1.05), d(1.05), d(0.5)).is_none(), "contact");
}

#[test]
fn an_escape_keeps_the_footprint_clear() {
    let near = [PhysicalObstacle { x: d(1.1), y: d(1.0), radius: d(0.1) }];
    let zone = EscapeZone { cx: d(1.0), cy: d(1.0), radius: d(0.5), obstacles: &near };
    assert!(zone.contains(d(1.4), d(1.0)));
    assert!(zone.contains(d(1.5), d(1.0)));
    assert!(!zone.contains(d(1.6), d(1.0)));
    assert!(zone.footprint_blocked(d(1.0), d(1.0)));
    let gap = f(true_footprint_clearance_m()) + 0.1;
    assert!(!zone.footprint_blocked(d(1.1 - gap - 0.01), d(1.0)));
    assert!(zone.footprint_blocked(d(1.1 - gap + 0.01), d(1.0)));
}

#[test]
fn the_open_list_hands_out_the_cheapest_first() {
    let mut list = OpenList::new();
    for (i, c) in [3.0, 1.0, 2.0, 0.5, 4.0].iter().enumerate() {
        list.push(Entry { f_cost: d(*c), idx: i });
    }
    let mut costs = Vec::new();
    while let Some(e) = list.pop() {
        costs.push(f(e.f_cost));
    }
    assert_eq!(costs, vec![0.5, 1.0, 2.0, 3.0, 4.0]);
    assert!(list.pop().is_none());
}

#[test]
fn cells_of_the_search_have_keys_of_their_own() {
    let keys = [(0, 0, 0, 0), (1, 0, 0, 0), (0, 1, 0, 0), (0, 0, 1, 0), (0, 0, 0, 1), (-1, 0, 0, 0)];
    for (i, a) in keys.iter().enumerate() {
        for (j, b) in keys.iter().enumerate() {
            assert_eq!(packed(*a) == packed(*b), i == j);
        }
    }
}

#[test]
fn the_search_estimates_distance_and_turning() {
    let goal = Pose { x: d(3.0), y: d(4.0), theta: d(1.0) };
    assert_eq!(f(heading_weight()), 0.3);
    assert_eq!(f(heuristic(d(0.0), d(0.0), d(1.0), &goal)), 5.0);
    assert_eq!(f(heuristic(d(0.0), d(0.0), d(0.0), &goal)), 5.0 + 0.3 * 1.0);
    assert_eq!(f(heuristic(d(0.0), d(0.0), d(2.0), &goal)), 5.0 + 0.3 * 1.0);
}

#[test]
fn a_primitive_follows_the_bicycle_model() {
    let c = HybridAStarConfig::default();
    let (wheelbase, step) = (f(c.wheelbase), f(c.step_size));
    let h = HybridAStar::new(c);
    let turned = step / wheelbase * 0.2f64.tan();
    let (x, y, t) = h.bicycle_step(&math, d(1.0), d(2.0), d(0.5), d(0.2), SegmentDir::Forward);
    assert_eq!(f(x), 1.0 + step * (0.5 + turned * 0.5).cos());
    assert_eq!(f(y), 2.0 + step * (0.5 + turned * 0.5).sin());
    assert_eq!(f(t), 0.5 + turned);
    let (bx, by, bt) = h.bicycle_step(&math, d(1.0), d(2.0), d(0.5), d(0.2), SegmentDir::Reverse);
    assert_eq!(f(bx), 1.0 - step * (0.5 - turned * 0.5).cos());
    assert_eq!(f(by), 2.0 - step * (0.5 - turned * 0.5).sin());
    assert_eq!(f(bt), 0.5 - turned);
}

#[test]
fn directions_have_cells_of_their_own() {
    let h = HybridAStar::new(HybridAStarConfig::default());
    let a = h.discretize(d(1.0), d(2.0), d(0.5), SegmentDir::Forward);
    let b = h.discretize(d(1.0), d(2.0), d(0.5), SegmentDir::Reverse);
    assert_eq!((a.0, a.1, a.2), (b.0, b.1, b.2));
    assert_ne!(a.3, b.3);
}
