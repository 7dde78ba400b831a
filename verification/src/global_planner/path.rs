//! Upkeep of a path: whether it can still be driven, where the robot is on it,
//! and what it costs.
use crate::geometry::{distance, distance_squared};
use crate::global_planner::clearance::ClearanceField;
use crate::global_planner::config::HybridAStarConfig;
use crate::global_planner::escape::{pose_blocked, EscapeZone};
use crate::global_planner::grid::OccupancyGrid;
use crate::global_planner::{PathWaypoint, SegmentDir};
use crate::ieee::double::{lemma_decode_zero, lemma_encode_zero, Double};
use vstd::arithmetic::power2::{lemma_pow2_pos, pow2};
use vstd::prelude::*;

verus! {

/// Distance (m) between collision checks along a path.
pub open spec fn spec_path_sample_step_m() -> Double {
    Double::spec_ratio(5, 100)
}

#[verifier::when_used_as_spec(spec_path_sample_step_m)]
pub fn path_sample_step_m() -> (r: Double)
    ensures
        r == spec_path_sample_step_m(),
{
    Double::ratio(5, 100)
}

/// Number of pieces no longer than `step` that make up `len`, at least one.
pub open spec fn spec_pieces(len: Double, step: Double) -> u64 {
    let n = len.over(step).ceil_count();
    if n < 1 {
        1
    } else {
        n
    }
}

#[verifier::when_used_as_spec(spec_pieces)]
pub fn pieces(len: Double, step: Double) -> (r: u64)
    ensures
        r == spec_pieces(len, step),
        r >= 1,
{
    let n = len.over(step).ceil_count();
    if n < 1 {
        1
    } else {
        n
    }
}

/// The `k`-th of the points that divide the segment into `n` pieces.
pub open spec fn spec_sample(a: (Double, Double), b: (Double, Double), k: u64, n: u64) -> (
    Double,
    Double,
) {
    let t = Double::of(k).over(Double::of(n));
    (a.0.plus(b.0.minus(a.0).times(t)), a.1.plus(b.1.minus(a.1).times(t)))
}

#[verifier::when_used_as_spec(spec_sample)]
pub fn sample(a: (Double, Double), b: (Double, Double), k: u64, n: u64) -> (r: (Double, Double))
    ensures
        r == spec_sample(a, b, k, n),
{
    let t = Double::of(k).over(Double::of(n));
    (a.0.plus(b.0.minus(a.0).times(t)), a.1.plus(b.1.minus(a.1).times(t)))
}

/// Number of pieces in which a segment is checked.
pub open spec fn segment_pieces(a: (Double, Double), b: (Double, Double)) -> u64 {
    pieces(distance(a.0, a.1, b.0, b.1), path_sample_step_m())
}

/// The sample of a segment is free.
pub open spec fn sample_free(
    grid: &OccupancyGrid,
    escape: Option<&EscapeZone>,
    a: (Double, Double),
    b: (Double, Double),
    k: u64,
) -> bool {
    let p = sample(a, b, k, segment_pieces(a, b));
    !pose_blocked(grid, escape, p.0, p.1)
}

/// Every sample of the segment is free, its end points included.
pub open spec fn spec_segment_free(
    grid: &OccupancyGrid,
    escape: Option<&EscapeZone>,
    a: (Double, Double),
    b: (Double, Double),
) -> bool {
    forall|k: u64| k <= segment_pieces(a, b) ==> #[trigger] sample_free(grid, escape, a, b, k)
}

#[verifier::when_used_as_spec(spec_segment_free)]
pub fn segment_free(
    grid: &OccupancyGrid,
    escape: Option<&EscapeZone>,
    a: (Double, Double),
    b: (Double, Double),
) -> (r: bool)
    requires
        grid.wf(),
    ensures
        r == spec_segment_free(grid, escape, a, b),
{
    let n = pieces(distance(a.0, a.1, b.0, b.1), path_sample_step_m());
    let mut k: u64 = 0;
    loop
        invariant
            grid.wf(),
            n == segment_pieces(a, b),
            k <= n,
            forall|j: u64| j < k ==> #[trigger] sample_free(grid, escape, a, b, j),
        decreases n - k,
    {
        let p = sample(a, b, k, n);
        if pose_blocked(grid, escape, p.0, p.1) {
            assert(!sample_free(grid, escape, a, b, k));
            return false;
        }
        assert(sample_free(grid, escape, a, b, k));
        if k == n {
            return true;
        }
        k = k + 1;
    }
}

pub open spec fn spec_point(w: PathWaypoint) -> (Double, Double) {
    (w.x, w.y)
}

#[verifier::when_used_as_spec(spec_point)]
pub fn point(w: PathWaypoint) -> (r: (Double, Double))
    ensures
        r == spec_point(w),
{
    (w.x, w.y)
}

/// The path can still be driven: it is not empty, and all its segments, or its
/// only waypoint, are free.
pub open spec fn drivable(
    path: Seq<PathWaypoint>,
    grid: &OccupancyGrid,
    escape: Option<&EscapeZone>,
) -> bool {
    &&& path.len() > 0
    &&& path.len() == 1 ==> !pose_blocked(grid, escape, path[0].x, path[0].y)
    &&& forall|i: int|
        #![trigger path[i]]
        0 < i < path.len() ==> segment_free(grid, escape, point(path[i - 1]), point(path[i]))
}

/// The path can still be driven on the grid.
pub fn path_remains_valid(path: &[PathWaypoint], grid: &OccupancyGrid) -> (r: bool)
    requires
        grid.wf(),
    ensures
        r == drivable(path@, grid, None),
{
    path_remains_valid_with_escape(path, grid, None)
}

/// The same with an escape zone, so that a path out of the robot's own pocket
/// stays valid while it is driven.
pub fn path_remains_valid_with_escape(
    path: &[PathWaypoint],
    grid: &OccupancyGrid,
    escape: Option<&EscapeZone>,
) -> (r: bool)
    requires
        grid.wf(),
    ensures
        r == drivable(path@, grid, escape),
{
    if path.len() == 0 {
        return false;
    }
    if path.len() == 1 {
        return !pose_blocked(grid, escape, path[0].x, path[0].y);
    }
    let mut i: usize = 1;
    while i < path.len()
        invariant
            grid.wf(),
            1 <= i <= path@.len(),
            forall|j: int|
                #![trigger path@[j]]
                0 < j < i ==> segment_free(grid, escape, point(path@[j - 1]), point(path@[j])),
        decreases path@.len() - i,
    {
        if !segment_free(grid, escape, point(path[i - 1]), point(path[i])) {
            assert(!segment_free(grid, escape, point(path@[i - 1]), point(path@[i as int])));
            return false;
        }
        i = i + 1;
    }
    true
}

/// Index and value of the first least of the first `n` numbers, starting from
/// infinity.
pub open spec fn least_of(d: Seq<Double>, n: int) -> (int, Double)
    decreases n,
{
    if n <= 0 {
        (0, Double { bits: 0x7ff0_0000_0000_0000 })
    } else {
        let before = least_of(d, n - 1);
        if d[n - 1].lt(before.1) {
            (n - 1, d[n - 1])
        } else {
            before
        }
    }
}

/// The first least is a least one, and the first such; where there is nothing
/// below infinity it is the first of all.
pub proof fn law_least_of(d: Seq<Double>, n: int)
    requires
        0 <= n <= d.len(),
    ensures
        ({
            let (i, v) = least_of(d, n);
            &&& !v.nan()
            &&& forall|j: int| 0 <= j < n ==> !(#[trigger] d[j]).lt(v)
            &&& v.infinite() && !v.negative() ==> i == 0
            &&& !(v.infinite() && !v.negative()) ==> 0 <= i < n && d[i] == v && (forall|j: int|
                0 <= j < i ==> !(#[trigger] d[j]).le(v))
        }),
    decreases n,
{
    if n > 0 {
        law_least_of(d, n - 1);
    }
}

/// Squared distances of the waypoints from a point.
pub open spec fn distances(path: Seq<PathWaypoint>, x: Double, y: Double) -> Seq<Double> {
    Seq::new(path.len(), |i: int| distance_squared(x, y, path[i].x, path[i].y))
}

/// Index of the waypoint nearest to a point; 0 for an empty path.
pub fn nearest_waypoint_index(path: &[PathWaypoint], x: Double, y: Double) -> (r: usize)
    ensures
        r == least_of(distances(path@, x, y), path@.len() as int).0,
        path@.len() > 0 ==> r < path@.len(),
{
    let mut best: usize = 0;
    let mut best_d2 = Double { bits: 0x7ff0_0000_0000_0000 };
    let mut i: usize = 0;
    while i < path.len()
        invariant
            i <= path@.len(),
            (best as int, best_d2) == least_of(distances(path@, x, y), i as int),
            best < path@.len() || best == 0,
        decreases path@.len() - i,
    {
        let d2 = distance_squared(x, y, path[i].x, path[i].y);
        if d2.lt(best_d2) {
            best_d2 = d2;
            best = i;
        }
        i = i + 1;
    }
    best
}

/// What directions cost in `path_cost`.
#[derive(Clone, Copy, Debug)]
pub struct CostPenalties {
    /// Cost of a metre in reverse, relative to one forward.
    pub reverse_cost_multiplier: Double,
    /// Cost of a change of direction.
    pub direction_switch_penalty: Double,
}

impl CostPenalties {
    /// The penalties that the search charges.
    pub fn from_config(cfg: &HybridAStarConfig) -> (r: CostPenalties)
        ensures
            r == (CostPenalties {
                reverse_cost_multiplier: cfg.reverse_cost_multiplier,
                direction_switch_penalty: cfg.direction_switch_penalty,
            }),
    {
        CostPenalties {
            reverse_cost_multiplier: cfg.reverse_cost_multiplier,
            direction_switch_penalty: cfg.direction_switch_penalty,
        }
    }

    /// No penalties.
    pub fn none() -> (r: CostPenalties)
        ensures
            r == (CostPenalties {
                reverse_cost_multiplier: Double::one(),
                direction_switch_penalty: Double::zero(),
            }),
    {
        CostPenalties {
            reverse_cost_multiplier: Double::one(),
            direction_switch_penalty: Double::zero(),
        }
    }
}

/// The cost with one more segment: its length, more in reverse, the change of
/// direction, and the proximity of obstacles at its middle.
pub open spec fn cost_with(
    cost: Double,
    a: PathWaypoint,
    b: PathWaypoint,
    clearance: Option<&ClearanceField>,
    weight: Double,
    decay_m: Double,
    penalties: CostPenalties,
) -> Double {
    let ds = distance(a.x, a.y, b.x, b.y);
    let c1 = cost.plus(
        if b.dir == SegmentDir::Reverse {
            ds.times(penalties.reverse_cost_multiplier)
        } else {
            ds
        },
    );
    let c2 = if b.dir != a.dir {
        c1.plus(penalties.direction_switch_penalty)
    } else {
        c1
    };
    match clearance {
        Some(field) if Double::zero().lt(weight) && Double::zero().lt(decay_m) => {
            let half = Double::half();
            let d = field.distance_at(a.x.plus(b.x).times(half), a.y.plus(b.y).times(half));
            if d.lt(decay_m) {
                c2.plus(weight.times(ds).times(Double::one().minus(d.over(decay_m))))
            } else {
                c2
            }
        },
        _ => c2,
    }
}

/// The cost of the first `n` segments.
pub open spec fn cost_upto(
    path: Seq<PathWaypoint>,
    clearance: Option<&ClearanceField>,
    weight: Double,
    decay_m: Double,
    penalties: CostPenalties,
    n: int,
) -> Double
    decreases n,
{
    if n <= 0 {
        Double::zero()
    } else {
        cost_with(
            cost_upto(path, clearance, weight, decay_m, penalties, n - 1),
            path[n - 1],
            path[n],
            clearance,
            weight,
            decay_m,
            penalties,
        )
    }
}

/// What a path costs, by the measure of the search: a new path has to be better
/// by this to replace the old one.
pub fn path_cost(
    path: &[PathWaypoint],
    clearance: Option<&ClearanceField>,
    weight: Double,
    decay_m: Double,
    penalties: CostPenalties,
) -> (r: Double)
    requires
        clearance matches Some(f) ==> f.wf(),
    ensures
        r == cost_upto(path@, clearance, weight, decay_m, penalties, path@.len() - 1),
{
    let mut cost = Double::zero();
    let mut i: usize = 1;
    while i < path.len()
        invariant
            clearance matches Some(f) ==> f.wf(),
            1 <= i,
            i <= path@.len() || i == 1,
            cost == cost_upto(path@, clearance, weight, decay_m, penalties, i - 1),
        decreases path@.len() - i,
    {
        let (a, b) = (path[i - 1], path[i]);
        let ds = distance(a.x, a.y, b.x, b.y);
        cost = cost.plus(
            if b.dir == SegmentDir::Reverse {
                ds.times(penalties.reverse_cost_multiplier)
            } else {
                ds
            },
        );
        if b.dir != a.dir {
            cost = cost.plus(penalties.direction_switch_penalty);
        }
        if let Some(field) = clearance {
            if Double::zero().lt(weight) && Double::zero().lt(decay_m) {
                let half = Double::half();
                let d = field.distance_at(a.x.plus(b.x).times(half), a.y.plus(b.y).times(half));
                if d.lt(decay_m) {
                    cost = cost.plus(
                        weight.times(ds).times(Double::one().minus(d.over(decay_m))),
                    );
                }
            }
        }
        i = i + 1;
    }
    cost
}

/// A length costs no less in reverse, where reverse costs at least as much.
proof fn lemma_reverse_length(ds: Double, multiplier: Double)
    requires
        !ds.nan() && ds.key() >= 0,
        multiplier.finite() && Double::one().le(multiplier),
    ensures
        ds.le(ds.times(multiplier)),
{
    reveal(Double::spec_times);
    if ds.finite() {
        let a = Double::make(false, ds.mag());
        a.lemma_times_monotone(Double::one(), multiplier);
        Double::one().lemma_times_sign(a);
        let (u, p) = (a.units(), Double::one().units());
        assert(u * p == p * u) by (nonlinear_arith);
        assert(a.units() == ds.units());
        assert(a.times(Double::one()).mag() == a.mag());
        assert(a.times(multiplier).mag() == ds.times(multiplier).mag());
        if ds.mag() == 0 {
            lemma_zero_times(ds, multiplier);
        }
    }
}

proof fn lemma_zero_times(z: Double, o: Double)
    requires
        z.mag() == 0,
        o.finite(),
    ensures
        z.times(o).mag() == 0,
{
    reveal(Double::spec_times);
    lemma_decode_zero();
    let u = o.units();
    assert(0 * u == 0) by (nonlinear_arith);
    lemma_pow2_pos(1074);
    lemma_encode_zero(pow2(1074));
}

/// A path never costs less than one along the same points that goes forward all
/// the way, as long as reverse costs at least as much as forward, a change of
/// direction costs something or nothing, and the costs are numbers.
pub proof fn law_forward_costs_least(
    path: Seq<PathWaypoint>,
    plain: Seq<PathWaypoint>,
    clearance: Option<&ClearanceField>,
    weight: Double,
    decay_m: Double,
    penalties: CostPenalties,
    n: int,
)
    requires
        0 <= n < path.len(),
        plain.len() == path.len(),
        forall|i: int|
            0 <= i < path.len() ==> (#[trigger] plain[i]).x == path[i].x && plain[i].y == path[i].y
                && plain[i].dir == SegmentDir::Forward,
        penalties.reverse_cost_multiplier.finite(),
        Double::one().le(penalties.reverse_cost_multiplier),
        Double::zero().le(penalties.direction_switch_penalty),
        !cost_upto(path, clearance, weight, decay_m, penalties, n).nan(),
        !cost_upto(plain, clearance, weight, decay_m, penalties, n).nan(),
    ensures
        cost_upto(plain, clearance, weight, decay_m, penalties, n).le(
            cost_upto(path, clearance, weight, decay_m, penalties, n),
        ),
    decreases n,
{
    if n > 0 {
        let (a, b) = (path[n - 1], path[n]);
        let (pa, pb) = (plain[n - 1], plain[n]);
        let was = cost_upto(path, clearance, weight, decay_m, penalties, n - 1);
        let flat = cost_upto(plain, clearance, weight, decay_m, penalties, n - 1);
        let ds = distance(a.x, a.y, b.x, b.y);
        reveal(Double::spec_plus);
        assert(!was.nan() && !flat.nan() && !ds.nan());
        law_forward_costs_least(path, plain, clearance, weight, decay_m, penalties, n - 1);
        assert(ds.key() >= 0) by {
            reveal(Double::spec_sqrt);
        }
        lemma_reverse_length(ds, penalties.reverse_cost_multiplier);
        let len = if b.dir == SegmentDir::Reverse {
            ds.times(penalties.reverse_cost_multiplier)
        } else {
            ds
        };
        let c1 = was.plus(len);
        let o1 = flat.plus(ds);
        assert(!c1.nan() && !o1.nan());
        Double::lemma_plus_monotone(flat, was, ds, len);
        let c2 = if b.dir != a.dir {
            c1.plus(penalties.direction_switch_penalty)
        } else {
            c1
        };
        if b.dir != a.dir {
            if c1.finite() {
                c1.lemma_plus_grows(penalties.direction_switch_penalty);
            }
        }
        assert(o1.le(c2));
        if clearance is Some && Double::zero().lt(weight) && Double::zero().lt(decay_m) {
            let half = Double::half();
            let d = clearance->0.distance_at(
                a.x.plus(b.x).times(half),
                a.y.plus(b.y).times(half),
            );
            let more = weight.times(ds).times(Double::one().minus(d.over(decay_m)));
            if d.lt(decay_m) {
                Double::lemma_plus_monotone(o1, c2, more, more);
            }
        }
    }
}

} // verus!
