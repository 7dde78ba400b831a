//! Runs of a path: the stretches between changes of direction. The first of
//! them is the one that is being driven.
use crate::geometry::distance;
use crate::global_planner::path::{distances, least_of, nearest_waypoint_index};
use crate::global_planner::{PathWaypoint, SegmentDir};
use crate::ieee::double::Double;
use vstd::prelude::*;
use vstd::slice::slice_subrange;

verus! {

/// Distance (m) from the end of a run at which a change of direction counts as
/// reached: 0.12.
pub open spec fn spec_cusp_arrival() -> Double {
    Double::spec_ratio(12, 100)
}

#[verifier::when_used_as_spec(spec_cusp_arrival)]
pub fn cusp_arrival() -> (r: Double)
    ensures
        r == spec_cusp_arrival(),
{
    Double::ratio(12, 100)
}

/// The last waypoint, from `end` on, up to which the direction is `dir`.
pub open spec fn extent(path: Seq<PathWaypoint>, dir: SegmentDir, end: int) -> int
    decreases path.len() - end,
{
    if end + 1 < path.len() && path[end + 1].dir == dir {
        extent(path, dir, end + 1)
    } else {
        end
    }
}

/// The first run: the index of its last waypoint, and its direction. A waypoint
/// carries the direction in which it is reached, so the direction of a run is
/// that of its second waypoint.
pub open spec fn first_run(path: Seq<PathWaypoint>) -> (int, SegmentDir) {
    if path.len() == 0 {
        (0, SegmentDir::Forward)
    } else if path.len() == 1 {
        (0, path[0].dir)
    } else {
        (extent(path, path[1].dir, 1), path[1].dir)
    }
}

proof fn lemma_extent(path: Seq<PathWaypoint>, dir: SegmentDir, end: int)
    requires
        0 <= end < path.len(),
    ensures
        end <= extent(path, dir, end) < path.len(),
        forall|i: int| end < i <= extent(path, dir, end) ==> (#[trigger] path[i]).dir == dir,
        extent(path, dir, end) + 1 < path.len() ==> path[extent(path, dir, end) + 1].dir != dir,
    decreases path.len() - end,
{
    if end + 1 < path.len() && path[end + 1].dir == dir {
        lemma_extent(path, dir, end + 1);
    }
}

/// The first run has one direction, and goes on for as long as that lasts.
pub proof fn law_first_run(path: Seq<PathWaypoint>)
    requires
        path.len() >= 1,
    ensures
        ({
            let (end, dir) = first_run(path);
            &&& 0 <= end < path.len()
            &&& path.len() >= 2 ==> end >= 1
            &&& forall|i: int| 0 < i <= end ==> (#[trigger] path[i]).dir == dir
            &&& end + 1 < path.len() ==> path[end + 1].dir != dir
        }),
{
    if path.len() >= 2 {
        lemma_extent(path, path[1].dir, 1);
    }
}

/// Finds the first run of a path.
pub fn active_run(path: &[PathWaypoint]) -> (r: (usize, SegmentDir))
    ensures
        (r.0 as int, r.1) == first_run(path@),
        path@.len() > 0 ==> r.0 < path@.len(),
{
    if path.len() == 0 {
        return (0, SegmentDir::Forward);
    }
    if path.len() == 1 {
        return (0, path[0].dir);
    }
    let dir = path[1].dir;
    let mut end: usize = 1;
    let mut more = true;
    while more
        invariant
            1 <= end < path@.len(),
            extent(path@, dir, 1) == extent(path@, dir, end as int),
            !more ==> extent(path@, dir, end as int) == end,
        decreases path@.len() - end, (if more { 1int } else { 0int }),
    {
        if path.len() - end > 1 && path[end + 1].dir == dir {
            end = end + 1;
        } else {
            more = false;
        }
    }
    (end, dir)
}

/// Distances of the waypoints from a point.
pub open spec fn ranges(path: Seq<PathWaypoint>, x: Double, y: Double) -> Seq<Double> {
    Seq::new(path.len(), |i: int| distance(x, y, path[i].x, path[i].y))
}

/// Index of the first least of the first `n` numbers in their total order.
pub open spec fn first_least(d: Seq<Double>, n: int) -> int
    decreases n,
{
    if n <= 1 {
        0
    } else {
        let before = first_least(d, n - 1);
        if d[n - 1].rank() < d[before].rank() {
            n - 1
        } else {
            before
        }
    }
}

/// The first least is before none that is less, and behind none that is not
/// greater.
pub proof fn law_first_least(d: Seq<Double>, n: int)
    requires
        1 <= n <= d.len(),
    ensures
        ({
            let k = first_least(d, n);
            &&& 0 <= k < n
            &&& forall|i: int| 0 <= i < n ==> d[k].rank() <= (#[trigger] d[i]).rank()
            &&& forall|i: int| 0 <= i < k ==> d[k].rank() < (#[trigger] d[i]).rank()
        }),
    decreases n,
{
    if n > 1 {
        law_first_least(d, n - 1);
    }
}

/// The waypoint nearest to a point.
pub open spec fn nearest(path: Seq<PathWaypoint>, x: Double, y: Double) -> int {
    first_least(ranges(path, x, y), path.len() as int)
}

/// Finds the waypoint nearest to a point.
pub fn nearest_index(path: &[PathWaypoint], x: Double, y: Double) -> (r: usize)
    requires
        path@.len() > 0,
    ensures
        r == nearest(path@, x, y),
        r < path@.len(),
{
    let ghost d = ranges(path@, x, y);
    let mut best: usize = 0;
    let mut least = distance(x, y, path[0].x, path[0].y);
    let mut i: usize = 1;
    while i < path.len()
        invariant
            1 <= i <= path@.len(),
            d == ranges(path@, x, y),
            best < i,
            best == first_least(d, i as int),
            least == d[best as int],
        decreases path@.len() - i,
    {
        let far = distance(x, y, path[i].x, path[i].y);
        assert(d[i as int] == far);
        if !least.total_le(far) {
            best = i;
            least = far;
        }
        i = i + 1;
    }
    best
}

/// Length of the path from its `i`-th waypoint to its end, added to `so_far`.
pub open spec fn length_from(path: Seq<PathWaypoint>, i: int, so_far: Double) -> Double
    decreases path.len() - i,
{
    if i + 1 >= path.len() {
        so_far
    } else {
        length_from(
            path,
            i + 1,
            so_far.plus(distance(path[i].x, path[i].y, path[i + 1].x, path[i + 1].y)),
        )
    }
}

/// Distance (m) from a point to the end of a run: to its nearest waypoint, and
/// from there along the run. Nothing remains of an empty run.
pub open spec fn remaining(run: Seq<PathWaypoint>, x: Double, y: Double) -> Double {
    if run.len() == 0 {
        Double::zero()
    } else {
        let k = nearest(run, x, y);
        length_from(run, k, distance(x, y, run[k].x, run[k].y))
    }
}

/// The distance from a point to the end of a run.
pub fn remaining_run_distance(run: &[PathWaypoint], x: Double, y: Double) -> (r: Double)
    ensures
        r == remaining(run@, x, y),
{
    if run.len() == 0 {
        return Double::zero();
    }
    let k = nearest_index(run, x, y);
    let mut d = distance(x, y, run[k].x, run[k].y);
    let mut i = k;
    while run.len() - i > 1
        invariant
            i < run@.len(),
            remaining(run@, x, y) == length_from(run@, i as int, d),
        decreases run@.len() - i,
    {
        d = d.plus(distance(run[i].x, run[i].y, run[i + 1].x, run[i + 1].y));
        i = i + 1;
    }
    d
}

/// True where the run that is being driven goes in reverse.
pub fn active_segment_reverse(path: &[PathWaypoint]) -> (r: bool)
    ensures
        r == (first_run(path@).1 == SegmentDir::Reverse),
{
    active_run(path).1 == SegmentDir::Reverse
}

/// Where the path that is kept begins: at the end of the first run once that
/// is reached and another follows, else at the waypoint of the first run that
/// is nearest. Runs further on are not yet driven, however near they pass.
pub open spec fn truncation(path: Seq<PathWaypoint>, x: Double, y: Double) -> int {
    let end = first_run(path).0;
    let run = path.subrange(0, end + 1);
    if path.len() == 0 {
        0
    } else if end + 1 < path.len() && remaining(run, x, y).lt(cusp_arrival()) {
        end
    } else {
        least_of(distances(run, x, y), run.len() as int).0
    }
}

/// Finds where the path that is kept begins.
pub fn active_run_truncation_index(path: &[PathWaypoint], x: Double, y: Double) -> (r: usize)
    ensures
        r == truncation(path@, x, y),
        path@.len() > 0 ==> r <= first_run(path@).0,
{
    if path.len() == 0 {
        return 0;
    }
    let (end, _) = active_run(path);
    let run = slice_subrange(path, 0, end + 1);
    if end + 1 < path.len() && remaining_run_distance(run, x, y).lt(cusp_arrival()) {
        return end;
    }
    nearest_waypoint_index(run, x, y)
}

} // verus!
