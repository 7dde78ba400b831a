//! Heading and steering of smoothed waypoints.
use crate::global_planner::config::HybridAStarConfig;
use crate::global_planner::smoother::{
    joined, menger_curvature, path_curvature_limit, points_of, refined, runs_of, smoothed_path,
    stretch, waypoint_of, waypoints_of, Terrain,
};
use crate::global_planner::smoother_laws::{
    all_in, law_runs, lemma_joined, lemma_piece, lemma_piece_direction, lemma_run_facts, piece_of,
};
use crate::global_planner::{PathWaypoint, SegmentDir};
use crate::ieee::algebra::alike;
use crate::ieee::double::Double;
use crate::trig::{arctangent, bearing, normalize_angle, pi, Trig};
use vstd::prelude::*;

verus! {

/// The waypoint looks from the one behind to the one ahead, the way that it is
/// driven forward, and the other way in reverse.
pub open spec fn looks_along(
    t: Trig,
    w: PathWaypoint,
    behind: PathWaypoint,
    ahead: PathWaypoint,
) -> bool {
    let b = bearing(t, ahead.y.minus(behind.y), ahead.x.minus(behind.x));
    match w.dir {
        SegmentDir::Forward => alike(w.theta, normalize_angle(b)),
        SegmentDir::Reverse => w.theta == normalize_angle(b.plus(pi())),
    }
}

/// The wheels are turned so that the robot drives the arc through its neighbours: to
/// the side that it bends to going forward, to the other side in reverse.
pub open spec fn steers_along(
    t: Trig,
    wheelbase: Double,
    w: PathWaypoint,
    behind: PathWaypoint,
    ahead: PathWaypoint,
) -> bool {
    let bend = menger_curvature((behind.x, behind.y), (w.x, w.y), (ahead.x, ahead.y));
    bend.finite() ==> w.steering == arctangent(
        t,
        match w.dir {
            SegmentDir::Forward => bend,
            SegmentDir::Reverse => bend.negate(),
        }.times(wheelbase),
    )
}

/// The waypoint before the `i`-th, or that one itself at the start.
pub open spec fn behind(path: Seq<PathWaypoint>, i: int) -> PathWaypoint {
    if i == 0 {
        path[0]
    } else {
        path[i - 1]
    }
}

/// The path goes on from the `i`-th waypoint in the same direction.
pub open spec fn goes_on(path: Seq<PathWaypoint>, i: int) -> bool {
    i + 1 < path.len() && path[i + 1].dir == path[i].dir
}

/// The waypoint after the `i`-th, or that one itself where the path ends or goes on
/// in the other direction.
pub open spec fn ahead(path: Seq<PathWaypoint>, i: int) -> PathWaypoint {
    if goes_on(path, i) {
        path[i + 1]
    } else {
        path[i]
    }
}

/// The `i`-th waypoint has heading and steering by its neighbours.
pub open spec fn is_aligned(
    t: Trig,
    wheelbase: Double,
    path: Seq<PathWaypoint>,
    i: int,
) -> bool {
    &&& looks_along(t, path[i], behind(path, i), ahead(path, i))
    &&& 0 < i && goes_on(path, i) ==> steers_along(
        t,
        wheelbase,
        path[i],
        path[i - 1],
        path[i + 1],
    )
}

proof fn lemma_normalize_plus_nothing(b: Double)
    ensures
        alike(normalize_angle(b.plus(Double::zero())), normalize_angle(b)),
{
    if b.finite() {
        b.lemma_plus_nothing(Double::zero());
    } else {
        reveal(Double::spec_plus);
    }
}

/// A waypoint of a smoothed stretch, by its neighbours there.
proof fn lemma_waypoint(
    t: Trig,
    wheelbase: Double,
    path: Seq<PathWaypoint>,
    dir: SegmentDir,
    i: int,
    behind: PathWaypoint,
    ahead: PathWaypoint,
)
    requires
        0 <= i < path.len(),
        path[i] == waypoint_of(t, points_of(path), wheelbase, dir, i),
        (behind.x, behind.y) == points_of(path)[if i == 0 {
            0
        } else {
            i - 1
        }],
        (ahead.x, ahead.y) == points_of(path)[if i + 1 == path.len() {
            i
        } else {
            i + 1
        }],
    ensures
        looks_along(t, path[i], behind, ahead),
        0 < i < path.len() - 1 ==> steers_along(t, wheelbase, path[i], behind, ahead),
{
    let b = bearing(t, ahead.y.minus(behind.y), ahead.x.minus(behind.x));
    lemma_normalize_plus_nothing(b);
    if 0 < i < path.len() - 1 {
        let w = path[i];
        let bend = menger_curvature((behind.x, behind.y), (w.x, w.y), (ahead.x, ahead.y));
        assert(points_of(path)[i] == (w.x, w.y));
        if bend.finite() {
            bend.lemma_times_one();
            Double::one().lemma_times_negate(bend);
        }
    }
}

/// A stretch is left as it is, or its waypoints follow from its points.
proof fn lemma_piece_waypoints(
    t: Trig,
    ground: Terrain,
    cfg: &HybridAStarConfig,
    raw: Seq<PathWaypoint>,
    kappa_max: Double,
    n: int,
)
    ensures
        ({
            let next = piece_of(t, ground, cfg, raw, kappa_max, n);
            let run = runs_of(raw)[n];
            let dir = raw[run.end as int].dir;
            next == stretch(raw, run) || forall|i: int|
                0 <= i < next.len() ==> #[trigger] next[i] == waypoint_of(
                    t,
                    points_of(next),
                    cfg.wheelbase,
                    dir,
                    i,
                )
        }),
{
    let run = runs_of(raw)[n];
    let dir = raw[run.end as int].dir;
    let fine = refined(ground, cfg, points_of(stretch(raw, run)), kappa_max);
    let out = waypoints_of(t, fine, cfg.wheelbase, dir);
    assert(points_of(out) =~= fine);
}

/// What follows in the other direction does not change how a waypoint is aligned.
proof fn lemma_append_before(
    t: Trig,
    wheelbase: Double,
    before: Seq<PathWaypoint>,
    rest: Seq<PathWaypoint>,
    dir: SegmentDir,
    i: int,
)
    requires
        0 <= i < before.len(),
        is_aligned(t, wheelbase, before, i),
        all_in(rest, dir),
        before.last().dir != dir,
    ensures
        is_aligned(t, wheelbase, before + rest, i),
{
    let out = before + rest;
    assert(out[i] == before[i]);
    if i + 1 < before.len() {
        assert(out[i + 1] == before[i + 1]);
    } else if rest.len() > 0 {
        assert(out[i + 1] == rest[0]);
    }
    if i > 0 {
        assert(out[i - 1] == before[i - 1]);
    }
    assert(goes_on(out, i) == goes_on(before, i));
}

/// The waypoints of a stretch are aligned behind those of the stretches before it.
proof fn lemma_append_after(
    t: Trig,
    wheelbase: Double,
    before: Seq<PathWaypoint>,
    next: Seq<PathWaypoint>,
    dir: SegmentDir,
    j: int,
)
    requires
        before.len() > 0,
        1 <= j < next.len(),
        all_in(next.drop_first(), dir),
        next[j] == waypoint_of(t, points_of(next), wheelbase, dir, j),
        points_of(next)[0] == (before.last().x, before.last().y),
    ensures
        is_aligned(t, wheelbase, before + next.drop_first(), before.len() + j - 1),
{
    let rest = next.drop_first();
    let out = before + rest;
    let i = before.len() + j - 1;
    assert(out[i] == rest[j - 1] && rest[j - 1] == next[j]);
    if j + 1 < next.len() {
        assert(out[i + 1] == rest[j] && rest[j] == next[j + 1]);
    }
    if j > 1 {
        assert(out[i - 1] == rest[j - 2] && rest[j - 2] == next[j - 1]);
    }
    assert(goes_on(out, i) == (j + 1 < next.len()));
    lemma_waypoint(t, wheelbase, next, dir, j, behind(out, i), ahead(out, i));
}

proof fn lemma_joined_aligned(
    t: Trig,
    ground: Terrain,
    cfg: &HybridAStarConfig,
    raw: Seq<PathWaypoint>,
    kappa_max: Double,
    n: int,
    i: int,
)
    requires
        0 < raw.len() <= usize::MAX,
        1 <= n <= runs_of(raw).len(),
        0 <= i < joined(t, ground, cfg, raw, kappa_max, n).len(),
    ensures
        ({
            let out = joined(t, ground, cfg, raw, kappa_max, n);
            raw.contains(out[i]) || is_aligned(t, cfg.wheelbase, out, i)
        }),
    decreases n,
{
    let run = runs_of(raw)[n - 1];
    let dir = raw[run.end as int].dir;
    let out = joined(t, ground, cfg, raw, kappa_max, n);
    let before = joined(t, ground, cfg, raw, kappa_max, n - 1);
    let next = piece_of(t, ground, cfg, raw, kappa_max, n - 1);
    lemma_run_facts(raw, n - 1);
    lemma_piece(t, ground, cfg, raw, kappa_max, n - 1);
    lemma_piece_direction(t, ground, cfg, raw, kappa_max, n - 1);
    lemma_piece_waypoints(t, ground, cfg, raw, kappa_max, n - 1);
    let j = i - before.len() + (if n == 1 {
        0int
    } else {
        1int
    });
    if n == 1 {
        assert(before =~= Seq::empty());
        assert(out == next);
    } else {
        lemma_joined(t, ground, cfg, raw, kappa_max, n - 1);
        assert(out == before + next.drop_first());
    }
    if i < before.len() {
        lemma_joined_aligned(t, ground, cfg, raw, kappa_max, n - 1, i);
        assert(out[i] == before[i]);
        if !raw.contains(out[i]) {
            lemma_append_before(t, cfg.wheelbase, before, next.drop_first(), dir, i);
        }
    } else if next == stretch(raw, run) {
        assert(out[i] == next[j] && next[j] == raw[run.start + j]);
    } else if n == 1 {
        lemma_first_aligned(t, cfg.wheelbase, next, dir, i);
    } else {
        assert(out[i] == next[j]);
        assert(points_of(next)[0] == (before.last().x, before.last().y));
        lemma_append_after(t, cfg.wheelbase, before, next, dir, j);
    }
}

proof fn lemma_first_aligned(
    t: Trig,
    wheelbase: Double,
    next: Seq<PathWaypoint>,
    dir: SegmentDir,
    i: int,
)
    requires
        0 <= i < next.len(),
        all_in(next, dir),
        next[i] == waypoint_of(t, points_of(next), wheelbase, dir, i),
    ensures
        is_aligned(t, wheelbase, next, i),
{
    if i + 1 < next.len() {
        assert(next[i + 1].dir == dir);
    }
    lemma_waypoint(t, wheelbase, next, dir, i, behind(next, i), ahead(next, i));
}

/// Every waypoint of a smoothed path is one of the path itself, or looks along the
/// smoothed path: forward from the waypoint behind it to the one ahead, in reverse
/// the other way. Its steering drives the arc through the three of them.
pub proof fn law_smoothed_headings(
    t: Trig,
    ground: Terrain,
    cfg: &HybridAStarConfig,
    raw: Seq<PathWaypoint>,
    executor_max_curvature: Double,
    i: int,
)
    requires
        0 < raw.len() <= usize::MAX,
        0 <= i < smoothed_path(t, ground, cfg, raw, executor_max_curvature).len(),
    ensures
        ({
            let out = smoothed_path(t, ground, cfg, raw, executor_max_curvature);
            raw.contains(out[i]) || is_aligned(t, cfg.wheelbase, out, i)
        }),
{
    if cfg.smoothing_enabled && raw.len() >= 2 {
        law_runs(raw);
        let kappa_max = path_curvature_limit(executor_max_curvature);
        let n = runs_of(raw).len() as int;
        lemma_joined_aligned(t, ground, cfg, raw, kappa_max, n, i);
    }
}

} // verus!
