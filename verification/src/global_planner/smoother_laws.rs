//! What holds of smoothing, and what it leaves as it was.
use crate::global_planner::config::HybridAStarConfig;
use crate::global_planner::smoother::{
    acceptable, farthest, gains_of, joined, laid_upto, lemma_farthest, near_tight, passed, passes,
    path_curvature_limit, points_of, refined, relaxed, required_for, resample_spacing_m, resampled,
    runs_before, runs_of, segment_admissible, shortened, shortened_from, smooth_stretch, smoothed,
    smoothed_path, stretch, waypoints_of, Gains, Point, Terrain,
};
use crate::global_planner::{PathWaypoint, SegmentDir};
use crate::ieee::double::Double;
use crate::trig::Trig;
use vstd::prelude::*;

verus! {

/// The chain has the same ends as the other.
pub open spec fn same_ends(a: Seq<Point>, b: Seq<Point>) -> bool {
    &&& a.len() > 0 && b.len() > 0
    &&& a[0] == b[0]
    &&& a.last() == b.last()
}

/// The waypoints lie at the same place and are driven in the same direction.
pub open spec fn same_spot(a: PathWaypoint, b: PathWaypoint) -> bool {
    a.x == b.x && a.y == b.y && a.dir == b.dir
}

/// The path has a waypoint at the spot.
pub open spec fn visits(path: Seq<PathWaypoint>, w: PathWaypoint) -> bool {
    exists|j: int| 0 <= j < path.len() && same_spot(#[trigger] path[j], w)
}

proof fn lemma_shortened_from(ground: Terrain, pts: Seq<Point>, i: int)
    requires
        0 <= i,
        i + 1 < pts.len(),
    ensures
        shortened_from(ground, pts, i).len() > 0,
        shortened_from(ground, pts, i).last() == pts.last(),
    decreases pts.len() - i,
{
    let j = farthest(ground, pts, i, pts.len() - 1);
    lemma_farthest(ground, pts, i, pts.len() - 1);
    if j + 1 < pts.len() {
        lemma_shortened_from(ground, pts, j);
    } else {
        assert(shortened_from(ground, pts, j) =~= Seq::empty());
    }
}

proof fn lemma_laid_upto(pts: Seq<Point>, spacing: Double, n: int)
    requires
        0 <= n < pts.len(),
    ensures
        laid_upto(pts, spacing, n).0.len() > 0,
        laid_upto(pts, spacing, n).0[0] == pts[0],
    decreases n,
{
    if n > 0 {
        lemma_laid_upto(pts, spacing, n - 1);
    }
}

proof fn lemma_passes(ground: Terrain, g: Gains, pts: Seq<Point>, n: int)
    requires
        pts.len() > 0,
    ensures
        passes(ground, g, pts, n).len() == pts.len(),
        same_ends(passes(ground, g, pts, n), pts),
    decreases n,
{
    if n > 0 {
        lemma_passes(ground, g, pts, n - 1);
    }
}

proof fn lemma_relaxed(ground: Terrain, g: Gains, pts: Seq<Point>, kappa_max: Double, n: int)
    requires
        pts.len() > 0,
    ensures
        relaxed(ground, g, pts, kappa_max, n).len() == pts.len(),
        same_ends(relaxed(ground, g, pts, kappa_max, n), pts),
    decreases n,
{
    if n > 0 {
        let mask = Seq::new(pts.len(), |i: int| near_tight(pts, kappa_max, i));
        let next = passed(ground, Gains { beta: Double::zero(), ..g }, pts, Some(mask));
        assert(same_ends(next, pts));
        lemma_relaxed(ground, g, next, kappa_max, n - 1);
    }
}

/// Every stage of smoothing leaves the ends of a chain where they are.
pub proof fn law_ends_stay(
    ground: Terrain,
    cfg: &HybridAStarConfig,
    pts: Seq<Point>,
    spacing: Double,
    kappa_max: Double,
)
    requires
        pts.len() >= 2,
    ensures
        same_ends(shortened(ground, pts), pts),
        same_ends(resampled(pts, spacing), pts),
        same_ends(smoothed(ground, cfg, pts, kappa_max), pts),
        smoothed(ground, cfg, pts, kappa_max).len() == pts.len(),
        same_ends(refined(ground, cfg, pts, kappa_max), pts),
{
    lemma_stages(ground, cfg, pts, spacing, kappa_max);
    let short = shortened(ground, pts);
    lemma_stages(ground, cfg, short, resample_spacing_m(), kappa_max);
    let dense = resampled(short, resample_spacing_m());
    lemma_stages(ground, cfg, dense, spacing, kappa_max);
    let smooth = smoothed(ground, cfg, dense, kappa_max);
    lemma_stages(ground, cfg, smooth, resample_spacing_m(), kappa_max);
}

proof fn lemma_stages(
    ground: Terrain,
    cfg: &HybridAStarConfig,
    pts: Seq<Point>,
    spacing: Double,
    kappa_max: Double,
)
    requires
        pts.len() >= 2,
    ensures
        shortened(ground, pts).len() >= 2,
        same_ends(shortened(ground, pts), pts),
        resampled(pts, spacing).len() >= 2,
        same_ends(resampled(pts, spacing), pts),
        smoothed(ground, cfg, pts, kappa_max).len() == pts.len(),
        same_ends(smoothed(ground, cfg, pts, kappa_max), pts),
{
    if pts.len() >= 3 {
        lemma_shortened_from(ground, pts, 0);
        let n = cfg.smoothing_iterations as int;
        let g = gains_of(cfg);
        lemma_passes(ground, g, pts, n);
        lemma_relaxed(ground, g, passes(ground, g, pts, n), kappa_max, n);
    }
    lemma_laid_upto(pts, spacing, pts.len() - 1);
}

proof fn lemma_runs(path: Seq<PathWaypoint>, n: int)
    requires
        1 <= n <= path.len() <= usize::MAX,
    ensures
        ({
            let (runs, start) = runs_before(path, n);
            &&& start <= n - 1
            &&& forall|i: int|
                0 <= i < runs.len() ==> (#[trigger] runs[i]).start <= runs[i].end < n - 1
            &&& forall|i: int|
                0 <= i < runs.len() ==> path[(#[trigger] runs[i]).end as int].dir
                    != path[runs[i].end + 1].dir
            &&& forall|i: int|
                0 < i < runs.len() ==> (#[trigger] runs[i]).start == runs[i - 1].end
            &&& forall|i: int| 0 < i < runs.len() ==> (#[trigger] runs[i]).start < runs[i].end
            &&& runs.len() > 0 ==> runs[0].start == 0 && start == runs.last().end && start < n - 1
                && path[0].dir == path[runs[0].end as int].dir
            &&& runs.len() == 0 ==> start == 0 && path[0].dir == path[n - 1].dir
            &&& forall|i: int, j: int|
                0 <= i < runs.len() && (#[trigger] runs[i]).start < j <= runs[i].end ==> (
                #[trigger] path[j]).dir == path[runs[i].end as int].dir
            &&& forall|j: int|
                start < j < n ==> (#[trigger] path[j]).dir == path[n - 1].dir
        }),
    decreases n,
{
    if n > 1 {
        lemma_runs(path, n - 1);
    }
}

/// The stretches of a path begin with its first waypoint and end with its last.
/// Neighbours share a waypoint, behind which the direction changes; within a
/// stretch it does not.
pub proof fn law_runs(path: Seq<PathWaypoint>)
    requires
        0 < path.len() <= usize::MAX,
    ensures
        ({
            let runs = runs_of(path);
            &&& runs.len() > 0
            &&& runs[0].start == 0
            &&& runs.last().end == path.len() - 1
            &&& forall|i: int|
                0 <= i < runs.len() ==> (#[trigger] runs[i]).start <= runs[i].end < path.len()
            &&& forall|i: int|
                0 < i < runs.len() ==> (#[trigger] runs[i]).start == runs[i - 1].end
                    && runs[i].start < runs[i].end
            &&& path[0].dir == path[runs[0].end as int].dir
            &&& forall|i: int|
                0 <= i < runs.len() - 1 ==> path[(#[trigger] runs[i]).end as int].dir
                    != path[runs[i].end + 1].dir
            &&& forall|i: int, j: int|
                0 <= i < runs.len() && (#[trigger] runs[i]).start < j <= runs[i].end ==> (
                #[trigger] path[j]).dir == path[runs[i].end as int].dir
        }),
{
    lemma_runs(path, path.len() as int);
}

/// A smoothed stretch begins and ends where the stretch does. It is the stretch
/// itself, or free of collisions and of turns that are too tight.
pub proof fn law_smooth_stretch(
    t: Trig,
    ground: Terrain,
    cfg: &HybridAStarConfig,
    raw: Seq<PathWaypoint>,
    kappa_max: Double,
)
    requires
        raw.len() > 0,
    ensures
        ({
            let dir = raw.last().dir;
            let out = smooth_stretch(t, ground, cfg, raw, dir, kappa_max);
            &&& same_ends(points_of(out), points_of(raw))
            &&& same_spot(out.last(), raw.last())
            &&& out == raw || acceptable(ground, points_of(out), kappa_max)
        }),
{
    let dir = raw.last().dir;
    let pts = points_of(raw);
    if raw.len() >= 2 {
        law_ends_stay(ground, cfg, pts, resample_spacing_m(), kappa_max);
        let fine = refined(ground, cfg, pts, kappa_max);
        let out = waypoints_of(t, fine, cfg.wheelbase, dir);
        assert(points_of(out) =~= fine);
    }
}

proof fn lemma_run(raw: Seq<PathWaypoint>, n: int)
    requires
        0 < raw.len() <= usize::MAX,
        0 <= n < runs_of(raw).len(),
    ensures
        runs_of(raw)[n].start <= runs_of(raw)[n].end < raw.len(),
        runs_of(raw)[n].start == (if n == 0 {
            0
        } else {
            runs_of(raw)[n - 1].end
        }),
{
    law_runs(raw);
}

/// The smoothed `n`-th stretch.
pub open spec fn piece_of(
    t: Trig,
    ground: Terrain,
    cfg: &HybridAStarConfig,
    raw: Seq<PathWaypoint>,
    kappa_max: Double,
    n: int,
) -> Seq<PathWaypoint> {
    let run = runs_of(raw)[n];
    smooth_stretch(t, ground, cfg, stretch(raw, run), raw[run.end as int].dir, kappa_max)
}

pub proof fn lemma_piece(
    t: Trig,
    ground: Terrain,
    cfg: &HybridAStarConfig,
    raw: Seq<PathWaypoint>,
    kappa_max: Double,
    n: int,
)
    requires
        0 < raw.len() <= usize::MAX,
        0 <= n < runs_of(raw).len(),
    ensures
        ({
            let next = piece_of(t, ground, cfg, raw, kappa_max, n);
            let run = runs_of(raw)[n];
            &&& next.len() > 0
            &&& points_of(next)[0] == points_of(raw)[run.start as int]
            &&& same_spot(next.last(), raw[run.end as int])
            &&& next.len() == 1 ==> run.start == run.end
        }),
{
    lemma_run(raw, n);
    let run = runs_of(raw)[n];
    let piece = stretch(raw, run);
    assert(piece.last() == raw[run.end as int]);
    assert(points_of(piece)[0] == points_of(raw)[run.start as int]);
    law_smooth_stretch(t, ground, cfg, piece, kappa_max);
}

pub proof fn lemma_joined(
    t: Trig,
    ground: Terrain,
    cfg: &HybridAStarConfig,
    raw: Seq<PathWaypoint>,
    kappa_max: Double,
    n: int,
)
    requires
        0 < raw.len() <= usize::MAX,
        1 <= n <= runs_of(raw).len(),
    ensures
        ({
            let out = joined(t, ground, cfg, raw, kappa_max, n);
            &&& out.len() > 0
            &&& points_of(out)[0] == points_of(raw)[0]
            &&& same_spot(out.last(), raw[runs_of(raw)[n - 1].end as int])
            &&& forall|k: int|
                0 <= k < n ==> visits(out, raw[(#[trigger] runs_of(raw)[k]).end as int])
        }),
    decreases n,
{
    let out = joined(t, ground, cfg, raw, kappa_max, n);
    let before = joined(t, ground, cfg, raw, kappa_max, n - 1);
    let next = piece_of(t, ground, cfg, raw, kappa_max, n - 1);
    lemma_run(raw, n - 1);
    lemma_piece(t, ground, cfg, raw, kappa_max, n - 1);
    if n == 1 {
        assert(before =~= Seq::empty());
        assert(out == next);
    } else {
        lemma_joined(t, ground, cfg, raw, kappa_max, n - 1);
        assert(out == before + next.drop_first());
        if next.len() == 1 {
            assert(out =~= before);
        }
    }
    assert forall|k: int| 0 <= k < n implies visits(
        out,
        raw[(#[trigger] runs_of(raw)[k]).end as int],
    ) by {
        let w = raw[runs_of(raw)[k].end as int];
        if k == n - 1 {
            assert(same_spot(out[out.len() - 1], w));
        } else {
            let j = choose|j: int| 0 <= j < before.len() && same_spot(#[trigger] before[j], w);
            assert(out[j] == before[j]);
        }
    }
}

/// A smoothed path begins and ends where the path does, and passes through every
/// cusp in the direction in which the path reaches it.
pub proof fn law_smoothed_path(
    t: Trig,
    ground: Terrain,
    cfg: &HybridAStarConfig,
    raw: Seq<PathWaypoint>,
    executor_max_curvature: Double,
)
    requires
        0 < raw.len() <= usize::MAX,
    ensures
        ({
            let out = smoothed_path(t, ground, cfg, raw, executor_max_curvature);
            &&& same_ends(points_of(out), points_of(raw))
            &&& same_spot(out.last(), raw.last())
            &&& forall|k: int|
                0 <= k < runs_of(raw).len() ==> visits(
                    out,
                    raw[(#[trigger] runs_of(raw)[k]).end as int],
                )
        }),
{
    law_runs(raw);
    let runs = runs_of(raw);
    if cfg.smoothing_enabled && raw.len() >= 2 {
        let kappa_max = path_curvature_limit(executor_max_curvature);
        lemma_joined(t, ground, cfg, raw, kappa_max, runs.len() as int);
        let out = smoothed_path(t, ground, cfg, raw, executor_max_curvature);
        assert(points_of(out).last() == points_of(raw).last());
    } else {
        assert forall|k: int| 0 <= k < runs.len() implies visits(
            raw,
            raw[(#[trigger] runs_of(raw)[k]).end as int],
        ) by {
            assert(same_spot(raw[runs[k].end as int], raw[runs[k].end as int]));
        }
    }
}

/// The directions that a path is driven in, one for each stretch, in order.
pub open spec fn directions(path: Seq<PathWaypoint>) -> Seq<SegmentDir>
    decreases path.len(),
{
    if path.len() == 0 {
        Seq::empty()
    } else {
        let before = directions(path.drop_last());
        if before.len() > 0 && before.last() == path.last().dir {
            before
        } else {
            before.push(path.last().dir)
        }
    }
}

proof fn lemma_last_direction(path: Seq<PathWaypoint>)
    requires
        path.len() > 0,
    ensures
        directions(path).len() > 0,
        directions(path).last() == path.last().dir,
{
}

/// All waypoints are driven in the direction.
pub open spec fn all_in(path: Seq<PathWaypoint>, dir: SegmentDir) -> bool {
    forall|i: int| 0 <= i < path.len() ==> (#[trigger] path[i]).dir == dir
}

/// A stretch in another direction adds one direction.
proof fn lemma_directions_append(a: Seq<PathWaypoint>, b: Seq<PathWaypoint>, dir: SegmentDir)
    requires
        b.len() > 0,
        all_in(b, dir),
        a.len() > 0 ==> a.last().dir != dir,
    ensures
        directions(a + b) == directions(a).push(dir),
    decreases b.len(),
{
    let c = a + b;
    let shorter = b.drop_last();
    assert(c.drop_last() =~= a + shorter);
    assert(c.last() == b[b.len() - 1]);
    if b.len() > 1 {
        assert forall|i: int| 0 <= i < shorter.len() implies (#[trigger] shorter[i]).dir
            == dir by {
            assert(shorter[i] == b[i]);
        }
        lemma_directions_append(a, shorter, dir);
        assert(directions(a).push(dir).last() == dir);
    } else {
        assert(a + shorter =~= a);
        if a.len() > 0 {
            lemma_last_direction(a);
        }
    }
}

/// What holds of one stretch of a path.
pub proof fn lemma_run_facts(raw: Seq<PathWaypoint>, n: int)
    requires
        0 < raw.len() <= usize::MAX,
        0 <= n < runs_of(raw).len(),
    ensures
        ({
            let run = runs_of(raw)[n];
            let dir = raw[run.end as int].dir;
            &&& run.start <= run.end < raw.len()
            &&& n == 0 ==> run.start == 0 && raw[0].dir == dir
            &&& n > 0 ==> run.start == runs_of(raw)[n - 1].end && run.start < run.end
                && raw[run.start as int].dir != dir && raw[run.start + 1].dir == dir
            &&& forall|j: int| run.start < j <= run.end ==> (#[trigger] raw[j]).dir == dir
        }),
{
    law_runs(raw);
    let runs = runs_of(raw);
    if n > 0 {
        assert(runs[n].start == runs[n - 1].end);
        assert(raw[runs[n - 1].end as int].dir != raw[runs[n - 1].end + 1].dir);
        assert(raw[runs[n].start + 1].dir == raw[runs[n].end as int].dir);
    }
}

proof fn lemma_directions_of_path(raw: Seq<PathWaypoint>, n: int)
    requires
        0 < raw.len() <= usize::MAX,
        1 <= n <= runs_of(raw).len(),
    ensures
        directions(raw.take(runs_of(raw)[n - 1].end + 1)) == Seq::new(
            n as nat,
            |k: int| raw[runs_of(raw)[k].end as int].dir,
        ),
    decreases n,
{
    lemma_run_facts(raw, n - 1);
    let runs = runs_of(raw);
    let run = runs[n - 1];
    let dir = raw[run.end as int].dir;
    let whole = raw.take(run.end + 1);
    let dirs = Seq::new(n as nat, |k: int| raw[runs[k].end as int].dir);
    if n == 1 {
        let none = Seq::<PathWaypoint>::empty();
        assert(none + whole =~= whole);
        assert forall|i: int| 0 <= i < whole.len() implies (#[trigger] whole[i]).dir == dir by {
            assert(whole[i] == raw[i]);
        }
        lemma_directions_append(none, whole, dir);
        assert(directions(none) =~= Seq::empty());
        assert(directions(whole) =~= dirs);
    } else {
        lemma_directions_of_path(raw, n - 1);
        let cut = runs[n - 2].end + 1;
        assert(run.start == runs[n - 2].end);
        let (head, rest) = (raw.take(cut), raw.subrange(cut, run.end + 1));
        assert(head + rest =~= whole);
        assert forall|i: int| 0 <= i < rest.len() implies (#[trigger] rest[i]).dir == dir by {
            assert(rest[i] == raw[cut + i]);
        }
        assert(head.last() == raw[cut - 1]);
        assert(raw[cut].dir == dir);
        lemma_directions_append(head, rest, dir);
        assert(directions(whole) =~= dirs);
    }
}

/// The waypoints of a smoothed stretch are its own, or all driven in its
/// direction.
proof fn lemma_stretch_direction(
    t: Trig,
    ground: Terrain,
    cfg: &HybridAStarConfig,
    raw: Seq<PathWaypoint>,
    dir: SegmentDir,
    kappa_max: Double,
)
    ensures
        ({
            let out = smooth_stretch(t, ground, cfg, raw, dir, kappa_max);
            out == raw || all_in(out, dir)
        }),
{
    let fine = refined(ground, cfg, points_of(raw), kappa_max);
    let out = waypoints_of(t, fine, cfg.wheelbase, dir);
    assert(all_in(out, dir));
}

/// Behind its first waypoint, a stretch is driven in one direction.
proof fn lemma_run_direction(raw: Seq<PathWaypoint>, n: int)
    requires
        0 < raw.len() <= usize::MAX,
        0 <= n < runs_of(raw).len(),
    ensures
        ({
            let run = runs_of(raw)[n];
            let dir = raw[run.end as int].dir;
            let piece = stretch(raw, run);
            all_in(piece.drop_first(), dir) && (n == 0 ==> all_in(piece, dir))
        }),
{
    law_runs(raw);
    let run = runs_of(raw)[n];
    let dir = raw[run.end as int].dir;
    let piece = stretch(raw, run);
    assert forall|i: int| 0 <= i < piece.drop_first().len() implies (
    #[trigger] piece.drop_first()[i]).dir == dir by {
        assert(piece.drop_first()[i] == raw[run.start + i + 1]);
    }
    if n == 0 {
        assert forall|i: int| 0 <= i < piece.len() implies (#[trigger] piece[i]).dir == dir by {
            assert(piece[i] == raw[i]);
        }
    }
}

/// A smoothed stretch keeps its direction.
pub proof fn lemma_piece_direction(
    t: Trig,
    ground: Terrain,
    cfg: &HybridAStarConfig,
    raw: Seq<PathWaypoint>,
    kappa_max: Double,
    n: int,
)
    requires
        0 < raw.len() <= usize::MAX,
        0 <= n < runs_of(raw).len(),
    ensures
        ({
            let next = piece_of(t, ground, cfg, raw, kappa_max, n);
            let dir = raw[runs_of(raw)[n].end as int].dir;
            all_in(next.drop_first(), dir) && (n == 0 ==> all_in(next, dir))
        }),
{
    let run = runs_of(raw)[n];
    let dir = raw[run.end as int].dir;
    let piece = stretch(raw, run);
    lemma_run_direction(raw, n);
    lemma_stretch_direction(t, ground, cfg, piece, dir, kappa_max);
    let next = piece_of(t, ground, cfg, raw, kappa_max, n);
    if next != piece {
        assert(all_in(next, dir));
        assert forall|i: int| 0 <= i < next.drop_first().len() implies (
        #[trigger] next.drop_first()[i]).dir == dir by {
            assert(next.drop_first()[i] == next[i + 1]);
        }
    }
}

proof fn lemma_directions_joined(
    t: Trig,
    ground: Terrain,
    cfg: &HybridAStarConfig,
    raw: Seq<PathWaypoint>,
    kappa_max: Double,
    n: int,
)
    requires
        0 < raw.len() <= usize::MAX,
        1 <= n <= runs_of(raw).len(),
    ensures
        directions(joined(t, ground, cfg, raw, kappa_max, n)) == Seq::new(
            n as nat,
            |k: int| raw[runs_of(raw)[k].end as int].dir,
        ),
    decreases n,
{
    law_runs(raw);
    let runs = runs_of(raw);
    let dir = raw[runs[n - 1].end as int].dir;
    let dirs = Seq::new(n as nat, |k: int| raw[runs[k].end as int].dir);
    let out = joined(t, ground, cfg, raw, kappa_max, n);
    let before = joined(t, ground, cfg, raw, kappa_max, n - 1);
    let next = piece_of(t, ground, cfg, raw, kappa_max, n - 1);
    lemma_piece(t, ground, cfg, raw, kappa_max, n - 1);
    lemma_piece_direction(t, ground, cfg, raw, kappa_max, n - 1);
    if n == 1 {
        let none = Seq::<PathWaypoint>::empty();
        assert(before =~= none);
        assert(none + next =~= next);
        lemma_directions_append(none, next, dir);
        assert(directions(none) =~= Seq::empty());
        assert(directions(out) =~= dirs);
    } else {
        lemma_joined(t, ground, cfg, raw, kappa_max, n - 1);
        lemma_directions_joined(t, ground, cfg, raw, kappa_max, n - 1);
        assert(out == before + next.drop_first());
        let cut = runs[n - 2].end as int;
        assert(runs[n - 1].start == cut);
        assert(raw[cut + 1].dir == dir);
        assert(raw[cut].dir != raw[cut + 1].dir);
        lemma_directions_append(before, next.drop_first(), dir);
        assert(directions(out) =~= dirs);
    }
}

/// A smoothed path changes its direction as often as the path does, and in the
/// same order.
pub proof fn law_smoothed_path_keeps_directions(
    t: Trig,
    ground: Terrain,
    cfg: &HybridAStarConfig,
    raw: Seq<PathWaypoint>,
    executor_max_curvature: Double,
)
    requires
        0 < raw.len() <= usize::MAX,
    ensures
        directions(smoothed_path(t, ground, cfg, raw, executor_max_curvature)) == directions(raw),
{
    if cfg.smoothing_enabled && raw.len() >= 2 {
        law_runs(raw);
        let n = runs_of(raw).len() as int;
        let kappa_max = path_curvature_limit(executor_max_curvature);
        lemma_directions_joined(t, ground, cfg, raw, kappa_max, n);
        lemma_directions_of_path(raw, n);
        assert(raw.take(runs_of(raw)[n - 1].end + 1) =~= raw);
    }
}

/// The segment from `p` to `q` stands for the chain from its `a`-th to its `b`-th
/// point: it is a segment of the chain, or it is free and comes no nearer to
/// obstacles than the points it replaces.
pub open spec fn stands_for(
    ground: Terrain,
    pts: Seq<Point>,
    p: Point,
    q: Point,
    a: int,
    b: int,
) -> bool {
    &&& 0 <= a < b < pts.len()
    &&& p == pts[a] && q == pts[b]
    &&& b == a + 1 || segment_admissible(p, q, &ground, required_for(ground, pts, a, b))
}

proof fn lemma_farthest_is_admissible(ground: Terrain, pts: Seq<Point>, i: int, j: int)
    ensures
        ({
            let f = farthest(ground, pts, i, j);
            f == i + 1 || segment_admissible(
                pts[i],
                pts[f],
                &ground,
                required_for(ground, pts, i, f),
            )
        }),
    decreases j - i,
{
    if j >= i + 2 {
        lemma_farthest_is_admissible(ground, pts, i, j - 1);
    }
}

proof fn lemma_stands_for(ground: Terrain, pts: Seq<Point>, i: int, k: int) -> (r: (int, int))
    requires
        0 <= i < pts.len(),
        0 <= k < shortened_from(ground, pts, i).len(),
    ensures
        ({
            let s = seq![pts[i]] + shortened_from(ground, pts, i);
            stands_for(ground, pts, s[k], s[k + 1], r.0, r.1)
        }),
    decreases k,
{
    let j = farthest(ground, pts, i, pts.len() - 1);
    lemma_farthest_is_admissible(ground, pts, i, pts.len() - 1);
    let rest = shortened_from(ground, pts, j);
    assert(shortened_from(ground, pts, i) == seq![pts[j]] + rest);
    if k == 0 {
        (i, j)
    } else {
        let r = lemma_stands_for(ground, pts, j, k - 1);
        assert((seq![pts[i]] + (seq![pts[j]] + rest))[k] == (seq![pts[j]] + rest)[k - 1]);
        r
    }
}

/// Shortening never gives clearance away: each segment of the shortened chain is
/// one of the chain itself, or is free and keeps at least the clearance of the
/// points that it replaces.
pub proof fn law_shortcut_keeps_clearance(ground: Terrain, pts: Seq<Point>, k: int)
    requires
        0 <= k < shortened(ground, pts).len() - 1,
    ensures
        exists|a: int, b: int| #[trigger]
            stands_for(
                ground,
                pts,
                shortened(ground, pts)[k],
                shortened(ground, pts)[k + 1],
                a,
                b,
            ),
{
    if pts.len() < 3 {
        assert(stands_for(ground, pts, pts[k], pts[k + 1], k, k + 1));
    } else {
        let r = lemma_stands_for(ground, pts, 0, k);
        assert(stands_for(
            ground,
            pts,
            shortened(ground, pts)[k],
            shortened(ground, pts)[k + 1],
            r.0,
            r.1,
        ));
    }
}

/// The point stays where it was, or goes to a free place.
pub open spec fn stays_free(ground: Terrain, from: Point, to: Point) -> bool {
    to == from || !ground.blocked(to.0, to.1)
}

proof fn lemma_passes_stay_free(ground: Terrain, g: Gains, pts: Seq<Point>, n: int, i: int)
    requires
        0 <= i < pts.len(),
    ensures
        passes(ground, g, pts, n).len() == pts.len(),
        stays_free(ground, pts[i], passes(ground, g, pts, n)[i]),
    decreases n,
{
    if n > 0 {
        lemma_passes_stay_free(ground, g, pts, n - 1, i);
    }
}

proof fn lemma_relaxed_stays_free(
    ground: Terrain,
    g: Gains,
    pts: Seq<Point>,
    kappa_max: Double,
    n: int,
    i: int,
)
    requires
        0 <= i < pts.len(),
    ensures
        relaxed(ground, g, pts, kappa_max, n).len() == pts.len(),
        stays_free(ground, pts[i], relaxed(ground, g, pts, kappa_max, n)[i]),
    decreases n,
{
    if n > 0 {
        let mask = Seq::new(pts.len(), |j: int| near_tight(pts, kappa_max, j));
        let next = passed(ground, Gains { beta: Double::zero(), ..g }, pts, Some(mask));
        lemma_relaxed_stays_free(ground, g, next, kappa_max, n - 1, i);
    }
}

/// Smoothing moves no point onto a blocked place: each stays where it was, or
/// ends on a free one.
pub proof fn law_smoothing_stays_free(
    ground: Terrain,
    cfg: &HybridAStarConfig,
    pts: Seq<Point>,
    kappa_max: Double,
    i: int,
)
    requires
        0 <= i < pts.len(),
    ensures
        smoothed(ground, cfg, pts, kappa_max).len() == pts.len(),
        stays_free(ground, pts[i], smoothed(ground, cfg, pts, kappa_max)[i]),
{
    let n = cfg.smoothing_iterations as int;
    let g = gains_of(cfg);
    lemma_passes_stay_free(ground, g, pts, n, i);
    lemma_relaxed_stays_free(ground, g, passes(ground, g, pts, n), kappa_max, n, i);
}

} // verus!
