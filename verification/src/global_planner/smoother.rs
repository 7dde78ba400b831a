//! Smoothing of a path found by the search.
//!
//! Each stretch of one direction is shortened where a straight line is free and
//! loses no clearance, resampled evenly, pulled smooth and away from obstacles,
//! and resampled again. A result that touches an occupied cell or turns tighter
//! than the executor can is dropped in favour of the stretch as it was. Cusps
//! are never smoothed over.
use crate::geometry::distance;
use crate::global_planner::clearance::ClearanceField;
use crate::global_planner::config::HybridAStarConfig;
use crate::global_planner::escape::{pose_blocked, EscapeZone};
use crate::global_planner::grid::OccupancyGrid;
use crate::global_planner::path::{path_sample_step_m, pieces, point, sample, segment_pieces};
use crate::global_planner::{PathWaypoint, SegmentDir};
use crate::ieee::double::Double;
use crate::trig::{
    arctangent, atan, atan2, bearing, functional, normalize_angle, pi, trig_of, Circular, Trig,
};
use vstd::prelude::*;

verus! {

/// A point of the plane.
pub type Point = (Double, Double);

/// Distance (m) of the waypoints of a smoothed path.
pub open spec fn spec_resample_spacing_m() -> Double {
    Double::spec_ratio(15, 100)
}

#[verifier::when_used_as_spec(spec_resample_spacing_m)]
pub fn resample_spacing_m() -> (r: Double)
    ensures
        r == spec_resample_spacing_m(),
{
    Double::ratio(15, 100)
}

/// Slack of clearance and curvature tests.
pub open spec fn spec_slack() -> Double {
    Double::spec_ratio(1, 1_000_000_000)
}

#[verifier::when_used_as_spec(spec_slack)]
pub fn slack() -> (r: Double)
    ensures
        r == spec_slack(),
{
    Double::ratio(1, 1_000_000_000)
}

/// What a path is smoothed in.
#[derive(Clone, Copy)]
pub struct Terrain<'a, 'b> {
    pub grid: &'a OccupancyGrid,
    pub clearance: Option<&'a ClearanceField>,
    pub escape: Option<&'a EscapeZone<'b>>,
}

impl<'a, 'b> Terrain<'a, 'b> {
    pub open spec fn wf(self) -> bool {
        &&& self.grid.wf()
        &&& self.clearance matches Some(f) ==> f.wf()
    }

    pub open spec fn spec_blocked(&self, x: Double, y: Double) -> bool {
        pose_blocked(self.grid, self.escape, x, y)
    }

    #[verifier::when_used_as_spec(spec_blocked)]
    pub fn blocked(&self, x: Double, y: Double) -> (r: bool)
        requires
            self.wf(),
        ensures
            r == self.spec_blocked(x, y),
    {
        pose_blocked(self.grid, self.escape, x, y)
    }
}

// ---------------------------------------------------------------- shortcuts
/// The sample of a segment is free and keeps the clearance that is required.
pub open spec fn sample_admissible(
    a: Point,
    b: Point,
    ground: Terrain,
    required: Option<Double>,
    k: u64,
) -> bool {
    let p = sample(a, b, k, segment_pieces(a, b));
    &&& !ground.blocked(p.0, p.1)
    &&& ground.clearance is Some && required is Some ==> !ground.clearance->0.distance_at(
        p.0,
        p.1,
    ).lt(required->0.minus(slack()))
}

/// Every sample of the segment is admissible.
pub open spec fn spec_segment_admissible(
    a: Point,
    b: Point,
    ground: &Terrain,
    required: Option<Double>,
) -> bool {
    forall|k: u64|
        k <= segment_pieces(a, b) ==> #[trigger] sample_admissible(a, b, *ground, required, k)
}

#[verifier::when_used_as_spec(spec_segment_admissible)]
pub fn segment_admissible(a: Point, b: Point, ground: &Terrain, required: Option<Double>) -> (r:
    bool)
    requires
        ground.wf(),
    ensures
        r == spec_segment_admissible(a, b, ground, required),
{
    let n = pieces(distance(a.0, a.1, b.0, b.1), path_sample_step_m());
    let mut k: u64 = 0;
    loop
        invariant
            ground.wf(),
            n == segment_pieces(a, b),
            k <= n,
            forall|j: u64| j < k ==> #[trigger] sample_admissible(a, b, *ground, required, j),
        decreases n - k,
    {
        let p = sample(a, b, k, n);
        if ground.blocked(p.0, p.1) {
            assert(!sample_admissible(a, b, *ground, required, k));
            return false;
        }
        if let (Some(field), Some(req)) = (ground.clearance, required) {
            if field.distance_at(p.0, p.1).lt(req.minus(slack())) {
                assert(!sample_admissible(a, b, *ground, required, k));
                return false;
            }
        }
        assert(sample_admissible(a, b, *ground, required, k));
        if k == n {
            return true;
        }
        k = k + 1;
    }
}

/// Least clearance of the points from the `i`-th to the `j`-th.
pub open spec fn chain_min(field: &ClearanceField, pts: Seq<Point>, i: int, j: int) -> Double
    decreases j - i + 1,
{
    if j < i {
        Double { bits: 0x7ff0_0000_0000_0000 }
    } else {
        chain_min(field, pts, i, j - 1).min(field.distance_at(pts[j].0, pts[j].1))
    }
}

/// The clearance that a straight line from the `i`-th to the `j`-th point must
/// keep: what the points in between have.
pub open spec fn required_for(ground: Terrain, pts: Seq<Point>, i: int, j: int) -> Option<Double> {
    match ground.clearance {
        Some(field) => Some(chain_min(field, pts, i, j)),
        None => None,
    }
}

/// The farthest point up to the `j`-th that a straight line from the `i`-th may
/// lead to; the next one in any case.
pub open spec fn farthest(ground: Terrain, pts: Seq<Point>, i: int, j: int) -> int
    decreases j - i,
{
    if j < i + 2 {
        i + 1
    } else if segment_admissible(pts[i], pts[j], &ground, required_for(ground, pts, i, j)) {
        j
    } else {
        farthest(ground, pts, i, j - 1)
    }
}

/// The shortened chain behind the `i`-th point.
pub open spec fn shortened_from(ground: Terrain, pts: Seq<Point>, i: int) -> Seq<Point>
    decreases pts.len() - i,
{
    if i < 0 || i + 1 >= pts.len() {
        Seq::empty()
    } else {
        let j = farthest(ground, pts, i, pts.len() - 1);
        if i < j < pts.len() {
            seq![pts[j]] + shortened_from(ground, pts, j)
        } else {
            Seq::empty()
        }
    }
}

/// The chain with stretches replaced by straight lines, as far as each reaches.
pub open spec fn shortened(ground: Terrain, pts: Seq<Point>) -> Seq<Point> {
    if pts.len() < 3 {
        pts
    } else {
        seq![pts[0]] + shortened_from(ground, pts, 0)
    }
}

pub proof fn lemma_farthest(ground: Terrain, pts: Seq<Point>, i: int, j: int)
    ensures
        farthest(ground, pts, i, j) == i + 1 || i + 2 <= farthest(ground, pts, i, j) <= j,
    decreases j - i,
{
    if j >= i + 2 {
        lemma_farthest(ground, pts, i, j - 1);
    }
}

/// The farthest reachable point behind the `i`-th.
fn farthest_from(pts: &Vec<Point>, i: usize, ground: &Terrain) -> (r: usize)
    requires
        ground.wf(),
        i + 1 < pts@.len(),
    ensures
        r == farthest(*ground, pts@, i as int, pts@.len() - 1),
        i < r < pts@.len(),
{
    let n = pts.len();
    let mut mins: Vec<Double> = Vec::new();
    if let Some(field) = ground.clearance {
        let mut m = Double { bits: 0x7ff0_0000_0000_0000 };
        let mut k = i;
        while k < n
            invariant
                n == pts@.len(),
                field.wf(),
                i <= k <= n,
                m == chain_min(field, pts@, i as int, k - 1),
                mins@.len() == k - i,
                forall|q: int|
                    0 <= q < mins@.len() ==> #[trigger] mins@[q] == chain_min(
                        field,
                        pts@,
                        i as int,
                        i + q,
                    ),
            decreases n - k,
        {
            m = m.min(field.distance_at(pts[k].0, pts[k].1));
            mins.push(m);
            k = k + 1;
        }
    }
    let mut j = n - 1;
    while j >= i + 2
        invariant
            ground.wf(),
            n == pts@.len(),
            i + 1 < n,
            i < j < n,
            ground.clearance matches Some(field) ==> mins@.len() == n - i && forall|q: int|
                0 <= q < mins@.len() ==> #[trigger] mins@[q] == chain_min(
                    field,
                    pts@,
                    i as int,
                    i + q,
                ),
            farthest(*ground, pts@, i as int, n - 1) == farthest(*ground, pts@, i as int, j as int),
        decreases j,
    {
        let required = match ground.clearance {
            Some(_) => Some(mins[j - i]),
            None => None,
        };
        if segment_admissible(pts[i], pts[j], ground, required) {
            return j;
        }
        j = j - 1;
    }
    i + 1
}

/// Replaces stretches of the chain by straight lines.
pub fn shortcut(pts: &Vec<Point>, ground: &Terrain) -> (r: Vec<Point>)
    requires
        ground.wf(),
    ensures
        r@ == shortened(*ground, pts@),
{
    let mut out: Vec<Point> = Vec::new();
    if pts.len() < 3 {
        let mut k: usize = 0;
        while k < pts.len()
            invariant
                k <= pts@.len(),
                out@ == pts@.take(k as int),
            decreases pts@.len() - k,
        {
            out.push(pts[k]);
            k = k + 1;
            assert(pts@.take(k as int) =~= pts@.take(k - 1).push(pts@[k - 1]));
        }
        assert(out@ =~= pts@);
        return out;
    }
    out.push(pts[0]);
    let n = pts.len();
    let mut i: usize = 0;
    assert(out@ + shortened_from(*ground, pts@, 0) =~= shortened(*ground, pts@));
    while i + 1 < n
        invariant
            ground.wf(),
            3 <= pts@.len(),
            n == pts@.len(),
            i < pts@.len(),
            out@ + shortened_from(*ground, pts@, i as int) == shortened(*ground, pts@),
        decreases pts@.len() - i,
    {
        let chosen = farthest_from(pts, i, ground);
        proof {
            let rest = shortened_from(*ground, pts@, chosen as int);
            assert(out@.push(pts@[chosen as int]) + rest =~= out@ + (seq![pts@[chosen as int]]
                + rest));
        }
        out.push(pts[chosen]);
        i = chosen;
    }
    assert(out@ + shortened_from(*ground, pts@, i as int) =~= out@);
    out
}

// --------------------------------------------------------------- resampling
/// The points set along a segment of length `seg`, the first at `along`, and
/// the place of the first point beyond it. Where a step no longer advances, the
/// stretch ends.
pub open spec fn laid(a: Point, b: Point, seg: Double, spacing: Double, along: Double) -> (
    Seq<Point>,
    Double,
)
    decreases 0x7ff0_0000_0000_0000 - along.key(),
{
    if along.le(seg) {
        let t = along.over(seg);
        let p = (a.0.plus(b.0.minus(a.0).times(t)), a.1.plus(b.1.minus(a.1).times(t)));
        let next = along.plus(spacing);
        let rest = if along.lt(next) {
            laid(a, b, seg, spacing, next)
        } else {
            (Seq::empty(), next)
        };
        (seq![p] + rest.0, rest.1)
    } else {
        (Seq::empty(), along)
    }
}

/// The points set along the first `n` segments, and the length carried on.
pub open spec fn laid_upto(pts: Seq<Point>, spacing: Double, n: int) -> (Seq<Point>, Double)
    decreases n,
{
    if n <= 0 {
        (seq![pts[0]], Double::zero())
    } else {
        let before = laid_upto(pts, spacing, n - 1);
        let (a, b) = (pts[n - 1], pts[n]);
        let seg = distance(a.0, a.1, b.0, b.1);
        if seg.lt(Double::ratio(1, 1_000_000_000_000)) {
            before
        } else {
            let more = laid(a, b, seg, spacing, spacing.minus(before.1));
            (before.0 + more.0, seg.minus(more.1.minus(spacing)))
        }
    }
}

/// The chain at even spacing. Both ends stay; a last piece shorter than half the
/// spacing is merged with the one before.
pub open spec fn resampled(pts: Seq<Point>, spacing: Double) -> Seq<Point> {
    if pts.len() < 2 {
        pts
    } else {
        let (out, carried) = laid_upto(pts, spacing, pts.len() - 1);
        if carried.lt(spacing.times(Double::half())) && out.len() > 1 {
            out.update(out.len() - 1, pts.last())
        } else {
            out.push(pts.last())
        }
    }
}

/// Sets points along one segment.
fn lay(
    a: Point,
    b: Point,
    seg: Double,
    spacing: Double,
    start: Double,
    out: &mut Vec<Point>,
) -> (r: Double)
    ensures
        final(out)@ == old(out)@ + laid(a, b, seg, spacing, start).0,
        r == laid(a, b, seg, spacing, start).1,
{
    let mut along = start;
    let ghost all = old(out)@ + laid(a, b, seg, spacing, start).0;
    let ghost end = laid(a, b, seg, spacing, start).1;
    while along.le(seg)
        invariant_except_break
            out@ + laid(a, b, seg, spacing, along).0 == all,
            laid(a, b, seg, spacing, along).1 == end,
        ensures
            out@ == all,
            along == end,
        decreases 0x7ff0_0000_0000_0000 - along.key(),
    {
        let t = along.over(seg);
        let p = (a.0.plus(b.0.minus(a.0).times(t)), a.1.plus(b.1.minus(a.1).times(t)));
        let next = along.plus(spacing);
        proof {
            let rest = laid(a, b, seg, spacing, next).0;
            assert(out@.push(p) + rest =~= out@ + (seq![p] + rest));
            let none: Seq<Point> = Seq::empty();
            assert(out@.push(p) =~= out@ + (seq![p] + none));
        }
        out.push(p);
        if !along.lt(next) {
            along = next;
            break;
        }
        along = next;
    }
    along
}

/// Brings a chain to even spacing.
pub fn resample(pts: &Vec<Point>, spacing: Double) -> (r: Vec<Point>)
    ensures
        r@ == resampled(pts@, spacing),
{
    let n = pts.len();
    if n < 2 {
        let mut out: Vec<Point> = Vec::new();
        if n == 1 {
            out.push(pts[0]);
        }
        assert(out@ =~= pts@);
        return out;
    }
    let mut out: Vec<Point> = Vec::new();
    out.push(pts[0]);
    let mut carried = Double::zero();
    let tiny = Double::ratio(1, 1_000_000_000_000);
    let mut i: usize = 1;
    assert(out@ =~= seq![pts@[0]]);
    while i < n
        invariant
            n == pts@.len(),
            1 <= i <= n,
            tiny == Double::ratio(1, 1_000_000_000_000),
            (out@, carried) == laid_upto(pts@, spacing, i - 1),
        decreases n - i,
    {
        let (a, b) = (pts[i - 1], pts[i]);
        let seg = distance(a.0, a.1, b.0, b.1);
        if !seg.lt(tiny) {
            let along = lay(a, b, seg, spacing, spacing.minus(carried), &mut out);
            carried = seg.minus(along.minus(spacing));
        }
        i = i + 1;
    }
    let last = pts[n - 1];
    if carried.lt(spacing.times(Double::half())) && out.len() > 1 {
        let k = out.len() - 1;
        out.set(k, last);
    } else {
        out.push(last);
    }
    out
}

// ---------------------------------------------------------------- curvature
/// Signed curvature of the circle through three points, positive to the left.
pub open spec fn spec_menger_curvature(a: Point, b: Point, c: Point) -> Double {
    let cross = b.0.minus(a.0).times(c.1.minus(b.1)).minus(
        b.1.minus(a.1).times(c.0.minus(b.0)),
    );
    let ab = distance(a.0, a.1, b.0, b.1);
    let bc = distance(b.0, b.1, c.0, c.1);
    let ac = distance(a.0, a.1, c.0, c.1);
    let denom = ab.times(bc).times(ac);
    if denom.lt(Double::ratio(1, 1_000_000_000_000)) {
        Double::zero()
    } else {
        Double::of(2).times(cross).over(denom)
    }
}

#[verifier::when_used_as_spec(spec_menger_curvature)]
pub fn menger_curvature(a: Point, b: Point, c: Point) -> (r: Double)
    ensures
        r == spec_menger_curvature(a, b, c),
{
    let cross = b.0.minus(a.0).times(c.1.minus(b.1)).minus(
        b.1.minus(a.1).times(c.0.minus(b.0)),
    );
    let ab = distance(a.0, a.1, b.0, b.1);
    let bc = distance(b.0, b.1, c.0, c.1);
    let ac = distance(a.0, a.1, c.0, c.1);
    let denom = ab.times(bc).times(ac);
    if denom.lt(Double::ratio(1, 1_000_000_000_000)) {
        Double::zero()
    } else {
        Double::of(2).times(cross).over(denom)
    }
}

/// The chain turns too tightly at an inner point.
pub open spec fn tight_at(pts: Seq<Point>, kappa_max: Double, i: int) -> bool {
    0 < i < pts.len() - 1 && kappa_max.lt(
        menger_curvature(pts[i - 1], pts[i], pts[i + 1]).abs(),
    )
}

/// The points at which the chain turns too tightly, and their neighbours.
pub open spec fn near_tight(pts: Seq<Point>, kappa_max: Double, i: int) -> bool {
    tight_at(pts, kappa_max, i - 1) || tight_at(pts, kappa_max, i) || tight_at(
        pts,
        kappa_max,
        i + 1,
    )
}

pub open spec fn any_tight(pts: Seq<Point>, kappa_max: Double) -> bool {
    exists|i: int| #[trigger] tight_at(pts, kappa_max, i)
}

/// Marks the points at which the chain turns too tightly and their neighbours;
/// an empty list where there are none.
pub fn offending_vertices(pts: &Vec<Point>, kappa_max: Double) -> (r: Vec<bool>)
    requires
        pts@.len() >= 1,
    ensures
        any_tight(pts@, kappa_max) ==> r@.len() == pts@.len() && forall|i: int|
            0 <= i < r@.len() ==> #[trigger] r@[i] == near_tight(pts@, kappa_max, i),
        !any_tight(pts@, kappa_max) ==> r@.len() == 0,
{
    let n = pts.len();
    let mut mask: Vec<bool> = Vec::new();
    while mask.len() < n
        invariant
            mask@.len() <= n,
            forall|i: int| 0 <= i < mask@.len() ==> !(#[trigger] mask@[i]),
        decreases n - mask@.len(),
    {
        mask.push(false);
    }
    let mut any = false;
    let mut i: usize = 1;
    while i < n - 1
        invariant
            n == pts@.len(),
            n >= 1,
            1 <= i,
            mask@.len() == n,
            i <= n - 1 || n < 2,
            any == exists|j: int| j < i && #[trigger] tight_at(pts@, kappa_max, j),
            forall|j: int|
                0 <= j < n ==> #[trigger] mask@[j] == exists|q: int|
                    q < i && j - 1 <= q <= j + 1 && #[trigger] tight_at(pts@, kappa_max, q),
        decreases n - i,
    {
        if kappa_max.lt(menger_curvature(pts[i - 1], pts[i], pts[i + 1]).abs()) {
            assert(tight_at(pts@, kappa_max, i as int));
            mask.set(i - 1, true);
            mask.set(i, true);
            mask.set(i + 1, true);
            any = true;
        } else {
            assert(!tight_at(pts@, kappa_max, i as int));
        }
        i = i + 1;
    }
    if any {
        proof {
            assert forall|j: int| 0 <= j < n implies #[trigger] mask@[j] == near_tight(
                pts@,
                kappa_max,
                j,
            ) by {
                if near_tight(pts@, kappa_max, j) {
                    assert(tight_at(pts@, kappa_max, j - 1) || tight_at(pts@, kappa_max, j)
                        || tight_at(pts@, kappa_max, j + 1));
                }
            }
        }
        mask
    } else {
        Vec::new()
    }
}

// ---------------------------------------------------------------- smoothing
/// Gains of a smoothing pass.
#[derive(Clone, Copy, Debug)]
pub struct Gains {
    pub alpha: Double,
    pub beta: Double,
    pub decay: Double,
}

/// The push away from an obstacle at a point, along the gradient of the
/// clearance and limited in length.
pub open spec fn push_at(ground: Terrain, g: Gains, p: Point) -> Option<Point> {
    match ground.clearance {
        Some(field) if Double::zero().lt(g.beta) && Double::zero().lt(g.decay)
            && field.distance_at(p.0, p.1).lt(g.decay) => {
            let d = field.distance_at(p.0, p.1);
            let h = ground.grid.resolution;
            let span = Double::of(2).times(h);
            let gx = field.distance_at(p.0.plus(h), p.1).minus(
                field.distance_at(p.0.minus(h), p.1),
            ).over(span);
            let gy = field.distance_at(p.0, p.1.plus(h)).minus(
                field.distance_at(p.0, p.1.minus(h)),
            ).over(span);
            let scale = g.beta.times(Double::one().minus(d.over(g.decay)));
            let cx = scale.times(gx);
            let cy = scale.times(gy);
            let mag = cx.times(cx).plus(cy.times(cy)).sqrt();
            let limit = Double::ratio(5, 100);
            if limit.lt(mag) {
                Some((cx.times(limit.over(mag)), cy.times(limit.over(mag))))
            } else {
                Some((cx, cy))
            }
        },
        _ => None,
    }
}

fn clearance_push(ground: &Terrain, g: &Gains, p: Point) -> (r: Option<Point>)
    requires
        ground.wf(),
    ensures
        r == push_at(*ground, *g, p),
{
    if Double::zero().lt(g.beta) && Double::zero().lt(g.decay) {
        if let Some(field) = ground.clearance {
            let d = field.distance_at(p.0, p.1);
            if d.lt(g.decay) {
                let h = ground.grid.resolution;
                let span = Double::of(2).times(h);
                let gx = field.distance_at(p.0.plus(h), p.1).minus(
                    field.distance_at(p.0.minus(h), p.1),
                ).over(span);
                let gy = field.distance_at(p.0, p.1.plus(h)).minus(
                    field.distance_at(p.0, p.1.minus(h)),
                ).over(span);
                let scale = g.beta.times(Double::one().minus(d.over(g.decay)));
                let cx = scale.times(gx);
                let cy = scale.times(gy);
                let mag = cx.times(cx).plus(cy.times(cy)).sqrt();
                let limit = Double::ratio(5, 100);
                if limit.lt(mag) {
                    return Some((cx.times(limit.over(mag)), cy.times(limit.over(mag))));
                }
                return Some((cx, cy));
            }
        }
    }
    None
}

/// Where a point wants to go: toward the middle of its neighbours, and away
/// from obstacles.
pub open spec fn proposed(ground: Terrain, g: Gains, l: Point, p: Point, r: Point) -> Point {
    let dx = g.alpha.times(l.0.plus(r.0).minus(Double::of(2).times(p.0)));
    let dy = g.alpha.times(l.1.plus(r.1).minus(Double::of(2).times(p.1)));
    match push_at(ground, g, p) {
        Some(c) => (p.0.plus(dx.plus(c.0)), p.1.plus(dy.plus(c.1))),
        None => (p.0.plus(dx), p.1.plus(dy)),
    }
}

/// Where the `i`-th point goes in a pass: an inner point that is selected goes
/// where it wants to, unless that is blocked.
pub open spec fn moved(
    ground: Terrain,
    g: Gains,
    pts: Seq<Point>,
    only: Option<Seq<bool>>,
    i: int,
) -> Point {
    if 0 < i < pts.len() - 1 && (only is None || only->0[i]) {
        let q = proposed(ground, g, pts[i - 1], pts[i], pts[i + 1]);
        if ground.blocked(q.0, q.1) {
            pts[i]
        } else {
            q
        }
    } else {
        pts[i]
    }
}

/// The chain after a pass. All points move at once.
pub open spec fn passed(ground: Terrain, g: Gains, pts: Seq<Point>, only: Option<Seq<bool>>) -> Seq<
    Point,
> {
    Seq::new(pts.len(), |i: int| moved(ground, g, pts, only, i))
}

/// One smoothing pass over the selected inner points.
fn smoothing_pass(pts: &mut Vec<Point>, ground: &Terrain, g: &Gains, only: Option<&Vec<bool>>)
    requires
        ground.wf(),
        only matches Some(m) ==> m@.len() == old(pts)@.len(),
    ensures
        final(pts)@ == passed(
            *ground,
            *g,
            old(pts)@,
            match only {
                Some(m) => Some(m@),
                None => None,
            },
        ),
{
    let n = pts.len();
    let mut out: Vec<Point> = Vec::with_capacity(n);
    let ghost mask = match only {
        Some(m) => Some(m@),
        None => None,
    };
    let mut i: usize = 0;
    while i < n
        invariant
            n == pts@.len(),
            pts@ == old(pts)@,
            ground.wf(),
            only matches Some(m) ==> m@.len() == n,
            mask == (match only {
                Some(m) => Some(m@),
                None => None,
            }),
            i <= n,
            out@.len() == i,
            forall|j: int|
                0 <= j < i ==> #[trigger] out@[j] == moved(*ground, *g, old(pts)@, mask, j),
        decreases n - i,
    {
        let p = pts[i];
        let mut q = p;
        let selected = match only {
            Some(m) => m[i],
            None => true,
        };
        if i > 0 && i + 1 < n && selected {
            let (l, r) = (pts[i - 1], pts[i + 1]);
            let mut dx = g.alpha.times(l.0.plus(r.0).minus(Double::of(2).times(p.0)));
            let mut dy = g.alpha.times(l.1.plus(r.1).minus(Double::of(2).times(p.1)));
            if let Some(c) = clearance_push(ground, g, p) {
                dx = dx.plus(c.0);
                dy = dy.plus(c.1);
            }
            let (nx, ny) = (p.0.plus(dx), p.1.plus(dy));
            if !ground.blocked(nx, ny) {
                q = (nx, ny);
            }
        }
        out.push(q);
        i = i + 1;
    }
    *pts = out;
    assert(pts@ =~= passed(*ground, *g, old(pts)@, mask));
}

/// The chain after `n` passes over all inner points.
pub open spec fn passes(ground: Terrain, g: Gains, pts: Seq<Point>, n: int) -> Seq<Point>
    decreases n,
{
    if n <= 0 {
        pts
    } else {
        passed(ground, g, passes(ground, g, pts, n - 1), None)
    }
}

/// The chain after at most `n` passes over the places that turn too tightly,
/// without the push.
pub open spec fn relaxed(
    ground: Terrain,
    g: Gains,
    pts: Seq<Point>,
    kappa_max: Double,
    n: int,
) -> Seq<Point>
    decreases n,
{
    if n <= 0 || !any_tight(pts, kappa_max) {
        pts
    } else {
        let mask = Seq::new(pts.len(), |i: int| near_tight(pts, kappa_max, i));
        relaxed(
            ground,
            g,
            passed(ground, Gains { beta: Double::zero(), ..g }, pts, Some(mask)),
            kappa_max,
            n - 1,
        )
    }
}

pub open spec fn gains_of(cfg: &HybridAStarConfig) -> Gains {
    Gains {
        alpha: cfg.smoothing_alpha,
        beta: cfg.smoothing_clearance_beta,
        decay: cfg.clearance_decay_m,
    }
}

/// The chain after gradient smoothing and curvature relaxation.
pub open spec fn smoothed(
    ground: Terrain,
    cfg: &HybridAStarConfig,
    pts: Seq<Point>,
    kappa_max: Double,
) -> Seq<Point> {
    if pts.len() < 3 {
        pts
    } else {
        let n = cfg.smoothing_iterations as int;
        let g = gains_of(cfg);
        relaxed(ground, g, passes(ground, g, pts, n), kappa_max, n)
    }
}

/// Smooths a chain in place; its ends stay.
pub fn gradient_smooth(
    pts: &mut Vec<Point>,
    ground: &Terrain,
    cfg: &HybridAStarConfig,
    kappa_max: Double,
)
    requires
        ground.wf(),
    ensures
        final(pts)@ == smoothed(*ground, cfg, old(pts)@, kappa_max),
{
    if pts.len() < 3 {
        return ;
    }
    let g = Gains {
        alpha: cfg.smoothing_alpha,
        beta: cfg.smoothing_clearance_beta,
        decay: cfg.clearance_decay_m,
    };
    let n = cfg.smoothing_iterations;
    let ghost start = pts@;
    let mut k: usize = 0;
    while k < n
        invariant
            ground.wf(),
            k <= n,
            pts@ == passes(*ground, g, start, k as int),
            pts@.len() == start.len(),
        decreases n - k,
    {
        smoothing_pass(pts, ground, &g, None);
        k = k + 1;
    }
    let ghost mid = pts@;
    let plain = Gains { alpha: g.alpha, beta: Double::zero(), decay: g.decay };
    let mut left = n;
    while left > 0
        invariant_except_break
            relaxed(*ground, g, pts@, kappa_max, left as int) == relaxed(
                *ground,
                g,
                mid,
                kappa_max,
                n as int,
            ),
        invariant
            ground.wf(),
            plain == (Gains { beta: Double::zero(), ..g }),
            pts@.len() >= 3,
        ensures
            pts@ == relaxed(*ground, g, mid, kappa_max, n as int),
        decreases left,
    {
        let offending = offending_vertices(pts, kappa_max);
        if offending.len() == 0 {
            break;
        }
        assert(offending@ =~= Seq::new(pts@.len(), |i: int| near_tight(pts@, kappa_max, i)));
        smoothing_pass(pts, ground, &plain, Some(&offending));
        left = left - 1;
    }
}

/// The chain may be driven: every segment is free and no turn too tight.
pub open spec fn acceptable(ground: Terrain, pts: Seq<Point>, kappa_max: Double) -> bool {
    &&& pts.len() >= 2
    &&& forall|i: int|
        #![trigger pts[i]]
        0 < i < pts.len() ==> segment_admissible(pts[i - 1], pts[i], &ground, None)
    &&& forall|i: int|
        #![trigger pts[i]]
        0 < i < pts.len() - 1 ==> menger_curvature(pts[i - 1], pts[i], pts[i + 1]).abs().le(
            kappa_max.plus(slack()),
        )
}

/// Final acceptance of a smoothed chain.
pub fn post_check(pts: &Vec<Point>, ground: &Terrain, kappa_max: Double) -> (r: bool)
    requires
        ground.wf(),
    ensures
        r == acceptable(*ground, pts@, kappa_max),
{
    let n = pts.len();
    if n < 2 {
        return false;
    }
    let mut i: usize = 1;
    while i < n
        invariant
            ground.wf(),
            n == pts@.len(),
            1 <= i <= n,
            forall|j: int|
                #![trigger pts@[j]]
                0 < j < i ==> segment_admissible(pts@[j - 1], pts@[j], ground, None),
        decreases n - i,
    {
        if !segment_admissible(pts[i - 1], pts[i], ground, None) {
            assert(!segment_admissible(pts@[i - 1], pts@[i as int], ground, None));
            return false;
        }
        i = i + 1;
    }
    let bound = kappa_max.plus(slack());
    let mut i: usize = 1;
    while i < n - 1
        invariant
            n == pts@.len(),
            n >= 2,
            1 <= i <= n - 1,
            bound == kappa_max.plus(slack()),
            forall|j: int|
                #![trigger pts@[j]]
                0 < j < i ==> menger_curvature(pts@[j - 1], pts@[j], pts@[j + 1]).abs().le(bound),
        decreases n - i,
    {
        if !menger_curvature(pts[i - 1], pts[i], pts[i + 1]).abs().le(bound) {
            assert(!menger_curvature(pts@[i - 1], pts@[i as int], pts@[i + 1]).abs().le(bound));
            return false;
        }
        i = i + 1;
    }
    true
}

// ---------------------------------------------------------------- waypoints
/// The `i`-th waypoint of a chain: heading by its neighbours, turned round in
/// reverse, and steering by the curvature.
pub open spec fn waypoint_of(
    t: Trig,
    pts: Seq<Point>,
    wheelbase: Double,
    dir: SegmentDir,
    i: int,
) -> PathWaypoint {
    let n = pts.len();
    let b = if i == 0 {
        pts[0]
    } else {
        pts[i - 1]
    };
    let f = if i + 1 == n {
        pts[n - 1]
    } else {
        pts[i + 1]
    };
    let flip = if dir == SegmentDir::Reverse {
        pi()
    } else {
        Double::zero()
    };
    let kappa = if 0 < i < n - 1 {
        menger_curvature(pts[i - 1], pts[i], pts[i + 1])
    } else {
        Double::zero()
    };
    PathWaypoint {
        x: pts[i].0,
        y: pts[i].1,
        theta: normalize_angle(bearing(t, f.1.minus(b.1), f.0.minus(b.0)).plus(flip)),
        steering: arctangent(t, dir.sign().times(kappa).times(wheelbase)),
        dir,
    }
}

pub open spec fn waypoints_of(t: Trig, pts: Seq<Point>, wheelbase: Double, dir: SegmentDir) -> Seq<
    PathWaypoint,
> {
    Seq::new(pts.len(), |i: int| waypoint_of(t, pts, wheelbase, dir, i))
}

fn to_waypoints<M: Fn(Circular, Double, Double) -> Double>(
    m: &M,
    pts: &Vec<Point>,
    wheelbase: Double,
    dir: SegmentDir,
) -> (r: Vec<PathWaypoint>)
    requires
        functional(m),
    ensures
        r@ == waypoints_of(trig_of(m), pts@, wheelbase, dir),
{
    let n = pts.len();
    let flip = if dir == SegmentDir::Reverse {
        pi()
    } else {
        Double::zero()
    };
    let mut out: Vec<PathWaypoint> = Vec::with_capacity(n);
    let mut i: usize = 0;
    while i < n
        invariant
            functional(m),
            n == pts@.len(),
            flip == (if dir == SegmentDir::Reverse {
                pi()
            } else {
                Double::zero()
            }),
            i <= n,
            out@.len() == i,
            forall|j: int|
                0 <= j < i ==> #[trigger] out@[j] == waypoint_of(
                    trig_of(m),
                    pts@,
                    wheelbase,
                    dir,
                    j,
                ),
        decreases n - i,
    {
        let b = if i == 0 {
            pts[0]
        } else {
            pts[i - 1]
        };
        let f = if i + 1 == n {
            pts[n - 1]
        } else {
            pts[i + 1]
        };
        let theta = normalize_angle(atan2(m, f.1.minus(b.1), f.0.minus(b.0)).plus(flip));
        let kappa = if i > 0 && i + 1 < n {
            menger_curvature(pts[i - 1], pts[i], pts[i + 1])
        } else {
            Double::zero()
        };
        out.push(
            PathWaypoint {
                x: pts[i].0,
                y: pts[i].1,
                theta,
                steering: atan(m, dir.sign().times(kappa).times(wheelbase)),
                dir,
            },
        );
        i = i + 1;
    }
    assert(out@ =~= waypoints_of(trig_of(m), pts@, wheelbase, dir));
    out
}

// --------------------------------------------------------------- the stages
pub open spec fn points_of(path: Seq<PathWaypoint>) -> Seq<Point> {
    Seq::new(path.len(), |i: int| point(path[i]))
}

/// The points of a stretch after all stages, before acceptance.
pub open spec fn refined(
    ground: Terrain,
    cfg: &HybridAStarConfig,
    pts: Seq<Point>,
    kappa_max: Double,
) -> Seq<Point> {
    let dense = resampled(shortened(ground, pts), resample_spacing_m());
    resampled(smoothed(ground, cfg, dense, kappa_max), resample_spacing_m())
}

/// A stretch of one direction after smoothing; the stretch itself where the
/// result is not acceptable.
pub open spec fn smooth_stretch(
    t: Trig,
    ground: Terrain,
    cfg: &HybridAStarConfig,
    raw: Seq<PathWaypoint>,
    dir: SegmentDir,
    kappa_max: Double,
) -> Seq<PathWaypoint> {
    let pts = refined(ground, cfg, points_of(raw), kappa_max);
    if raw.len() < 2 || !acceptable(ground, pts, kappa_max) {
        raw
    } else {
        waypoints_of(t, pts, cfg.wheelbase, dir)
    }
}

/// Smooths a stretch of one direction.
fn smooth_chain<M: Fn(Circular, Double, Double) -> Double>(
    m: &M,
    raw: &Vec<PathWaypoint>,
    dir: SegmentDir,
    ground: &Terrain,
    cfg: &HybridAStarConfig,
    kappa_max: Double,
) -> (r: Vec<PathWaypoint>)
    requires
        functional(m),
        ground.wf(),
        raw@.len() >= 2,
    ensures
        r@ == smooth_stretch(trig_of(m), *ground, cfg, raw@, dir, kappa_max),
{
    let mut pts: Vec<Point> = Vec::with_capacity(raw.len());
    let mut i: usize = 0;
    while i < raw.len()
        invariant
            i <= raw@.len(),
            pts@.len() == i,
            forall|j: int| 0 <= j < i ==> #[trigger] pts@[j] == point(raw@[j]),
        decreases raw@.len() - i,
    {
        pts.push(point(raw[i]));
        i = i + 1;
    }
    assert(pts@ =~= points_of(raw@));
    let cut = shortcut(&pts, ground);
    let mut dense = resample(&cut, resample_spacing_m());
    gradient_smooth(&mut dense, ground, cfg, kappa_max);
    let out = resample(&dense, resample_spacing_m());
    if !post_check(&out, ground, kappa_max) {
        return copied(raw, 0, raw.len());
    }
    to_waypoints(m, &out, cfg.wheelbase, dir)
}

/// A copy of the waypoints from `start` up to `end`.
fn copied(path: &[PathWaypoint], start: usize, end: usize) -> (r: Vec<PathWaypoint>)
    requires
        start <= end <= path@.len(),
    ensures
        r@ == path@.subrange(start as int, end as int),
{
    let mut out: Vec<PathWaypoint> = Vec::with_capacity(end - start);
    let mut i = start;
    while i < end
        invariant
            start <= i <= end <= path@.len(),
            out@ == path@.subrange(start as int, i as int),
        decreases end - i,
    {
        out.push(path[i]);
        i = i + 1;
        assert(path@.subrange(start as int, i as int) =~= path@.subrange(
            start as int,
            i - 1,
        ).push(path@[i - 1]));
    }
    out
}

/// First and last index of a stretch of one direction.
#[derive(Clone, Copy, Debug)]
pub struct Run {
    pub start: usize,
    pub end: usize,
}

/// The stretches that end before the `n`-th waypoint, and the start of the one
/// that goes on. Neighbouring stretches share the cusp.
pub open spec fn runs_before(path: Seq<PathWaypoint>, n: int) -> (Seq<Run>, usize)
    decreases n,
{
    if n <= 1 {
        (Seq::empty(), 0)
    } else {
        let (runs, start) = runs_before(path, n - 1);
        if path[n - 1].dir != path[n - 2].dir {
            (runs.push(Run { start, end: (n - 2) as usize }), (n - 2) as usize)
        } else {
            (runs, start)
        }
    }
}

/// The stretches of one direction that make up a path.
pub open spec fn runs_of(path: Seq<PathWaypoint>) -> Seq<Run> {
    let (runs, start) = runs_before(path, path.len() as int);
    runs.push(
        Run {
            start,
            end: if path.len() == 0 {
                0
            } else {
                (path.len() - 1) as usize
            },
        },
    )
}

proof fn lemma_runs_before(path: Seq<PathWaypoint>, n: int)
    requires
        0 <= n <= path.len() <= usize::MAX,
    ensures
        ({
            let (runs, start) = runs_before(path, n);
            &&& start == 0 || start < n - 1
            &&& forall|i: int|
                0 <= i < runs.len() ==> (#[trigger] runs[i]).start <= runs[i].end < path.len()
        }),
    decreases n,
{
    if n > 1 {
        lemma_runs_before(path, n - 1);
    }
}

/// Splits a path into stretches of one direction.
pub fn direction_runs(path: &[PathWaypoint]) -> (r: Vec<Run>)
    ensures
        r@ == runs_of(path@),
        path@.len() > 0 ==> forall|i: int|
            0 <= i < r@.len() ==> (#[trigger] r@[i]).start <= r@[i].end < path@.len(),
{
    let n = path.len();
    let mut runs: Vec<Run> = Vec::new();
    let mut start: usize = 0;
    let mut i: usize = 1;
    while i < n
        invariant
            n == path@.len(),
            1 <= i,
            i <= n || i == 1,
            (runs@, start) == runs_before(path@, i as int),
        decreases n - i,
    {
        if path[i].dir != path[i - 1].dir {
            runs.push(Run { start, end: i - 1 });
            start = i - 1;
        }
        i = i + 1;
    }
    let ghost before = runs@;
    proof {
        if n > 0 {
            lemma_runs_before(path@, n as int);
            assert(before == runs_before(path@, n as int).0);
            assert(start == runs_before(path@, n as int).1);
            assert(forall|i: int|
                0 <= i < before.len() ==> (#[trigger] before[i]).start <= before[i].end
                    < path@.len());
        }
    }
    runs.push(
        Run {
            start,
            end: if n == 0 {
                0
            } else {
                n - 1
            },
        },
    );
    proof {
        if n > 0 {
            assert forall|i: int| 0 <= i < runs@.len() implies (#[trigger] runs@[i]).start
                <= runs@[i].end < path@.len() by {
                if i < before.len() {
                    assert(runs@[i] == before[i]);
                }
            }
        }
    }
    runs
}

/// The stretch of a path.
pub open spec fn stretch(path: Seq<PathWaypoint>, run: Run) -> Seq<PathWaypoint> {
    path.subrange(run.start as int, run.end + 1)
}

/// The first `n` stretches smoothed and put together; a cusp is kept once.
pub open spec fn joined(
    t: Trig,
    ground: Terrain,
    cfg: &HybridAStarConfig,
    raw: Seq<PathWaypoint>,
    kappa_max: Double,
    n: int,
) -> Seq<PathWaypoint>
    decreases n,
{
    if n <= 0 {
        Seq::empty()
    } else {
        let before = joined(t, ground, cfg, raw, kappa_max, n - 1);
        let run = runs_of(raw)[n - 1];
        let next = smooth_stretch(
            t,
            ground,
            cfg,
            stretch(raw, run),
            raw[run.end as int].dir,
            kappa_max,
        );
        if before.len() == 0 {
            next
        } else if next.len() == 0 {
            before
        } else {
            before + next.drop_first()
        }
    }
}

/// Curvature that a smoothed path keeps to: somewhat below the executor's.
pub open spec fn path_curvature_limit(executor_max_curvature: Double) -> Double {
    Double::ratio(9, 10).times(executor_max_curvature)
}

/// The smoothed path.
pub open spec fn smoothed_path(
    t: Trig,
    ground: Terrain,
    cfg: &HybridAStarConfig,
    raw: Seq<PathWaypoint>,
    executor_max_curvature: Double,
) -> Seq<PathWaypoint> {
    if !cfg.smoothing_enabled || raw.len() < 2 {
        raw
    } else {
        joined(
            t,
            ground,
            cfg,
            raw,
            path_curvature_limit(executor_max_curvature),
            runs_of(raw).len() as int,
        )
    }
}

/// Smooths a path, stretch by stretch.
pub fn smooth_path<M: Fn(Circular, Double, Double) -> Double>(
    m: &M,
    raw: &[PathWaypoint],
    grid: &OccupancyGrid,
    clearance: Option<&ClearanceField>,
    cfg: &HybridAStarConfig,
    executor_max_curvature: Double,
    escape: Option<&EscapeZone>,
) -> (r: Vec<PathWaypoint>)
    requires
        functional(m),
        grid.wf(),
        clearance matches Some(f) ==> f.wf(),
    ensures
        r@ == smoothed_path(
            trig_of(m),
            (Terrain { grid, clearance, escape }),
            cfg,
            raw@,
            executor_max_curvature,
        ),
{
    if !cfg.smoothing_enabled || raw.len() < 2 {
        let r = copied(raw, 0, raw.len());
        assert(r@ =~= raw@);
        return r;
    }
    let kappa_max = Double::ratio(9, 10).times(executor_max_curvature);
    let ground = Terrain { grid, clearance, escape };
    let ghost t = trig_of(m);
    let runs = direction_runs(raw);
    let mut out: Vec<PathWaypoint> = Vec::new();
    let mut i: usize = 0;
    while i < runs.len()
        invariant
            functional(m),
            t == trig_of(m),
            ground.wf(),
            runs@ == runs_of(raw@),
            raw@.len() >= 2,
            forall|j: int|
                0 <= j < runs@.len() ==> (#[trigger] runs@[j]).start <= runs@[j].end < raw@.len(),
            i <= runs@.len(),
            out@ == joined(t, ground, cfg, raw@, kappa_max, i as int),
        decreases runs@.len() - i,
    {
        let run = runs[i];
        let dir = raw[run.end].dir;
        let chain = copied(raw, run.start, run.end + 1);
        let wps = if chain.len() < 2 {
            chain
        } else {
            smooth_chain(m, &chain, dir, &ground, cfg, kappa_max)
        };
        let ghost before = out@;
        let skip: usize = if out.len() == 0 {
            0
        } else {
            1
        };
        let mut k = skip;
        assert(wps@.len() >= skip ==> before + wps@.subrange(skip as int, skip as int) =~= before);
        while k < wps.len()
            invariant
                skip <= 1,
                skip <= k,
                k <= wps@.len() || k == skip,
                wps@.len() >= skip ==> out@ == before + wps@.subrange(skip as int, k as int),
                wps@.len() < skip ==> out@ == before,
            decreases wps@.len() - k,
        {
            out.push(wps[k]);
            k = k + 1;
            assert(before + wps@.subrange(skip as int, k as int) =~= (before + wps@.subrange(
                skip as int,
                k - 1,
            )).push(wps@[k - 1]));
        }
        proof {
            if wps@.len() >= skip {
                assert(wps@.subrange(0, wps@.len() as int) =~= wps@);
                assert(before.len() > 0 && wps@.len() > 0 ==> wps@.subrange(1, wps@.len() as int)
                    =~= wps@.drop_first());
                assert(before.len() == 0 ==> before + wps@ =~= wps@);
            }
        }
        i = i + 1;
    }
    out
}

} // verus!
