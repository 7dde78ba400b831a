//! Analytic connection to the goal: arcs at the steering limit and straights,
//! in both directions, that end exactly in the goal pose.
//!
//! Twelve words are tried: turn, straight, turn with the turns to the same or
//! to opposite sides, and three turns with the middle one driven the other
//! way; each of them also mirrored and driven backward. Every sample of a word
//! has to be free, and no closer to an obstacle than the closer one of its end
//! poses. The cheapest admissible word is taken.
use crate::global_planner::clearance::ClearanceField;
use crate::global_planner::config::HybridAStarConfig;
use crate::global_planner::escape::{pose_blocked, EscapeZone};
use crate::global_planner::grid::OccupancyGrid;
use crate::global_planner::path::{path_sample_step_m, pieces};
use crate::global_planner::{PathWaypoint, Pose, SegmentDir};
use crate::ieee::double::Double;
use crate::trig::{
    arcsine, arctangent, asin, atan, atan2, bearing, cos, cosine, functional, normalize_angle, pi,
    sin, sine, trig_of, turn, Circular, Trig,
};
use vstd::prelude::*;

verus! {

/// Steering of a segment.
#[derive(Clone, Copy, Debug, PartialEq, Eq, Structural)]
pub enum Steer {
    Left,
    Straight,
    Right,
}

/// A segment: steering, and length in turning radii, negative in reverse.
#[derive(Clone, Copy, Debug)]
pub struct Seg {
    pub steer: Steer,
    pub len: Double,
}

/// Three segments driven one after the other.
#[derive(Clone, Copy, Debug)]
pub struct Word {
    pub first: Seg,
    pub middle: Seg,
    pub last: Seg,
}

/// A word and what it costs.
#[derive(Clone, Copy, Debug)]
pub struct Candidate {
    pub word: Word,
    pub cost: Double,
}

/// Segments shorter than this count as absent.
pub open spec fn spec_eps_len() -> Double {
    Double::spec_ratio(1, 1_000_000_000)
}

#[verifier::when_used_as_spec(spec_eps_len)]
pub fn eps_len() -> (r: Double)
    ensures
        r == spec_eps_len(),
{
    Double::ratio(1, 1_000_000_000)
}

pub open spec fn spec_word(a: Steer, t: Double, b: Steer, u: Double, c: Steer, v: Double) -> Word {
    Word {
        first: Seg { steer: a, len: t },
        middle: Seg { steer: b, len: u },
        last: Seg { steer: c, len: v },
    }
}

#[verifier::when_used_as_spec(spec_word)]
fn word(a: Steer, t: Double, b: Steer, u: Double, c: Steer, v: Double) -> (r: Word)
    ensures
        r == spec_word(a, t, b, u, c, v),
{
    Word {
        first: Seg { steer: a, len: t },
        middle: Seg { steer: b, len: u },
        last: Seg { steer: c, len: v },
    }
}

/// The angle brought to `[0, 2 pi)`. A negative remainder that is lost against a
/// full turn counts as none.
pub open spec fn spec_mod2pi_pos(a: Double) -> Double {
    let v = a.rem(turn());
    let up = v.plus(turn());
    if !v.lt(Double::zero()) {
        v
    } else if up.lt(turn()) {
        up
    } else {
        Double::zero()
    }
}

#[verifier::when_used_as_spec(spec_mod2pi_pos)]
pub fn mod2pi_pos(a: Double) -> (r: Double)
    ensures
        r == spec_mod2pi_pos(a),
{
    let v = a.rem(turn());
    if !v.lt(Double::zero()) {
        return v;
    }
    let up = v.plus(turn());
    if up.lt(turn()) {
        up
    } else {
        Double::zero()
    }
}

/// Turn left, straight, turn left, all forward, with turns of at most half a
/// circle. A goal on the start's own left circle is a single arc.
pub open spec fn left_straight_left(t: Trig, x: Double, y: Double, phi: Double) -> Option<Word> {
    let cx = x.minus(sine(t, phi));
    let cy = y.minus(Double::one()).plus(cosine(t, phi));
    let u = cx.times(cx).plus(cy.times(cy)).sqrt();
    let a = bearing(t, cy, cx);
    let v = mod2pi_pos(phi.minus(a));
    if u.lt(eps_len()) {
        Some(
            spec_word(
                Steer::Left,
                mod2pi_pos(phi),
                Steer::Straight,
                Double::zero(),
                Steer::Left,
                Double::zero(),
            ),
        )
    } else if !(Double::zero().le(a) && a.le(pi())) || pi().lt(v) {
        None
    } else {
        Some(spec_word(Steer::Left, a, Steer::Straight, u, Steer::Left, v))
    }
}

fn lsl<M: Fn(Circular, Double, Double) -> Double>(m: &M, x: Double, y: Double, phi: Double) -> (r:
    Option<Word>)
    requires
        functional(m),
    ensures
        r == left_straight_left(trig_of(m), x, y, phi),
{
    let cx = x.minus(sin(m, phi));
    let cy = y.minus(Double::one()).plus(cos(m, phi));
    let u = cx.times(cx).plus(cy.times(cy)).sqrt();
    if u.lt(eps_len()) {
        let t = mod2pi_pos(phi);
        return Some(
            word(Steer::Left, t, Steer::Straight, Double::zero(), Steer::Left, Double::zero()),
        );
    }
    let t = atan2(m, cy, cx);
    if !(Double::zero().le(t) && t.le(pi())) {
        return None;
    }
    let v = mod2pi_pos(phi.minus(t));
    if pi().lt(v) {
        return None;
    }
    Some(word(Steer::Left, t, Steer::Straight, u, Steer::Left, v))
}

/// Turn left, straight, turn right, all forward: the circles have to be two
/// radii apart at least.
pub open spec fn left_straight_right(t: Trig, x: Double, y: Double, phi: Double) -> Option<Word> {
    let cx = x.plus(sine(t, phi));
    let cy = y.minus(Double::one()).minus(cosine(t, phi));
    let d2 = cx.times(cx).plus(cy.times(cy));
    let u = d2.minus(Double::of(4)).sqrt();
    let theta = bearing(t, Double::of(2), u);
    let a = mod2pi_pos(bearing(t, cy, cx).plus(theta));
    let v = mod2pi_pos(a.minus(phi));
    if d2.lt(Double::of(4)) || pi().lt(a) || pi().lt(v) {
        None
    } else {
        Some(spec_word(Steer::Left, a, Steer::Straight, u, Steer::Right, v))
    }
}

fn lsr<M: Fn(Circular, Double, Double) -> Double>(m: &M, x: Double, y: Double, phi: Double) -> (r:
    Option<Word>)
    requires
        functional(m),
    ensures
        r == left_straight_right(trig_of(m), x, y, phi),
{
    let cx = x.plus(sin(m, phi));
    let cy = y.minus(Double::one()).minus(cos(m, phi));
    let d2 = cx.times(cx).plus(cy.times(cy));
    if d2.lt(Double::of(4)) {
        return None;
    }
    let u = d2.minus(Double::of(4)).sqrt();
    let theta = atan2(m, Double::of(2), u);
    let t = mod2pi_pos(atan2(m, cy, cx).plus(theta));
    if pi().lt(t) {
        return None;
    }
    let v = mod2pi_pos(t.minus(phi));
    if pi().lt(v) {
        return None;
    }
    Some(word(Steer::Left, t, Steer::Straight, u, Steer::Right, v))
}

/// Turn left, turn right in reverse, turn left: the three-point turn. The outer
/// circles have to be within four radii.
pub open spec fn left_right_left(t: Trig, x: Double, y: Double, phi: Double) -> Option<Word> {
    let cx = x.minus(sine(t, phi));
    let cy = y.minus(Double::one()).plus(cosine(t, phi));
    let u1 = cx.times(cx).plus(cy.times(cy)).sqrt();
    let u = Double::of(2).negate().times(arcsine(t, Double::ratio(1, 4).times(u1)));
    let a = mod2pi_pos(bearing(t, cy, cx).plus(Double::half().times(u)).plus(pi()));
    let v = mod2pi_pos(phi.minus(a).plus(u));
    if Double::of(4).lt(u1) || pi().lt(a) || pi().lt(v) {
        None
    } else {
        Some(spec_word(Steer::Left, a, Steer::Right, u, Steer::Left, v))
    }
}

fn lrl<M: Fn(Circular, Double, Double) -> Double>(m: &M, x: Double, y: Double, phi: Double) -> (r:
    Option<Word>)
    requires
        functional(m),
    ensures
        r == left_right_left(trig_of(m), x, y, phi),
{
    let cx = x.minus(sin(m, phi));
    let cy = y.minus(Double::one()).plus(cos(m, phi));
    let u1 = cx.times(cx).plus(cy.times(cy)).sqrt();
    if Double::of(4).lt(u1) {
        return None;
    }
    let u = Double::of(2).negate().times(asin(m, Double::ratio(1, 4).times(u1)));
    let t = mod2pi_pos(atan2(m, cy, cx).plus(Double::half().times(u)).plus(pi()));
    if pi().lt(t) {
        return None;
    }
    let v = mod2pi_pos(phi.minus(t).plus(u));
    if pi().lt(v) {
        return None;
    }
    Some(word(Steer::Left, t, Steer::Right, u, Steer::Left, v))
}

impl Steer {
    pub open spec fn spec_reflect(self) -> Steer {
        match self {
            Steer::Left => Steer::Right,
            Steer::Right => Steer::Left,
            Steer::Straight => Steer::Straight,
        }
    }
}

/// The steering in a mirror.
pub fn reflect(s: Steer) -> (r: Steer)
    ensures
        r == s.spec_reflect(),
{
    match s {
        Steer::Left => Steer::Right,
        Steer::Right => Steer::Left,
        Steer::Straight => Steer::Straight,
    }
}

impl Seg {
    pub open spec fn spec_changed(self, backward: bool, mirrored: bool) -> Seg {
        Seg {
            steer: if mirrored {
                self.steer.spec_reflect()
            } else {
                self.steer
            },
            len: if backward {
                self.len.negate()
            } else {
                self.len
            },
        }
    }

    #[verifier::when_used_as_spec(spec_changed)]
    pub fn changed(self, backward: bool, mirrored: bool) -> (r: Seg)
        ensures
            r == self.spec_changed(backward, mirrored),
    {
        Seg {
            steer: if mirrored {
                reflect(self.steer)
            } else {
                self.steer
            },
            len: if backward {
                self.len.negate()
            } else {
                self.len
            },
        }
    }
}

/// The words found by one solver for the goal, for the goal with the word
/// driven backward, in a mirror, and both.
pub open spec fn changed(w: Option<Word>, backward: bool, mirrored: bool) -> Seq<Word> {
    match w {
        None => Seq::empty(),
        Some(w) => seq![
            Word {
                first: w.first.changed(backward, mirrored),
                middle: w.middle.changed(backward, mirrored),
                last: w.last.changed(backward, mirrored),
            },
        ],
    }
}

fn push_changed(out: &mut Vec<Word>, w: Option<Word>, backward: bool, mirrored: bool)
    ensures
        final(out)@ == old(out)@ + changed(w, backward, mirrored),
{
    if let Some(w) = w {
        out.push(
            Word {
                first: w.first.changed(backward, mirrored),
                middle: w.middle.changed(backward, mirrored),
                last: w.last.changed(backward, mirrored),
            },
        );
    }
}

/// All words to the goal, in the order in which they are found.
pub open spec fn words(t: Trig, x: Double, y: Double, phi: Double) -> Seq<Word> {
    let (nx, ny, nphi) = (x.negate(), y.negate(), phi.negate());
    changed(left_straight_left(t, x, y, phi), false, false) + changed(
        left_straight_left(t, nx, y, nphi),
        true,
        false,
    ) + changed(left_straight_left(t, x, ny, nphi), false, true) + changed(
        left_straight_left(t, nx, ny, phi),
        true,
        true,
    ) + changed(left_straight_right(t, x, y, phi), false, false) + changed(
        left_straight_right(t, nx, y, nphi),
        true,
        false,
    ) + changed(left_straight_right(t, x, ny, nphi), false, true) + changed(
        left_straight_right(t, nx, ny, phi),
        true,
        true,
    ) + changed(left_right_left(t, x, y, phi), false, false) + changed(
        left_right_left(t, nx, y, nphi),
        true,
        false,
    ) + changed(left_right_left(t, x, ny, nphi), false, true) + changed(
        left_right_left(t, nx, ny, phi),
        true,
        true,
    )
}

fn generate_candidates<M: Fn(Circular, Double, Double) -> Double>(
    m: &M,
    x: Double,
    y: Double,
    phi: Double,
) -> (r: Vec<Word>)
    requires
        functional(m),
    ensures
        r@ == words(trig_of(m), x, y, phi),
{
    let (nx, ny, nphi) = (x.negate(), y.negate(), phi.negate());
    let mut out: Vec<Word> = Vec::with_capacity(12);
    push_changed(&mut out, lsl(m, x, y, phi), false, false);
    push_changed(&mut out, lsl(m, nx, y, nphi), true, false);
    push_changed(&mut out, lsl(m, x, ny, nphi), false, true);
    push_changed(&mut out, lsl(m, nx, ny, phi), true, true);
    push_changed(&mut out, lsr(m, x, y, phi), false, false);
    push_changed(&mut out, lsr(m, nx, y, nphi), true, false);
    push_changed(&mut out, lsr(m, x, ny, nphi), false, true);
    push_changed(&mut out, lsr(m, nx, ny, phi), true, true);
    push_changed(&mut out, lrl(m, x, y, phi), false, false);
    push_changed(&mut out, lrl(m, nx, y, nphi), true, false);
    push_changed(&mut out, lrl(m, x, ny, nphi), false, true);
    push_changed(&mut out, lrl(m, nx, ny, phi), true, true);
    proof {
        let e: Seq<Word> = Seq::empty();
        let c = changed(left_straight_left(trig_of(m), x, y, phi), false, false);
        assert(e + c == c);
    }
    out
}

/// Cost so far and direction of travel, after one more segment.
pub open spec fn spec_cost_after(
    at: (Double, Double),
    s: Seg,
    r: Double,
    cfg: &HybridAStarConfig,
) -> (Double, Double) {
    if s.len.abs().lt(eps_len()) {
        at
    } else {
        let meters = s.len.abs().times(r);
        let c = at.0.plus(
            if s.len.lt(Double::zero()) {
                meters.times(cfg.reverse_cost_multiplier)
            } else {
                meters
            },
        );
        let sign = s.len.signum();
        (
            if sign.same(at.1) {
                c
            } else {
                c.plus(cfg.direction_switch_penalty)
            },
            sign,
        )
    }
}

#[verifier::when_used_as_spec(spec_cost_after)]
pub fn cost_after(at: (Double, Double), s: Seg, r: Double, cfg: &HybridAStarConfig) -> (q: (
    Double,
    Double,
))
    ensures
        q == spec_cost_after(at, s, r, cfg),
{
    if s.len.abs().lt(eps_len()) {
        at
    } else {
        let meters = s.len.abs().times(r);
        let c = at.0.plus(
            if s.len.lt(Double::zero()) {
                meters.times(cfg.reverse_cost_multiplier)
            } else {
                meters
            },
        );
        let sign = s.len.signum();
        (
            if sign.same(at.1) {
                c
            } else {
                c.plus(cfg.direction_switch_penalty)
            },
            sign,
        )
    }
}

/// What a word costs by the measure of the search: its length, more in reverse,
/// and each change of direction, the one at its start included.
pub open spec fn spec_word_cost(
    w: Word,
    r: Double,
    arrival_dir: SegmentDir,
    cfg: &HybridAStarConfig,
) -> Double {
    cost_after(
        cost_after(
            cost_after((Double::zero(), arrival_dir.sign()), w.first, r, cfg),
            w.middle,
            r,
            cfg,
        ),
        w.last,
        r,
        cfg,
    ).0
}

#[verifier::when_used_as_spec(spec_word_cost)]
pub fn word_cost(w: Word, r: Double, arrival_dir: SegmentDir, cfg: &HybridAStarConfig) -> (q:
    Double)
    ensures
        q == spec_word_cost(w, r, arrival_dir, cfg),
{
    let start = (Double::zero(), arrival_dir.sign());
    let one = cost_after(start, w.first, r, cfg);
    let two = cost_after(one, w.middle, r, cfg);
    cost_after(two, w.last, r, cfg).0
}

/// The candidates with one more: behind all that cost no more.
pub open spec fn inserted(s: Seq<Candidate>, c: Candidate) -> Seq<Candidate>
    decreases s.len(),
{
    if s.len() == 0 || s.last().cost.rank() <= c.cost.rank() {
        s.push(c)
    } else {
        inserted(s.drop_last(), c).push(s.last())
    }
}

/// The words with their cost, cheapest first, in the order found among equals.
pub open spec fn ranked(
    ws: Seq<Word>,
    r: Double,
    arrival_dir: SegmentDir,
    cfg: &HybridAStarConfig,
) -> Seq<Candidate>
    decreases ws.len(),
{
    if ws.len() == 0 {
        Seq::empty()
    } else {
        inserted(
            ranked(ws.drop_last(), r, arrival_dir, cfg),
            Candidate { word: ws.last(), cost: word_cost(ws.last(), r, arrival_dir, cfg) },
        )
    }
}

proof fn lemma_inserted(s: Seq<Candidate>, c: Candidate, pos: int)
    requires
        0 <= pos <= s.len(),
        forall|j: int| pos <= j < s.len() ==> (#[trigger] s[j]).cost.rank() > c.cost.rank(),
        pos > 0 ==> s[pos - 1].cost.rank() <= c.cost.rank(),
    ensures
        inserted(s, c) == s.insert(pos, c),
    decreases s.len(),
{
    if pos < s.len() {
        assert(s.last() == s[s.len() - 1]);
        lemma_inserted(s.drop_last(), c, pos);
        assert(s.drop_last().insert(pos, c).push(s.last()) =~= s.insert(pos, c));
    } else {
        assert(s.push(c) =~= s.insert(pos, c));
    }
}

fn rank_candidates(
    ws: &Vec<Word>,
    r: Double,
    arrival_dir: SegmentDir,
    cfg: &HybridAStarConfig,
) -> (out: Vec<Candidate>)
    ensures
        out@ == ranked(ws@, r, arrival_dir, cfg),
{
    let mut out: Vec<Candidate> = Vec::with_capacity(12);
    let mut i: usize = 0;
    assert(ws@.take(0) =~= Seq::empty());
    while i < ws.len()
        invariant
            i <= ws@.len(),
            out@ == ranked(ws@.take(i as int), r, arrival_dir, cfg),
        decreases ws@.len() - i,
    {
        let c = Candidate { word: ws[i], cost: word_cost(ws[i], r, arrival_dir, cfg) };
        let mut pos = out.len();
        let mut found = false;
        while pos > 0 && !found
            invariant
                pos <= out@.len(),
                forall|j: int|
                    pos <= j < out@.len() ==> (#[trigger] out@[j]).cost.rank() > c.cost.rank(),
                found ==> pos > 0 && out@[pos - 1].cost.rank() <= c.cost.rank(),
            decreases pos, (if found { 0int } else { 1int }),
        {
            if out[pos - 1].cost.total_le(c.cost) {
                found = true;
            } else {
                pos = pos - 1;
            }
        }
        proof {
            lemma_inserted(out@, c, pos as int);
            assert(ws@.take(i + 1).drop_last() =~= ws@.take(i as int));
        }
        out.insert(pos, c);
        i = i + 1;
    }
    assert(ws@.take(ws@.len() as int) =~= ws@);
    out
}

/// A pose in turning radii, in the frame of the start.
#[derive(Clone, Copy, Debug)]
pub struct LocalPose {
    pub x: Double,
    pub y: Double,
    pub th: Double,
}

/// The pose a signed length `ds` further along a segment.
pub open spec fn stepped(t: Trig, p: LocalPose, steer: Steer, ds: Double) -> LocalPose {
    match steer {
        Steer::Straight => LocalPose {
            x: p.x.plus(ds.times(cosine(t, p.th))),
            y: p.y.plus(ds.times(sine(t, p.th))),
            th: p.th,
        },
        Steer::Left => {
            let nth = p.th.plus(ds);
            LocalPose {
                x: p.x.plus(sine(t, nth).minus(sine(t, p.th))),
                y: p.y.minus(cosine(t, nth).minus(cosine(t, p.th))),
                th: nth,
            }
        },
        Steer::Right => {
            let nth = p.th.minus(ds);
            LocalPose {
                x: p.x.minus(sine(t, nth).minus(sine(t, p.th))),
                y: p.y.plus(cosine(t, nth).minus(cosine(t, p.th))),
                th: nth,
            }
        },
    }
}

fn seg_step<M: Fn(Circular, Double, Double) -> Double>(
    m: &M,
    p: LocalPose,
    steer: Steer,
    ds: Double,
) -> (r: LocalPose)
    requires
        functional(m),
    ensures
        r == stepped(trig_of(m), p, steer, ds),
{
    match steer {
        Steer::Straight => LocalPose {
            x: p.x.plus(ds.times(cos(m, p.th))),
            y: p.y.plus(ds.times(sin(m, p.th))),
            th: p.th,
        },
        Steer::Left => {
            let nth = p.th.plus(ds);
            LocalPose {
                x: p.x.plus(sin(m, nth).minus(sin(m, p.th))),
                y: p.y.minus(cos(m, nth).minus(cos(m, p.th))),
                th: nth,
            }
        },
        Steer::Right => {
            let nth = p.th.minus(ds);
            LocalPose {
                x: p.x.minus(sin(m, nth).minus(sin(m, p.th))),
                y: p.y.plus(cos(m, nth).minus(cos(m, p.th))),
                th: nth,
            }
        },
    }
}

/// The pose after `k` steps.
pub open spec fn steps(t: Trig, p: LocalPose, steer: Steer, ds: Double, k: int) -> LocalPose
    decreases k,
{
    if k <= 0 {
        p
    } else {
        stepped(t, steps(t, p, steer, ds, k - 1), steer, ds)
    }
}

/// Sign of the steering angle.
pub open spec fn steer_sign(s: Steer) -> Double {
    match s {
        Steer::Left => Double::one(),
        Steer::Right => Double::one().negate(),
        Steer::Straight => Double::zero(),
    }
}

/// How words are laid out in the plane: start, turning radius, and steering
/// angle of the arcs.
#[derive(Clone, Copy, Debug)]
pub struct Frame {
    pub from: Pose,
    pub r: Double,
    pub steer_mag: Double,
}

impl Frame {
    /// The waypoint of a local pose.
    pub open spec fn placed(self, t: Trig, p: LocalPose, steering: Double, dir: SegmentDir) -> PathWaypoint {
        let c0 = cosine(t, self.from.theta);
        let s0 = sine(t, self.from.theta);
        PathWaypoint {
            x: self.from.x.plus(self.r.times(p.x.times(c0).minus(p.y.times(s0)))),
            y: self.from.y.plus(self.r.times(p.x.times(s0).plus(p.y.times(c0)))),
            theta: normalize_angle(self.from.theta.plus(p.th)),
            steering,
            dir,
        }
    }

    /// Number of steps in which a segment is sampled.
    pub open spec fn count(self, s: Seg) -> u64 {
        pieces(s.len.abs(), path_sample_step_m().over(self.r))
    }

    /// Length of a step.
    pub open spec fn step(self, s: Seg) -> Double {
        s.len.over(Double::of(self.count(s)))
    }

    pub open spec fn travel(s: Seg) -> SegmentDir {
        if Double::zero().lt(s.len) {
            SegmentDir::Forward
        } else {
            SegmentDir::Reverse
        }
    }

    /// The `k`-th waypoint of a segment that starts in `p`.
    pub open spec fn waypoint(self, t: Trig, p: LocalPose, s: Seg, k: int) -> PathWaypoint {
        self.placed(
            t,
            steps(t, p, s.steer, self.step(s), k),
            steer_sign(s.steer).times(self.steer_mag),
            Frame::travel(s),
        )
    }

    /// The waypoints of a segment that starts in `p`.
    pub open spec fn leg(self, t: Trig, p: LocalPose, s: Seg) -> Seq<PathWaypoint> {
        if s.len.abs().lt(eps_len()) {
            Seq::empty()
        } else {
            Seq::new(self.count(s) as nat, |k: int| self.waypoint(t, p, s, k + 1))
        }
    }

    /// Where a segment that starts in `p` ends.
    pub open spec fn leg_end(self, t: Trig, p: LocalPose, s: Seg) -> LocalPose {
        if s.len.abs().lt(eps_len()) {
            p
        } else {
            steps(t, p, s.steer, self.step(s), self.count(s) as int)
        }
    }

    pub open spec fn origin() -> LocalPose {
        LocalPose { x: Double::zero(), y: Double::zero(), th: Double::zero() }
    }

    pub open spec fn start(self) -> PathWaypoint {
        PathWaypoint {
            x: self.from.x,
            y: self.from.y,
            theta: self.from.theta,
            steering: Double::zero(),
            dir: SegmentDir::Forward,
        }
    }

    /// The waypoints of a word, the start first.
    pub open spec fn track(self, t: Trig, w: Word) -> Seq<PathWaypoint> {
        let p1 = self.leg_end(t, Frame::origin(), w.first);
        let p2 = self.leg_end(t, p1, w.middle);
        seq![self.start()] + self.leg(t, Frame::origin(), w.first) + self.leg(t, p1, w.middle)
            + self.leg(t, p2, w.last)
    }
}

/// What a sample is checked against.
pub struct Surroundings<'a, 'b> {
    pub grid: &'a OccupancyGrid,
    pub clearance: Option<&'a ClearanceField>,
    /// Clearance that no sample may fall below.
    pub required: Option<Double>,
    pub escape: Option<&'a EscapeZone<'b>>,
}

impl<'a, 'b> Surroundings<'a, 'b> {
    pub open spec fn wf(self) -> bool {
        &&& self.grid.wf()
        &&& self.clearance matches Some(f) ==> f.wf()
    }

    pub open spec fn spec_admits(&self, x: Double, y: Double) -> bool {
        &&& !pose_blocked(self.grid, self.escape, x, y)
        &&& self.clearance is Some && self.required is Some ==> self.required->0.minus(
            Double::ratio(1, 1_000_000_000),
        ).le(self.clearance->0.distance_at(x, y))
    }

    /// The point is free and clear enough.
    #[verifier::when_used_as_spec(spec_admits)]
    pub fn admits(&self, x: Double, y: Double) -> (r: bool)
        requires
            self.wf(),
        ensures
            r == self.spec_admits(x, y),
    {
        if pose_blocked(self.grid, self.escape, x, y) {
            return false;
        }
        match (self.clearance, self.required) {
            (Some(field), Some(req)) => req.minus(Double::ratio(1, 1_000_000_000)).le(
                field.distance_at(x, y),
            ),
            _ => true,
        }
    }

    /// Every waypoint from the `n`-th on is admitted.
    pub open spec fn admits_from(self, path: Seq<PathWaypoint>, n: int) -> bool {
        forall|i: int| n <= i < path.len() ==> self.admits((#[trigger] path[i]).x, path[i].y)
    }
}

/// The finished connection: the start takes the direction of the first segment,
/// the end is the goal exactly.
pub open spec fn finished(path: Seq<PathWaypoint>, goal: Pose) -> Seq<PathWaypoint> {
    let p = path.update(0, PathWaypoint { dir: path[1].dir, ..path[0] });
    p.update(
        p.len() - 1,
        PathWaypoint { x: goal.x, y: goal.y, theta: goal.theta, ..p[p.len() - 1] },
    )
}

/// The connection that a word gives: none where its start is blocked, a sample
/// is not admitted, or the word is empty.
pub open spec fn connection_by(
    t: Trig,
    w: Word,
    frame: Frame,
    goal: Pose,
    around: Surroundings,
) -> Option<Seq<PathWaypoint>> {
    let track = frame.track(t, w);
    if pose_blocked(around.grid, around.escape, frame.from.x, frame.from.y) || track.len() < 2
        || !around.admits_from(track, 1) {
        None
    } else {
        Some(finished(track, goal))
    }
}

/// Appends the waypoints of a segment; `None` if one is not admitted.
fn sample_leg<M: Fn(Circular, Double, Double) -> Double>(
    m: &M,
    frame: &Frame,
    p: LocalPose,
    s: Seg,
    around: &Surroundings,
    out: &mut Vec<PathWaypoint>,
) -> (r: Option<LocalPose>)
    requires
        functional(m),
        around.wf(),
    ensures
        match r {
            Some(q) => {
                &&& q == frame.leg_end(trig_of(m), p, s)
                &&& final(out)@ == old(out)@ + frame.leg(trig_of(m), p, s)
                &&& around.admits_from(frame.leg(trig_of(m), p, s), 0)
            },
            None => !around.admits_from(frame.leg(trig_of(m), p, s), 0),
        },
{
    let ghost t = trig_of(m);
    let ghost leg = frame.leg(t, p, s);
    if s.len.abs().lt(eps_len()) {
        return Some(p);
    }
    let dir = if Double::zero().lt(s.len) {
        SegmentDir::Forward
    } else {
        SegmentDir::Reverse
    };
    let sign = match s.steer {
        Steer::Left => Double::one(),
        Steer::Right => Double::one().negate(),
        Steer::Straight => Double::zero(),
    };
    let steering = sign.times(frame.steer_mag);
    let n = pieces(s.len.abs(), path_sample_step_m().over(frame.r));
    let ds = s.len.over(Double::of(n));
    let c0 = cos(m, frame.from.theta);
    let s0 = sin(m, frame.from.theta);
    let mut q = p;
    let mut k: u64 = 0;
    while k < n
        invariant
            functional(m),
            around.wf(),
            t == trig_of(m),
            leg == frame.leg(t, p, s),
            !s.len.abs().lt(eps_len()),
            n == frame.count(s),
            ds == frame.step(s),
            dir == Frame::travel(s),
            steering == steer_sign(s.steer).times(frame.steer_mag),
            c0 == cosine(t, frame.from.theta),
            s0 == sine(t, frame.from.theta),
            k <= n,
            q == steps(t, p, s.steer, ds, k as int),
            out@ == old(out)@ + leg.take(k as int),
            forall|i: int| 0 <= i < k ==> around.admits((#[trigger] leg[i]).x, leg[i].y),
        decreases n - k,
    {
        q = seg_step(m, q, s.steer, ds);
        let wp = PathWaypoint {
            x: frame.from.x.plus(frame.r.times(q.x.times(c0).minus(q.y.times(s0)))),
            y: frame.from.y.plus(frame.r.times(q.x.times(s0).plus(q.y.times(c0)))),
            theta: normalize_angle(frame.from.theta.plus(q.th)),
            steering,
            dir,
        };
        assert(wp == leg[k as int]);
        if !around.admits(wp.x, wp.y) {
            return None;
        }
        out.push(wp);
        assert(leg.take(k + 1) =~= leg.take(k as int).push(wp));
        k = k + 1;
    }
    assert(leg.take(n as int) =~= leg);
    Some(q)
}

/// Samples a word; `None` on the first sample that is not admitted.
fn sample_word<M: Fn(Circular, Double, Double) -> Double>(
    m: &M,
    w: &Word,
    frame: &Frame,
    goal: &Pose,
    around: &Surroundings,
) -> (r: Option<Vec<PathWaypoint>>)
    requires
        functional(m),
        around.wf(),
    ensures
        match r {
            Some(v) => connection_by(trig_of(m), *w, *frame, *goal, *around) == Some(v@),
            None => connection_by(trig_of(m), *w, *frame, *goal, *around) is None,
        },
{
    let ghost t = trig_of(m);
    let ghost track = frame.track(t, *w);
    if pose_blocked(around.grid, around.escape, frame.from.x, frame.from.y) {
        return None;
    }
    let mut out: Vec<PathWaypoint> = Vec::new();
    out.push(
        PathWaypoint {
            x: frame.from.x,
            y: frame.from.y,
            theta: frame.from.theta,
            steering: Double::zero(),
            dir: SegmentDir::Forward,
        },
    );
    let p0 = LocalPose { x: Double::zero(), y: Double::zero(), th: Double::zero() };
    let ghost l1 = frame.leg(t, p0, w.first);
    let p1 = match sample_leg(m, frame, p0, w.first, around, &mut out) {
        Some(p) => p,
        None => {
            proof {
                lemma_part_refused(*around, track, 1, l1);
            }
            return None;
        },
    };
    let ghost l2 = frame.leg(t, p1, w.middle);
    let p2 = match sample_leg(m, frame, p1, w.middle, around, &mut out) {
        Some(p) => p,
        None => {
            proof {
                lemma_part_refused(*around, track, 1 + l1.len() as int, l2);
            }
            return None;
        },
    };
    let ghost l3 = frame.leg(t, p2, w.last);
    if sample_leg(m, frame, p2, w.last, around, &mut out).is_none() {
        proof {
            lemma_part_refused(*around, track, 1 + l1.len() as int + l2.len() as int, l3);
        }
        return None;
    }
    assert(out@ =~= track);
    proof {
        assert forall|i: int| 1 <= i < track.len() implies around.admits(
            (#[trigger] track[i]).x,
            track[i].y,
        ) by {
            let (a, b) = (l1.len() as int, l2.len() as int);
            if i < 1 + a {
                assert(track[i] == l1[i - 1]);
            } else if i < 1 + a + b {
                assert(track[i] == l2[i - 1 - a]);
            } else {
                assert(track[i] == l3[i - 1 - a - b]);
            }
        }
    }
    if out.len() < 2 {
        return None;
    }
    let mut first = out[0];
    first.dir = out[1].dir;
    out.set(0, first);
    let n = out.len();
    let mut last = out[n - 1];
    last.x = goal.x;
    last.y = goal.y;
    last.theta = goal.theta;
    out.set(n - 1, last);
    Some(out)
}

/// A path of which a part is refused is refused.
proof fn lemma_part_refused(
    around: Surroundings,
    path: Seq<PathWaypoint>,
    at: int,
    part: Seq<PathWaypoint>,
)
    requires
        1 <= at,
        at + part.len() <= path.len(),
        forall|i: int| 0 <= i < part.len() ==> #[trigger] part[i] == path[at + i],
        !around.admits_from(part, 0),
    ensures
        !around.admits_from(path, 1),
{
    let i = choose|i: int|
        0 <= i < part.len() && !around.admits((#[trigger] part[i]).x, part[i].y);
    assert(part[i] == path[at + i]);
}

/// The frame of a connection at curvature `kappa_max`.
pub open spec fn frame_of(t: Trig, from: Pose, kappa_max: Double, cfg: &HybridAStarConfig) -> Frame {
    let r = Double::one().over(kappa_max);
    Frame { from, r, steer_mag: arctangent(t, cfg.wheelbase.over(r)) }
}

/// The words that lead from one pose to the other.
pub open spec fn words_between(t: Trig, from: Pose, goal: Pose, kappa_max: Double) -> Seq<Word> {
    let r = Double::one().over(kappa_max);
    let dx = goal.x.minus(from.x);
    let dy = goal.y.minus(from.y);
    let c = cosine(t, from.theta);
    let s = sine(t, from.theta);
    let x = dx.times(c).plus(dy.times(s)).over(r);
    let y = dx.negate().times(s).plus(dy.times(c)).over(r);
    words(t, x, y, normalize_angle(goal.theta.minus(from.theta)))
}

impl Seg {
    /// The segment is driven in reverse; one that is too short to be driven is not.
    pub open spec fn spec_reverses(self) -> bool {
        !self.len.abs().lt(eps_len()) && !Double::zero().lt(self.len)
    }

    #[verifier::when_used_as_spec(spec_reverses)]
    pub fn reverses(self) -> (r: bool)
        ensures
            r == self.spec_reverses(),
    {
        !self.len.abs().lt(eps_len()) && !Double::zero().lt(self.len)
    }
}

impl Word {
    /// The word is driven forward all the way.
    pub open spec fn spec_is_forward(self) -> bool {
        !self.first.reverses() && !self.middle.reverses() && !self.last.reverses()
    }

    #[verifier::when_used_as_spec(spec_is_forward)]
    pub fn is_forward(self) -> (r: bool)
        ensures
            r == self.spec_is_forward(),
    {
        !self.first.reverses() && !self.middle.reverses() && !self.last.reverses()
    }
}

/// The words that may be driven: all, or with reverse switched off those that are
/// driven forward all the way.
pub open spec fn allowed(ws: Seq<Word>, cfg: &HybridAStarConfig) -> Seq<Word> {
    if cfg.reverse_enabled {
        ws
    } else {
        ws.filter(|w: Word| w.is_forward())
    }
}

fn allow(ws: Vec<Word>, cfg: &HybridAStarConfig) -> (r: Vec<Word>)
    ensures
        r@ == allowed(ws@, cfg),
{
    if cfg.reverse_enabled {
        return ws;
    }
    let mut r: Vec<Word> = Vec::new();
    let ghost forward = |w: Word| w.is_forward();
    let mut i: usize = 0;
    proof {
        reveal(Seq::filter);
        assert(ws@.take(0).filter(forward) =~= Seq::empty());
    }
    while i < ws.len()
        invariant
            i <= ws@.len(),
            forward == (|w: Word| w.is_forward()),
            r@ == ws@.take(i as int).filter(forward),
        decreases ws@.len() - i,
    {
        proof {
            reveal(Seq::filter);
            assert(ws@.take(i + 1).drop_last() =~= ws@.take(i as int));
        }
        if ws[i].is_forward() {
            r.push(ws[i]);
        }
        i = i + 1;
    }
    assert(ws@.take(ws@.len() as int) =~= ws@);
    r
}

/// The words that may be driven from one pose to the other.
pub open spec fn words_for(
    t: Trig,
    from: Pose,
    goal: Pose,
    kappa_max: Double,
    cfg: &HybridAStarConfig,
) -> Seq<Word> {
    allowed(words_between(t, from, goal, kappa_max), cfg)
}

/// The words from one pose to the other, cheapest first.
pub open spec fn candidates(
    t: Trig,
    from: Pose,
    goal: Pose,
    kappa_max: Double,
    arrival_dir: SegmentDir,
    cfg: &HybridAStarConfig,
) -> Seq<Candidate> {
    ranked(
        words_for(t, from, goal, kappa_max, cfg),
        Double::one().over(kappa_max),
        arrival_dir,
        cfg,
    )
}

/// What the samples of a connection are checked against: no sample may have
/// less clearance than the tighter one of the two poses.
pub open spec fn spec_surroundings<'a, 'b>(
    from: &Pose,
    goal: &Pose,
    grid: &'a OccupancyGrid,
    clearance: Option<&'a ClearanceField>,
    escape: Option<&'a EscapeZone<'b>>,
) -> Surroundings<'a, 'b> {
    Surroundings {
        grid,
        clearance,
        required: match clearance {
            Some(f) => Some(f.distance_at(from.x, from.y).min(f.distance_at(goal.x, goal.y))),
            None => None,
        },
        escape,
    }
}

/// The connection by the first candidate from the `i`-th on that gives one.
pub open spec fn first_connection(
    t: Trig,
    cs: Seq<Candidate>,
    frame: Frame,
    goal: Pose,
    around: Surroundings,
    i: int,
) -> Option<Seq<PathWaypoint>>
    decreases cs.len() - i,
{
    if i < 0 || i >= cs.len() {
        None
    } else {
        let c = connection_by(t, cs[i].word, frame, goal, around);
        if c is Some {
            c
        } else {
            first_connection(t, cs, frame, goal, around, i + 1)
        }
    }
}

/// The analytic connection of two poses, its start included.
pub open spec fn connection(
    t: Trig,
    from: &Pose,
    goal: &Pose,
    kappa_max: Double,
    arrival_dir: SegmentDir,
    cfg: &HybridAStarConfig,
    grid: &OccupancyGrid,
    clearance: Option<&ClearanceField>,
    escape: Option<&EscapeZone>,
) -> Option<Seq<PathWaypoint>> {
    if kappa_max.le(Double::zero()) {
        None
    } else {
        first_connection(
            t,
            candidates(t, *from, *goal, kappa_max, arrival_dir, cfg),
            frame_of(t, *from, kappa_max, cfg),
            *goal,
            spec_surroundings(from, goal, grid, clearance, escape),
            0,
        )
    }
}

/// Connects two poses at curvature `kappa_max`, if one of the words can be
/// driven: in reverse too, unless that is switched off. `arrival_dir` is the direction in which the start was reached.
pub fn connect<M: Fn(Circular, Double, Double) -> Double>(
    m: &M,
    from: &Pose,
    goal: &Pose,
    kappa_max: Double,
    arrival_dir: SegmentDir,
    cfg: &HybridAStarConfig,
    grid: &OccupancyGrid,
    clearance: Option<&ClearanceField>,
    escape: Option<&EscapeZone>,
) -> (r: Option<Vec<PathWaypoint>>)
    requires
        functional(m),
        grid.wf(),
        clearance matches Some(f) ==> f.wf(),
    ensures
        match r {
            Some(v) => connection(
                trig_of(m),
                from,
                goal,
                kappa_max,
                arrival_dir,
                cfg,
                grid,
                clearance,
                escape,
            ) == Some(v@),
            None => connection(
                trig_of(m),
                from,
                goal,
                kappa_max,
                arrival_dir,
                cfg,
                grid,
                clearance,
                escape,
            ) is None,
        },
{
    if kappa_max.le(Double::zero()) {
        return None;
    }
    let r = Double::one().over(kappa_max);
    let dx = goal.x.minus(from.x);
    let dy = goal.y.minus(from.y);
    let c = cos(m, from.theta);
    let s = sin(m, from.theta);
    let x = dx.times(c).plus(dy.times(s)).over(r);
    let y = dx.negate().times(s).plus(dy.times(c)).over(r);
    let phi = normalize_angle(goal.theta.minus(from.theta));
    let ws = generate_candidates(m, x, y, phi);
    let ws = allow(ws, cfg);
    let cs = rank_candidates(&ws, r, arrival_dir, cfg);
    let required = match clearance {
        Some(f) => Some(f.distance_at(from.x, from.y).min(f.distance_at(goal.x, goal.y))),
        None => None,
    };
    let around = Surroundings { grid, clearance, required, escape };
    let frame = Frame { from: *from, r, steer_mag: atan(m, cfg.wheelbase.over(r)) };
    let mut i: usize = 0;
    while i < cs.len()
        invariant
            functional(m),
            around.wf(),
            !kappa_max.le(Double::zero()),
            cs@ == candidates(trig_of(m), *from, *goal, kappa_max, arrival_dir, cfg),
            frame == frame_of(trig_of(m), *from, kappa_max, cfg),
            around == spec_surroundings(from, goal, grid, clearance, escape),
            i <= cs@.len(),
            first_connection(trig_of(m), cs@, frame, *goal, around, 0) == first_connection(
                trig_of(m),
                cs@,
                frame,
                *goal,
                around,
                i as int,
            ),
        decreases cs@.len() - i,
    {
        let w = cs[i].word;
        if let Some(wps) = sample_word(m, &w, &frame, goal, &around) {
            return Some(wps);
        }
        i = i + 1;
    }
    None
}

/// A connection starts in the given position and ends in the goal pose exactly.
pub proof fn law_connection_ends(
    t: Trig,
    from: &Pose,
    goal: &Pose,
    kappa_max: Double,
    arrival_dir: SegmentDir,
    cfg: &HybridAStarConfig,
    grid: &OccupancyGrid,
    clearance: Option<&ClearanceField>,
    escape: Option<&EscapeZone>,
)
    ensures
        connection(t, from, goal, kappa_max, arrival_dir, cfg, grid, clearance, escape) matches Some(
            path,
        ) ==> {
            let n = path.len();
            &&& n >= 2
            &&& path[0].x == from.x && path[0].y == from.y && path[0].theta == from.theta
            &&& path[0].dir == path[1].dir
            &&& path[n - 1].x == goal.x && path[n - 1].y == goal.y && path[n - 1].theta
                == goal.theta
        },
{
    if !kappa_max.le(Double::zero()) {
        let cs = candidates(t, *from, *goal, kappa_max, arrival_dir, cfg);
        let around = spec_surroundings(from, goal, grid, clearance, escape);
        lemma_first_connection(t, cs, frame_of(t, *from, kappa_max, cfg), *goal, around, 0);
    }
}

/// The first connection is one by some candidate.
pub proof fn lemma_first_connection(
    t: Trig,
    cs: Seq<Candidate>,
    frame: Frame,
    goal: Pose,
    around: Surroundings,
    i: int,
)
    ensures
        first_connection(t, cs, frame, goal, around, i) matches Some(p) ==> exists|j: int|
            0 <= j < cs.len() && connection_by(t, (#[trigger] cs[j]).word, frame, goal, around)
                == Some(p),
    decreases cs.len() - i,
{
    if 0 <= i < cs.len() {
        lemma_first_connection(t, cs, frame, goal, around, i + 1);
    }
}

/// Every waypoint of a connection but its end points lies on a free place that
/// is no closer to an obstacle than the rule allows.
pub proof fn law_connection_is_admitted(
    t: Trig,
    from: &Pose,
    goal: &Pose,
    kappa_max: Double,
    arrival_dir: SegmentDir,
    cfg: &HybridAStarConfig,
    grid: &OccupancyGrid,
    clearance: Option<&ClearanceField>,
    escape: Option<&EscapeZone>,
)
    ensures
        connection(t, from, goal, kappa_max, arrival_dir, cfg, grid, clearance, escape) matches Some(
            path,
        ) ==> {
            &&& !pose_blocked(grid, escape, from.x, from.y)
            &&& forall|i: int|
                0 < i < path.len() - 1 ==> spec_surroundings(
                    from,
                    goal,
                    grid,
                    clearance,
                    escape,
                ).admits((#[trigger] path[i]).x, path[i].y)
        },
{
    if !kappa_max.le(Double::zero()) {
        let cs = candidates(t, *from, *goal, kappa_max, arrival_dir, cfg);
        let around = spec_surroundings(from, goal, grid, clearance, escape);
        let frame = frame_of(t, *from, kappa_max, cfg);
        lemma_first_connection(t, cs, frame, *goal, around, 0);
        if let Some(p) = first_connection(t, cs, frame, *goal, around, 0) {
            let j = choose|j: int|
                0 <= j < cs.len() && connection_by(
                    t,
                    (#[trigger] cs[j]).word,
                    frame,
                    *goal,
                    around,
                ) == Some(p);
            let track = frame.track(t, cs[j].word);
            assert forall|i: int| 0 < i < p.len() - 1 implies around.admits(
                (#[trigger] p[i]).x,
                p[i].y,
            ) by {
                assert(p[i] == track[i]);
            }
        }
    }
}

} // verus!
