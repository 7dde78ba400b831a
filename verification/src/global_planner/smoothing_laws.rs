//! Which way smoothing moves the points of a path.
use crate::geometry::distance;
use crate::global_planner::smoother::{
    laid, laid_upto, passed, proposed, push_at, resampled, Gains, Point, Terrain,
};
use crate::ieee::double::{exponent, lemma_decode_zero, lemma_encode_zero, significand, Double};
use crate::ieee::laws::{lemma_encode_ratio, lemma_rounded_monotone, lemma_rounded_zero, rounded};
use vstd::arithmetic::power2::{
    lemma2_to64, lemma2_to64_rest, lemma_pow2_adds, lemma_pow2_pos, pow2,
};
use vstd::prelude::*;

verus! {

/// A coordinate that lies below those of both neighbours moves up, one above both moves
/// down, and one that is equal to both stays, where no obstacle is near.
pub proof fn law_points_move_between_their_neighbours(
    ground: Terrain,
    g: Gains,
    l: Point,
    p: Point,
    r: Point,
)
    requires
        push_at(ground, g, p) is None,
        g.alpha.nonnegative(),
        l.0.finite() && l.1.finite() && p.0.finite() && p.1.finite(),
        r.0.finite() && r.1.finite(),
        l.0.plus(r.0).finite() && l.1.plus(r.1).finite(),
        Double::of(2).times(p.0).finite() && Double::of(2).times(p.1).finite(),
        l.0.plus(r.0).minus(Double::of(2).times(p.0)).finite(),
        l.1.plus(r.1).minus(Double::of(2).times(p.1)).finite(),
    ensures
        ({
            let q = proposed(ground, g, l, p, r);
            &&& p.0.le(l.0) && p.0.le(r.0) ==> p.0.le(q.0)
            &&& l.0.le(p.0) && r.0.le(p.0) ==> q.0.le(p.0)
            &&& p.1.le(l.1) && p.1.le(r.1) ==> p.1.le(q.1)
            &&& l.1.le(p.1) && r.1.le(p.1) ==> q.1.le(p.1)
        }),
{
    lemma_between(g.alpha, l.0, p.0, r.0);
    lemma_between(g.alpha, l.1, p.1, r.1);
}

proof fn lemma_between(alpha: Double, l: Double, p: Double, r: Double)
    requires
        alpha.nonnegative(),
        l.finite() && p.finite() && r.finite(),
        l.plus(r).finite() && Double::of(2).times(p).finite(),
        l.plus(r).minus(Double::of(2).times(p)).finite(),
    ensures
        ({
            let q = p.plus(alpha.times(l.plus(r).minus(Double::of(2).times(p))));
            &&& p.le(l) && p.le(r) ==> p.le(q)
            &&& l.le(p) && r.le(p) ==> q.le(p)
        }),
{
    let two = Double::of(2);
    let (a, b) = (l.plus(r), two.times(p));
    let d = a.minus(b);
    p.lemma_doubled();
    l.lemma_plus(r);
    l.lemma_order(p);
    r.lemma_order(p);
    p.lemma_order(l);
    p.lemma_order(r);
    let (x, y) = (l.value() + r.value(), 2 * p.value());
    if x >= y {
        lemma_rounded_monotone(y, x);
    }
    if x <= y {
        lemma_rounded_monotone(x, y);
    }
    a.lemma_minus(b);
    a.lemma_order(b);
    b.lemma_order(a);
    lemma_rounded_zero();
    if a.value() >= b.value() {
        lemma_rounded_monotone(0, a.value() - b.value());
    }
    if a.value() <= b.value() {
        lemma_rounded_monotone(a.value() - b.value(), 0);
    }
    d.lemma_times_keeps_side(alpha);
    let e = alpha.times(d);
    e.lemma_negate();
    if d.key() >= 0 {
        p.lemma_plus_grows(e);
    }
    if d.key() <= 0 {
        p.lemma_minus_shrinks(e.negate());
    }
}

impl Double {
    /// Twice a number is the nearest number to the exact double.
    proof fn lemma_doubled(self)
        requires
            self.finite(),
            Double::of(2).times(self).finite(),
        ensures
            Double::of(2).times(self).key() == rounded(2 * self.value()),
    {
        reveal(Double::spec_times);
        let p = pow2(1074);
        lemma_pow2_pos(1074);
        lemma_two();
        let (u, w) = (Double::of(2).units(), self.units());
        assert(u * w == (2 * w) * p) by (nonlinear_arith)
            requires
                u == 2 * p,
        ;
        assert(1 * p == p);
        lemma_encode_ratio(2 * w, 1, p);
        self.lemma_units_positive();
        lemma_encode_zero(1);
    }
}

proof fn lemma_two()
    ensures
        Double::of(2).units() == 2 * pow2(1074),
        !Double::of(2).negative() && Double::of(2).finite(),
{
    let two = Double { bits: 0x4000_0000_0000_0000 };
    lemma2_to64_rest();
    lemma2_to64();
    lemma_pow2_adds(52, 1023);
    lemma_pow2_adds(1, 1074);
    assert(exponent(0x4000_0000_0000_0000) == 1023);
    assert(significand(0x4000_0000_0000_0000) == pow2(52));
    lemma_pow2_adds(1, 1022 + 52);
    Double::lemma_of_exact(2, 0x4000_0000_0000_0000);
}

/// Near obstacles a point is pushed to where the room grows, in either coordinate, and
/// from the decay distance on it is not pushed at all.
pub proof fn law_points_are_pushed_to_room(ground: Terrain, g: Gains, p: Point)
    requires
        g.beta.finite() && g.decay.finite(),
        ground.grid.resolution.positive(),
        Double::of(2).times(ground.grid.resolution).finite(),
        ground.clearance matches Some(f) ==> {
            let h = ground.grid.resolution;
            &&& f.distance_at(p.0, p.1).nonnegative()
            &&& f.distance_at(p.0.plus(h), p.1).minus(f.distance_at(p.0.minus(h), p.1)).finite()
            &&& f.distance_at(p.0, p.1.plus(h)).minus(f.distance_at(p.0, p.1.minus(h))).finite()
            &&& f.distance_at(p.0.plus(h), p.1).finite()
            &&& f.distance_at(p.0.minus(h), p.1).finite()
            &&& f.distance_at(p.0, p.1.plus(h)).finite()
            &&& f.distance_at(p.0, p.1.minus(h)).finite()
        },
    ensures
        push_at(ground, g, p) matches Some(c) ==> {
            let (f, h) = (ground.clearance->0, ground.grid.resolution);
            let (east, west) = (
                f.distance_at(p.0.plus(h), p.1),
                f.distance_at(p.0.minus(h), p.1),
            );
            let (north, south) = (
                f.distance_at(p.0, p.1.plus(h)),
                f.distance_at(p.0, p.1.minus(h)),
            );
            &&& f.distance_at(p.0, p.1).lt(g.decay)
            &&& west.le(east) && !c.0.nan() ==> c.0.key() >= 0
            &&& east.le(west) && !c.0.nan() ==> c.0.key() <= 0
            &&& south.le(north) && !c.1.nan() ==> c.1.key() >= 0
            &&& north.le(south) && !c.1.nan() ==> c.1.key() <= 0
            &&& east == west ==> c.0.key() == 0 || c.0.nan()
            &&& north == south ==> c.1.key() == 0 || c.1.nan()
            &&& east == west && north == south ==> c.0.mag() == 0 && c.1.mag() == 0
        },
{
    if let Some(c) = push_at(ground, g, p) {
        let (f, h) = (ground.clearance->0, ground.grid.resolution);
        let d = f.distance_at(p.0, p.1);
        let span = Double::of(2).times(h);
        Double::lemma_of(2);
        Double::of(2).lemma_times_monotone(h, h);
        lemma_two();
        h.lemma_doubled();
        h.lemma_rounded_value();
        lemma_rounded_monotone(h.value(), 2 * h.value());
        let one = Double::one();
        lemma_left_over(d, g.decay);
        let share = one.minus(d.over(g.decay));
        g.beta.lemma_times_monotone(share, share);
        g.beta.lemma_times_shrinks(share);
        let scale = g.beta.times(share);
        let x = f.distance_at(p.0.plus(h), p.1).minus(f.distance_at(p.0.minus(h), p.1));
        let y = f.distance_at(p.0, p.1.plus(h)).minus(f.distance_at(p.0, p.1.minus(h)));
        lemma_slope(f.distance_at(p.0.plus(h), p.1), f.distance_at(p.0.minus(h), p.1));
        lemma_slope(f.distance_at(p.0, p.1.plus(h)), f.distance_at(p.0, p.1.minus(h)));
        x.lemma_over_side(span);
        y.lemma_over_side(span);
        let (cx, cy) = (scale.times(x.over(span)), scale.times(y.over(span)));
        lemma_pushed(scale, x.over(span), cx.times(cx).plus(cy.times(cy)).sqrt());
        lemma_pushed(scale, y.over(span), cx.times(cx).plus(cy.times(cy)).sqrt());
        let (east, west) = (f.distance_at(p.0.plus(h), p.1), f.distance_at(p.0.minus(h), p.1));
        let (north, south) = (f.distance_at(p.0, p.1.plus(h)), f.distance_at(p.0, p.1.minus(h)));
        if east == west && north == south {
            scale.lemma_times_zero(x.over(span));
            scale.lemma_times_zero(y.over(span));
            cx.lemma_times_zero(cx);
            cy.lemma_times_zero(cy);
            cx.times(cx).lemma_plus_nothing(cy.times(cy));
            reveal(Double::spec_sqrt);
            Double::lemma_ratio_number(5, 100);
        }
    }
}

proof fn lemma_pushed(scale: Double, slope: Double, mag: Double)
    requires
        scale.nonnegative() && !slope.nan(),
    ensures
        ({
            let (c, limit) = (scale.times(slope), Double::ratio(5, 100));
            let less = c.times(limit.over(mag));
            &&& slope.key() >= 0 ==> c.nan() || c.key() >= 0
            &&& slope.key() <= 0 ==> c.nan() || c.key() <= 0
            &&& limit.lt(mag) && slope.key() >= 0 ==> less.nan() || less.key() >= 0
            &&& limit.lt(mag) && slope.key() <= 0 ==> less.nan() || less.key() <= 0
        }),
{
    let (c, limit) = (scale.times(slope), Double::ratio(5, 100));
    Double::lemma_ratio_number(5, 100);
    if c.nan() {
        reveal(Double::spec_times);
    } else {
        scale.lemma_times_side(slope);
    }
    if limit.lt(mag) {
        let r = limit.over(mag);
        reveal(Double::spec_over);
        assert(!r.negative() && !r.nan());
        if !c.times(r).nan() {
            c.lemma_times_side(r);
        }
    }
}

proof fn lemma_slope(a: Double, b: Double)
    requires
        a.finite() && b.finite(),
    ensures
        !a.minus(b).nan(),
        b.le(a) ==> a.minus(b).key() >= 0,
        a.le(b) ==> a.minus(b).key() <= 0,
{
    a.lemma_minus(b);
    a.lemma_order(b);
    b.lemma_order(a);
    lemma_rounded_zero();
    let d = a.value() - b.value();
    if d >= 0 {
        lemma_rounded_monotone(0, d);
    }
    if d <= 0 {
        lemma_rounded_monotone(d, 0);
    }
}

proof fn lemma_left_over(d: Double, m: Double)
    requires
        d.nonnegative() && m.positive(),
        d.lt(m),
    ensures
        Double::one().minus(d.over(m)).nonnegative(),
        Double::one().minus(d.over(m)).le(Double::one()),
{
    let one = Double::one();
    m.lemma_over_itself();
    Double::lemma_over_monotone(d, m, m);
    one.lemma_minus(d.over(m));
    one.lemma_minus(one);
    lemma_rounded_zero();
    Double::lemma_minus_monotone(one, one, one, d.over(m));
    one.lemma_minus_shrinks(d.over(m));
}

/// A pass moves no end, and where it is held to some of the points no other point.
pub proof fn law_pass_moves_only_what_it_may(
    ground: Terrain,
    g: Gains,
    pts: Seq<Point>,
    only: Seq<bool>,
    i: int,
)
    requires
        0 <= i < pts.len() && only.len() == pts.len(),
        !only[i] || i == 0 || i == pts.len() - 1,
    ensures
        passed(ground, g, pts, Some(only))[i] == pts[i],
{
}

/// Laying points along a path, a segment that ends before the next point is due adds its
/// length to the way since the last one. A longer one gets its first point where the
/// spacing is full.
pub proof fn law_spacing_runs_on(pts: Seq<Point>, spacing: Double, n: int)
    requires
        1 <= n < pts.len(),
        spacing.finite(),
        ({
            let (seg, carried) = (
                distance(pts[n - 1].0, pts[n - 1].1, pts[n].0, pts[n].1),
                laid_upto(pts, spacing, n - 1).1,
            );
            &&& seg.finite() && !seg.lt(Double::ratio(1, 1_000_000_000_000))
            &&& carried.finite() && spacing.minus(carried).finite()
            &&& spacing.minus(carried).value() == spacing.value() - carried.value()
        }),
    ensures
        ({
            let (a, b) = (pts[n - 1], pts[n]);
            let seg = distance(a.0, a.1, b.0, b.1);
            let (before, carried) = laid_upto(pts, spacing, n - 1);
            let (out, left) = laid_upto(pts, spacing, n);
            let due = spacing.minus(carried);
            &&& seg.lt(due) ==> out == before && left.key() == rounded(
                carried.value() + seg.value(),
            )
            &&& due.le(seg) ==> out.len() > before.len() && out[before.len() as int] == (
                a.0.plus(b.0.minus(a.0).times(due.over(seg))),
                a.1.plus(b.1.minus(a.1).times(due.over(seg))),
            )
        }),
{
    let (a, b) = (pts[n - 1], pts[n]);
    let seg = distance(a.0, a.1, b.0, b.1);
    let (before, carried) = laid_upto(pts, spacing, n - 1);
    let due = spacing.minus(carried);
    let more = laid(a, b, seg, spacing, due);
    if seg.lt(due) {
        assert(more == (Seq::<Point>::empty(), due));
        assert(before + more.0 =~= before);
        let back = due.minus(spacing);
        due.lemma_minus(spacing);
        carried.lemma_negate();
        carried.negate().lemma_rounded_value();
        carried.negate().lemma_same(back);
        seg.lemma_minus(back);
    }
}

impl Double {
    proof fn lemma_same(self, o: Double)
        requires
            self.finite() && !o.nan(),
            self.key() == o.key(),
        ensures
            o.finite() && o.value() == self.value(),
    {
        lemma_decode_zero();
    }
}

/// After a point the next is due one spacing on, as long as the segment lasts.
pub proof fn law_points_follow_at_the_spacing(
    a: Point,
    b: Point,
    seg: Double,
    spacing: Double,
    along: Double,
)
    requires
        along.le(seg),
        along.lt(along.plus(spacing)),
    ensures
        ({
            let (next, out) = (along.plus(spacing), laid(a, b, seg, spacing, along));
            let rest = laid(a, b, seg, spacing, next);
            &&& out.0.len() == rest.0.len() + 1 && out.1 == rest.1
            &&& out.0[0] == (
                a.0.plus(b.0.minus(a.0).times(along.over(seg))),
                a.1.plus(b.1.minus(a.1).times(along.over(seg))),
            )
            &&& next.le(seg) ==> out.0[1] == (
                a.0.plus(b.0.minus(a.0).times(next.over(seg))),
                a.1.plus(b.1.minus(a.1).times(next.over(seg))),
            )
            &&& !next.le(seg) ==> out.1 == next
        }),
{
    let next = along.plus(spacing);
    let t = along.over(seg);
    let p = (a.0.plus(b.0.minus(a.0).times(t)), a.1.plus(b.1.minus(a.1).times(t)));
    let rest = laid(a, b, seg, spacing, next);
    assert(laid(a, b, seg, spacing, along) == (seq![p] + rest.0, rest.1));
    if next.le(seg) {
        assert((seq![p] + rest.0)[1] == rest.0[0]);
    }
}

/// The last point is moved to the end of the path where it is less than half a spacing from
/// there; otherwise the end is a point of its own.
pub proof fn law_end_of_the_spacing(pts: Seq<Point>, spacing: Double)
    requires
        pts.len() >= 2,
    ensures
        ({
            let (out, left) = laid_upto(pts, spacing, pts.len() - 1);
            let all = resampled(pts, spacing);
            &&& out.len() > 1 && left.lt(spacing.times(Double::half())) ==> all.len() == out.len()
            &&& spacing.times(Double::half()).le(left) ==> all.len() == out.len() + 1
            &&& all.len() > 0 && all.last() == pts.last()
        }),
{
    let (out, left) = laid_upto(pts, spacing, pts.len() - 1);
    lemma_laid_holds(pts, spacing, pts.len() - 1);
}

proof fn lemma_laid_holds(pts: Seq<Point>, spacing: Double, n: int)
    ensures
        laid_upto(pts, spacing, n).0.len() >= 1,
    decreases n,
{
    if n > 0 {
        lemma_laid_holds(pts, spacing, n - 1);
    }
}

} // verus!
