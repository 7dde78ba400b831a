//! Distances and frames under the motions of the plane.
use crate::geometry::{distance, distance_squared};
use crate::global_planner::smoother::{menger_curvature, Point};
use crate::ieee::algebra::{alike, opposite};
use crate::ieee::double::{encode, lemma_decode_zero, Double, INF};
use crate::ieee::root::twice_root;
use vstd::arithmetic::power2::pow2;
use vstd::prelude::*;

verus! {

/// The offset `(dx, dy)` along and across a direction.
pub open spec fn along(dx: Double, dy: Double, c: Double, s: Double) -> Double {
    dx.times(c).plus(dy.times(s))
}

pub open spec fn across(dx: Double, dy: Double, c: Double, s: Double) -> Double {
    dx.negate().times(s).plus(dy.times(c))
}

/// An offset and a direction that are both turned by a quarter keep their parts.
pub proof fn lemma_parts_turn(dx: Double, dy: Double, c: Double, s: Double)
    ensures
        along(dy.negate(), dx, s.negate(), c) == along(dx, dy, c, s),
        across(dy.negate(), dx, s.negate(), c) == across(dx, dy, c, s),
{
    dy.lemma_negate();
    dy.lemma_times_negate(s);
    dx.lemma_times_negate(s);
    dx.times(c).lemma_plus_commutes(dy.times(s));
    dx.negate().times(s).lemma_plus_commutes(dy.times(c));
}

/// The parts of an offset along the x axis and across it.
pub proof fn lemma_parts_of_the_axis(dx: Double, dy: Double)
    requires
        dx.finite() && dy.finite(),
    ensures
        alike(along(dx, dy, Double::one(), Double::zero()), dx),
        alike(across(dx, dy, Double::one(), Double::zero()), dy),
{
    let z = Double::zero();
    dx.lemma_negate();
    dx.lemma_times_one();
    dy.lemma_times_one();
    dy.lemma_times_zero(z);
    dx.negate().lemma_times_zero(z);
    dx.lemma_plus_nothing(dy.times(z));
    dy.lemma_plus_nothing(dx.negate().times(z));
}

/// Two points are as far from each other either way.
pub proof fn law_distance_is_mutual(x1: Double, y1: Double, x2: Double, y2: Double)
    ensures
        distance_squared(x1, y1, x2, y2) == distance_squared(x2, y2, x1, y1),
        distance(x1, y1, x2, y2) == distance(x2, y2, x1, y1),
{
    x2.lemma_minus_swapped(x1);
    y2.lemma_minus_swapped(y1);
    x2.minus(x1).lemma_square_opposite(x1.minus(x2));
    y2.minus(y1).lemma_square_opposite(y1.minus(y2));
}

/// No distance has a minus sign.
pub proof fn law_distance_is_not_negative(x1: Double, y1: Double, x2: Double, y2: Double)
    ensures
        !distance(x1, y1, x2, y2).negative(),
        !distance_squared(x1, y1, x2, y2).negative(),
{
    let (a, b) = (x2.minus(x1), y2.minus(y1));
    a.lemma_square_opposite(a);
    b.lemma_square_opposite(b);
    a.square().lemma_sum_unsigned(b.square());
    distance_squared(x1, y1, x2, y2).lemma_root_unsigned();
}

/// The distance grows with the offset in either coordinate.
pub proof fn law_distance_grows(
    x1: Double,
    y1: Double,
    x2: Double,
    y2: Double,
    x3: Double,
    y3: Double,
)
    requires
        x2.minus(x1).abs().le(x3.minus(x1).abs()),
        y2.minus(y1).abs().le(y3.minus(y1).abs()),
        x3.minus(x1).finite() && y3.minus(y1).finite(),
    ensures
        distance(x1, y1, x2, y2).le(distance(x1, y1, x3, y3)),
        distance_squared(x1, y1, x2, y2).le(distance_squared(x1, y1, x3, y3)),
        Double::zero().le(distance(x1, y1, x2, y2)),
{
    let (a, b) = (x2.minus(x1).abs(), x3.minus(x1).abs());
    let (c, d) = (y2.minus(y1).abs(), y3.minus(y1).abs());
    x2.minus(x1).lemma_square_abs();
    x3.minus(x1).lemma_square_abs();
    y2.minus(y1).lemma_square_abs();
    y3.minus(y1).lemma_square_abs();
    a.lemma_times_monotone(a, b);
    b.lemma_times_monotone(a, b);
    a.lemma_times_commutes(b);
    c.lemma_times_monotone(c, d);
    d.lemma_times_monotone(c, d);
    c.lemma_times_commutes(d);
    a.square().lemma_plus_nonnegative(c.square());
    b.square().lemma_plus_nonnegative(d.square());
    Double::lemma_plus_monotone(a.square(), b.square(), c.square(), d.square());
    Double::lemma_sqrt_monotone(
        a.square().plus(c.square()),
        b.square().plus(d.square()),
    );
}

impl Double {
    proof fn lemma_sum_unsigned(self, o: Double)
        requires
            !self.negative() && !o.negative(),
        ensures
            !self.plus(o).negative(),
    {
        reveal(Double::spec_plus);
        lemma_decode_zero();
        let t = (self.value() + o.value()) as nat;
        assert(encode(t, 1) <= INF);
    }

    proof fn lemma_root_unsigned(self)
        requires
            !self.negative(),
        ensures
            !self.sqrt().negative(),
    {
        reveal(Double::spec_sqrt);
        let n = twice_root(self.units() * pow2(1074));
        assert(encode(n, 2) <= INF);
    }

    proof fn lemma_square_abs(self)
        ensures
            self.abs().square() == self.square(),
    {
        reveal(Double::spec_times);
    }
}

/// Distances are the same after a quarter turn of the plane.
pub proof fn law_distance_turns(
    x1: Double,
    y1: Double,
    x2: Double,
    y2: Double,
    u1: Double,
    v1: Double,
    u2: Double,
    v2: Double,
)
    requires
        opposite(u2.minus(u1), y2.minus(y1)),
        alike(v2.minus(v1), x2.minus(x1)),
    ensures
        distance(u1, v1, u2, v2) == distance(x1, y1, x2, y2),
{
    u2.minus(u1).lemma_square_opposite(y2.minus(y1));
    v2.minus(v1).lemma_square_opposite(x2.minus(x1));
    x2.minus(x1).square().lemma_plus_commutes(y2.minus(y1).square());
}

/// Twice the area that a bend spans, left of it counted as positive.
spec fn cross(a: Point, b: Point, c: Point) -> Double {
    b.0.minus(a.0).times(c.1.minus(b.1)).minus(b.1.minus(a.1).times(c.0.minus(b.0)))
}

proof fn lemma_bend_opposite(a: Point, b: Point, c: Point, p: Point, q: Point, r: Point)
    requires
        opposite(cross(a, b, c), cross(p, q, r)),
        distance(a.0, a.1, b.0, b.1).times(distance(b.0, b.1, c.0, c.1)).times(
            distance(a.0, a.1, c.0, c.1),
        ) == distance(p.0, p.1, q.0, q.1).times(distance(q.0, q.1, r.0, r.1)).times(
            distance(p.0, p.1, r.0, r.1),
        ),
    ensures
        opposite(menger_curvature(a, b, c), menger_curvature(p, q, r)),
{
    let two = Double::of(2);
    let (x, y) = (cross(a, b, c), cross(p, q, r));
    x.lemma_times_opposite(two, y, two);
    let d = distance(a.0, a.1, b.0, b.1).times(distance(b.0, b.1, c.0, c.1)).times(
        distance(a.0, a.1, c.0, c.1),
    );
    two.times(x).lemma_over_opposite(d, two.times(y));
}

/// The same three points the other way round bend to the other side, as tightly.
pub proof fn law_bend_the_other_way(a: Point, b: Point, c: Point)
    ensures
        opposite(menger_curvature(c, b, a), menger_curvature(a, b, c)),
{
    law_distance_is_mutual(a.0, a.1, b.0, b.1);
    law_distance_is_mutual(b.0, b.1, c.0, c.1);
    law_distance_is_mutual(a.0, a.1, c.0, c.1);
    let (ab, bc) = (distance(a.0, a.1, b.0, b.1), distance(b.0, b.1, c.0, c.1));
    ab.lemma_times_commutes(bc);
    let (p, q) = (b.0.minus(a.0), c.1.minus(b.1));
    let (r, s) = (b.1.minus(a.1), c.0.minus(b.0));
    let (p2, q2) = (b.0.minus(c.0), a.1.minus(b.1));
    let (r2, s2) = (b.1.minus(c.1), a.0.minus(b.0));
    b.0.lemma_minus_swapped(a.0);
    b.1.lemma_minus_swapped(a.1);
    c.0.lemma_minus_swapped(b.0);
    c.1.lemma_minus_swapped(b.1);
    lemma_product_opposites(p2, q2, s, r);
    lemma_product_opposites(r2, s2, q, p);
    s.lemma_times_commutes(r);
    q.lemma_times_commutes(p);
    let (m, n) = (p.times(q), r.times(s));
    p2.times(q2).lemma_minus_alike(r2.times(s2), n, m);
    n.lemma_minus_swapped(m);
    lemma_bend_opposite(c, b, a, a, b, c);
}

proof fn lemma_product_opposites(a: Double, b: Double, p: Double, q: Double)
    requires
        opposite(a, p),
        opposite(b, q),
    ensures
        alike(a.times(b), p.times(q)),
{
    p.lemma_negate();
    q.lemma_negate();
    a.lemma_times_alike(b, p.negate(), q.negate());
    p.lemma_times_negate(q);
}

/// In a mirror a bend goes to the other side, as tightly.
pub proof fn law_bend_in_a_mirror(a: Point, b: Point, c: Point, p: Point, q: Point, r: Point)
    requires
        p.0 == a.0 && q.0 == b.0 && r.0 == c.0,
        p.1 == a.1.negate() && q.1 == b.1.negate() && r.1 == c.1.negate(),
    ensures
        opposite(menger_curvature(p, q, r), menger_curvature(a, b, c)),
{
    a.1.lemma_negate();
    b.1.lemma_negate();
    c.1.lemma_negate();
    q.1.lemma_minus_opposite(p.1, b.1, a.1);
    r.1.lemma_minus_opposite(q.1, c.1, b.1);
    r.1.lemma_minus_opposite(p.1, c.1, a.1);
    q.1.minus(p.1).lemma_square_opposite(b.1.minus(a.1));
    r.1.minus(q.1).lemma_square_opposite(c.1.minus(b.1));
    r.1.minus(p.1).lemma_square_opposite(c.1.minus(a.1));
    let (x, z) = (b.0.minus(a.0), c.0.minus(b.0));
    r.1.minus(q.1).lemma_times_opposite(x, c.1.minus(b.1), x);
    q.1.minus(p.1).lemma_times_opposite(z, b.1.minus(a.1), z);
    x.times(r.1.minus(q.1)).lemma_minus_opposite(
        q.1.minus(p.1).times(z),
        x.times(c.1.minus(b.1)),
        b.1.minus(a.1).times(z),
    );
    lemma_bend_opposite(p, q, r, a, b, c);
}

/// A path that goes along the x axis and then up bends to the left, which counts as
/// positive.
pub proof fn law_left_bend_is_positive(a: Point, b: Point, c: Point)
    requires
        b.0.minus(a.0).positive(),
        b.1.minus(a.1).mag() == 0,
        c.0.minus(b.0).finite(),
        c.1.minus(b.1).finite() && c.1.minus(b.1).key() >= 0,
    ensures
        menger_curvature(a, b, c).nan() || menger_curvature(a, b, c).key() >= 0,
{
    let (p, q) = (b.0.minus(a.0), c.1.minus(b.1));
    let (r, s) = (b.1.minus(a.1), c.0.minus(b.0));
    p.lemma_times_positive(q);
    s.lemma_times_zero(r);
    let (m, n) = (p.times(q), r.times(s));
    n.lemma_negate();
    let x = m.minus(n);
    assert(Double::zero().le(x)) by {
        if m.finite() {
            m.lemma_plus_nothing(n.negate());
        } else {
            reveal(Double::spec_plus);
        }
    }
    Double::lemma_of(2);
    let two = Double::of(2);
    two.lemma_times_positive(x);
    let d = distance(a.0, a.1, b.0, b.1).times(distance(b.0, b.1, c.0, c.1)).times(
        distance(a.0, a.1, c.0, c.1),
    );
    Double::lemma_ratio_positive(1, 1_000_000_000_000);
    Double::lemma_ratio_le_one(1, 1_000_000_000_000);
    if d.finite() {
        if d.key() > 0 {
            two.times(x).lemma_over_side(d);
        }
    } else {
        reveal(Double::spec_over);
    }
}

} // verus!
