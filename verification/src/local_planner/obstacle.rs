//! Obstacles as perception reports them, and the one distance by which every
//! collision check measures them.
use crate::geometry::distance;
use crate::ieee::double::Double;
use crate::trig::{cos, cosine, functional, sin, sine, trig_of, Circular, Trig};
use vstd::prelude::*;

verus! {

/// An obstacle: a point (no extent, no velocity), a circle, or, where both half
/// extents are positive, an oriented rectangle. The radius of a rectangle is
/// that of the circle around it.
#[derive(Clone, Copy, Debug)]
pub struct Obstacle {
    pub x: Double,
    pub y: Double,
    pub vx: Double,
    pub vy: Double,
    pub radius: Double,
    /// Half extent (m) of the rectangle along its own x axis.
    pub half_x: Double,
    /// Half extent (m) of the rectangle along its own y axis.
    pub half_y: Double,
    /// Heading (rad) of the rectangle.
    pub heading: Double,
}

/// Metres of uncertainty per metre of predicted travel: 0.4.
pub open spec fn spec_prediction_uncertainty() -> Double {
    Double { bits: 0x3fd9_9999_9999_999a }
}

#[verifier::when_used_as_spec(spec_prediction_uncertainty)]
pub fn prediction_uncertainty() -> (r: Double)
    ensures
        r == spec_prediction_uncertainty(),
{
    Double { bits: 0x3fd9_9999_9999_999a }
}

impl Default for Obstacle {
    fn default() -> (r: Obstacle)
        ensures
            r == Obstacle::spec_point(Double::zero(), Double::zero()),
    {
        Obstacle::point(Double::zero(), Double::zero())
    }
}

/// The circle around a rectangle reaches as far as either half of it.
proof fn lemma_circle(a: Double, b: Double)
    requires
        a.nonnegative() && b.nonnegative(),
    ensures
        a.square().sqrt().le(a.square().plus(b.square()).sqrt()),
        b.square().sqrt().le(a.square().plus(b.square()).sqrt()),
{
    a.lemma_times_monotone(a, a);
    b.lemma_times_monotone(b, b);
    let (p, q) = (a.square(), b.square());
    let z = Double::zero();
    p.lemma_plus_nonnegative(q);
    z.lemma_plus_nonnegative(q);
    p.lemma_plus_nonnegative(z);
    p.lemma_zero_plus();
    q.lemma_zero_plus();
    p.lemma_plus_commutes(z);
    Double::lemma_plus_monotone(p, p, z, q);
    Double::lemma_plus_monotone(z, p, q, q);
    Double::lemma_sqrt_monotone(p, p.plus(q));
    Double::lemma_sqrt_monotone(q, p.plus(q));
}

impl Obstacle {
    pub open spec fn spec_point(x: Double, y: Double) -> Obstacle {
        Obstacle {
            x,
            y,
            vx: Double::zero(),
            vy: Double::zero(),
            radius: Double::zero(),
            half_x: Double::zero(),
            half_y: Double::zero(),
            heading: Double::zero(),
        }
    }

    /// A point without extent or velocity.
    #[verifier::when_used_as_spec(spec_point)]
    pub fn point(x: Double, y: Double) -> (r: Obstacle)
        ensures
            r == Obstacle::spec_point(x, y),
    {
        Obstacle {
            x,
            y,
            vx: Double::zero(),
            vy: Double::zero(),
            radius: Double::zero(),
            half_x: Double::zero(),
            half_y: Double::zero(),
            heading: Double::zero(),
        }
    }

    /// A rectangle at rest, with the circle around it as its radius.
    pub fn boxed(x: Double, y: Double, half_x: Double, half_y: Double, heading: Double) -> (r:
        Obstacle)
        ensures
            r == (Obstacle {
                x,
                y,
                vx: Double::zero(),
                vy: Double::zero(),
                radius: half_x.square().plus(half_y.square()).sqrt(),
                half_x,
                half_y,
                heading,
            }),
            half_x.nonnegative() && half_y.nonnegative() ==> half_x.square().sqrt().le(r.radius)
                && half_y.square().sqrt().le(r.radius),
    {
        proof {
            if half_x.nonnegative() && half_y.nonnegative() {
                lemma_circle(half_x, half_y);
            }
        }
        Obstacle {
            x,
            y,
            vx: Double::zero(),
            vy: Double::zero(),
            radius: half_x.square().plus(half_y.square()).sqrt(),
            half_x,
            half_y,
            heading,
        }
    }

    pub open spec fn spec_position_at(self, t: Double) -> (Double, Double) {
        (self.x.plus(self.vx.times(t)), self.y.plus(self.vy.times(t)))
    }

    /// Where the obstacle is after `t` seconds at its velocity.
    #[verifier::when_used_as_spec(spec_position_at)]
    pub fn position_at(self, t: Double) -> (r: (Double, Double))
        ensures
            r == self.spec_position_at(t),
    {
        (self.x.plus(self.vx.times(t)), self.y.plus(self.vy.times(t)))
    }

    pub open spec fn spec_speed(self) -> Double {
        self.vx.square().plus(self.vy.square()).sqrt()
    }

    /// Magnitude (m/s) of the velocity.
    #[verifier::when_used_as_spec(spec_speed)]
    pub fn speed(self) -> (r: Double)
        ensures
            r == self.spec_speed(),
    {
        self.vx.square().plus(self.vy.square()).sqrt()
    }

    pub open spec fn spec_rectangular(self) -> bool {
        Double::zero().lt(self.half_x) && Double::zero().lt(self.half_y)
    }

    /// The obstacle has the extent of a rectangle.
    #[verifier::when_used_as_spec(spec_rectangular)]
    pub fn rectangular(self) -> (r: bool)
        ensures
            r == self.spec_rectangular(),
    {
        Double::zero().lt(self.half_x) && Double::zero().lt(self.half_y)
    }

    pub open spec fn spec_growth(self, t: Double) -> Double {
        prediction_uncertainty().times(self.speed()).times(t)
    }

    /// By how much (m) the extent grows over `t` seconds of prediction.
    #[verifier::when_used_as_spec(spec_growth)]
    pub fn growth(self, t: Double) -> (r: Double)
        ensures
            r == self.spec_growth(t),
    {
        prediction_uncertainty().times(self.speed()).times(t)
    }

    /// Coordinates of a point in the frame of the rectangle after `t` seconds.
    pub open spec fn frame(self, tr: Trig, px: Double, py: Double, t: Double) -> (Double, Double) {
        let o = self.position_at(t);
        let (dx, dy) = (px.minus(o.0), py.minus(o.1));
        let (c, s) = (cosine(tr, self.heading), sine(tr, self.heading));
        (dx.times(c).plus(dy.times(s)), dx.negate().times(s).plus(dy.times(c)))
    }

    /// Distance (m) of a point from the boundary of the obstacle after `t`
    /// seconds: the obstacle has moved at its velocity and its extent has grown
    /// by the uncertainty of that. Negative inside.
    pub open spec fn surface_distance(self, tr: Trig, px: Double, py: Double, t: Double) -> Double {
        if self.rectangular() {
            let p = self.frame(tr, px, py, t);
            let bx = p.0.abs().minus(self.half_x.plus(self.growth(t)));
            let by = p.1.abs().minus(self.half_y.plus(self.growth(t)));
            bx.max(Double::zero()).square().plus(by.max(Double::zero()).square()).sqrt().plus(
                bx.max(by).min(Double::zero()),
            )
        } else {
            let o = self.position_at(t);
            distance(o.0, o.1, px, py).minus(self.radius.plus(self.growth(t)))
        }
    }

    /// The distance of a point from the boundary after `t` seconds.
    pub fn net_distance_at<M: Fn(Circular, Double, Double) -> Double>(
        self,
        m: &M,
        px: Double,
        py: Double,
        t: Double,
    ) -> (r: Double)
        requires
            functional(m),
        ensures
            r == self.surface_distance(trig_of(m), px, py, t),
    {
        let o = self.position_at(t);
        let grow = self.growth(t);
        if self.rectangular() {
            let (dx, dy) = (px.minus(o.0), py.minus(o.1));
            let (c, s) = (cos(m, self.heading), sin(m, self.heading));
            let bx = dx.times(c).plus(dy.times(s)).abs().minus(self.half_x.plus(grow));
            let by = dx.negate().times(s).plus(dy.times(c)).abs().minus(self.half_y.plus(grow));
            bx.max(Double::zero()).square().plus(by.max(Double::zero()).square()).sqrt().plus(
                bx.max(by).min(Double::zero()),
            )
        } else {
            distance(o.0, o.1, px, py).minus(self.radius.plus(grow))
        }
    }

    /// Distance of a point from the boundary after `t` seconds, less what a
    /// moving obstacle is given besides: `gain` seconds of its travel.
    pub open spec fn net(self, tr: Trig, gain: Double, px: Double, py: Double, t: Double) -> Double {
        self.surface_distance(tr, px, py, t).minus(gain.times(self.speed()))
    }

    /// The net distance of a point after `t` seconds.
    pub fn net_clearance<M: Fn(Circular, Double, Double) -> Double>(
        self,
        m: &M,
        gain: Double,
        px: Double,
        py: Double,
        t: Double,
    ) -> (r: Double)
        requires
            functional(m),
        ensures
            r == self.net(trig_of(m), gain, px, py, t),
    {
        self.net_distance_at(m, px, py, t).minus(gain.times(self.speed()))
    }
}

} // verus!
