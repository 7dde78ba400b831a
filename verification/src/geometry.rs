//! Plane geometry.
use crate::ieee::double::Double;
use vstd::prelude::*;

verus! {

impl Double {
    pub open spec fn spec_square(self) -> Double {
        self.spec_times(self)
    }

    #[verifier::when_used_as_spec(spec_square)]
    pub fn square(self) -> (r: Double)
        ensures
            r == self.spec_square(),
    {
        self.times(self)
    }
}

/// Square of the distance of two points.
pub open spec fn spec_distance_squared(x1: Double, y1: Double, x2: Double, y2: Double) -> Double {
    x2.spec_minus(x1).spec_square().spec_plus(y2.spec_minus(y1).spec_square())
}

#[verifier::when_used_as_spec(spec_distance_squared)]
pub fn distance_squared(x1: Double, y1: Double, x2: Double, y2: Double) -> (r: Double)
    ensures
        r == spec_distance_squared(x1, y1, x2, y2),
{
    x2.minus(x1).square().plus(y2.minus(y1).square())
}

/// Distance of two points.
pub open spec fn spec_distance(x1: Double, y1: Double, x2: Double, y2: Double) -> Double {
    spec_distance_squared(x1, y1, x2, y2).spec_sqrt()
}

#[verifier::when_used_as_spec(spec_distance)]
pub fn distance(x1: Double, y1: Double, x2: Double, y2: Double) -> (r: Double)
    ensures
        r == spec_distance(x1, y1, x2, y2),
{
    distance_squared(x1, y1, x2, y2).sqrt()
}

} // verus!
