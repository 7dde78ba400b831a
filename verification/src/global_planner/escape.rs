//! Escape from a start that lies inside the inflated zone of an obstacle.
use crate::geometry::{distance, distance_squared};
use crate::global_planner::grid::OccupancyGrid;
use crate::ieee::double::Double;
use crate::local_planner::dwa::robot_footprint_radius;
use vstd::prelude::*;

verus! {

/// An obstacle as it is, not inflated.
#[derive(Clone, Copy, Debug)]
pub struct PhysicalObstacle {
    pub x: Double,
    pub y: Double,
    pub radius: Double,
}

/// Distance (m) that the physical check keeps from an obstacle: the robot's
/// footprint and a small pad. It is below the inflation of the grid; the
/// difference is the band that may be planned through.
pub open spec fn spec_true_footprint_clearance_m() -> Double {
    robot_footprint_radius().plus(Double::ratio(3, 100))
}

#[verifier::when_used_as_spec(spec_true_footprint_clearance_m)]
pub fn true_footprint_clearance_m() -> (r: Double)
    ensures
        r == spec_true_footprint_clearance_m(),
{
    robot_footprint_radius().plus(Double::ratio(3, 100))
}

/// The zone around a wedged start in which the physical check replaces the
/// inflated grid.
#[derive(Clone, Copy)]
pub struct EscapeZone<'a> {
    pub cx: Double,
    pub cy: Double,
    pub radius: Double,
    pub obstacles: &'a [PhysicalObstacle],
}

/// The robot at the point would touch the obstacle.
pub open spec fn spec_touches(o: PhysicalObstacle, x: Double, y: Double) -> bool {
    distance(x, y, o.x, o.y).lt(o.radius.plus(true_footprint_clearance_m()))
}

impl<'a> EscapeZone<'a> {
    pub open spec fn spec_contains(&self, x: Double, y: Double) -> bool {
        distance_squared(self.cx, self.cy, x, y).le(self.radius.times(self.radius))
    }

    /// The point lies in the zone.
    #[verifier::when_used_as_spec(spec_contains)]
    pub fn contains(&self, x: Double, y: Double) -> (r: bool)
        ensures
            r == self.spec_contains(x, y),
    {
        distance_squared(self.cx, self.cy, x, y).le(self.radius.times(self.radius))
    }

    pub open spec fn spec_footprint_blocked(&self, x: Double, y: Double) -> bool {
        exists|i: int|
            0 <= i < self.obstacles@.len() && spec_touches(#[trigger] self.obstacles@[i], x, y)
    }

    /// The robot at the point would touch some obstacle.
    #[verifier::when_used_as_spec(spec_footprint_blocked)]
    pub fn footprint_blocked(&self, x: Double, y: Double) -> (r: bool)
        ensures
            r == self.spec_footprint_blocked(x, y),
    {
        let clearance = true_footprint_clearance_m();
        let mut i: usize = 0;
        while i < self.obstacles.len()
            invariant
                i <= self.obstacles@.len(),
                clearance == spec_true_footprint_clearance_m(),
                forall|j: int| 0 <= j < i ==> !spec_touches(#[trigger] self.obstacles@[j], x, y),
            decreases self.obstacles@.len() - i,
        {
            let o = self.obstacles[i];
            if distance(x, y, o.x, o.y).lt(o.radius.plus(clearance)) {
                assert(spec_touches(self.obstacles@[i as int], x, y));
                return true;
            }
            i = i + 1;
        }
        false
    }
}

/// Inside the zone the physical check decides, and outside the grid is blocked;
/// everywhere else the grid decides.
pub open spec fn spec_pose_blocked(
    grid: &OccupancyGrid,
    escape: Option<&EscapeZone>,
    x: Double,
    y: Double,
) -> bool {
    match escape {
        Some(zone) if zone.contains(x, y) => !grid.in_bounds(x, y) || zone.footprint_blocked(x, y),
        _ => grid.is_occupied(x, y),
    }
}

/// Collision check with the optional escape zone.
#[verifier::when_used_as_spec(spec_pose_blocked)]
pub fn pose_blocked(grid: &OccupancyGrid, escape: Option<&EscapeZone>, x: Double, y: Double) -> (r:
    bool)
    requires
        grid.wf(),
    ensures
        r == spec_pose_blocked(grid, escape, x, y),
{
    if let Some(zone) = escape {
        if zone.contains(x, y) {
            return !grid.in_bounds(x, y) || zone.footprint_blocked(x, y);
        }
    }
    grid.is_occupied(x, y)
}

/// The start is wedged: on an occupied cell, but not in physical contact.
pub open spec fn wedged(
    grid: &OccupancyGrid,
    obstacles: &[PhysicalObstacle],
    x: Double,
    y: Double,
    radius: Double,
) -> bool {
    &&& !radius.le(Double::zero())
    &&& grid.is_occupied(x, y)
    &&& !(EscapeZone { cx: x, cy: y, radius, obstacles }).spec_footprint_blocked(x, y)
}

/// The escape zone of a wedged start. In physical contact there is none: the
/// relaxation never plans from inside an obstacle.
pub fn start_escape_zone<'a>(
    grid: &OccupancyGrid,
    obstacles: &'a [PhysicalObstacle],
    x: Double,
    y: Double,
    radius: Double,
) -> (r: Option<EscapeZone<'a>>)
    requires
        grid.wf(),
    ensures
        r == (if wedged(grid, obstacles, x, y, radius) {
            Some(EscapeZone { cx: x, cy: y, radius, obstacles })
        } else {
            None
        }),
{
    if radius.le(Double::zero()) || !grid.is_occupied(x, y) {
        return None;
    }
    let zone = EscapeZone { cx: x, cy: y, radius, obstacles };
    if zone.footprint_blocked(x, y) {
        return None;
    }
    Some(zone)
}

/// The relaxation never makes a point outside the grid free.
pub proof fn law_outside_is_blocked(
    grid: &OccupancyGrid,
    escape: Option<&EscapeZone>,
    x: Double,
    y: Double,
)
    requires
        !grid.in_bounds(x, y),
    ensures
        pose_blocked(grid, escape, x, y),
{
}

/// The relaxation never lets the robot touch an obstacle inside the zone, and
/// changes nothing outside it.
pub proof fn law_escape_is_local(
    grid: &OccupancyGrid,
    zone: &EscapeZone,
    x: Double,
    y: Double,
)
    ensures
        zone.contains(x, y) && zone.footprint_blocked(x, y) ==> pose_blocked(grid, Some(zone), x, y),
        !zone.contains(x, y) ==> pose_blocked(grid, Some(zone), x, y) == pose_blocked(
            grid,
            None,
            x,
            y,
        ),
{
}

} // verus!
