//! Global planning: a search over poses with motion primitives that the
//! vehicle can drive, its smoothing, and the upkeep of the path it found.
pub mod clearance;
pub mod clearance_laws;
pub mod config;
pub mod escape;
pub mod frame_laws;
pub mod grid;
pub mod heading_laws;
pub mod laws;
pub mod open_list;
pub mod path;
pub mod place_laws;
pub mod reeds_shepp;
pub mod reeds_shepp_laws;
pub mod search;
pub mod search_laws;
pub mod smoother;
pub mod smoother_laws;
pub mod smoothing_laws;
pub mod word_laws;

pub use self::clearance::ClearanceField;
pub use self::config::HybridAStarConfig;
pub use self::escape::{pose_blocked, start_escape_zone, EscapeZone, PhysicalObstacle};
pub use self::grid::OccupancyGrid;
pub use self::path::{
    nearest_waypoint_index, path_cost, path_remains_valid, path_remains_valid_with_escape,
    CostPenalties,
};
pub use self::search::{HybridAStar, PlanStats};

use crate::ieee::double::Double;
use vstd::prelude::*;

verus! {

/// A pose.
#[derive(Clone, Copy, Debug)]
pub struct Pose {
    pub x: Double,
    pub y: Double,
    pub theta: Double,
}

/// Direction of travel on a path segment. A change between consecutive
/// waypoints is a cusp, at which the robot has to stop.
#[derive(Clone, Copy, Debug, PartialEq, Eq, Structural)]
pub enum SegmentDir {
    Forward,
    Reverse,
}

impl Default for SegmentDir {
    fn default() -> (r: SegmentDir)
        ensures
            r == SegmentDir::Forward,
    {
        SegmentDir::Forward
    }
}

impl SegmentDir {
    pub open spec fn spec_sign(self) -> Double {
        match self {
            SegmentDir::Forward => Double::one(),
            SegmentDir::Reverse => Double::one().negate(),
        }
    }

    /// Sign of the speed: one forward, minus one in reverse.
    #[verifier::when_used_as_spec(spec_sign)]
    pub fn sign(self) -> (r: Double)
        ensures
            r == self.spec_sign(),
    {
        match self {
            SegmentDir::Forward => Double::one(),
            SegmentDir::Reverse => Double::one().negate(),
        }
    }
}

/// A waypoint of a path.
#[derive(Clone, Copy, Debug)]
pub struct PathWaypoint {
    pub x: Double,
    pub y: Double,
    pub theta: Double,
    /// Steering angle with which the waypoint is reached.
    pub steering: Double,
    /// Direction in which the waypoint is reached. The first waypoint of a path
    /// carries the direction of its first segment.
    pub dir: SegmentDir,
}

} // verus!
