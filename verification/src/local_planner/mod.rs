//! Local planning: from a path and obstacles to the next velocity command.
pub mod arc;
pub mod candidate_laws;
pub mod config;
pub mod driving_laws;
pub mod dwa;
pub mod laws;
pub mod motion;
pub mod mpc;
pub mod mpc_laws;
pub mod obstacle;
pub mod obstacle_laws;
pub mod plane_laws;
pub mod planner;
pub mod planner_laws;
pub mod pursuit;
pub mod pursuit_laws;
pub mod reverse;
pub mod run;
pub mod scoring;
pub mod speed_laws;
pub mod standstill;
pub mod steering_laws;
pub mod tracking_laws;
pub mod tracking_mpc;
pub mod window_laws;

pub use self::config::LocalPlannerConfig;
pub use self::motion::{project_state, RobotState, TrajPoint};
pub use self::obstacle::Obstacle;
pub use self::planner::{Executor, LocalPlan, LocalPlanner};
pub use self::pursuit::PursuitDefer;
pub use self::reverse::{
    plan_reverse_escape, rear_corridor_clear, reverse_arc_blocker, RearBlocker,
};
pub use self::run::active_run_truncation_index;

use crate::ieee::double::Double;
use crate::ieee::single::Single;
use vstd::prelude::*;

verus! {

/// A velocity command with the planner's confidence in it.
#[derive(Clone, Copy, Debug)]
pub struct VelocityCommand {
    /// Forward speed (m/s).
    pub linear_x: Double,
    /// Yaw rate (rad/s).
    pub angular_z: Double,
    /// Confidence in `[0, 1]`.
    pub confidence: Single,
}

impl Default for VelocityCommand {
    fn default() -> (r: VelocityCommand)
        ensures
            r == VelocityCommand::spec_still(Single { bits: 0 }),
    {
        VelocityCommand::still(Single { bits: 0 })
    }
}

impl VelocityCommand {
    pub open spec fn spec_still(confidence: Single) -> VelocityCommand {
        VelocityCommand { linear_x: Double::zero(), angular_z: Double::zero(), confidence }
    }

    /// The command to stand still.
    #[verifier::when_used_as_spec(spec_still)]
    pub fn still(confidence: Single) -> (r: VelocityCommand)
        ensures
            r == VelocityCommand::spec_still(confidence),
    {
        VelocityCommand { linear_x: Double::zero(), angular_z: Double::zero(), confidence }
    }
}

} // verus!
