//! The figures that the planners work with: lengths in metres, times in seconds, speeds in
//! metres per second.
use crate::behavior::{
    episode_clear_time, exit_distance, forward_retry_time, recovery_crawl_speed,
    stationary_speed,
};
use crate::global_planner::path::path_sample_step_m;
use crate::global_planner::search::heading_weight;
use crate::global_planner::smoother::resample_spacing_m;
use crate::ieee::double::Double;
use crate::local_planner::arc::{
    at_rest, check_spacing, cycle, reaction_distance, slowest, COMMIT_CYCLES,
};
use crate::local_planner::dwa::robot_footprint_radius;
use crate::local_planner::motion::straight_rate;
use crate::local_planner::obstacle::prediction_uncertainty;
use crate::local_planner::pursuit::cusp_stop_speed;
use crate::local_planner::reverse::{frontal_range, sweep_step};
use crate::local_planner::run::cusp_arrival;
use vstd::prelude::*;

verus! {

/// A recovery crawls at a tenth, retries for three seconds, is left after three tenths,
/// and its episode is forgotten after five seconds; below a twentieth the robot stands.
pub proof fn law_figures_of_recovery()
    ensures
        recovery_crawl_speed() == Double::ratio(1, 10),
        stationary_speed() == Double::ratio(5, 100),
        forward_retry_time() == Double::of(3),
        exit_distance() == Double::ratio(3, 10),
        episode_clear_time() == Double::of(5),
{
}

/// Commands come every tenth of a second and are held for four of them. The robot reacts
/// over fifteen hundredths, is checked every twentieth, counts as round with nineteen
/// hundredths, and arrives at a change of direction within twelve hundredths.
pub proof fn law_figures_of_motion()
    ensures
        cycle() == Double::ratio(1, 10),
        COMMIT_CYCLES == 4,
        reaction_distance() == Double::ratio(15, 100),
        slowest() == Double::ratio(5, 100),
        at_rest() == Double::ratio(1, 1_000_000_000),
        check_spacing().bits == 0x3fa9_9999_9999_999a,
        prediction_uncertainty().bits == 0x3fd9_9999_9999_999a,
        robot_footprint_radius() == Double::ratio(19, 100),
        straight_rate() == Double::ratio(1, 1_000_000),
        cusp_stop_speed() == Double::ratio(5, 100),
        cusp_arrival() == Double::ratio(12, 100),
        sweep_step() == Double::ratio(2, 100),
        frontal_range() == Double::one(),
{
}

/// Paths are sampled every twentieth and laid anew every fifteen hundredths; a radian off
/// the goal's heading counts as three tenths.
pub proof fn law_figures_of_paths()
    ensures
        path_sample_step_m() == Double::ratio(5, 100),
        resample_spacing_m() == Double::ratio(15, 100),
        heading_weight().bits == 0x3fd3_3333_3333_3333,
{
}

} // verus!
