//! Configuration of the global planner.
use crate::fault::{
    first_fault, lemma_no_fault, nonnegative, report, rule, rule_plain, verdict, ConfigError,
    Quantity,
};
use crate::ieee::double::Double;
use vstd::prelude::*;

verus! {

#[derive(Clone, Copy, Debug)]
pub struct HybridAStarConfig {
    /// Metres per cell of the search grid.
    pub xy_resolution: Double,
    /// Radians per heading bin.
    pub theta_resolution: Double,
    /// m
    pub wheelbase: Double,
    /// rad
    pub max_steering_angle: Double,
    /// Length (m) of a motion primitive.
    pub step_size: Double,
    /// Number of steering samples.
    pub num_steer_angles: usize,
    pub max_iterations: usize,
    /// Cost per metre of travel along the edge of an obstacle; it decays with
    /// the distance from the edge.
    pub clearance_cost_weight: Double,
    /// Distance (m) from occupied cells at which that cost is gone.
    pub clearance_decay_m: Double,
    pub smoothing_enabled: bool,
    /// Gain of the smoothing step; at most one half for stability.
    pub smoothing_alpha: Double,
    /// Gain of the push away from obstacles.
    pub smoothing_clearance_beta: Double,
    pub smoothing_iterations: usize,
    /// A valid path is only replaced by one that is better by this fraction.
    pub path_improvement_threshold: Double,
    /// Paths may also go in reverse. Else the search is forward only, its analytic
    /// connections too, and a cornered robot has no planned way out.
    pub reverse_enabled: bool,
    /// Cost (m) of a change of direction.
    pub direction_switch_penalty: Double,
    /// Cost of a metre in reverse, relative to one forward.
    pub reverse_cost_multiplier: Double,
    /// Near the goal, an analytic connection is tried.
    pub rs_expansion_enabled: bool,
    /// Distance (m) from the goal at which it is tried.
    pub rs_expansion_radius: Double,
    /// Around a start inside the inflated zone of an obstacle, within this
    /// radius (m), collisions are checked against the physical footprint.
    pub start_escape_radius: Double,
}

pub fn default_num_steer() -> (r: usize)
    ensures
        r == 5,
{
    5
}

pub fn default_max_iterations() -> (r: usize)
    ensures
        r == 300_000,
{
    300_000
}

pub fn default_smoothing_enabled() -> (r: bool)
    ensures
        r,
{
    true
}

pub fn default_smoothing_iterations() -> (r: usize)
    ensures
        r == 50,
{
    50
}

pub fn default_reverse_enabled() -> (r: bool)
    ensures
        r,
{
    true
}

pub fn default_rs_expansion_enabled() -> (r: bool)
    ensures
        r,
{
    true
}

impl Default for HybridAStarConfig {
    fn default() -> (r: HybridAStarConfig)
        ensures
            r == (HybridAStarConfig {
                xy_resolution: Double::ratio(1, 10),
                theta_resolution: Double::ratio(1745, 10000),
                wheelbase: Double::ratio(2, 10),
                max_steering_angle: Double::ratio(48, 100),
                step_size: Double::ratio(2, 10),
                num_steer_angles: 5,
                max_iterations: 300_000,
                clearance_cost_weight: Double::of(2),
                clearance_decay_m: Double::half(),
                smoothing_enabled: true,
                smoothing_alpha: Double::ratio(3, 10),
                smoothing_clearance_beta: Double::ratio(2, 10),
                smoothing_iterations: 50,
                path_improvement_threshold: Double::ratio(15, 100),
                reverse_enabled: true,
                direction_switch_penalty: Double::ratio(6, 10),
                reverse_cost_multiplier: Double::of(2),
                rs_expansion_enabled: true,
                rs_expansion_radius: Double::of(2),
                start_escape_radius: Double::ratio(6, 10),
            }),
    {
        HybridAStarConfig {
            xy_resolution: Double::ratio(1, 10),
            theta_resolution: Double::ratio(1745, 10000),
            wheelbase: Double::ratio(2, 10),
            max_steering_angle: Double::ratio(48, 100),
            step_size: Double::ratio(2, 10),
            num_steer_angles: default_num_steer(),
            max_iterations: default_max_iterations(),
            clearance_cost_weight: Double::of(2),
            clearance_decay_m: Double::half(),
            smoothing_enabled: default_smoothing_enabled(),
            smoothing_alpha: Double::ratio(3, 10),
            smoothing_clearance_beta: Double::ratio(2, 10),
            smoothing_iterations: default_smoothing_iterations(),
            path_improvement_threshold: Double::ratio(15, 100),
            reverse_enabled: default_reverse_enabled(),
            direction_switch_penalty: Double::ratio(6, 10),
            reverse_cost_multiplier: Double::of(2),
            rs_expansion_enabled: default_rs_expansion_enabled(),
            rs_expansion_radius: Double::of(2),
            start_escape_radius: Double::ratio(6, 10),
        }
    }
}

impl HybridAStarConfig {
    /// Costs, gains and radii are finite and not negative, the smoothing gain
    /// is at most one half, reverse is no cheaper than forward, and the
    /// improvement threshold is a proper fraction.
    pub open spec fn valid(self) -> bool {
        &&& self.clearance_cost_weight.nonnegative()
        &&& self.clearance_decay_m.nonnegative()
        &&& self.smoothing_alpha.nonnegative()
        &&& self.smoothing_alpha.le(Double::half())
        &&& self.smoothing_clearance_beta.nonnegative()
        &&& self.smoothing_enabled ==> self.smoothing_iterations >= 1
        &&& self.direction_switch_penalty.nonnegative()
        &&& self.reverse_cost_multiplier.finite()
        &&& Double::one().le(self.reverse_cost_multiplier)
        &&& self.rs_expansion_radius.nonnegative()
        &&& self.start_escape_radius.nonnegative()
        &&& self.path_improvement_threshold.nonnegative()
        &&& self.path_improvement_threshold.lt(Double::one())
    }

    pub open spec fn checks(self) -> Seq<Option<ConfigError>> {
        seq![
            nonnegative(
                self.clearance_cost_weight,
                "global_planner.clearance_cost_weight must be finite and >= 0 (got {})",
            ),
            nonnegative(
                self.clearance_decay_m,
                "global_planner.clearance_decay_m must be finite and >= 0 (got {})",
            ),
            rule(
                self.smoothing_alpha.nonnegative() && self.smoothing_alpha.le(Double::half()),
                "global_planner.smoothing_alpha must be in [0, 0.5] (got {})",
                Quantity::Wide(self.smoothing_alpha),
            ),
            nonnegative(
                self.smoothing_clearance_beta,
                "global_planner.smoothing_clearance_beta must be finite and >= 0 (got {})",
            ),
            rule_plain(
                !(self.smoothing_enabled && self.smoothing_iterations == 0),
                "global_planner.smoothing_iterations must be >= 1 when smoothing is enabled",
            ),
            nonnegative(
                self.direction_switch_penalty,
                "global_planner.direction_switch_penalty must be finite and >= 0 (got {})",
            ),
            rule(
                self.reverse_cost_multiplier.is_finite() && Double::one().le(
                    self.reverse_cost_multiplier,
                ),
                "global_planner.reverse_cost_multiplier must be finite and >= 1 (got {})",
                Quantity::Wide(self.reverse_cost_multiplier),
            ),
            nonnegative(
                self.rs_expansion_radius,
                "global_planner.rs_expansion_radius must be finite and >= 0 (got {})",
            ),
            nonnegative(
                self.start_escape_radius,
                "global_planner.start_escape_radius must be finite and >= 0 (got {})",
            ),
            rule(
                self.path_improvement_threshold.nonnegative()
                    && self.path_improvement_threshold.lt(Double::one()),
                "global_planner.path_improvement_threshold must be in [0, 1) (got {})",
                Quantity::Wide(self.path_improvement_threshold),
            ),
        ]
    }

    /// Refuses values that would turn a cost into a reward or freeze a path.
    pub fn validate(&self) -> (r: Result<(), ConfigError>)
        ensures
            r is Ok <==> self.valid(),
            r == verdict(first_fault(self.checks())),
    {
        let checks = vec![
            nonnegative(
                self.clearance_cost_weight,
                "global_planner.clearance_cost_weight must be finite and >= 0 (got {})",
            ),
            nonnegative(
                self.clearance_decay_m,
                "global_planner.clearance_decay_m must be finite and >= 0 (got {})",
            ),
            rule(
                self.smoothing_alpha.nonnegative() && self.smoothing_alpha.le(Double::half()),
                "global_planner.smoothing_alpha must be in [0, 0.5] (got {})",
                Quantity::Wide(self.smoothing_alpha),
            ),
            nonnegative(
                self.smoothing_clearance_beta,
                "global_planner.smoothing_clearance_beta must be finite and >= 0 (got {})",
            ),
            rule_plain(
                !(self.smoothing_enabled && self.smoothing_iterations == 0),
                "global_planner.smoothing_iterations must be >= 1 when smoothing is enabled",
            ),
            nonnegative(
                self.direction_switch_penalty,
                "global_planner.direction_switch_penalty must be finite and >= 0 (got {})",
            ),
            rule(
                self.reverse_cost_multiplier.is_finite() && Double::one().le(
                    self.reverse_cost_multiplier,
                ),
                "global_planner.reverse_cost_multiplier must be finite and >= 1 (got {})",
                Quantity::Wide(self.reverse_cost_multiplier),
            ),
            nonnegative(
                self.rs_expansion_radius,
                "global_planner.rs_expansion_radius must be finite and >= 0 (got {})",
            ),
            nonnegative(
                self.start_escape_radius,
                "global_planner.start_escape_radius must be finite and >= 0 (got {})",
            ),
            rule(
                self.path_improvement_threshold.nonnegative()
                    && self.path_improvement_threshold.lt(Double::one()),
                "global_planner.path_improvement_threshold must be in [0, 1) (got {})",
                Quantity::Wide(self.path_improvement_threshold),
            ),
        ];
        proof {
            let c = self.checks();
            assert(checks@ == c);
            lemma_no_fault(c);
            assert(c[0] is None && c[1] is None && c[2] is None && c[3] is None && c[4] is None
                && c[5] is None && c[6] is None && c[7] is None && c[8] is None && c[9] is None
                <==> self.valid());
        }
        report(checks)
    }
}

} // verus!
