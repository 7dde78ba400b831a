//! Configuration of the local planner.
use crate::fault::{
    first_fault, lemma_first_fault_joined, lemma_no_fault, positive, report, rule, rule_pair,
    verdict, ConfigError, Quantity,
};
use crate::ieee::double::Double;
use crate::local_planner::dwa::DwaConfig;
use crate::local_planner::mpc::MpcConfig;
use crate::local_planner::pursuit::PursuitConfig;
use crate::local_planner::tracking_mpc::TrackingMpcConfig;
use vstd::prelude::*;

verus! {

#[derive(Clone, Copy, Debug)]
pub struct LocalPlannerConfig {
    pub rate_hz: u32,
    pub dwa: DwaConfig,
    pub mpc: MpcConfig,
    pub pursuit: PursuitConfig,
    pub tracking_mpc: TrackingMpcConfig,
    /// Curvature (1/m) of the path above which the optimiser takes over.
    pub mpc_trigger_curvature: Double,
    /// Seconds from the pose that the planner sees to the moment at which its
    /// command takes hold. The state is projected by as much; 0 for not.
    pub actuation_delay_s: Double,
}

pub fn default_rate_hz() -> (r: u32)
    ensures
        r == 10,
{
    10
}

impl Default for LocalPlannerConfig {
    fn default() -> (r: LocalPlannerConfig)
        ensures
            r == LocalPlannerConfig::standard(),
    {
        LocalPlannerConfig {
            rate_hz: default_rate_hz(),
            dwa: DwaConfig::default(),
            mpc: MpcConfig::default(),
            pursuit: PursuitConfig::default(),
            tracking_mpc: TrackingMpcConfig::default(),
            mpc_trigger_curvature: Double::ratio(22, 10),
            actuation_delay_s: Double::ratio(2, 10),
        }
    }
}

impl LocalPlannerConfig {
    /// The configuration where nothing else is given.
    pub open spec fn standard() -> LocalPlannerConfig {
        LocalPlannerConfig {
            rate_hz: 10,
            dwa: DwaConfig::standard(),
            mpc: MpcConfig::standard(),
            pursuit: PursuitConfig::standard(),
            tracking_mpc: TrackingMpcConfig::standard(),
            mpc_trigger_curvature: Double::ratio(22, 10),
            actuation_delay_s: Double::ratio(2, 10),
        }
    }

    /// The parts are valid, there is a wheelbase, the speed that bends are
    /// taken at is within the limit, and the delay is at most a second.
    pub open spec fn valid(self) -> bool {
        &&& self.dwa.valid()
        &&& self.pursuit.valid()
        &&& self.tracking_mpc.valid()
        &&& self.mpc.wheelbase.positive()
        &&& self.pursuit.v_turn_min.le(self.dwa.max_speed)
        &&& Double::zero().le(self.actuation_delay_s)
        &&& self.actuation_delay_s.le(Double::one())
    }

    /// The checks that concern no part alone.
    pub open spec fn own_checks(self) -> Seq<Option<ConfigError>> {
        seq![
            positive(
                self.mpc.wheelbase,
                "mpc.wheelbase must be > 0 (pursuit curvature profile depends on it), got {}",
            ),
            rule_pair(
                !self.dwa.max_speed.lt(self.pursuit.v_turn_min),
                "pursuit.v_turn_min ({}) must be <= dwa.max_speed ({})",
                Quantity::Wide(self.pursuit.v_turn_min),
                Quantity::Wide(self.dwa.max_speed),
            ),
            rule(
                Double::zero().le(self.actuation_delay_s) && self.actuation_delay_s.le(
                    Double::one(),
                ),
                "actuation_delay_s must be in [0, 1], got {}",
                Quantity::Wide(self.actuation_delay_s),
            ),
        ]
    }

    pub open spec fn checks(self) -> Seq<Option<ConfigError>> {
        self.dwa.checks() + self.pursuit.checks() + self.tracking_mpc.checks() + self.own_checks()
    }

    /// Refuses values that would break the planner or do not go together.
    pub fn validate(&self) -> (r: Result<(), ConfigError>)
        ensures
            r is Ok <==> self.valid(),
            r == verdict(first_fault(self.checks())),
    {
        proof {
            let (a, b, c) = (self.dwa.checks(), self.pursuit.checks(), self.tracking_mpc.checks());
            lemma_first_fault_joined(a, b);
            lemma_first_fault_joined(a + b, c);
            lemma_first_fault_joined(a + b + c, self.own_checks());
        }
        self.dwa.validate()?;
        self.pursuit.validate()?;
        self.tracking_mpc.validate()?;
        let checks = vec![
            positive(
                self.mpc.wheelbase,
                "mpc.wheelbase must be > 0 (pursuit curvature profile depends on it), got {}",
            ),
            rule_pair(
                !self.dwa.max_speed.lt(self.pursuit.v_turn_min),
                "pursuit.v_turn_min ({}) must be <= dwa.max_speed ({})",
                Quantity::Wide(self.pursuit.v_turn_min),
                Quantity::Wide(self.dwa.max_speed),
            ),
            rule(
                Double::zero().le(self.actuation_delay_s) && self.actuation_delay_s.le(
                    Double::one(),
                ),
                "actuation_delay_s must be in [0, 1], got {}",
                Quantity::Wide(self.actuation_delay_s),
            ),
        ];
        proof {
            let c = self.own_checks();
            assert(checks@ == c);
            lemma_no_fault(c);
            assert(c[0] is None && c[1] is None && c[2] is None <==> self.valid());
        }
        report(checks)
    }

    /// What the planner needs in order to work: limits that are limits, bounds
    /// in order, a wheelbase, and steps to predict. The optimiser has needs of its
    /// own.
    pub open spec fn operable(self) -> bool {
        &&& self.dwa.limits()
        &&& Double::zero().le(self.dwa.max_curvature)
        &&& self.pursuit.lookahead_min.le(self.pursuit.lookahead_max)
        &&& self.tracking_mpc.horizon_steps >= 1
        &&& Double::zero().lt(self.mpc.wheelbase)
    }
}

/// A valid configuration is one that the planner can work with.
pub proof fn law_valid_is_operable(c: LocalPlannerConfig)
    requires
        c.valid(),
    ensures
        c.operable(),
{
}

} // verus!
