//! Configuration of the planning process as a whole.
use crate::arbitrator::ArbitratorConfig;
use crate::behavior::BehaviorConfig;
use crate::e2e::E2EConfig;
use crate::fault::{
    first_fault, lemma_no_fault, positive, report, rule_pair, rule_plain, verdict, ConfigError,
    Quantity,
};
use crate::global_planner::HybridAStarConfig;
use crate::ieee::double::Double;
use crate::local_planner::LocalPlannerConfig;
use vstd::prelude::*;

verus! {

/// Prior node-link roadmap layer for global routing.
#[derive(Clone, Debug)]
pub struct RoadmapConfig {
    pub enabled: bool,
    /// Roadmap file, relative to the working directory.
    pub file: String,
    /// A reported link block expires after this many seconds.
    pub blocked_link_timeout_s: Double,
    /// No progress toward the leg goal for this long marks its link blocked.
    pub link_block_after_s: Double,
    /// A leg goal is kept until the robot is this close to it.
    pub leg_min_m: Double,
    /// A new leg goal is placed this far ahead along the route.
    pub leg_max_m: Double,
    /// Lateral deviation from the route that forces a reroute.
    pub deviation_m: Double,
}

pub fn default_roadmap_file() -> (r: String)
    ensures
        r@ == "config/maps/obstacle_gauntlet_roadmap.yaml"@,
{
    "config/maps/obstacle_gauntlet_roadmap.yaml".to_owned()
}

impl Default for RoadmapConfig {
    fn default() -> (r: RoadmapConfig)
        ensures
            !r.enabled,
            r.file@ == "config/maps/obstacle_gauntlet_roadmap.yaml"@,
            r.blocked_link_timeout_s == Double::of(20),
            r.link_block_after_s == Double::of(10),
            r.leg_min_m == Double::of(2),
            r.leg_max_m == Double::of(4),
            r.deviation_m == Double::ratio(3, 2),
    {
        RoadmapConfig {
            enabled: false,
            file: default_roadmap_file(),
            blocked_link_timeout_s: Double::of(20),
            link_block_after_s: Double::of(10),
            leg_min_m: Double::of(2),
            leg_max_m: Double::of(4),
            deviation_m: Double::ratio(3, 2),
        }
    }
}

impl RoadmapConfig {
    /// Timings and lengths are positive, the leg window is not empty, and an
    /// enabled roadmap names its file.
    pub open spec fn valid(self) -> bool {
        &&& self.blocked_link_timeout_s.positive()
        &&& self.link_block_after_s.positive()
        &&& self.leg_min_m.positive()
        &&& self.leg_max_m.positive()
        &&& self.deviation_m.positive()
        &&& self.leg_min_m.lt(self.leg_max_m)
        &&& self.enabled ==> self.file@.len() > 0
    }

    pub open spec fn checks(self) -> Seq<Option<ConfigError>> {
        seq![
            positive(
                self.blocked_link_timeout_s,
                "roadmap.blocked_link_timeout_s must be positive, got {}",
            ),
            positive(
                self.link_block_after_s,
                "roadmap.link_block_after_s must be positive, got {}",
            ),
            positive(
                self.leg_min_m,
                "roadmap.leg_min_m must be positive, got {}",
            ),
            positive(
                self.leg_max_m,
                "roadmap.leg_max_m must be positive, got {}",
            ),
            positive(
                self.deviation_m,
                "roadmap.deviation_m must be positive, got {}",
            ),
            rule_pair(
                !self.leg_max_m.le(self.leg_min_m),
                "roadmap.leg_min_m ({}) must be < roadmap.leg_max_m ({})",
                Quantity::Wide(self.leg_min_m),
                Quantity::Wide(self.leg_max_m),
            ),
            rule_plain(
                !(self.enabled && self.file@.len() == 0),
                "roadmap.file must be set when roadmap.enabled",
            ),
        ]
    }

    /// Refuses timings that would block every link at once or never expire a
    /// block, and a leg window that would pin the route goal onto the robot.
    pub fn validate(&self) -> (r: Result<(), ConfigError>)
        ensures
            r is Ok <==> self.valid(),
            r == verdict(first_fault(self.checks())),
    {
        let checks = vec![
            positive(
                self.blocked_link_timeout_s,
                "roadmap.blocked_link_timeout_s must be positive, got {}",
            ),
            positive(
                self.link_block_after_s,
                "roadmap.link_block_after_s must be positive, got {}",
            ),
            positive(
                self.leg_min_m,
                "roadmap.leg_min_m must be positive, got {}",
            ),
            positive(
                self.leg_max_m,
                "roadmap.leg_max_m must be positive, got {}",
            ),
            positive(
                self.deviation_m,
                "roadmap.deviation_m must be positive, got {}",
            ),
            rule_pair(
                !self.leg_max_m.le(self.leg_min_m),
                "roadmap.leg_min_m ({}) must be < roadmap.leg_max_m ({})",
                Quantity::Wide(self.leg_min_m),
                Quantity::Wide(self.leg_max_m),
            ),
            rule_plain(
                !(self.enabled && self.file.as_str().unicode_len() == 0),
                "roadmap.file must be set when roadmap.enabled",
            ),
        ];
        proof {
            let c = self.checks();
            assert(checks@ == c);
            lemma_no_fault(c);
            assert(c[0] is None && c[1] is None && c[2] is None && c[3] is None && c[4] is None
                && c[5] is None && c[6] is None <==> self.valid());
        }
        report(checks)
    }
}

/// Input-staleness thresholds that drive the software emergency stop.
#[derive(Clone, Copy, Debug)]
pub struct FaultToleranceConfig {
    /// A world state older than this (ms) means that planning is blind.
    pub world_state_stale_ms: u64,
    /// A vehicle state older than this (ms) is worth a warning.
    pub vehicle_state_stale_ms: u64,
}

pub fn default_world_state_stale_ms() -> (r: u64)
    ensures
        r == 300,
{
    300
}

pub fn default_vehicle_state_stale_ms() -> (r: u64)
    ensures
        r == 500,
{
    500
}

impl Default for FaultToleranceConfig {
    fn default() -> (r: FaultToleranceConfig)
        ensures
            r.world_state_stale_ms == 300,
            r.vehicle_state_stale_ms == 500,
    {
        FaultToleranceConfig {
            world_state_stale_ms: default_world_state_stale_ms(),
            vehicle_state_stale_ms: default_vehicle_state_stale_ms(),
        }
    }
}

impl FaultToleranceConfig {
    /// A zero threshold would declare every cycle stale and latch the
    /// emergency stop for good; it is refused.
    pub fn validate(&self) -> (r: Result<(), String>)
        ensures
            r is Ok <==> self.world_state_stale_ms > 0 && self.vehicle_state_stale_ms > 0,
            match r {
                Ok(_) => true,
                Err(e) => e@ == (if self.world_state_stale_ms == 0 {
                    "fault_tolerance.world_state_stale_ms must be > 0"@
                } else {
                    "fault_tolerance.vehicle_state_stale_ms must be > 0"@
                }),
            },
    {
        if self.world_state_stale_ms == 0 {
            return Err("fault_tolerance.world_state_stale_ms must be > 0".to_owned());
        }
        if self.vehicle_state_stale_ms == 0 {
            return Err("fault_tolerance.vehicle_state_stale_ms must be > 0".to_owned());
        }
        Ok(())
    }
}

/// Endpoints of the three channels.
#[derive(Clone, Debug)]
pub struct TransportConfig {
    /// World states are read here.
    pub ch1_endpoint: String,
    /// Control commands are published here.
    pub ch2_endpoint: String,
    /// Vehicle states are read here.
    pub ch3_endpoint: String,
}

pub fn default_ch1_endpoint() -> (r: String)
    ensures
        r@ == "tcp://localhost:5551"@,
{
    "tcp://localhost:5551".to_owned()
}

pub fn default_ch2_endpoint() -> (r: String)
    ensures
        r@ == "tcp://*:5552"@,
{
    "tcp://*:5552".to_owned()
}

pub fn default_ch3_endpoint() -> (r: String)
    ensures
        r@ == "tcp://localhost:5553"@,
{
    "tcp://localhost:5553".to_owned()
}

impl Default for TransportConfig {
    fn default() -> (r: TransportConfig)
        ensures
            r.ch1_endpoint@ == "tcp://localhost:5551"@,
            r.ch2_endpoint@ == "tcp://*:5552"@,
            r.ch3_endpoint@ == "tcp://localhost:5553"@,
    {
        TransportConfig {
            ch1_endpoint: default_ch1_endpoint(),
            ch2_endpoint: default_ch2_endpoint(),
            ch3_endpoint: default_ch3_endpoint(),
        }
    }
}

/// Configuration of all parts.
#[derive(Clone, Debug)]
pub struct PlanningConfig {
    pub behavior: BehaviorConfig,
    pub global_planner: HybridAStarConfig,
    pub local_planner: LocalPlannerConfig,
    pub arbitrator: ArbitratorConfig,
    pub e2e: E2EConfig,
    pub transport: TransportConfig,
    pub fault_tolerance: FaultToleranceConfig,
    pub roadmap: RoadmapConfig,
}

impl Default for PlanningConfig {
    fn default() -> (r: PlanningConfig)
        ensures
            call_ensures(BehaviorConfig::default, (), r.behavior),
            call_ensures(HybridAStarConfig::default, (), r.global_planner),
            r.local_planner == LocalPlannerConfig::standard(),
            call_ensures(ArbitratorConfig::default, (), r.arbitrator),
            call_ensures(E2EConfig::default, (), r.e2e),
            call_ensures(TransportConfig::default, (), r.transport),
            call_ensures(FaultToleranceConfig::default, (), r.fault_tolerance),
            call_ensures(RoadmapConfig::default, (), r.roadmap),
    {
        PlanningConfig {
            behavior: BehaviorConfig::default(),
            global_planner: HybridAStarConfig::default(),
            local_planner: LocalPlannerConfig::default(),
            arbitrator: ArbitratorConfig::default(),
            e2e: E2EConfig::default(),
            transport: TransportConfig::default(),
            fault_tolerance: FaultToleranceConfig::default(),
            roadmap: RoadmapConfig::default(),
        }
    }
}

} // verus!
