//! End-to-end inference: the slot that a driving model will fill. No model is
//! loaded yet, so inference never produces a command.
use crate::ieee::double::Double;
use crate::ieee::single::Single;
use crate::local_planner::VelocityCommand;
use vstd::prelude::*;

verus! {

#[derive(Clone, Debug)]
pub struct E2EConfig {
    pub enabled: bool,
    pub model_path: String,
    pub rate_hz: u32,
    pub confidence_threshold: Single,
}

pub fn default_enabled() -> (r: bool)
    ensures
        !r,
{
    false
}

pub fn default_model_path() -> (r: String)
    ensures
        r@ == "models/e2e_driving.onnx"@,
{
    "models/e2e_driving.onnx".to_owned()
}

pub fn default_rate_hz() -> (r: u32)
    ensures
        r == 15,
{
    15
}

pub fn default_confidence_threshold() -> (r: Single)
    ensures
        r == Double::ratio(7, 10).narrow(),
{
    Double::ratio(7, 10).narrow()
}

impl Default for E2EConfig {
    fn default() -> (r: E2EConfig)
        ensures
            !r.enabled,
            r.model_path@ == "models/e2e_driving.onnx"@,
            r.rate_hz == 15,
            r.confidence_threshold == Double::ratio(7, 10).narrow(),
    {
        E2EConfig {
            enabled: default_enabled(),
            model_path: default_model_path(),
            rate_hz: default_rate_hz(),
            confidence_threshold: default_confidence_threshold(),
        }
    }
}

/// The inference engine.
pub struct E2EInference {
    pub config: E2EConfig,
}

impl E2EInference {
    pub fn new(config: E2EConfig) -> (r: E2EInference)
        ensures
            r.config == config,
    {
        E2EInference { config }
    }

    pub fn is_enabled(&self) -> (r: bool)
        ensures
            r == self.config.enabled,
    {
        self.config.enabled
    }

    /// Inference on raw sensor data: `None`, disabled or not, as long as no
    /// model is loaded.
    pub fn infer(&self, _sensor_data: &[u8]) -> (r: Option<VelocityCommand>)
        ensures
            r is None,
    {
        None
    }
}

} // verus!
