//! The parts of a heartbeat that do not depend on the moment it is sent.
use crate::models::{Capabilities, RunnerStatus, StepType};
use vstd::prelude::*;

verus! {

/// What this runner can do: all four step kinds, no out-of-band capture,
/// no GPU.
pub fn runner_capabilities() -> (c: Capabilities)
    ensures
        c.supported_step_types@ == seq![StepType::Python, StepType::Binary, StepType::Shell, StepType::Api],
        !c.has_oob_capture,
        !c.has_gpu,
        c.gpu_model is None,
        c.oob_methods@.len() == 0,
{
    let mut types: Vec<StepType> = Vec::new();
    types.push(StepType::Python);
    types.push(StepType::Binary);
    types.push(StepType::Shell);
    types.push(StepType::Api);
    assert(types@ =~= seq![StepType::Python, StepType::Binary, StepType::Shell, StepType::Api]);
    Capabilities {
        supported_step_types: types,
        has_oob_capture: false,
        has_gpu: false,
        gpu_model: None,
        oob_methods: Vec::new(),
    }
}

/// Status reported by a heartbeat sent between tasks.
pub fn heartbeat_status() -> (s: RunnerStatus)
    ensures
        s == RunnerStatus::Idle,
{
    RunnerStatus::Idle
}

} // verus!
