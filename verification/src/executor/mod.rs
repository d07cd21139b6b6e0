//! Executors of the four step kinds. Starting processes and sending
//! requests is the caller's work; the library parses command lines and
//! turns what came back into step results.
pub mod api;
pub mod binary;
pub mod python;
pub mod shell;

pub use api::ApiExecutor;
pub use binary::BinaryExecutor;
pub use python::PythonExecutor;
pub use shell::ShellExecutor;

use crate::models::{PipelineStep, StepType};
use vstd::prelude::*;

verus! {

/// One executor of each kind.
pub enum ExecutorType {
    Python(PythonExecutor),
    Binary(BinaryExecutor),
    Shell(ShellExecutor),
    Api(ApiExecutor),
}

/// The executor for a step's type.
pub fn executor_for(step: &PipelineStep) -> (e: ExecutorType)
    ensures
        match step.step_type {
            StepType::Python => e is Python,
            StepType::Binary => e is Binary,
            StepType::Shell => e is Shell,
            StepType::Api => e is Api,
        },
{
    match step.step_type {
        StepType::Python => ExecutorType::Python(PythonExecutor::new()),
        StepType::Binary => ExecutorType::Binary(BinaryExecutor::new()),
        StepType::Shell => ExecutorType::Shell(ShellExecutor::new()),
        StepType::Api => ExecutorType::Api(ApiExecutor::new()),
    }
}

} // verus!
