//! Runs the step's command as a Python script.
use crate::executor::binary::{exit_status, process_result};
use crate::models::{PipelineStep, StepResult};
use crate::text::{append_str, lines};
use vstd::prelude::*;

verus! {

/// Runs steps with the Python interpreter.
#[derive(Debug)]
pub struct PythonExecutor;

impl PythonExecutor {
    pub fn new() -> Self {
        PythonExecutor
    }

    /// The interpreter the step is run with.
    pub fn interpreter(&self) -> (s: String)
        ensures
            s@ == "python"@,
    {
        let mut s = String::new();
        append_str(&mut s, "python");
        s
    }

    /// The result of a script that exited with `exit_code` after printing `stdout`.
    pub fn completed_result(
        &self,
        step: &PipelineStep,
        exit_code: Option<i32>,
        stdout: &str,
        started_at: String,
        completed_at: String,
    ) -> (r: StepResult)
        ensures
            r.step_id@ == step.step_id@,
            r.status == exit_status(exit_code),
            r.started_at == Some(started_at),
            r.completed_at == Some(completed_at),
            r.exit_code == exit_code,
            r.signal is None,
            r.log_path is None,
            r.log_url is None,
            r.stdout_lines == Some(lines(stdout@).len() as u64),
            r.stderr_lines is None,
            r.artifact_urls@.len() == 0,
            r.retry_count == 0,
            r.error is None,
            r.reason is None,
    {
        process_result(step, exit_code, stdout, started_at, completed_at)
    }
}

impl Default for PythonExecutor {
    fn default() -> Self {
        PythonExecutor::new()
    }
}

} // verus!
