//! Calls an HTTP endpoint; the step's command is the URL.
use crate::models::{PipelineStep, StepResult, TaskStatus};
use crate::text::{count_lines, lines};
use vstd::prelude::*;

verus! {

/// Posts to the step's URL.
#[derive(Debug)]
pub struct ApiExecutor;

impl ApiExecutor {
    pub fn new() -> Self {
        ApiExecutor
    }

    /// The result of a call whose response body was `body`.
    pub fn response_result(
        &self,
        step: &PipelineStep,
        body: &str,
        started_at: String,
        completed_at: String,
    ) -> (r: StepResult)
        ensures
            r.step_id@ == step.step_id@,
            r.status == TaskStatus::Success,
            r.started_at == Some(started_at),
            r.completed_at == Some(completed_at),
            r.exit_code == Some(0i32),
            r.signal is None,
            r.log_path is None,
            r.log_url is None,
            r.stdout_lines == Some(lines(body@).len() as u64),
            r.stderr_lines is None,
            r.artifact_urls@.len() == 0,
            r.retry_count == 0,
            r.error is None,
            r.reason is None,
    {
        StepResult {
            step_id: step.step_id.clone(),
            status: TaskStatus::Success,
            started_at: Some(started_at),
            completed_at: Some(completed_at),
            exit_code: Some(0),
            signal: None,
            log_path: None,
            log_url: None,
            stdout_lines: Some(count_lines(body)),
            stderr_lines: None,
            artifact_urls: Vec::new(),
            retry_count: 0,
            error: None,
            reason: None,
        }
    }
}

impl Default for ApiExecutor {
    fn default() -> Self {
        ApiExecutor::new()
    }
}

} // verus!
