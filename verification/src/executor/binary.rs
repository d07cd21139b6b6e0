//! Runs a binary directly, without a shell.
use crate::models::{PipelineStep, StepResult, TaskStatus};
use crate::system::{split_words, words};
use crate::text::{chars_of, count_lines, lines, string_of, views};
use vstd::prelude::*;

verus! {

/// Status of a process that ran directly: success exactly on exit code 0.
pub open spec fn exit_status(exit_code: Option<i32>) -> TaskStatus {
    if exit_code == Some(0i32) {
        TaskStatus::Success
    } else {
        TaskStatus::Failed
    }
}

/// Result of a process run: exit code and stdout line count, no error details.
pub fn process_result(
    step: &PipelineStep,
    exit_code: Option<i32>,
    stdout: &str,
    started_at: String,
    completed_at: String,
) -> (r: StepResult)
    ensures
        r.step_id@ == step.step_id@,
        r.status == exit_status(exit_code),
        r.started_at == Some(started_at),
        r.completed_at == Some(completed_at),
        r.exit_code == exit_code,
        r.signal is None,
        r.log_path is None,
        r.log_url is None,
        r.stdout_lines == Some(lines(stdout@).len() as u64),
        r.stderr_lines is None,
        r.artifact_urls@.len() == 0,
        r.retry_count == 0,
        r.error is None,
        r.reason is None,
{
    let status = match exit_code {
        Some(0) => TaskStatus::Success,
        _ => TaskStatus::Failed,
    };
    StepResult {
        step_id: step.step_id.clone(),
        status,
        started_at: Some(started_at),
        completed_at: Some(completed_at),
        exit_code,
        signal: None,
        log_path: None,
        log_url: None,
        stdout_lines: Some(count_lines(stdout)),
        stderr_lines: None,
        artifact_urls: Vec::new(),
        retry_count: 0,
        error: None,
        reason: None,
    }
}

/// Runs the step's command as a program.
#[derive(Debug)]
pub struct BinaryExecutor;

impl BinaryExecutor {
    pub fn new() -> Self {
        BinaryExecutor
    }

    /// The program and its arguments: the whitespace-separated words of the
    /// step's command.
    pub fn command_words(&self, cmd: &str) -> (r: Vec<String>)
        ensures
            views(r@) == words(cmd@),
    {
        let v = chars_of(cmd);
        let ws = split_words(&v);
        let ghost all = ws@.map_values(|w: Vec<char>| w@);
        let mut r: Vec<String> = Vec::new();
        let mut i: usize = 0;
        while i < ws.len()
            invariant
                i <= ws.len(),
                all == ws@.map_values(|w: Vec<char>| w@),
                views(r@) == all.take(i as int),
            decreases ws.len() - i,
        {
            let w = string_of(&ws[i], 0, ws[i].len());
            proof {
                assert(ws@[i as int]@.subrange(0, ws@[i as int]@.len() as int) =~= ws@[i as int]@);
            }
            let ghost before = r@;
            r.push(w);
            proof {
                assert(views(r@) =~= views(before).push(all[i as int]));
                assert(all.take(i + 1) =~= all.take(i as int).push(all[i as int]));
            }
            i += 1;
        }
        assert(all.take(ws.len() as int) =~= all);
        r
    }

    /// The result of a run that exited with `exit_code` after printing `stdout`.
    pub fn completed_result(
        &self,
        step: &PipelineStep,
        exit_code: Option<i32>,
        stdout: &str,
        started_at: String,
        completed_at: String,
    ) -> (r: StepResult)
        ensures
            r.step_id@ == step.step_id@,
            r.status == exit_status(exit_code),
            r.started_at == Some(started_at),
            r.completed_at == Some(completed_at),
            r.exit_code == exit_code,
            r.signal is None,
            r.log_path is None,
            r.log_url is None,
            r.stdout_lines == Some(lines(stdout@).len() as u64),
            r.stderr_lines is None,
            r.artifact_urls@.len() == 0,
            r.retry_count == 0,
            r.error is None,
            r.reason is None,
    {
        process_result(step, exit_code, stdout, started_at, completed_at)
    }
}

impl Default for BinaryExecutor {
    fn default() -> Self {
        BinaryExecutor::new()
    }
}

} // verus!
