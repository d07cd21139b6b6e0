//! Runs a command line split into words as a POSIX shell would.
use crate::models::{ErrorInfo, PipelineStep, StepResult, TaskStatus};
use crate::text::{
    append_str, chars_of, count_lines, decimal, i32_to_string, lines, signed_decimal, string_of,
    trim, trimmed, u64_to_string, views,
};
use std::collections::HashMap;
use vstd::prelude::*;

verus! {

/// The words `shlex::split` makes of a command line, or `None` when the
/// line is malformed (an unclosed quote or a trailing backslash).
pub uninterp spec fn shlex_words(s: Seq<char>) -> Option<Seq<Seq<char>>>;

/// Splits a command line into words (`shlex::split`).
#[verifier::external_body]
fn shlex_split(s: &str) -> (r: Option<Vec<String>>)
    ensures
        match r {
            Some(v) => shlex_words(s@) == Some(views(v@)),
            None => shlex_words(s@) is None,
        },
{
    shlex::split(s)
}

/// Status of a finished shell command: success on exit code 0, failure on
/// another code, a crash when there is no code (killed by a signal).
pub open spec fn shell_status(exit_code: Option<i32>) -> TaskStatus {
    match exit_code {
        Some(c) => if c == 0 {
            TaskStatus::Success
        } else {
            TaskStatus::Failed
        },
        None => TaskStatus::Crashed,
    }
}

/// How an exit code is shown in a failure message (`{:?}` of the option).
pub open spec fn exit_code_text(exit_code: Option<i32>) -> Seq<char> {
    match exit_code {
        Some(c) => "Some("@ + signed_decimal(c as int) + ")"@,
        None => "None"@,
    }
}

/// At most the first 200 characters of `s`.
pub open spec fn preview(s: Seq<char>) -> Seq<char> {
    if s.len() <= 200 {
        s
    } else {
        s.take(200)
    }
}

/// Runs steps through the system shell's word splitting.
#[derive(Debug)]
pub struct ShellExecutor;

impl ShellExecutor {
    pub fn new() -> Self {
        ShellExecutor
    }

    /// The words of the step's command line, or an error message when the
    /// line cannot be split.
    pub fn split_command(&self, cmd: &str) -> (r: Result<Vec<String>, String>)
        ensures
            match r {
                Ok(v) => shlex_words(cmd@) == Some(views(v@)),
                Err(m) => shlex_words(cmd@) is None && m@ == "Failed to parse command"@,
            },
    {
        match shlex_split(cmd) {
            Some(v) => Ok(v),
            None => {
                let mut m = String::new();
                append_str(&mut m, "Failed to parse command");
                Err(m)
            },
        }
    }

    /// The message of a failed command.
    pub fn failure_message(&self, exit_code: Option<i32>) -> (m: String)
        ensures
            m@ == "Command failed with exit code "@ + exit_code_text(exit_code),
    {
        let mut m = String::new();
        append_str(&mut m, "Command failed with exit code ");
        match exit_code {
            Some(c) => {
                append_str(&mut m, "Some(");
                let d = i32_to_string(c);
                append_str(&mut m, d.as_str());
                append_str(&mut m, ")");
            },
            None => append_str(&mut m, "None"),
        }
        m
    }

    /// The result of a command that finished with `exit_code`, `stdout` and `stderr`.
    /// A result other than success carries an `ExecutionError` with the trimmed
    /// standard error as trace; its context holds the command (`cmd`) and
    /// the first 200 characters of standard error (`stderr_preview`).
    pub fn completed_result(
        &self,
        step: &PipelineStep,
        exit_code: Option<i32>,
        stdout: &str,
        stderr: &str,
        started_at: String,
        completed_at: String,
    ) -> (r: StepResult)
        ensures
            r.step_id@ == step.step_id@,
            r.status == shell_status(exit_code),
            r.started_at == Some(started_at),
            r.completed_at == Some(completed_at),
            r.exit_code == exit_code,
            r.signal is None,
            r.log_path is None,
            r.log_url is None,
            r.stdout_lines == Some(lines(stdout@).len() as u64),
            r.stderr_lines == Some(lines(stderr@).len() as u64),
            r.artifact_urls@.len() == 0,
            r.retry_count == 0,
            r.reason is None,
            (r.status == TaskStatus::Success) == r.error is None,
            r.error is Some ==> {
                let e = r.error->0;
                &&& e.error_type@ == "ExecutionError"@
                &&& e.message@ == "Command failed with exit code "@ + exit_code_text(exit_code)
                &&& e.stack_trace is Some
                &&& e.stack_trace->0@ == trimmed(stderr@)
            },
    {
        let status = match exit_code {
            Some(0) => TaskStatus::Success,
            Some(_) => TaskStatus::Failed,
            None => TaskStatus::Crashed,
        };
        let error = if status != TaskStatus::Success {
            let mut context: HashMap<String, String> = HashMap::new();
            let mut key = String::new();
            append_str(&mut key, "cmd");
            context.insert(key, step.cmd.clone());
            let mut key = String::new();
            append_str(&mut key, "stderr_preview");
            context.insert(key, self.stderr_preview(stderr));
            let mut error_type = String::new();
            append_str(&mut error_type, "ExecutionError");
            Some(
                ErrorInfo {
                    error_type,
                    message: self.failure_message(exit_code),
                    stack_trace: Some(trim(stderr)),
                    context,
                },
            )
        } else {
            None
        };
        StepResult {
            step_id: step.step_id.clone(),
            status,
            started_at: Some(started_at),
            completed_at: Some(completed_at),
            exit_code,
            signal: None,
            log_path: None,
            log_url: None,
            stdout_lines: Some(count_lines(stdout)),
            stderr_lines: Some(count_lines(stderr)),
            artifact_urls: Vec::new(),
            retry_count: 0,
            error,
            reason: None,
        }
    }

    /// At most the first 200 characters of standard error.
    pub fn stderr_preview(&self, stderr: &str) -> (s: String)
        ensures
            s@ == preview(stderr@),
    {
        let v = chars_of(stderr);
        let end = if v.len() <= 200 {
            v.len()
        } else {
            200
        };
        let s = string_of(&v, 0, end);
        assert(v@.subrange(0, v@.len() as int) =~= v@);
        s
    }

    /// The result of a command killed after its timeout. `elapsed` is the
    /// measured run time as shown in the message; the context holds the
    /// command (`cmd`) and the configured timeout (`timeout_seconds`).
    pub fn timeout_result(
        &self,
        step: &PipelineStep,
        elapsed: &str,
        started_at: String,
        completed_at: String,
    ) -> (r: StepResult)
        ensures
            r.step_id@ == step.step_id@,
            r.status == TaskStatus::Timeout,
            r.started_at == Some(started_at),
            r.completed_at == Some(completed_at),
            r.exit_code is None,
            r.signal is Some && r.signal->0@ == "SIGKILL"@,
            r.log_path is None,
            r.log_url is None,
            r.stdout_lines is None,
            r.stderr_lines is None,
            r.artifact_urls@.len() == 0,
            r.retry_count == 0,
            r.reason is Some && r.reason->0@ == "Task timed out"@,
            r.error is Some,
            r.error->0.error_type@ == "TimeoutError"@,
            r.error->0.message@ == "Command timed out after "@ + elapsed@ + " seconds"@,
            r.error->0.stack_trace is None,
    {
        let mut context: HashMap<String, String> = HashMap::new();
        let mut key = String::new();
        append_str(&mut key, "cmd");
        context.insert(key, step.cmd.clone());
        let mut key = String::new();
        append_str(&mut key, "timeout_seconds");
        context.insert(key, u64_to_string(step.timeout_seconds));
        let mut message = String::new();
        append_str(&mut message, "Command timed out after ");
        append_str(&mut message, elapsed);
        append_str(&mut message, " seconds");
        let mut error_type = String::new();
        append_str(&mut error_type, "TimeoutError");
        let mut signal = String::new();
        append_str(&mut signal, "SIGKILL");
        let mut reason = String::new();
        append_str(&mut reason, "Task timed out");
        StepResult {
            step_id: step.step_id.clone(),
            status: TaskStatus::Timeout,
            started_at: Some(started_at),
            completed_at: Some(completed_at),
            exit_code: None,
            signal: Some(signal),
            log_path: None,
            log_url: None,
            stdout_lines: None,
            stderr_lines: None,
            artifact_urls: Vec::new(),
            retry_count: 0,
            error: Some(ErrorInfo { error_type, message, stack_trace: None, context }),
            reason: Some(reason),
        }
    }
}

impl Default for ShellExecutor {
    fn default() -> Self {
        ShellExecutor::new()
    }
}

} // verus!
