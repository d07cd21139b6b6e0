//! Assembling the outcome of a task from its step results.
use crate::config::RunnerConfig;
use crate::models::{DeviceInfo, StepResult, TaskManifest, TaskStatus};
use crate::text::append_str;
use vstd::prelude::*;

verus! {

/// A status that counts as a failure.
pub open spec fn is_failure(s: TaskStatus) -> bool {
    s == TaskStatus::Failed || s == TaskStatus::Crashed || s == TaskStatus::Timeout
}

/// A class of step statuses that a task result counts.
#[derive(Debug, Clone, Copy, PartialEq, Eq, Structural)]
pub enum StatusClass {
    /// Failed, crashed or timed out.
    Failure,
    Success,
    Skipped,
}

/// Whether `s` belongs to class `c`.
pub open spec fn in_class(c: StatusClass, s: TaskStatus) -> bool {
    match c {
        StatusClass::Failure => is_failure(s),
        StatusClass::Success => s == TaskStatus::Success,
        StatusClass::Skipped => s == TaskStatus::Skipped,
    }
}

/// Number of results whose status is in class `c`.
pub open spec fn count_in(rs: Seq<StepResult>, c: StatusClass) -> nat
    decreases rs.len(),
{
    if rs.len() == 0 {
        0
    } else {
        count_in(rs.drop_last(), c) + if in_class(c, rs.last().status) {
            1nat
        } else {
            0nat
        }
    }
}

/// Step counts of a finished task.
#[derive(Debug, Clone, Copy, PartialEq, Eq, Structural)]
pub struct StepCounts {
    pub total_steps: u32,
    pub successful_steps: u32,
    pub failed_steps: u32,
    pub skipped_steps: u32,
    pub crashed_steps: u32,
}

/// Whether `s` belongs to class `c`.
pub fn status_in(c: StatusClass, s: TaskStatus) -> (b: bool)
    ensures
        b == in_class(c, s),
{
    match c {
        StatusClass::Failure => s == TaskStatus::Failed || s == TaskStatus::Crashed || s
            == TaskStatus::Timeout,
        StatusClass::Success => s == TaskStatus::Success,
        StatusClass::Skipped => s == TaskStatus::Skipped,
    }
}

/// Number of results whose status is in class `c`.
pub fn count_class(step_results: &[StepResult], c: StatusClass) -> (n: usize)
    ensures
        n == count_in(step_results@, c),
{
    let mut n: usize = 0;
    let mut i: usize = 0;
    while i < step_results.len()
        invariant
            i <= step_results.len(),
            n <= i,
            n == count_in(step_results@.take(i as int), c),
        decreases step_results.len() - i,
    {
        let hit = status_in(c, step_results[i].status);
        assert(step_results@.take(i + 1).drop_last() =~= step_results@.take(i as int));
        assert(step_results@.take(i + 1).last() == step_results@[i as int]);
        if hit {
            n += 1;
        }
        i += 1;
    }
    assert(step_results@.take(step_results.len() as int) =~= step_results@);
    n
}

/// The overall status of a task: success exactly when no step failed,
/// crashed or timed out.
pub fn calculate_status(step_results: &[StepResult]) -> (s: TaskStatus)
    ensures
        s == if count_in(step_results@, StatusClass::Failure) == 0 {
            TaskStatus::Success
        } else {
            TaskStatus::Failed
        },
{
    let failed = count_class(step_results, StatusClass::Failure);
    if failed == 0 {
        TaskStatus::Success
    } else {
        TaskStatus::Failed
    }
}

/// The step counts reported with a task's result. Counts are reported as
/// 32-bit numbers, truncating as a cast does; crashed steps are not
/// counted separately.
pub fn count_steps(manifest: &TaskManifest, step_results: &[StepResult]) -> (c: StepCounts)
    ensures
        c.total_steps == manifest.pipeline@.len() as u32,
        c.successful_steps == count_in(step_results@, StatusClass::Success) as u32,
        c.failed_steps == count_in(step_results@, StatusClass::Failure) as u32,
        c.skipped_steps == count_in(step_results@, StatusClass::Skipped) as u32,
        c.crashed_steps == 0,
{
    let successful = count_class(step_results, StatusClass::Success);
    let failed = count_class(step_results, StatusClass::Failure);
    let skipped = count_class(step_results, StatusClass::Skipped);
    StepCounts {
        total_steps: manifest.pipeline.len() as u32,
        successful_steps: successful as u32,
        failed_steps: failed as u32,
        skipped_steps: skipped as u32,
        crashed_steps: 0,
    }
}

/// Version of the runner reported to the server.
pub fn runner_version() -> (s: String)
    ensures
        s@ == "0.1.0"@,
{
    let mut s = String::new();
    append_str(&mut s, "0.1.0");
    s
}

/// Schema version of execution results.
pub fn result_schema_version() -> (s: String)
    ensures
        s@ == "1.0.0"@,
{
    let mut s = String::new();
    append_str(&mut s, "1.0.0");
    s
}

/// The device information reported with a task's result.
pub fn device_info(config: &RunnerConfig) -> (d: DeviceInfo)
    ensures
        d.device_id@ == config.device.device_id@,
        d.hostname@ == config.device.hostname@,
        d.ip_address is None,
        d.os_version is None,
        d.runner_version@ == "0.1.0"@,
{
    DeviceInfo {
        device_id: config.device.device_id.clone(),
        hostname: config.device.hostname.clone(),
        ip_address: None,
        os_version: None,
        runner_version: runner_version(),
    }
}

} // verus!
