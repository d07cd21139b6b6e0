//! Task, step and result models exchanged with the server.
use crate::text::views;
use std::collections::HashMap;
use vstd::prelude::*;

verus! {

/// Kind of executor a pipeline step needs.
#[derive(Debug, Clone, Copy, PartialEq, Eq, Structural)]
pub enum StepType {
    Python,
    Binary,
    Shell,
    Api,
}

/// Scheduling priority of a task.
#[derive(Debug, Clone, Copy, PartialEq, Eq, Structural)]
pub enum Priority {
    Critical,
    High,
    Normal,
    Low,
}

/// Outcome of a step or of a whole task.
#[derive(Debug, Clone, Copy, PartialEq, Eq, Structural)]
pub enum TaskStatus {
    Success,
    Failed,
    Crashed,
    Timeout,
    Skipped,
}

/// What to do with the rest of a pipeline once a step has failed.
#[derive(Debug, Clone, Copy, PartialEq, Eq, Structural)]
pub enum FailurePolicy {
    Continue,
    Stop,
    Skip,
    DiagnoseOnly,
}

/// State a runner reports in its heartbeat.
#[derive(Debug, Clone, Copy, PartialEq, Eq, Structural)]
pub enum RunnerStatus {
    Idle,
    Running,
    Offline,
}

/// Number of retries a step gets when the retry count is not given.
pub fn default_retries() -> (r: u32)
    ensures
        r == 0,
{
    0
}

/// Delay between retries when none is given, in seconds.
pub fn default_delay() -> (r: u64)
    ensures
        r == 5,
{
    5
}

/// Whether a step must pass when the manifest does not say.
pub fn default_must_pass() -> (r: bool)
    ensures
        r,
{
    true
}

/// Retry count of a result when none is given.
pub fn default_retry_count() -> (r: u32)
    ensures
        r == 0,
{
    0
}

/// Retry settings of a step: the integer part of the policy.
/// The backoff multiplier is a floating-point value and travels only in the
/// wire form of the step that the application deserialises.
#[derive(Debug, Clone)]
pub struct RetryPolicy {
    pub max_retries: u32,
    pub retry_delay_seconds: u64,
}

impl Default for RetryPolicy {
    fn default() -> (r: Self)
        ensures
            r.max_retries == 0,
            r.retry_delay_seconds == 5,
    {
        RetryPolicy { max_retries: default_retries(), retry_delay_seconds: default_delay() }
    }
}

/// Network access allowed to a step.
#[derive(Debug, Clone)]
pub struct NetworkPolicy {
    pub allow_internet: bool,
    pub allowed_hosts: Vec<String>,
}

impl Default for NetworkPolicy {
    fn default() -> (r: Self)
        ensures
            !r.allow_internet,
            r.allowed_hosts@.len() == 0,
    {
        NetworkPolicy { allow_internet: false, allowed_hosts: Vec::new() }
    }
}

/// Security restrictions applied to the commands of a step.
#[derive(Debug, Clone)]
pub struct SecurityPolicy {
    pub allow_sudo: bool,
    pub forbidden_cmds: Vec<String>,
    pub allowed_dirs: Vec<String>,
    pub network_policy: NetworkPolicy,
}

impl Default for SecurityPolicy {
    fn default() -> (r: Self)
        ensures
            !r.allow_sudo,
            r.forbidden_cmds@.len() == 0,
            r.allowed_dirs@.len() == 0,
            !r.network_policy.allow_internet,
            r.network_policy.allowed_hosts@.len() == 0,
    {
        SecurityPolicy {
            allow_sudo: false,
            forbidden_cmds: Vec::new(),
            allowed_dirs: Vec::new(),
            network_policy: NetworkPolicy::default(),
        }
    }
}

/// Artifacts to collect after a step.
#[derive(Debug, Clone)]
pub struct ArtifactCollection {
    pub collect_logs: bool,
    pub collect_screenshots: bool,
    pub collect_profiles: bool,
    pub custom_patterns: Vec<String>,
}

/// Device a task is bound to.
#[derive(Debug, Clone)]
pub struct DeviceBinding {
    pub device_id: String,
    pub device_type: String,
    pub oob_methods: Vec<String>,
}

/// One step of a task pipeline.
#[derive(Debug, Clone)]
pub struct PipelineStep {
    pub step_id: String,
    pub order: u32,
    pub step_type: StepType,
    pub cmd: String,
    pub env: HashMap<String, String>,
    pub working_dir: Option<String>,
    pub must_pass: bool,
    pub depends_on: Vec<String>,
    pub always_run: bool,
    pub retry_policy: Option<RetryPolicy>,
    pub security_policy: SecurityPolicy,
    pub timeout_seconds: u64,
    pub artifact_collection: Option<ArtifactCollection>,
}

impl PipelineStep {
    /// The identifiers of the steps this step depends on.
    pub open spec fn deps(&self) -> Seq<Seq<char>> {
        views(self.depends_on@)
    }
}

/// The identifiers of the steps of a pipeline, in order.
pub open spec fn step_ids(p: Seq<PipelineStep>) -> Seq<Seq<char>> {
    p.map_values(|s: PipelineStep| s.step_id@)
}

/// Hooks to call on task events.
#[derive(Debug, Clone)]
pub struct NotificationHooks {
    pub on_start: Vec<String>,
    pub on_success: Vec<String>,
    pub on_failure: Vec<String>,
    pub on_timeout: Vec<String>,
}

/// A task as handed out by the server.
#[derive(Debug, Clone)]
pub struct TaskManifest {
    pub schema_version: String,
    pub task_id: String,
    pub created_at: String,
    pub device_binding: DeviceBinding,
    pub priority: Priority,
    pub timeout_seconds: u64,
    pub pipeline: Vec<PipelineStep>,
    pub notification_hooks: Option<NotificationHooks>,
}

/// Error details attached to a failed step.
#[derive(Debug, Clone)]
pub struct ErrorInfo {
    pub error_type: String,
    pub message: String,
    pub stack_trace: Option<String>,
    pub context: HashMap<String, String>,
}

/// Result of one step, without the measured duration and resource figures,
/// which are floating-point values kept by the application.
#[derive(Debug, Clone)]
pub struct StepResult {
    pub step_id: String,
    pub status: TaskStatus,
    pub started_at: Option<String>,
    pub completed_at: Option<String>,
    pub exit_code: Option<i32>,
    pub signal: Option<String>,
    pub log_path: Option<String>,
    pub log_url: Option<String>,
    pub stdout_lines: Option<u64>,
    pub stderr_lines: Option<u64>,
    pub artifact_urls: Vec<String>,
    pub retry_count: u32,
    pub error: Option<ErrorInfo>,
    pub reason: Option<String>,
}

/// Identity of the device that ran a task.
#[derive(Debug, Clone)]
pub struct DeviceInfo {
    pub device_id: String,
    pub hostname: String,
    pub ip_address: Option<String>,
    pub os_version: Option<String>,
    pub runner_version: String,
}

/// Out-of-band log captured during a task.
#[derive(Debug, Clone)]
pub struct OobLog {
    pub method: String,
    pub captured_at: String,
    pub path: String,
    pub summary: String,
}

/// What a runner can execute.
#[derive(Debug, Clone)]
pub struct Capabilities {
    pub supported_step_types: Vec<StepType>,
    pub has_oob_capture: bool,
    pub has_gpu: bool,
    pub gpu_model: Option<String>,
    pub oob_methods: Vec<String>,
}

} // verus!

verus! {

/// A duplicate-free sequence of identifiers drawn from `ids` is no longer than `ids`.
pub proof fn lemma_distinct_within(tail: Seq<Seq<char>>, ids: Seq<Seq<char>>)
    requires
        tail.no_duplicates(),
        forall|x: Seq<char>| tail.contains(x) ==> ids.contains(x),
    ensures
        tail.len() <= ids.len(),
{
    broadcast use vstd::seq_lib::seq_to_set_is_finite;

    tail.unique_seq_to_set();
    ids.lemma_cardinality_of_set();
    assert(tail.to_set().subset_of(ids.to_set()));
    vstd::set_lib::lemma_len_subset(tail.to_set(), ids.to_set());
}

} // verus!
