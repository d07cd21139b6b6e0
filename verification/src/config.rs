//! Runner configuration and its defaults. Reading and parsing the
//! configuration file is done by the application.
use crate::text::append_str;
use vstd::prelude::*;

verus! {

/// Server configuration for the API endpoints.
#[derive(Debug, Clone)]
pub struct ServerConfig {
    /// Base URL of the server API.
    pub base_url: String,
    /// API key for authentication.
    pub api_key: Option<String>,
}

/// Device identification.
#[derive(Debug, Clone)]
pub struct DeviceConfig {
    /// Unique device identifier.
    pub device_id: String,
    /// Device type (pc, mobile, iot, server).
    pub device_type: String,
    /// Device hostname.
    pub hostname: String,
}

/// Polling intervals, in seconds.
#[derive(Debug, Clone)]
pub struct PollingConfig {
    /// Interval between task polls.
    pub interval_seconds: u64,
    /// Interval between heartbeats.
    pub heartbeat_interval_seconds: u64,
}

/// Workspace and log directories.
#[derive(Debug, Clone)]
pub struct ExecutionConfig {
    /// Base directory for task workspaces.
    pub workspace_dir: String,
    /// Base directory for task logs.
    pub log_dir: String,
}

/// The complete runner configuration.
#[derive(Debug, Clone)]
pub struct RunnerConfig {
    pub server: ServerConfig,
    pub device: DeviceConfig,
    pub polling: PollingConfig,
    pub execution: ExecutionConfig,
}

/// Poll interval when none is configured.
pub fn default_interval_seconds() -> (r: u64)
    ensures
        r == 5,
{
    5
}

/// Heartbeat interval when none is configured.
pub fn default_heartbeat_interval_seconds() -> (r: u64)
    ensures
        r == 30,
{
    30
}

/// Workspace directory when none is configured.
pub fn default_workspace_dir() -> (r: String)
    ensures
        r@ == "./workspace"@,
{
    let mut s = String::new();
    append_str(&mut s, "./workspace");
    s
}

/// Log directory when none is configured.
pub fn default_log_dir() -> (r: String)
    ensures
        r@ == "./logs"@,
{
    let mut s = String::new();
    append_str(&mut s, "./logs");
    s
}

impl Default for PollingConfig {
    fn default() -> (r: Self)
        ensures
            r.interval_seconds == 5,
            r.heartbeat_interval_seconds == 30,
    {
        PollingConfig {
            interval_seconds: default_interval_seconds(),
            heartbeat_interval_seconds: default_heartbeat_interval_seconds(),
        }
    }
}

impl Default for ExecutionConfig {
    fn default() -> (r: Self)
        ensures
            r.workspace_dir@ == "./workspace"@,
            r.log_dir@ == "./logs"@,
    {
        ExecutionConfig { workspace_dir: default_workspace_dir(), log_dir: default_log_dir() }
    }
}

} // verus!
