use std::collections::HashMap;

use omni_runner::config::{DeviceConfig, ExecutionConfig, PollingConfig, RunnerConfig, ServerConfig};
use omni_runner::models::{
    DeviceBinding, PipelineStep, Priority, SecurityPolicy, StepResult, StepType, TaskManifest,
    TaskStatus,
};
use omni_runner::tasks::{
    calculate_status, count_class, count_steps, device_info, result_schema_version,
    runner_version, status_in, StatusClass,
};

fn result(id: &str, status: TaskStatus) -> StepResult {
    StepResult {
        step_id: id.to_string(),
        status,
        started_at: None,
        completed_at: None,
        exit_code: None,
        signal: None,
        log_path: None,
        log_url: None,
        stdout_lines: None,
        stderr_lines: None,
        artifact_urls: Vec::new(),
        retry_count: 0,
        error: None,
        reason: None,
    }
}

fn step(id: &str) -> PipelineStep {
    PipelineStep {
        step_id: id.to_string(),
        order: 1,
        step_type: StepType::Shell,
        cmd: "true".to_string(),
        env: HashMap::new(),
        working_dir: None,
        must_pass: true,
        depends_on: vec![],
        always_run: false,
        retry_policy: None,
        security_policy: SecurityPolicy::default(),
        timeout_seconds: 10,
        artifact_collection: None,
    }
}

#[test]
fn test_calculate_status_all_success_or_skipped() {
    let rs = vec![result("a", TaskStatus::Success), result("b", TaskStatus::Skipped)];
    assert_eq!(calculate_status(&rs), TaskStatus::Success);
    assert_eq!(calculate_status(&[]), TaskStatus::Success);
}

#[test]
fn test_calculate_status_any_failure_kind() {
    for bad in [TaskStatus::Failed, TaskStatus::Crashed, TaskStatus::Timeout] {
        let rs = vec![result("a", TaskStatus::Success), result("b", bad)];
        assert_eq!(calculate_status(&rs), TaskStatus::Failed);
    }
}

#[test]
fn test_status_classes() {
    assert!(status_in(StatusClass::Failure, TaskStatus::Timeout));
    assert!(status_in(StatusClass::Failure, TaskStatus::Crashed));
    assert!(!status_in(StatusClass::Failure, TaskStatus::Skipped));
    assert!(status_in(StatusClass::Success, TaskStatus::Success));
    assert!(status_in(StatusClass::Skipped, TaskStatus::Skipped));
}

#[test]
fn test_count_steps() {
    let manifest = TaskManifest {
        schema_version: "1.0.0".to_string(),
        task_id: "t".to_string(),
        created_at: "2024-01-01T00:00:00Z".to_string(),
        device_binding: DeviceBinding {
            device_id: "d".to_string(),
            device_type: "pc".to_string(),
            oob_methods: vec![],
        },
        priority: Priority::High,
        timeout_seconds: 60,
        pipeline: vec![step("a"), step("b"), step("c"), step("d"), step("e")],
        notification_hooks: None,
    };
    let rs = vec![
        result("a", TaskStatus::Success),
        result("b", TaskStatus::Crashed),
        result("c", TaskStatus::Skipped),
        result("d", TaskStatus::Failed),
    ];
    let c = count_steps(&manifest, &rs);
    assert_eq!(c.total_steps, 5);
    assert_eq!(c.successful_steps, 1);
    assert_eq!(c.failed_steps, 2);
    assert_eq!(c.skipped_steps, 1);
    assert_eq!(c.crashed_steps, 0);
    assert_eq!(count_class(&rs, StatusClass::Failure), 2);
}

#[test]
fn test_versions_and_device_info() {
    assert_eq!(runner_version(), "0.1.0");
    assert_eq!(result_schema_version(), "1.0.0");
    let config = RunnerConfig {
        server: ServerConfig { base_url: "http://s".to_string(), api_key: None },
        device: DeviceConfig {
            device_id: "dev-7".to_string(),
            device_type: "pc".to_string(),
            hostname: "host-7".to_string(),
        },
        polling: PollingConfig::default(),
        execution: ExecutionConfig::default(),
    };
    let d = device_info(&config);
    assert_eq!(d.device_id, "dev-7");
    assert_eq!(d.hostname, "host-7");
    assert_eq!(d.ip_address, None);
    assert_eq!(d.os_version, None);
    assert_eq!(d.runner_version, "0.1.0");
}
