use std::collections::HashMap;

use omni_runner::models::{
    DeviceBinding, PipelineStep, Priority, RetryPolicy, SecurityPolicy, StepType, TaskManifest,
    TaskStatus,
};
use omni_runner::executor::BinaryExecutor;
use omni_runner::pipeline::{PipelineEngine, SkipReason, StepAction};

fn step(id: &str, order: u32, cmd: &str, must_pass: bool, depends_on: Vec<&str>) -> PipelineStep {
    PipelineStep {
        step_id: id.to_string(),
        order,
        step_type: StepType::Shell,
        cmd: cmd.to_string(),
        env: HashMap::new(),
        working_dir: None,
        must_pass,
        depends_on: depends_on.into_iter().map(|s| s.to_string()).collect(),
        always_run: false,
        retry_policy: None,
        security_policy: SecurityPolicy::default(),
        timeout_seconds: 10,
        artifact_collection: None,
    }
}

fn manifest(task_id: &str, pipeline: Vec<PipelineStep>) -> TaskManifest {
    TaskManifest {
        schema_version: "1.0.0".to_string(),
        task_id: task_id.to_string(),
        created_at: "2024-03-18T10:00:00Z".to_string(),
        device_binding: DeviceBinding {
            device_id: "device-001".to_string(),
            device_type: "pc".to_string(),
            oob_methods: vec![],
        },
        priority: Priority::Normal,
        timeout_seconds: 300,
        pipeline,
        notification_hooks: None,
    }
}

/// Drives a run to its end; the status of each run of a step comes from
/// `outcome` (given the step and how many times it ran again). Returns
/// (step id, status, reason, retry count) per result.
fn execute_with(
    manifest: &TaskManifest,
    mut outcome: impl FnMut(&PipelineStep, u32) -> TaskStatus,
) -> Vec<(String, TaskStatus, Option<String>, u32)> {
    let engine = PipelineEngine::new();
    let pipeline = manifest.pipeline.as_slice();
    let mut run = engine.start(manifest);
    let mut results = Vec::new();
    loop {
        match run.next_action(pipeline) {
            StepAction::Execute(i) => {
                let retries = run.retries();
                let status = outcome(&pipeline[i], retries);
                let code = if status == TaskStatus::Success { 0 } else { 1 };
                let ran = BinaryExecutor::new().completed_result(
                    &pipeline[i],
                    Some(code),
                    "",
                    "start".to_string(),
                    "end".to_string(),
                );
                let r = run.with_retry_count(ran);
                if run.record_result(pipeline, r.status) {
                    results.push((r.step_id, r.status, None, r.retry_count));
                }
            }
            StepAction::Skip(i, reason) => {
                let r = omni_runner::pipeline::engine::skipped_result(&pipeline[i], reason);
                results.push((r.step_id, r.status, r.reason, r.retry_count));
            }
            StepAction::Refuse(i, e) => {
                let r = omni_runner::pipeline::engine::refused_result(&pipeline[i], &e);
                results.push((r.step_id, r.status, r.error.map(|e| e.message), r.retry_count));
            }
            StepAction::Finished => break,
        }
    }
    results
}

/// A step "runs" by its command: `false` fails, anything else succeeds.
fn execute(manifest: &TaskManifest) -> Vec<(String, TaskStatus, Option<String>, u32)> {
    execute_with(manifest, |step, _| {
        if step.cmd == "false" {
            TaskStatus::Failed
        } else {
            TaskStatus::Success
        }
    })
}

#[test]
fn test_pipeline_engine_simple_execution() {
    let m = manifest(
        "task-123",
        vec![
            step("step-1", 1, "echo 'step 1'", true, vec![]),
            step("step-2", 2, "echo 'step 2'", true, vec![]),
        ],
    );
    let results = execute(&m);
    assert_eq!(results.len(), 2);
    assert_eq!(results[0].0, "step-1");
    assert_eq!(results[1].0, "step-2");
    assert_eq!(results[0].1, TaskStatus::Success);
    assert_eq!(results[1].1, TaskStatus::Success);
}

#[test]
fn test_pipeline_engine_with_dependencies() {
    let m = manifest(
        "task-456",
        vec![
            step("step-1", 1, "echo 'step 1'", true, vec![]),
            step("step-2", 2, "echo 'step 2'", true, vec!["step-1"]),
        ],
    );
    let results = execute(&m);
    assert_eq!(results.len(), 2);
    assert_eq!(results[0].0, "step-1");
    assert_eq!(results[1].0, "step-2");
    assert_eq!(results[0].1, TaskStatus::Success);
    assert_eq!(results[1].1, TaskStatus::Success);
}

#[test]
fn test_pipeline_engine_dependency_failure_skips() {
    let m = manifest(
        "task-789",
        vec![
            step("step-1", 1, "false", true, vec![]),
            step("step-2", 2, "echo 'step 2'", true, vec!["step-1"]),
        ],
    );
    let results = execute(&m);
    assert_eq!(results.len(), 2);
    assert_eq!(results[0].0, "step-1");
    assert_eq!(results[1].0, "step-2");
    assert_ne!(results[0].1, TaskStatus::Success);
    assert_eq!(results[1].1, TaskStatus::Skipped);
    assert!(results[1].2.is_some());
}

#[test]
fn test_pipeline_engine_must_pass_stops_on_failure() {
    let m = manifest(
        "task-999",
        vec![
            step("step-1", 1, "echo 'step 1'", false, vec![]),
            step("step-2", 2, "false", true, vec![]),
            step("step-3", 3, "echo 'step 3'", true, vec![]),
        ],
    );
    let results = execute(&m);
    assert_eq!(results.len(), 2);
    assert_eq!(results[0].0, "step-1");
    assert_eq!(results[1].0, "step-2");
    assert_eq!(results[0].1, TaskStatus::Success);
    assert_ne!(results[1].1, TaskStatus::Success);
}

#[test]
fn test_required_failure_ends_run_at_next_executable_step() {
    // After the required step fails, the independent step would run: the
    // run ends there, and the later dependent is not reported.
    let m = manifest(
        "task-1",
        vec![
            step("a", 1, "false", true, vec![]),
            step("b", 2, "echo b", true, vec![]),
            step("c", 3, "echo c", true, vec!["a"]),
        ],
    );
    let results = execute(&m);
    assert_eq!(results.len(), 1);
    assert_eq!(results[0].1, TaskStatus::Failed);
}

#[test]
fn test_upstream_failed_reason_text() {
    let m = manifest(
        "task-2",
        vec![
            step("a", 1, "false", false, vec![]),
            step("b", 2, "echo b", true, vec!["a"]),
        ],
    );
    let results = execute(&m);
    assert_eq!(results[1].2, Some("Skipped because upstream step failed".to_string()));
}

#[test]
fn test_unknown_dependency_leaves_step_out_of_the_run() {
    // A step waiting on an identifier no step carries is never ordered,
    // so it gets no result; the other steps run.
    let m = manifest(
        "task-3",
        vec![step("a", 1, "echo a", true, vec!["missing"]), step("b", 2, "echo b", true, vec![])],
    );
    let results = execute(&m);
    assert_eq!(results.len(), 1);
    assert_eq!(results[0].0, "b");
}

#[test]
fn test_dependency_not_completed_reason() {
    // "b" is skipped because "a" failed; "c" then waits on a step that never
    // ran.
    let m = manifest(
        "task-6",
        vec![
            step("a", 1, "false", false, vec![]),
            step("b", 2, "echo b", true, vec!["a"]),
            step("c", 3, "echo c", true, vec!["b"]),
        ],
    );
    let results = execute(&m);
    assert_eq!(results.len(), 3);
    assert_eq!(results[1].2, Some("Skipped because upstream step failed".to_string()));
    assert_eq!(results[2].1, TaskStatus::Skipped);
    assert_eq!(results[2].2, Some("Skipped due to dependency failure".to_string()));
}

#[test]
fn test_always_run_ignores_failed_upstream() {
    let mut b = step("b", 2, "echo b", true, vec!["a"]);
    b.always_run = true;
    let m = manifest("task-4", vec![step("a", 1, "false", false, vec![]), b]);
    let results = execute(&m);
    assert_eq!(results.len(), 2);
    assert_eq!(results[1].1, TaskStatus::Success);
}

#[test]
fn test_topological_sort_dependencies_first() {
    let engine = PipelineEngine::new();
    let p = vec![
        step("c", 3, "echo", true, vec!["b"]),
        step("b", 2, "echo", true, vec!["a"]),
        step("a", 1, "echo", true, vec![]),
    ];
    assert_eq!(engine.topological_sort(&p), vec![2, 1, 0]);
}

#[test]
fn test_topological_sort_keeps_pipeline_order_of_independent_steps() {
    let engine = PipelineEngine::new();
    let p = vec![
        step("a", 1, "echo", true, vec![]),
        step("b", 2, "echo", true, vec![]),
        step("c", 3, "echo", true, vec!["a"]),
    ];
    assert_eq!(engine.topological_sort(&p), vec![0, 1, 2]);
}

#[test]
fn test_topological_sort_leaves_out_cycles() {
    let engine = PipelineEngine::new();
    let p = vec![
        step("a", 1, "echo", true, vec!["b"]),
        step("b", 2, "echo", true, vec!["a"]),
        step("c", 3, "echo", true, vec![]),
    ];
    assert_eq!(engine.topological_sort(&p), vec![2]);
}

#[test]
fn test_topological_sort_unknown_dependency_blocks_dependents() {
    let engine = PipelineEngine::new();
    let p = vec![
        step("a", 1, "echo", true, vec!["ghost"]),
        step("b", 2, "echo", true, vec!["a"]),
        step("c", 3, "echo", true, vec![]),
    ];
    assert_eq!(engine.topological_sort(&p), vec![2]);
}

#[test]
fn test_skip_reason_text() {
    assert_eq!(SkipReason::DependencyNotCompleted.text(), "Skipped due to dependency failure");
    assert_eq!(SkipReason::UpstreamFailed.text(), "Skipped because upstream step failed");
}

#[test]
fn test_run_finishes_after_last_step() {
    let engine = PipelineEngine::new();
    let m = manifest("task-5", vec![step("a", 1, "echo a", true, vec![])]);
    let p = m.pipeline.as_slice();
    let mut run = engine.start(&m);
    assert_eq!(run.next_action(p), StepAction::Execute(0));
    run.record_result(p, TaskStatus::Success);
    assert_eq!(run.next_action(p), StepAction::Finished);
    assert_eq!(run.next_action(p), StepAction::Finished);
}

#[test]
fn test_step_forbidden_by_its_policy_is_refused() {
    let mut s = step("rm-step", 1, "rm /tmp/x", true, vec![]);
    s.security_policy.forbidden_cmds = vec!["rm".to_string()];
    let m = manifest("task-7", vec![s, step("after", 2, "echo after", true, vec![])]);
    let mut ran = Vec::new();
    let results = execute_with(&m, |st, _| {
        ran.push(st.step_id.clone());
        TaskStatus::Success
    });
    assert!(!ran.contains(&"rm-step".to_string()));
    assert_eq!(results[0].1, TaskStatus::Failed);
    assert_eq!(results[0].2, Some("Forbidden command: rm".to_string()));
    // The refused step must pass, so the run stops there.
    assert_eq!(results.len(), 1);
}

#[test]
fn test_sudo_refused_and_disallowed_dir_refused() {
    let a = step("a", 1, "sudo ls", false, vec![]);
    let mut b = step("b", 2, "ls", false, vec![]);
    b.working_dir = Some("/etc".to_string());
    b.security_policy.allowed_dirs = vec!["/tmp".to_string()];
    let m = manifest("task-8", vec![a, b]);
    let results = execute(&m);
    assert_eq!(results[0].2, Some("Sudo is not allowed: sudo".to_string()));
    assert_eq!(results[1].2, Some("Directory not in allowed list: /etc".to_string()));
}

#[test]
fn test_failed_step_is_retried() {
    let mut s = step("flaky", 1, "flaky", true, vec![]);
    s.retry_policy = Some(RetryPolicy { max_retries: 2, retry_delay_seconds: 0 });
    let m = manifest("task-9", vec![s]);
    let mut runs = 0;
    let results = execute_with(&m, |_, retries| {
        runs += 1;
        if retries == 0 { TaskStatus::Failed } else { TaskStatus::Success }
    });
    assert_eq!(runs, 2);
    assert_eq!(results.len(), 1);
    assert_eq!(results[0].1, TaskStatus::Success);
    assert_eq!(results[0].3, 1);
}

#[test]
fn test_retries_are_bounded() {
    let mut s = step("broken", 1, "false", true, vec![]);
    s.retry_policy = Some(RetryPolicy { max_retries: 2, retry_delay_seconds: 0 });
    let m = manifest("task-10", vec![s]);
    let mut runs = 0;
    let results = execute_with(&m, |_, _| {
        runs += 1;
        TaskStatus::Failed
    });
    assert_eq!(runs, 3);
    assert_eq!(results.len(), 1);
    assert_eq!(results[0].1, TaskStatus::Failed);
    assert_eq!(results[0].3, 2);
}

#[test]
fn test_always_run_dependent_of_refused_step_runs() {
    let mut a = step("a", 1, "rm /tmp/x", false, vec![]);
    a.security_policy.forbidden_cmds = vec!["rm".to_string()];
    let mut b = step("b", 2, "echo b", true, vec!["a"]);
    b.always_run = true;
    let c = step("c", 3, "echo c", true, vec!["a"]);
    let m = manifest("task-11", vec![a, b, c]);
    let results = execute(&m);
    assert_eq!(results.len(), 3);
    assert_eq!(results[0].1, TaskStatus::Failed);
    assert_eq!(results[1].1, TaskStatus::Success);
    assert_eq!(results[2].1, TaskStatus::Skipped);
    assert_eq!(results[2].2, Some("Skipped because upstream step failed".to_string()));
}
