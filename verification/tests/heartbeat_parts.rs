use omni_runner::heartbeat::{heartbeat_status, runner_capabilities};
use omni_runner::models::{RunnerStatus, StepType};

#[test]
fn test_runner_capabilities_lists_all_step_types() {
    let c = runner_capabilities();
    assert_eq!(
        c.supported_step_types,
        vec![StepType::Python, StepType::Binary, StepType::Shell, StepType::Api]
    );
    assert!(!c.has_oob_capture);
    assert!(!c.has_gpu);
    assert!(c.gpu_model.is_none());
    assert!(c.oob_methods.is_empty());
}

#[test]
fn test_heartbeat_status_is_idle() {
    assert_eq!(heartbeat_status(), RunnerStatus::Idle);
}
