use std::collections::HashMap;

use omni_runner::executor::{
    executor_for, ApiExecutor, BinaryExecutor, ExecutorType, PythonExecutor, ShellExecutor,
};
use omni_runner::models::{PipelineStep, SecurityPolicy, StepType, TaskStatus};

fn step(cmd: &str) -> PipelineStep {
    PipelineStep {
        step_id: "test-step".to_string(),
        order: 1,
        step_type: StepType::Shell,
        cmd: cmd.to_string(),
        env: HashMap::new(),
        working_dir: None,
        must_pass: true,
        depends_on: vec![],
        always_run: false,
        retry_policy: None,
        security_policy: SecurityPolicy::default(),
        timeout_seconds: 10,
        artifact_collection: None,
    }
}

#[test]
fn test_shell_executor_default() {
    let executor = ShellExecutor::new();
    assert_eq!(format!("{:?}", executor), "ShellExecutor");
}

#[test]
fn executor_test_python_executor_default() {
    let executor = PythonExecutor::new();
    assert_eq!(format!("{:?}", executor), "PythonExecutor");
}

#[test]
fn python_executor_test_python_executor_default() {
    let executor = PythonExecutor::new();
    assert_eq!(format!("{:?}", executor), "PythonExecutor");
}

#[test]
fn test_api_executor_default() {
    let executor = ApiExecutor::new();
    assert_eq!(format!("{:?}", executor), "ApiExecutor");
}

#[test]
fn test_binary_executor_default() {
    let executor = BinaryExecutor::new();
    assert_eq!(format!("{:?}", executor), "BinaryExecutor");
}

#[test]
fn test_shell_split_command() {
    let executor = ShellExecutor::new();
    let words = executor.split_command("/bin/sh -c 'exit 1'").unwrap();
    assert_eq!(words, vec!["/bin/sh".to_string(), "-c".to_string(), "exit 1".to_string()]);
    let words = executor.split_command("echo \"a b\" c").unwrap();
    assert_eq!(words, vec!["echo".to_string(), "a b".to_string(), "c".to_string()]);
}

#[test]
fn test_shell_split_command_unclosed_quote() {
    let executor = ShellExecutor::new();
    let err = executor.split_command("echo 'oops").unwrap_err();
    assert_eq!(err, "Failed to parse command");
}

#[test]
fn test_shell_completed_success() {
    let executor = ShellExecutor::new();
    let r = executor.completed_result(&step("echo hello"), Some(0), "hello\n", "", "t0".to_string(), "t1".to_string());
    assert_eq!(r.step_id, "test-step");
    assert_eq!(r.status, TaskStatus::Success);
    assert_eq!(r.exit_code, Some(0));
    assert_eq!(r.stdout_lines, Some(1));
    assert_eq!(r.stderr_lines, Some(0));
    assert!(r.error.is_none());
    assert_eq!(r.started_at, Some("t0".to_string()));
    assert_eq!(r.completed_at, Some("t1".to_string()));
}

#[test]
fn test_shell_completed_failure_details() {
    let executor = ShellExecutor::new();
    let r = executor.completed_result(&step("/bin/sh -c 'exit 1'"), Some(1), "", "  boom\nbad \n", "a".to_string(), "b".to_string());
    assert_eq!(r.status, TaskStatus::Failed);
    let e = r.error.unwrap();
    assert_eq!(e.error_type, "ExecutionError");
    assert_eq!(e.message, "Command failed with exit code Some(1)");
    assert_eq!(e.stack_trace, Some("boom\nbad".to_string()));
    assert_eq!(e.context.get("cmd"), Some(&"/bin/sh -c 'exit 1'".to_string()));
    assert_eq!(e.context.get("stderr_preview"), Some(&"  boom\nbad \n".to_string()));
    assert_eq!(r.stderr_lines, Some(2));
}

#[test]
fn test_shell_completed_negative_and_signal() {
    let executor = ShellExecutor::new();
    let r = executor.completed_result(&step("x"), Some(-7), "", "", "a".to_string(), "b".to_string());
    assert_eq!(r.error.unwrap().message, "Command failed with exit code Some(-7)");
    let r = executor.completed_result(&step("x"), None, "", "", "a".to_string(), "b".to_string());
    assert_eq!(r.status, TaskStatus::Crashed);
    assert_eq!(r.error.unwrap().message, "Command failed with exit code None");
}

#[test]
fn test_shell_stderr_preview_is_first_200_chars() {
    let executor = ShellExecutor::new();
    let long: String = std::iter::repeat('é').take(250).collect();
    let preview = executor.stderr_preview(&long);
    assert_eq!(preview.chars().count(), 200);
    assert_eq!(executor.stderr_preview("short"), "short");
}

#[test]
fn test_shell_timeout_result() {
    let executor = ShellExecutor::new();
    let r = executor.timeout_result(&step("sleep 10"), "1.002", "a".to_string(), "b".to_string());
    assert_eq!(r.status, TaskStatus::Timeout);
    assert_eq!(r.signal, Some("SIGKILL".to_string()));
    assert_eq!(r.reason, Some("Task timed out".to_string()));
    let e = r.error.unwrap();
    assert_eq!(e.error_type, "TimeoutError");
    assert_eq!(e.message, "Command timed out after 1.002 seconds");
    assert_eq!(e.context.get("timeout_seconds"), Some(&"10".to_string()));
    assert!(r.stdout_lines.is_none());
}

#[test]
fn test_binary_and_python_results() {
    let b = BinaryExecutor::new();
    let r = b.completed_result(&step("echo"), Some(0), "a\nb\nc", "s".to_string(), "e".to_string());
    assert_eq!(r.status, TaskStatus::Success);
    assert_eq!(r.stdout_lines, Some(3));
    let r = b.completed_result(&step("echo"), Some(2), "", "s".to_string(), "e".to_string());
    assert_eq!(r.status, TaskStatus::Failed);
    let r = b.completed_result(&step("echo"), None, "", "s".to_string(), "e".to_string());
    assert_eq!(r.status, TaskStatus::Failed);
    let p = PythonExecutor::new();
    assert_eq!(p.interpreter(), "python");
    let r = p.completed_result(&step("print(1)"), Some(42), "x\n", "s".to_string(), "e".to_string());
    assert_eq!(r.status, TaskStatus::Failed);
    assert_eq!(r.exit_code, Some(42));
    assert_eq!(r.stdout_lines, Some(1));
}

#[test]
fn test_api_result() {
    let a = ApiExecutor::new();
    let r = a.response_result(&step("http://example.com"), "{\"ok\":true}\n\n", "s".to_string(), "e".to_string());
    assert_eq!(r.status, TaskStatus::Success);
    assert_eq!(r.exit_code, Some(0));
    assert_eq!(r.stdout_lines, Some(2));
}

#[test]
fn test_executor_for_step_type() {
    let mut s = step("x");
    s.step_type = StepType::Python;
    assert!(matches!(executor_for(&s), ExecutorType::Python(_)));
    s.step_type = StepType::Api;
    assert!(matches!(executor_for(&s), ExecutorType::Api(_)));
    s.step_type = StepType::Binary;
    assert!(matches!(executor_for(&s), ExecutorType::Binary(_)));
    s.step_type = StepType::Shell;
    assert!(matches!(executor_for(&s), ExecutorType::Shell(_)));
}

#[test]
fn test_binary_command_words() {
    let e = BinaryExecutor::new();
    assert_eq!(
        e.command_words("echo hello world"),
        vec!["echo".to_string(), "hello".to_string(), "world".to_string()]
    );
    assert_eq!(e.command_words("  /bin/true\t"), vec!["/bin/true".to_string()]);
    assert!(e.command_words("   ").is_empty());
}
