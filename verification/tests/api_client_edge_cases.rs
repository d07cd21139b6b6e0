use omni_runner::api::client::ApiClient;
use omni_runner::models::{DeviceBinding, PipelineStep};
use std::collections::HashMap;

#[test]
fn test_api_client_edge_empty_device_id() {
    let result = ApiClient::new("http://test.com".to_string(), "".to_string(), None);
    assert!(result.is_ok());
}

#[test]
fn test_api_client_edge_whitespace_device_id() {
    let result = ApiClient::new("http://test.com".to_string(), "   ".to_string(), None);
    assert!(result.is_ok());
}

#[test]
fn test_api_client_edge_invalid_url() {
    let result = ApiClient::new("invalid-url".to_string(), "device-001".to_string(), None);
    assert!(result.is_ok());
}

#[test]
fn test_api_client_edge_ipv4_url() {
    let result = ApiClient::new("http://192.168.1.1:8080".to_string(), "device-001".to_string(), None);
    assert!(result.is_ok());
}

#[test]
fn test_api_client_edge_ipv6_url() {
    let result = ApiClient::new("http://[::1]:8080".to_string(), "device-001".to_string(), None);
    assert!(result.is_ok());
}

#[test]
fn test_api_client_edge_empty_api_key() {
    let result = ApiClient::new("http://test.com".to_string(), "device-001".to_string(), Some("".to_string()));
    assert!(result.is_ok());
}

#[test]
fn test_pipeline_step_edge_minimal() {
    let step = PipelineStep {
        step_id: "minimal-step".to_string(),
        order: 1,
        step_type: omni_runner::models::StepType::Shell,
        cmd: "echo test".to_string(),
        env: HashMap::new(),
        working_dir: None,
        must_pass: false,
        depends_on: vec![],
        always_run: false,
        retry_policy: None,
        security_policy: omni_runner::models::SecurityPolicy::default(),
        timeout_seconds: 0,
        artifact_collection: None,
    };
    
    assert_eq!(step.order, 1);
    assert_eq!(step.timeout_seconds, 0);
    assert!(step.depends_on.is_empty());
}

#[test]
fn test_device_binding_edge_empty_methods() {
    let binding = DeviceBinding {
        device_id: "test-device".to_string(),
        device_type: "test".to_string(),
        oob_methods: vec![],
    };
    
    assert!(binding.oob_methods.is_empty());
}
