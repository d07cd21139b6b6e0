use omni_runner::api::client::ApiClient;

#[test]
fn test_api_coverage_methods() {
    let client = ApiClient::new("http://test.com".to_string(), "device-001".to_string(), Some("key".to_string())).unwrap();
    
    assert!(client.base_url().len() > 0);
    assert_eq!(client.device_id(), "device-001");
    assert!(client.api_key().is_some());
}

#[test]
fn test_api_coverage_no_api_key() {
    let client = ApiClient::new("http://test.com".to_string(), "device-001".to_string(), None).unwrap();
    
    assert!(client.api_key().is_none());
}

#[test]
fn test_models_defaults_coverage() {
    let retry_policy = omni_runner::models::RetryPolicy::default();
    assert_eq!(retry_policy.max_retries, 0);
    
    let _security_policy = omni_runner::models::SecurityPolicy::default();
}

