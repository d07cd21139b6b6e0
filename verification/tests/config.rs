use omni_runner::config::{
    default_heartbeat_interval_seconds, default_interval_seconds, default_log_dir,
    default_workspace_dir, ExecutionConfig, PollingConfig,
};

#[test]
fn test_polling_config_defaults() {
    let config = PollingConfig::default();
    assert_eq!(config.interval_seconds, 5);
    assert_eq!(config.heartbeat_interval_seconds, 30);
}

#[test]
fn test_execution_config_defaults() {
    let config = ExecutionConfig::default();
    assert_eq!(std::path::PathBuf::from(&config.workspace_dir), std::path::PathBuf::from("./workspace"));
    assert_eq!(std::path::PathBuf::from(&config.log_dir), std::path::PathBuf::from("./logs"));
}

#[test]
fn test_default_value_functions() {
    assert_eq!(default_interval_seconds(), 5);
    assert_eq!(default_heartbeat_interval_seconds(), 30);
    assert_eq!(default_workspace_dir(), "./workspace");
    assert_eq!(default_log_dir(), "./logs");
}
