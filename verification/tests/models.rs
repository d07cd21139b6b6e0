use omni_runner::models::{
    default_delay, default_must_pass, default_retries, default_retry_count, NetworkPolicy,
    RetryPolicy, SecurityPolicy,
};

#[test]
fn test_security_policy_defaults() {
    let policy = SecurityPolicy::default();
    assert_eq!(policy.allow_sudo, false);
    assert!(policy.forbidden_cmds.is_empty());
    assert!(policy.allowed_dirs.is_empty());
}

#[test]
fn test_retry_policy_integer_defaults() {
    let policy = RetryPolicy::default();
    assert_eq!(policy.max_retries, 0);
    assert_eq!(policy.retry_delay_seconds, 5);
    assert_eq!(default_retries(), 0);
    assert_eq!(default_delay(), 5);
    assert!(default_must_pass());
    assert_eq!(default_retry_count(), 0);
}

#[test]
fn test_network_policy_default() {
    let policy = NetworkPolicy::default();
    assert!(!policy.allow_internet);
    assert!(policy.allowed_hosts.is_empty());
}
