use omni_runner::api::client::{is_success_status, poll_reply, ApiClient, PollReply};

#[test]
fn test_api_routes() {
    let c = ApiClient::new("http://srv:8000".to_string(), "dev-1".to_string(), Some("k".to_string()))
        .unwrap();
    assert_eq!(c.pending_tasks_url(), "http://srv:8000/api/v1/tasks?status=pending");
    assert_eq!(c.assign_url("t-9"), "http://srv:8000/api/v1/tasks/t-9/assign");
    assert_eq!(c.heartbeat_url(), "http://srv:8000/api/v1/devices/dev-1/heartbeat");
    assert_eq!(c.result_url("t-9"), "http://srv:8000/api/v1/tasks/t-9/result");
    assert_eq!(c.authorization(), Some("Bearer k".to_string()));
}

#[test]
fn test_api_no_key_no_authorization() {
    let c = ApiClient::new("http://srv".to_string(), "d".to_string(), None).unwrap();
    assert_eq!(c.authorization(), None);
    assert_eq!(c.api_key(), None);
    assert_eq!(c.device_id(), "d");
}

#[test]
fn test_poll_reply_by_status() {
    assert_eq!(poll_reply(404), PollReply::NotFound);
    assert_eq!(poll_reply(200), PollReply::Listed);
    assert_eq!(poll_reply(204), PollReply::Listed);
    assert_eq!(poll_reply(500), PollReply::Failed);
    assert_eq!(poll_reply(301), PollReply::Failed);
    assert!(is_success_status(299));
    assert!(!is_success_status(199));
    assert!(!is_success_status(300));
}
