use omni_runner::pipeline::ResourceLockManager;

#[test]
fn test_acquire_lock_success() {
    let mut manager = ResourceLockManager::new();
    let result = manager.acquire_lock("device1", "task1");
    assert!(result.is_ok());
    assert!(result.unwrap());
}

#[test]
fn test_acquire_lock_already_locked() {
    let mut manager = ResourceLockManager::new();
    manager.acquire_lock("device1", "task1").unwrap();

    let result = manager.acquire_lock("device1", "task2");
    assert!(result.is_ok());
    assert!(!result.unwrap());
}

#[test]
fn test_release_lock_success() {
    let mut manager = ResourceLockManager::new();
    manager.acquire_lock("device1", "task1").unwrap();

    let result = manager.release_lock("device1", "task1");
    assert!(result.is_ok());
}

#[test]
fn test_release_lock_not_owner() {
    let mut manager = ResourceLockManager::new();
    manager.acquire_lock("device1", "task1").unwrap();

    let result = manager.release_lock("device1", "task2");
    assert!(result.is_err());
}

#[test]
fn test_release_lock_not_locked() {
    let mut manager = ResourceLockManager::new();

    let result = manager.release_lock("device1", "task1");
    assert!(result.is_err());
}

#[test]
fn test_is_locked() {
    let mut manager = ResourceLockManager::new();
    assert!(!manager.is_locked("device1"));

    manager.acquire_lock("device1", "task1").unwrap();
    assert!(manager.is_locked("device1"));

    manager.release_lock("device1", "task1").unwrap();
    assert!(!manager.is_locked("device1"));
}

#[test]
fn test_get_lock_owner() {
    let mut manager = ResourceLockManager::new();
    assert!(manager.get_lock_owner("device1").is_none());

    manager.acquire_lock("device1", "task1").unwrap();
    let owner = manager.get_lock_owner("device1");
    assert_eq!(owner, Some("task1".to_string()));

    manager.release_lock("device1", "task1").unwrap();
    assert!(manager.get_lock_owner("device1").is_none());
}

#[test]
fn test_clear_all() {
    let mut manager = ResourceLockManager::new();
    manager.acquire_lock("device1", "task1").unwrap();
    manager.acquire_lock("device2", "task2").unwrap();

    assert!(manager.is_locked("device1"));
    assert!(manager.is_locked("device2"));

    manager.clear_all();

    assert!(!manager.is_locked("device1"));
    assert!(!manager.is_locked("device2"));
}

#[test]
fn test_reacquire_by_owner_succeeds() {
    let mut manager = ResourceLockManager::new();
    assert_eq!(manager.acquire_lock("d", "t"), Ok(true));
    assert_eq!(manager.acquire_lock("d", "t"), Ok(true));
    assert_eq!(manager.acquire_lock("d", "u"), Ok(false));
    assert_eq!(manager.get_lock_owner("d"), Some("t".to_string()));
}

#[test]
fn test_release_error_messages() {
    let mut manager = ResourceLockManager::new();
    assert_eq!(
        manager.release_lock("dev", "t1"),
        Err("Cannot release lock: device dev is not locked".to_string())
    );
    manager.acquire_lock("dev", "t1").unwrap();
    assert_eq!(
        manager.release_lock("dev", "t2"),
        Err("Cannot release lock: device dev is owned by t1, not t2".to_string())
    );
    assert!(manager.is_locked("dev"));
}

#[test]
fn test_release_undoes_acquire() {
    let mut manager = ResourceLockManager::new();
    manager.acquire_lock("a", "t").unwrap();
    manager.acquire_lock("b", "u").unwrap();
    manager.release_lock("b", "u").unwrap();
    assert!(manager.is_locked("a"));
    assert!(!manager.is_locked("b"));
    assert_eq!(manager.acquire_lock("b", "v"), Ok(true));
}
