use anyviewer::permissions::{
    DeviceInfo, Permission, PermissionConfig, PermissionError, PermissionManager, PermissionResponse,
};

fn device() -> DeviceInfo {
    DeviceInfo { name: "laptop".to_string(), os: "linux".to_string(), version: "1".to_string(), ip_address: None }
}

#[test]
fn grant_gates_capabilities_until_revoked() {
    let mut store = PermissionManager::new();
    store.grant_permission("c1".to_string(), device(), vec![Permission::ScreenView], Some(1), 1000);
    assert!(store.check_permission("c1", Permission::ScreenView, 1000));
    assert!(!store.check_permission("c1", Permission::InputControl, 1000));
    let removed = store.revoke_permissions("c1", None);
    assert_eq!(removed, Some(vec![Permission::ScreenView]));
    assert!(!store.check_permission("c1", Permission::ScreenView, 1000));
    assert_eq!(store.revoke_permissions("c1", None), None);
}

#[test]
fn grants_expire() {
    let mut store = PermissionManager::new();
    store.grant_permission("c".to_string(), device(), vec![Permission::Clipboard], Some(2), 100);
    assert!(store.check_permission("c", Permission::Clipboard, 219));
    assert!(store.check_permission("c", Permission::Clipboard, 220));
    assert!(!store.check_permission("c", Permission::Clipboard, 221));
    assert_eq!(store.cleanup_expired(221), vec!["c".to_string()]);
    assert_eq!(store.active_count(), 0);
}

#[test]
fn grants_without_end_never_expire() {
    let mut store = PermissionManager::new();
    store.grant_permission("c".to_string(), device(), vec![Permission::SystemInfo], None, 0);
    assert!(store.check_permission("c", Permission::SystemInfo, u64::MAX));
    assert!(store.cleanup_expired(u64::MAX).is_empty());
}

#[test]
fn a_second_grant_replaces_the_first() {
    let mut store = PermissionManager::new();
    store.grant_permission("c".to_string(), device(), vec![Permission::ScreenView], None, 0);
    store.grant_permission("c".to_string(), device(), vec![Permission::InputControl], None, 5);
    assert_eq!(store.active_count(), 1);
    assert!(!store.check_permission("c", Permission::ScreenView, 5));
    assert!(store.check_permission("c", Permission::InputControl, 5));
    let grants = store.get_active_grants();
    assert_eq!(grants.len(), 1);
    assert_eq!(grants[0].granted_at, 5);
}

#[test]
fn partial_revocation_keeps_the_rest() {
    let mut store = PermissionManager::new();
    store.grant_permission(
        "c".to_string(),
        device(),
        vec![Permission::ScreenView, Permission::InputControl, Permission::FileTransfer],
        None,
        0,
    );
    let removed = store.revoke_permissions("c", Some(vec![Permission::InputControl, Permission::AudioAccess]));
    assert_eq!(removed, Some(vec![Permission::InputControl]));
    assert!(store.check_permission("c", Permission::ScreenView, 0));
    assert!(!store.check_permission("c", Permission::InputControl, 0));
    store.revoke_permissions("c", Some(vec![Permission::ScreenView, Permission::FileTransfer]));
    assert_eq!(store.active_count(), 0);
    assert!(!store.check_permission("c", Permission::ScreenView, 0));
    assert!(!store.check_permission("other", Permission::ScreenView, 0));
}

#[test]
fn whitelisted_devices_are_granted_at_once() {
    let mut store = PermissionManager::new();
    let mut config = PermissionConfig::default_config();
    config.enable_whitelist = true;
    config.whitelisted_devices = vec!["laptop".to_string()];
    store.update_config(config);
    let id = store.request_permission("c9".to_string(), device(), vec![Permission::ScreenView], 0).unwrap();
    assert_eq!(id, "c9");
    assert!(store.check_permission("c9", Permission::ScreenView, 3599));
    assert!(!store.check_permission("c9", Permission::ScreenView, 3601));
    assert_eq!(store.get_permission_stats().pending_requests, 0);
}

#[test]
fn requests_wait_until_answered_and_respect_the_limit() {
    let mut store = PermissionManager::new();
    let id = store.request_permission("c1".to_string(), device(), vec![Permission::ScreenView], 0).unwrap();
    assert_eq!(store.get_permission_stats().pending_requests, 1);
    let answer = store
        .respond_to_request(&id, PermissionResponse::Granted { permissions: vec![Permission::ScreenView], duration_minutes: None }, 10)
        .unwrap();
    assert!(matches!(answer, PermissionResponse::Granted { .. }));
    assert!(store.check_permission("c1", Permission::ScreenView, 10));
    assert_eq!(
        store.respond_to_request(&id, PermissionResponse::Expired, 11).unwrap_err(),
        PermissionError::RequestNotFound
    );
    store.grant_permission("c2".to_string(), device(), vec![Permission::ScreenView], None, 0);
    store.grant_permission("c3".to_string(), device(), vec![Permission::ScreenView], None, 0);
    assert_eq!(
        store.request_permission("c4".to_string(), device(), vec![Permission::ScreenView], 0).unwrap_err(),
        PermissionError::TooManyConnections
    );
}

#[test]
fn late_answers_are_expired() {
    let mut store = PermissionManager::new();
    let id = store.request_permission("c1".to_string(), device(), vec![Permission::ScreenView], 0).unwrap();
    let answer = store
        .respond_to_request(&id, PermissionResponse::Granted { permissions: vec![Permission::ScreenView], duration_minutes: None }, 301)
        .unwrap();
    assert!(matches!(answer, PermissionResponse::Expired));
    assert!(!store.check_permission("c1", Permission::ScreenView, 301));
    let other = store.request_permission("c2".to_string(), device(), vec![Permission::ScreenView], 0).unwrap();
    assert_eq!(store.cleanup_expired_requests(301), vec![other]);
}

#[test]
fn a_granted_answer_replaces_the_connections_grant() {
    let mut store = PermissionManager::new();
    store.grant_permission("c".to_string(), device(), vec![Permission::ScreenView], None, 0);
    let id = store.request_permission("c".to_string(), device(), vec![Permission::InputControl], 1).unwrap();
    store
        .respond_to_request(&id, PermissionResponse::Granted { permissions: vec![Permission::InputControl], duration_minutes: Some(1) }, 2)
        .unwrap();
    let grants = store.get_active_grants();
    assert_eq!(grants.len(), 1);
    assert_eq!(grants[0].permissions, vec![Permission::InputControl]);
    assert!(!store.check_permission("c", Permission::ScreenView, 2));
    assert!(store.check_permission("c", Permission::InputControl, 62));
    let other = store.request_permission("d".to_string(), device(), vec![Permission::ScreenView], 3).unwrap();
    let answer = store.respond_to_request(&other, PermissionResponse::Denied { reason: "no".to_string() }, 4).unwrap();
    assert!(matches!(answer, PermissionResponse::Denied { ref reason } if reason == "no"));
    assert!(!store.check_permission("d", Permission::ScreenView, 4));
}
