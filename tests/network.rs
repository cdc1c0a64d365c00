use anyviewer::connection::{BringUpAction, ConnectionConfig, ConnectionError, ConnectionManager, ConnectionStatus, ConnectionType};
use anyviewer::discovery::{
    copy_device_info, ConnectionRequestData, DeviceInfo, DiscoveryAction, DiscoveryError, DiscoveryMessage, MessageType,
    NetworkDiscovery,
};
use anyviewer::requests::{ConnectionRequestManager, RequestError};

fn info(id: &str, ip: &str) -> DeviceInfo {
    DeviceInfo {
        device_id: id.to_string(),
        device_name: format!("{id}-name"),
        device_type: "AnyViewer".to_string(),
        version: "1.0.0".to_string(),
        capabilities: vec!["screen_capture".to_string()],
        server_port: 7878,
        ip_address: ip.to_string(),
    }
}

fn message(kind: MessageType, d: &DeviceInfo, now: u64) -> DiscoveryMessage {
    DiscoveryMessage { message_type: kind, device_info: copy_device_info(d), timestamp: now, connection_request: None }
}

#[test]
fn lan_discovery_round_trip() {
    let h = info("h", "10.0.0.2");
    let mut viewer = NetworkDiscovery::with_device_info(info("v", "10.0.0.3"));
    assert!(viewer.start());
    let action = viewer.handle_message(message(MessageType::Announce, &h, 100), "10.0.0.2:7879".to_string(), 100);
    match action {
        DiscoveryAction::Reply(m) => {
            assert_eq!(m.message_type, MessageType::Response);
            assert_eq!(m.device_info.device_id, "v");
        }
        _ => panic!("an announce is answered"),
    }
    let peers = viewer.get_discovered_devices();
    assert_eq!(peers.len(), 1);
    assert_eq!(peers[0].info.device_id, "h");
    assert_eq!(peers[0].info.ip_address, "10.0.0.2");
    let action = viewer.handle_message(message(MessageType::Goodbye, &h, 103), "10.0.0.2:7879".to_string(), 103);
    assert!(matches!(action, DiscoveryAction::Removed));
    assert!(viewer.get_discovered_devices().is_empty());
}

#[test]
fn own_frames_are_ignored() {
    let mut d = NetworkDiscovery::with_device_info(info("me", "10.0.0.5"));
    let same_id = info("me", "10.0.0.9");
    let same_ip = info("other", "10.0.0.5");
    assert!(matches!(d.handle_message(message(MessageType::Announce, &same_id, 1), "x".to_string(), 1), DiscoveryAction::Ignore));
    assert!(matches!(d.handle_message(message(MessageType::Response, &same_ip, 1), "x".to_string(), 1), DiscoveryAction::Ignore));
    assert!(d.get_discovered_devices().is_empty());
}

#[test]
fn newest_record_per_address_wins_and_silent_peers_expire() {
    let mut d = NetworkDiscovery::with_device_info(info("me", "10.0.0.5"));
    d.handle_message(message(MessageType::Response, &info("a", "10.0.0.7"), 0), "a".to_string(), 0);
    d.handle_message(message(MessageType::Response, &info("b", "10.0.0.7"), 5), "b".to_string(), 5);
    d.handle_message(message(MessageType::Response, &info("c", "10.0.0.8"), 20), "c".to_string(), 20);
    let peers = d.get_discovered_devices();
    assert_eq!(peers.len(), 2);
    assert_eq!(peers[0].info.device_id, "b");
    assert!(d.sweep(30).is_none());
    let snapshot = d.sweep(35).unwrap();
    assert_eq!(snapshot.len(), 1);
    assert_eq!(snapshot[0].info.device_id, "c");
}

#[test]
fn connection_requests_are_forwarded_and_sent_to_known_peers() {
    let mut d = NetworkDiscovery::with_device_info(info("me", "10.0.0.5"));
    let data = ConnectionRequestData {
        request_id: "r1".to_string(),
        requester_device_id: "p".to_string(),
        requester_name: "peer".to_string(),
        requester_ip: "10.0.0.6".to_string(),
        requested_permissions: vec!["screen".to_string()],
        message: None,
    };
    let mut m = message(MessageType::ConnectionRequest, &info("p", "10.0.0.6"), 1);
    m.connection_request = Some(data);
    match d.handle_message(m, "10.0.0.6:7879".to_string(), 1) {
        DiscoveryAction::Forward(req) => assert_eq!(req.request_id, "r1"),
        _ => panic!("the request is handed on"),
    }
    let data = ConnectionRequestData {
        request_id: "r2".to_string(),
        requester_device_id: "me".to_string(),
        requester_name: "me".to_string(),
        requester_ip: "10.0.0.5".to_string(),
        requested_permissions: Vec::new(),
        message: Some("hello".to_string()),
    };
    assert_eq!(d.send_connection_request("nobody", data, 2).unwrap_err(), DiscoveryError::DeviceNotFound);
    d.handle_message(message(MessageType::Response, &info("q", "10.0.0.9"), 3), "10.0.0.9:7879".to_string(), 3);
    let data = ConnectionRequestData {
        request_id: "r3".to_string(),
        requester_device_id: "me".to_string(),
        requester_name: "me".to_string(),
        requester_ip: "10.0.0.5".to_string(),
        requested_permissions: Vec::new(),
        message: None,
    };
    let (address, sent) = d.send_connection_request("q", data, 4).unwrap();
    assert_eq!(address, "10.0.0.9:7879");
    assert_eq!(sent.message_type, MessageType::ConnectionRequest);
}

#[test]
fn discovery_stop_is_idempotent() {
    let mut d = NetworkDiscovery::new("host".to_string(), 7878, "10.0.0.5".to_string());
    assert!(d.start());
    assert!(!d.start());
    d.handle_message(message(MessageType::Response, &info("a", "10.0.0.7"), 0), "a".to_string(), 0);
    let goodbye = d.stop(10).unwrap();
    assert_eq!(goodbye.message_type, MessageType::Goodbye);
    assert!(d.get_discovered_devices().is_empty());
    assert!(d.stop(11).is_none());
    assert!(d.get_discovered_devices().is_empty());
    assert_eq!(d.announce_message(12).message_type, MessageType::Announce);
}

#[test]
fn requests_expire_after_their_time_to_live() {
    let mut arbiter = ConnectionRequestManager::new();
    let id = arbiter.create_connection_request("dev".to_string(), "Peer".to_string(), "10.0.0.4".to_string(), Vec::new(), None, 0);
    assert!(!id.is_empty());
    assert!(arbiter.cleanup_expired(59).is_empty());
    let expired = arbiter.cleanup_expired(61);
    assert_eq!(expired, vec![id]);
    assert!(arbiter.get_pending_requests().is_empty());
    assert!(arbiter.cleanup_expired(62).is_empty());
}

#[test]
fn a_request_is_answered_once() {
    let mut arbiter = ConnectionRequestManager::new();
    let a = arbiter.create_connection_request("d1".to_string(), "A".to_string(), "ip".to_string(), Vec::new(), None, 0);
    let b = arbiter.create_connection_request("d2".to_string(), "B".to_string(), "ip".to_string(), Vec::new(), None, 0);
    assert_ne!(a, b);
    let response = arbiter.respond_to_request(a.clone(), true, vec!["screen".to_string()], Some(30), None).unwrap();
    assert!(response.accepted);
    assert_eq!(response.request_id, a);
    assert_eq!(arbiter.respond_to_request(a.clone(), false, Vec::new(), None, None).unwrap_err(), RequestError::NotFound);
    assert_eq!(arbiter.cancel_request(&a), Err(RequestError::NotFound));
    assert_eq!(arbiter.cancel_request(&b), Ok(()));
    assert_eq!(arbiter.get_stats().pending_requests, 0);
}

#[test]
fn discovery_requests_replace_pending_ones_with_the_same_id() {
    let mut arbiter = ConnectionRequestManager::new();
    let make = |name: &str| ConnectionRequestData {
        request_id: "same".to_string(),
        requester_device_id: "d".to_string(),
        requester_name: name.to_string(),
        requester_ip: "ip".to_string(),
        requested_permissions: Vec::new(),
        message: None,
    };
    arbiter.handle_incoming_discovery_request(make("first"), 0);
    let event = arbiter.handle_incoming_discovery_request(make("second"), 1);
    assert_eq!(event.requester_name, "second");
    let pending = arbiter.get_pending_requests();
    assert_eq!(pending.len(), 1);
    assert_eq!(pending[0].requester_name, "second");
}

#[test]
fn host_falls_back_to_the_relay() {
    let mut manager = ConnectionManager::new();
    manager.initialize().unwrap();
    assert!(matches!(manager.start_hosting(), Ok(BringUpAction::StartP2PHost)));
    let id = manager.get_connection_id().unwrap();
    match manager.on_p2p_result(Err("address in use".to_string())) {
        Some(BringUpAction::ConnectRelay { register_as, target }) => {
            assert_eq!(register_as, id);
            assert!(target.is_none());
        }
        _ => panic!("the relay follows"),
    }
    assert_eq!(manager.on_relay_result(Ok(())), Some(BringUpAction::Established(ConnectionType::Relay)));
    assert_eq!(manager.get_connection_status(), ConnectionStatus::Connected(ConnectionType::Relay));
    assert_eq!(id.len(), 7);
    assert!(id.chars().all(|c| c.is_ascii_digit()));
    assert_eq!(manager.send_route(), Ok(ConnectionType::Relay));
}

#[test]
fn without_fallback_a_direct_failure_is_final() {
    let mut config = ConnectionConfig::default_config();
    config.auto_fallback_to_relay = false;
    let mut manager = ConnectionManager::with_config(config);
    assert_eq!(manager.start_hosting().unwrap_err(), ConnectionError::NoConnectionId);
    manager.initialize().unwrap();
    manager.start_hosting().unwrap();
    let action = manager.on_p2p_result(Err("bind failed".to_string()));
    assert!(matches!(action, Some(BringUpAction::Failed(ref m)) if m == "bind failed"));
    assert_eq!(manager.get_connection_status(), ConnectionStatus::Failed("bind failed".to_string()));
    assert_eq!(manager.send_route(), Err(ConnectionError::NotConnected));
    assert_eq!(manager.on_relay_result(Ok(())), None);
}

#[test]
fn viewer_mints_an_id_for_the_relay() {
    let mut config = ConnectionConfig::default_config();
    config.p2p_enabled = false;
    let mut manager = ConnectionManager::with_config(config);
    match manager.connect_to_host("1234567".to_string()) {
        BringUpAction::ConnectRelay { register_as, target } => {
            assert_eq!(register_as.len(), 7);
            assert_eq!(target.as_deref(), Some("1234567"));
        }
        _ => panic!("the relay is tried"),
    }
    assert_eq!(manager.on_timeout().is_some(), true);
    assert_eq!(manager.get_connection_status(), ConnectionStatus::Failed("Timeout".to_string()));
}

#[test]
fn disconnect_is_idempotent() {
    let mut manager = ConnectionManager::new();
    manager.initialize().unwrap();
    manager.start_hosting().unwrap();
    manager.on_p2p_result(Ok(()));
    assert_eq!(manager.disconnect(), Some(ConnectionType::P2P));
    assert_eq!(manager.get_connection_status(), ConnectionStatus::Disconnected);
    assert_eq!(manager.disconnect(), None);
    assert_eq!(manager.get_connection_status(), ConnectionStatus::Disconnected);
    assert_eq!(manager.on_p2p_result(Ok(())), None);
}

#[test]
fn with_no_transport_enabled_bring_up_fails() {
    let mut config = ConnectionConfig::default_config();
    config.p2p_enabled = false;
    config.relay_enabled = false;
    let mut manager = ConnectionManager::with_config(config);
    manager.initialize().unwrap();
    assert!(matches!(manager.start_hosting(), Ok(BringUpAction::Failed(_))));
    assert!(matches!(manager.get_connection_status(), ConnectionStatus::Failed(_)));
}
