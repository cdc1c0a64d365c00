use anyviewer::client::{ClientAction, ClientEvent, ClientFrame, ClientSession};
use anyviewer::p2p::{P2PEvent, P2PRegistry};

#[test]
fn registry_tracks_heartbeats_and_drops_silent_links() {
    let mut registry = P2PRegistry::new();
    let event = registry.add_connection("a".to_string(), "1234567".to_string(), "10.0.0.2:5000".to_string(), 0);
    assert!(matches!(event, P2PEvent::ConnectionEstablished(ref k, ref addr) if k == "a" && addr == "10.0.0.2:5000"));
    registry.add_connection("b".to_string(), "1234567".to_string(), "10.0.0.3:5000".to_string(), 0);
    registry.on_heartbeat("a", 50);
    let lost = registry.remove_silent(70, 60);
    assert_eq!(lost.len(), 1);
    assert!(matches!(&lost[0], P2PEvent::ConnectionLost(k) if k == "b"));
    assert_eq!(registry.connection_count(), 1);
    assert!(registry.remove_silent(110, 60).is_empty());
    assert!(registry.remove_connection("a").is_some());
    assert!(registry.remove_connection("a").is_none());
    assert_eq!(registry.connection_count(), 0);
}

#[test]
fn re_adding_a_key_replaces_the_link() {
    let mut registry = P2PRegistry::new();
    registry.add_connection("a".to_string(), "1".to_string(), "x".to_string(), 0);
    registry.add_connection("a".to_string(), "1".to_string(), "y".to_string(), 5);
    assert_eq!(registry.connection_count(), 1);
    registry.clear();
    assert_eq!(registry.connection_count(), 0);
}

#[test]
fn client_frames_map_to_actions() {
    use_client();
}

fn use_client() {
    let mut session = ClientSession::new();
    assert!(matches!(session.on_connected(), ClientEvent::Connected));
    let a = session.on_client_frame(ClientFrame::Binary(vec![1, 2]));
    assert!(matches!(&a[..], [ClientAction::Emit(ClientEvent::ScreenFrameReceived(d))] if d == &vec![1, 2]));
    let a = session.on_client_frame(ClientFrame::Ping(vec![9]));
    assert!(matches!(&a[..], [ClientAction::SendPong(p)] if p == &vec![9]));
    assert!(session.on_client_frame(ClientFrame::Pong(vec![])).is_empty());
    assert!(matches!(session.on_auth_response(false, "bad key".to_string()), ClientEvent::AuthenticationFailed(e) if e == "bad key"));
    assert!(matches!(session.on_auth_response(true, String::new()), ClientEvent::AuthenticationSuccess));
    let a = session.on_client_frame(ClientFrame::Close);
    assert!(matches!(&a[..], [ClientAction::Emit(ClientEvent::Disconnected), ClientAction::Stop]));
}
