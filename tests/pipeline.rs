use anyviewer::connection::RelayConfig;
use anyviewer::delta::RawFrame;
use anyviewer::relay::{DeviceInfo, RelayClient, RelayClientEvent, RelayError, RelayMessage, RelayMessageType, RelayPayload};
use anyviewer::streamer::{adapt_quality, gradient_placeholder, StreamState, StreamingConfig, StreamingEvent, StreamingManager};

fn solid(width: u32, height: u32, v: u8) -> RawFrame {
    RawFrame { width, height, data: vec![v; (width * height * 4) as usize] }
}

#[test]
fn a_stopped_pipeline_drops_frames() {
    let mut s = StreamingManager::new(StreamingConfig::default_config());
    assert!(s.on_frame(solid(32, 32, 0), 0).is_empty());
    assert_eq!(s.get_frame_buffer_size(), 0);
}

#[test]
fn running_pipeline_encodes_buffers_and_reports() {
    let mut s = StreamingManager::new(StreamingConfig::default_config());
    assert!(s.start_streaming(0));
    assert!(!s.start_streaming(1));
    let events = s.on_frame(solid(32, 32, 0), 10);
    assert!(matches!(&events[0], StreamingEvent::FrameReady(b) if b[0] == 0));
    let events = s.on_frame(solid(32, 32, 0), 20);
    assert!(matches!(&events[0], StreamingEvent::FrameReady(b) if b[0] == 2 && b.len() == 13));
    let events = s.on_frame(solid(32, 32, 0), 1500);
    assert!(events.iter().any(|e| matches!(e, StreamingEvent::StatUpdate(st) if st.total_frames == 3)));
    assert_eq!(s.get_frame_buffer_size(), 3);
    let events = s.on_frame(solid(32, 32, 0), 1600);
    assert!(events.iter().any(|e| matches!(e, StreamingEvent::FrameDropped(_))));
    assert_eq!(s.get_frame_buffer_size(), 3);
}

#[test]
fn quality_changes_only_while_running() {
    let mut s = StreamingManager::new(StreamingConfig::default_config());
    assert!(s.adjust_quality(50).is_none());
    s.start_streaming(0);
    assert!(matches!(s.adjust_quality(50), Some(StreamingEvent::QualityAdjusted(50))));
    assert!(s.adjust_quality(0).is_none());
    assert!(s.adjust_quality(101).is_none());
}

#[test]
fn stopping_is_idempotent() {
    let mut s = StreamingManager::new(StreamingConfig::default_config());
    s.start_streaming(0);
    s.on_frame(solid(16, 16, 3), 5);
    assert!(s.stop_streaming());
    assert!(!s.is_streaming());
    assert!(!s.stop_streaming());
    assert!(!s.is_streaming());
    assert_eq!(s.frame_interval_ms(), 33);
    let _ = StreamState::Stopped;
}

#[test]
fn adaptive_quality_steps() {
    assert_eq!(adapt_quality(75, 75, 20_000, 10_000), 70);
    assert_eq!(adapt_quality(12, 75, 20_000, 10_000), 10);
    assert_eq!(adapt_quality(10, 75, 20_000, 10_000), 10);
    assert_eq!(adapt_quality(60, 75, 1_000, 10_000), 65);
    assert_eq!(adapt_quality(73, 75, 1_000, 10_000), 75);
    assert_eq!(adapt_quality(60, 75, 7_000, 10_000), 60);
}

#[test]
fn capture_failures_become_gradients() {
    let g = gradient_placeholder(4, 2);
    assert_eq!(g.data.len(), 32);
    assert_eq!(&g.data[0..4], &[0, 0, 128, 255]);
    assert_eq!(&g.data[12..16], &[191, 0, 128, 255]);
    assert_eq!(&g.data[16..20], &[0, 127, 128, 255]);
    let mut s = StreamingManager::new(StreamingConfig::default_config());
    s.start_streaming(0);
    let events = s.on_capture_failed(5);
    assert!(matches!(&events[0], StreamingEvent::FrameReady(_)));
}

fn relay() -> RelayClient {
    let info = DeviceInfo { name: "host".to_string(), os: "Linux".to_string(), version: "1.0.0".to_string() };
    RelayClient::new(RelayConfig::default_config(), info)
}

#[test]
fn relay_registration_flow() {
    let mut client = relay();
    assert_eq!(client.check_enabled(), Ok(()));
    assert_eq!(client.register("1234567".to_string(), 1).unwrap_err(), RelayError::NotConnected);
    client.on_connected();
    let m = client.register("1234567".to_string(), 2).unwrap();
    assert_eq!(m.message_type, RelayMessageType::Register);
    assert_eq!(m.target_id, "relay");
    assert_eq!(client.send_screen_frame("7654321".to_string(), &[1, 2, 3], 3).unwrap_err(), RelayError::NotRegistered);
    let answer = RelayMessage {
        message_type: RelayMessageType::RegisterResponse,
        source_id: None,
        target_id: "1234567".to_string(),
        data: RelayPayload::Registered { success: true, connection_id: Some("1234567".to_string()), error: None },
        timestamp: 4,
    };
    assert!(matches!(client.handle_incoming(answer), Some(RelayClientEvent::RegistrationSuccess(id)) if id == "1234567"));
    let frame = client.send_screen_frame("7654321".to_string(), &[1, 2, 3], 5).unwrap();
    assert!(matches!(frame.data, RelayPayload::Frame { ref frame_data } if frame_data == "AQID"));
    assert_eq!(frame.source_id.as_deref(), Some("1234567"));
    assert!(client.connect_to_peer("7654321".to_string(), 6).is_ok());
    assert!(client.heartbeat(7).is_some());
    assert!(client.disconnect(8).is_some());
    assert!(client.disconnect(9).is_none());
    assert!(client.heartbeat(10).is_none());
}

#[test]
fn relay_reports_failed_registrations_and_other_messages() {
    let mut client = relay();
    client.on_connected();
    let answer = RelayMessage {
        message_type: RelayMessageType::RegisterResponse,
        source_id: None,
        target_id: "x".to_string(),
        data: RelayPayload::Registered { success: false, connection_id: None, error: None },
        timestamp: 0,
    };
    assert!(matches!(client.handle_incoming(answer), Some(RelayClientEvent::RegistrationFailed(e)) if e == "Unknown error"));
    let other = RelayMessage {
        message_type: RelayMessageType::ScreenFrame,
        source_id: None,
        target_id: "x".to_string(),
        data: RelayPayload::Empty,
        timestamp: 0,
    };
    assert!(matches!(client.handle_incoming(other), Some(RelayClientEvent::MessageReceived(m)) if m.message_type == RelayMessageType::ScreenFrame));
    assert!(matches!(client.on_closed(), RelayClientEvent::Disconnected));
}

#[test]
fn relay_frames_are_padded_base64() {
    let mut client = relay();
    client.on_connected();
    client.register("1234567".to_string(), 0).unwrap();
    let answer = RelayMessage {
        message_type: RelayMessageType::RegisterResponse,
        source_id: None,
        target_id: "1234567".to_string(),
        data: RelayPayload::Registered { success: true, connection_id: None, error: None },
        timestamp: 0,
    };
    assert!(client.handle_incoming(answer).is_none());
    let one = client.send_screen_frame("x".to_string(), &[1], 1).unwrap();
    assert!(matches!(one.data, RelayPayload::Frame { ref frame_data } if frame_data == "AQ=="));
    let two = client.send_screen_frame("x".to_string(), &[1, 2], 1).unwrap();
    assert!(matches!(two.data, RelayPayload::Frame { ref frame_data } if frame_data == "AQI="));
    let four = client.send_screen_frame("x".to_string(), &[255, 254, 253, 0], 1).unwrap();
    assert!(matches!(four.data, RelayPayload::Frame { ref frame_data } if frame_data == "//79AA=="));
    let input = client.send_input_event("x".to_string(), "{\"k\":1}".to_string(), 2).unwrap();
    assert!(matches!(input.data, RelayPayload::Input(ref j) if j == "{\"k\":1}"));
}

#[test]
fn starting_a_running_pipeline_changes_nothing() {
    let mut s = StreamingManager::new(StreamingConfig::default_config());
    s.start_streaming(0);
    s.on_frame(solid(16, 16, 1), 10);
    s.on_frame(solid(16, 16, 1), 1200);
    let stats = s.get_stats();
    let size = s.get_frame_buffer_size();
    assert!(!s.start_streaming(5000));
    assert_eq!(s.get_stats(), stats);
    assert_eq!(s.get_frame_buffer_size(), size);
    assert_eq!(stats.total_frames, 2);
    assert!(s.get_latest_frame().is_some());
}
