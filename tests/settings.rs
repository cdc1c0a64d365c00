use anyviewer::config::{AppConfig, ConfigError};
use anyviewer::perf::{PerformanceMonitor, PerformanceTimer};

#[test]
fn defaults_are_valid() {
    let config = AppConfig::default_config();
    assert_eq!(config.validate(), Ok(()));
    assert_eq!(config.server.port, 7878);
    assert_eq!(config.codec.format, "jpeg");
}

#[test]
fn each_rule_reports_its_error() {
    let mut c = AppConfig::default_config();
    c.server.port = 0;
    assert_eq!(c.validate(), Err(ConfigError::ServerPortZero));
    c.reset_to_defaults();
    c.server.discovery_port = c.server.port;
    assert_eq!(c.validate(), Err(ConfigError::PortsCollide));
    c.reset_to_defaults();
    c.capture.fps = 121;
    assert_eq!(c.validate(), Err(ConfigError::FpsOutOfRange));
    c.reset_to_defaults();
    c.codec.format = "gif".to_string();
    assert_eq!(c.validate(), Err(ConfigError::UnknownCodecFormat));
    c.reset_to_defaults();
    c.ui.window_height = 299;
    assert_eq!(c.validate(), Err(ConfigError::WindowTooSmall));
    c.reset_to_defaults();
    c.ui.theme = "blue".to_string();
    assert_eq!(c.validate(), Err(ConfigError::UnknownTheme));
    c.reset_to_defaults();
    c.server.max_connections = 0;
    c.capture.quality = 0;
    assert_eq!(c.validate(), Err(ConfigError::MaxConnectionsZero));
}

#[test]
fn monitor_keeps_bounded_histories() {
    let mut m = PerformanceMonitor::new(3);
    m.record_frame_at(0);
    m.record_frame_at(40);
    m.record_frame_at(60);
    assert_eq!(m.average_frame_time_ms(), 30);
    assert_eq!(m.frames_per_second(), 33);
    for t in [10, 20, 30, 40] {
        m.record_encode_time(t);
    }
    assert_eq!(m.average_encode_time_ms(), 30);
    m.record_network_latency(7);
    assert_eq!(m.average_network_latency_ms(), 7);
    m.reset();
    assert_eq!(m.average_frame_time_ms(), 0);
    assert_eq!(m.frames_per_second(), 0);
}

#[test]
fn timers_measure_from_their_start() {
    let timer = PerformanceTimer::start("encode");
    let start = timer.start_time;
    assert_eq!(timer.stop_at(start + 25), 25);
    let timer = PerformanceTimer::start("encode");
    assert!(timer.stop() < 60_000);
}

#[test]
fn logged_operations_return_their_result() {
    assert_eq!(anyviewer::perf::log_performance("sum", || 2 + 3), 5);
}
