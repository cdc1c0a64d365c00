use anyviewer::metrics::{
    AlertThresholds, AlertType, ConnectionMetrics, ConnectionType, MetricsCollector, QualityMetrics, SystemMetrics,
};

fn sample(id: &str, latency: u32, bandwidth: u32) -> ConnectionMetrics {
    ConnectionMetrics {
        connection_id: id.to_string(),
        connection_type: ConnectionType::P2P,
        latency_ms: latency,
        bandwidth_kbps: bandwidth,
        packet_loss_permille: 0,
        jitter_ms: 1,
        quality_score: 90,
        last_updated: 0,
    }
}

#[test]
fn connection_alerts_are_raised_once_per_window() {
    let mut m = MetricsCollector::new();
    assert_eq!(m.record_connection_metrics(sample("c", 250, 500), 100), vec![AlertType::HighLatency, AlertType::LowBandwidth]);
    assert!(m.record_connection_metrics(sample("c", 300, 500), 120).is_empty());
    assert_eq!(m.record_connection_metrics(sample("d", 300, 5000), 120), vec![AlertType::HighLatency]);
    assert_eq!(m.record_connection_metrics(sample("c", 300, 5000), 200), vec![AlertType::HighLatency]);
    assert!(m.record_connection_metrics(sample("c", 20, 5000), 300).is_empty());
    assert_eq!(m.get_connection_metrics("c").unwrap().latency_ms, 20);
    assert!(m.get_connection_metrics("x").is_none());
    assert_eq!(m.get_alert_count(), 4);
}

#[test]
fn system_and_quality_alerts() {
    let mut m = MetricsCollector::new();
    assert!(m.evaluate_alerts(0).is_empty());
    m.record_system_metrics(SystemMetrics {
        cpu_usage_permille: 950,
        memory_usage_permille: 100,
        memory_used_mb: 1,
        memory_total_mb: 8,
        disk_usage_permille: 0,
        network_rx_kbps: 0,
        network_tx_kbps: 0,
        screen_capture_fps: 30,
        encoding_fps: 30,
        last_updated: 0,
    });
    m.record_quality_metrics(QualityMetrics {
        video_quality_score: 50,
        input_responsiveness_ms: 10,
        frame_drops_per_minute: 0,
        compression_efficiency_permille: 500,
        user_satisfaction_score: 80,
        last_updated: 0,
    });
    assert_eq!(m.evaluate_alerts(10), vec![AlertType::HighCpuUsage, AlertType::LowQualityScore]);
    assert!(m.evaluate_alerts(20).is_empty());
    m.clear_acknowledged_alerts();
    assert_eq!(m.get_alert_count(), 2);
    assert!(m.acknowledge_alert("no-such-alert").is_err());
    let mut strict = AlertThresholds::default_thresholds();
    strict.max_cpu_usage_permille = 990;
    m.update_alert_thresholds(strict);
    assert_eq!(m.get_system_metrics().unwrap().cpu_usage_permille, 950);
}

#[test]
fn acknowledged_alerts_are_cleared() {
    let mut m = MetricsCollector::new();
    m.record_connection_metrics(sample("c", 250, 5000), 0);
    let alerts = m.get_alerts();
    assert_eq!(alerts.len(), 1);
    assert!(!alerts[0].acknowledged);
    assert_eq!(alerts[0].id.len(), 36);
    assert!(m.acknowledge_alert(&alerts[0].id).is_ok());
    assert!(m.get_alerts()[0].acknowledged);
    assert_eq!(m.record_connection_metrics(sample("c", 250, 5000), 10), vec![AlertType::HighLatency]);
    m.clear_acknowledged_alerts();
    assert_eq!(m.get_alert_count(), 1);
}
