use anyviewer::frame_buffer::FrameBuffer;

#[test]
fn buffer_keeps_at_most_capacity_and_counts_bytes() {
    let mut buffer = FrameBuffer::with_default_capacity();
    let sizes = [10usize, 20, 30, 40, 50];
    for (i, size) in sizes.iter().enumerate() {
        buffer.add_frame(vec![i as u8; *size], i as u64 * 10);
        let resident: usize = sizes[..=i].iter().rev().take(3).sum();
        assert!(buffer.get_buffer_size() <= 3);
        assert_eq!(buffer.get_total_bytes(), resident);
    }
    assert_eq!(buffer.get_latest_frame(), Some(vec![4u8; 50]));
    assert_eq!(buffer.get_frame_by_id(1), None);
    assert_eq!(buffer.get_frame_by_id(3), Some(vec![2u8; 30]));
    let stats = buffer.get_buffer_stats();
    assert_eq!(stats.current_frames, 3);
    assert_eq!(stats.total_bytes, 120);
    assert_eq!(stats.average_frame_size_bytes, 40);
    assert_eq!(stats.buffer_duration_ms, 20);
    assert_eq!(stats.total_frames_processed, 5);
}

#[test]
fn zero_capacity_buffer_refuses_every_frame() {
    let mut buffer = FrameBuffer::new(0);
    buffer.add_frame(vec![1, 2, 3], 5);
    buffer.add_frame(vec![4], 6);
    assert_eq!(buffer.get_buffer_size(), 0);
    assert_eq!(buffer.get_total_bytes(), 0);
    assert_eq!(buffer.get_latest_frame(), None);
    assert_eq!(buffer.get_buffer_stats().total_frames_processed, 0);
}

#[test]
fn frames_since_and_bytes_since() {
    let mut buffer = FrameBuffer::new(5);
    buffer.add_frame(vec![0; 100], 1000);
    buffer.add_frame(vec![0; 200], 2000);
    buffer.add_frame(vec![0; 300], 3000);
    let recent = buffer.get_frames_since(2000);
    assert_eq!(recent.len(), 2);
    assert_eq!(recent[0].frame_id, 2);
    assert_eq!(buffer.bytes_since(2000), 500);
    assert_eq!(buffer.bytes_since(5000), 0);
}

#[test]
fn cleanup_and_shrinking_evict_oldest() {
    let mut buffer = FrameBuffer::new(5);
    for i in 0..5u64 {
        buffer.add_frame(vec![0; 10], i * 1000);
    }
    buffer.cleanup_old_frames(2500, 4000);
    assert_eq!(buffer.get_buffer_size(), 3);
    assert_eq!(buffer.get_total_bytes(), 30);
    buffer.set_max_size(1);
    assert_eq!(buffer.get_buffer_size(), 1);
    assert_eq!(buffer.get_frame_by_id(5), Some(vec![0; 10]));
    buffer.clear();
    assert_eq!(buffer.get_buffer_size(), 0);
    assert_eq!(buffer.get_total_bytes(), 0);
}

#[test]
fn rates_over_a_window() {
    let mut buffer = FrameBuffer::new(10);
    for i in 0..5u64 {
        buffer.add_frame(vec![0; 1000], 1000 + i * 250);
    }
    assert_eq!(buffer.get_frame_rate(1000, 2000), 5);
    assert_eq!(buffer.get_frame_rate(500, 2000), 6);
    assert_eq!(buffer.get_bandwidth_usage(1000, 2000), 40_000);
    assert_eq!(buffer.get_frame_rate(0, 2000), 0);
    assert_eq!(buffer.get_bandwidth_usage(0, 2000), 0);
}
