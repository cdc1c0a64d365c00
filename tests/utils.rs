use anyviewer::util::{
    decimal_string, format_bytes, format_duration, format_session_label, generate_session_id, sanitize_filename,
};

#[test]
fn test_format_bytes() {
    assert_eq!(format_bytes(512), "512 B");
    assert_eq!(format_bytes(1024), "1.0 KB");
    assert_eq!(format_bytes(1536), "1.5 KB");
    assert_eq!(format_bytes(1024 * 1024), "1.0 MB");
}

#[test]
fn format_bytes_units_and_rounding() {
    assert_eq!(format_bytes(0), "0 B");
    assert_eq!(format_bytes(1023), "1023 B");
    assert_eq!(format_bytes(1024 * 1024 * 3 / 2), "1.5 MB");
    assert_eq!(format_bytes(1024 * 1024 * 1024), "1.0 GB");
    assert_eq!(format_bytes(1024u64.pow(4) * 2), "2.0 TB");
    assert_eq!(format_bytes(1024u64.pow(5)), "1024.0 TB");
    assert_eq!(format_bytes(1048575), "1024.0 KB");
}

#[test]
fn test_format_duration() {
    assert_eq!(format_duration(500), "500ms");
    assert_eq!(format_duration(1500), "1s");
    assert_eq!(format_duration(65000), "1m 5s");
    assert_eq!(format_duration(3665000), "1h 1m 5s");
}

#[test]
fn format_duration_edges() {
    assert_eq!(format_duration(0), "0ms");
    assert_eq!(format_duration(999), "999ms");
    assert_eq!(format_duration(1000), "1s");
    assert_eq!(format_duration(3600000), "1h 0m 0s");
}

#[test]
fn test_sanitize_filename() {
    assert_eq!(sanitize_filename("test file.txt"), "test_file.txt");
    assert_eq!(sanitize_filename("file@name#.log"), "file_name_.log");
    assert_eq!(sanitize_filename("normal-file_name.dat"), "normal-file_name.dat");
}

#[test]
fn sanitize_keeps_unicode_letters() {
    assert_eq!(sanitize_filename("résumé 1.pdf"), "résumé_1.pdf");
    assert_eq!(sanitize_filename(""), "");
}

#[test]
fn test_generate_session_id() {
    let id = generate_session_id();
    assert_eq!(id.len(), 11);
    assert_eq!(id.chars().nth(3), Some('-'));
    assert_eq!(id.chars().nth(7), Some('-'));
}

#[test]
fn session_labels_pad_each_group() {
    assert_eq!(format_session_label(100_002_030), "100-002-030");
    assert_eq!(format_session_label(999_999_999), "999-999-999");
}

#[test]
fn decimal_strings() {
    assert_eq!(decimal_string(0), "0");
    assert_eq!(decimal_string(1704456), "1704456");
    assert_eq!(decimal_string(u64::MAX), u64::MAX.to_string());
}
