use anyviewer::ids::{IdError, IdGenerator};

#[test]
fn test_id_generation() {
    let mut generator = IdGenerator::new();
    let id = generator.generate_connection_id().unwrap();

    assert_eq!(id.id.len(), 7);
    assert!(id.numeric_id >= 1_000_000);
    assert!(id.numeric_id < 10_000_000);
    assert_eq!(id.formatted_id.len(), 7);
}

#[test]
fn test_id_parsing() {
    let generator = IdGenerator::new();

    assert_eq!(generator.parse_connection_id("1704456").unwrap(), 1704456);
    assert_eq!(generator.parse_connection_id("1234567").unwrap(), 1234567);
}

#[test]
fn test_id_validation() {
    let generator = IdGenerator::new();

    assert!(generator.validate_id_format("1704456"));
    assert!(generator.validate_id_format("1234567"));
    assert!(!generator.validate_id_format("123456"));
    assert!(!generator.validate_id_format("12345678"));
    assert!(!generator.validate_id_format("170445a"));
}

#[test]
fn test_unique_id_generation() {
    let mut generator = IdGenerator::new();
    let id1 = generator.generate_connection_id().unwrap();
    let id2 = generator.generate_connection_id().unwrap();

    assert_ne!(id1.numeric_id, id2.numeric_id);
    assert_ne!(id1.formatted_id, id2.formatted_id);
}

#[test]
fn parser_accepts_separators_and_rejects_wrong_lengths() {
    let generator = IdGenerator::new();
    assert_eq!(generator.parse_connection_id("1 234 567"), Ok(1234567));
    assert_eq!(generator.parse_connection_id("1-234-567"), Ok(1234567));
    assert_eq!(generator.parse_connection_id("1234 56"), Err(IdError::InvalidFormat));
    assert_eq!(generator.parse_connection_id("12345678"), Err(IdError::InvalidFormat));
    assert_eq!(generator.parse_connection_id("+123456"), Err(IdError::InvalidFormat));
    assert!(generator.validate_id_format("1 234-567"));
}

#[test]
fn minted_ids_format_and_parse_back() {
    let mut generator = IdGenerator::new();
    for _ in 0..50 {
        let id = generator.generate_connection_id().unwrap();
        assert_eq!(id.formatted_id, id.numeric_id.to_string());
        assert!(id.formatted_id.chars().all(|c| c.is_ascii_digit()));
        assert_eq!(generator.parse_connection_id(&id.formatted_id), Ok(id.numeric_id));
        assert!(generator.is_id_in_use(id.numeric_id));
    }
    assert_eq!(generator.get_active_ids().len(), 50);
}

#[test]
fn minting_with_many_ids_taken_still_succeeds() {
    let mut generator = IdGenerator::new();
    for _ in 0..1000 {
        generator.generate_connection_id().unwrap();
    }
    assert!(generator.generate_connection_id().is_ok());
    assert_eq!(generator.get_active_ids().len(), 1001);
}

#[test]
fn minting_fails_when_the_space_is_exhausted() {
    let mut generator = IdGenerator::with_range(1_000_000, 1_000_002).unwrap();
    let a = generator.generate_connection_id().unwrap();
    let b = generator.generate_connection_id().unwrap();
    assert_ne!(a.numeric_id, b.numeric_id);
    assert_eq!(generator.generate_connection_id().unwrap_err(), IdError::Exhausted);
    generator.release_id(&a);
    let c = generator.generate_connection_id().unwrap();
    assert_eq!(c.numeric_id, a.numeric_id);
}

#[test]
fn ranges_outside_seven_digits_are_refused() {
    assert!(IdGenerator::with_range(999_999, 1_000_005).is_none());
    assert!(IdGenerator::with_range(5_000_000, 5_000_000).is_none());
    assert!(IdGenerator::with_range(9_999_999, 10_000_001).is_none());
}

#[test]
fn sessions_bind_and_release() {
    let mut generator = IdGenerator::new();
    let id = generator.generate_connection_id().unwrap();
    assert_eq!(generator.get_session_by_id(&id.formatted_id), None);
    generator.register_session(&id, "first".to_string());
    generator.register_session(&id, "second".to_string());
    assert_eq!(generator.get_session_by_id(&id.formatted_id), Some("second".to_string()));
    generator.release_id(&id);
    assert_eq!(generator.get_session_by_id(&id.formatted_id), None);
    assert!(!generator.is_id_in_use(id.numeric_id));
}

#[test]
fn reserving_a_candidate_takes_it_once() {
    let mut generator = IdGenerator::new();
    let c = generator.reserve_candidate(1_234_567).unwrap();
    assert_eq!(c.numeric_id, 1_234_567);
    assert_eq!(c.formatted_id, "1234567");
    assert!(generator.reserve_candidate(1_234_567).is_none());
    assert_eq!(generator.get_active_ids(), vec![1_234_567]);
}
