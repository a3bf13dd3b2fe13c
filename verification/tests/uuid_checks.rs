use platypus::error::DomainErrorKind;
use platypus::uuid::{uuid_version_example, uuid_version_name, UuidVersion, ValidUuid};

fn any(s: &str) -> Result<(), platypus::DomainError> {
    ValidUuid::check(&s.to_string())
}

fn v4(s: &str) -> Result<(), platypus::DomainError> {
    UuidVersion::<4>::check(&s.to_string())
}

fn v7(s: &str) -> Result<(), platypus::DomainError> {
    UuidVersion::<7>::check(&s.to_string())
}

#[test]
fn valid_uuid_v4() {
    assert!(any("550e8400-e29b-41d4-a716-446655440000").is_ok());
}

#[test]
fn valid_uuid_v7() {
    assert!(any("018f6b8e-e4a0-7000-8000-000000000000").is_ok());
}

#[test]
fn valid_uuid_lowercase() {
    assert!(any("550e8400-e29b-41d4-a716-446655440000").is_ok());
}

#[test]
fn valid_uuid_uppercase() {
    assert!(any("550E8400-E29B-41D4-A716-446655440000").is_ok());
}

#[test]
fn invalid_uuid_format() {
    assert!(any("not-a-uuid").is_err());
}

#[test]
fn invalid_uuid_too_short() {
    assert!(any("550e8400-e29b-41d4").is_err());
}

#[test]
fn invalid_uuid_wrong_chars() {
    assert!(any("550e8400-e29b-41d4-a716-44665544gggg").is_err());
}

#[test]
fn uuid_v4_accepts_v4() {
    assert!(v4("550e8400-e29b-41d4-a716-446655440000").is_ok());
}

#[test]
fn uuid_uuid_v4_rejects_v7() {
    let err = v4("018f6b8e-e4a0-7000-8000-000000000000").unwrap_err();
    assert!(matches!(err.reason, DomainErrorKind::InvalidComponent { .. }));
}

#[test]
fn uuid_v7_accepts_v7() {
    assert!(v7("018f6b8e-e4a0-7000-8000-000000000000").is_ok());
}

#[test]
fn uuid_v7_rejects_v4() {
    assert!(v7("550e8400-e29b-41d4-a716-446655440000").is_err());
}

#[test]
fn uuid_error_includes_format_name() {
    let err = any("invalid").unwrap_err();
    assert_eq!(err.format_name, "UUID");
}

#[test]
fn uuid_error_includes_example() {
    let err = any("invalid").unwrap_err();
    assert_eq!(err.example, "550e8400-e29b-41d4-a716-446655440000");
}

#[test]
fn version_error_is_invalid_component() {
    let err = v4("018f6b8e-e4a0-7000-8000-000000000000").unwrap_err();
    match err.reason {
        DomainErrorKind::InvalidComponent { component, reason } => {
            assert_eq!(component, "version");
            assert!(reason.contains("v4"));
            assert!(reason.contains("v7"));
        }
        _ => panic!("Expected InvalidComponent error"),
    }
}

#[test]
fn valid_uuid_description() {
    assert_eq!(ValidUuid::description(), "UUID");
}

#[test]
fn uuid_version_description() {
    assert_eq!(
        UuidVersion::<4>::description(),
        "UUID with specific version"
    );
}

#[test]
fn uuid_v4_rejects_malformed() {
    let err = v4("not-a-uuid").unwrap_err();
    assert_eq!(err.format_name, "UUID");
    assert!(matches!(err.reason, DomainErrorKind::InvalidFormat { .. }));
}

#[test]
fn uuid_v7_rejects_malformed() {
    let err = v7("invalid").unwrap_err();
    assert!(matches!(err.reason, DomainErrorKind::InvalidFormat { .. }));
}

#[test]
fn version_error_names_and_example() {
    let err = v7("550e8400-e29b-41d4-a716-446655440000").unwrap_err();
    assert_eq!(err.format_name, "UUID v7");
    assert_eq!(err.example, "018f6b8e-e4a0-7000-8000-000000000000");
    match err.reason {
        DomainErrorKind::InvalidComponent { reason, .. } => {
            assert_eq!(reason, "expected v7, got v4");
        }
        _ => panic!("Expected InvalidComponent error"),
    }
}

#[test]
fn version_names_and_examples() {
    assert_eq!(uuid_version_name::<4>(), "UUID v4");
    assert_eq!(uuid_version_name::<7>(), "UUID v7");
    assert_eq!(
        uuid_version_example::<4>(),
        "550e8400-e29b-41d4-a716-446655440000"
    );
    assert_eq!(
        uuid_version_example::<7>(),
        "018f6b8e-e4a0-7000-8000-000000000000"
    );
}

#[test]
fn version_decision_reads_nibble() {
    // 0x...41d4... : byte 6 is 0x41, version 4.
    let u: u128 = 0x550e8400_e29b_41d4_a716_446655440000;
    let v = "x".to_string();
    assert!(UuidVersion::<4>::decide(&v, Some(u)).is_ok());
    assert!(UuidVersion::<7>::decide(&v, Some(u)).is_err());
    assert!(ValidUuid::decide(&v, None).is_err());
}

#[test]
fn other_versions_report_only_matches() {
    let v5 = "886313e1-3b8a-5372-9b90-0c9aee199e5d".to_string();
    let v4 = "550e8400-e29b-41d4-a716-446655440000".to_string();
    assert_eq!(UuidVersion::<5>::try_check(&v5), Some(Ok(())));
    assert_eq!(UuidVersion::<5>::try_check(&v4), None);
    assert!(matches!(UuidVersion::<5>::try_check(&"nope".to_string()), Some(Err(_))));
    assert!(matches!(UuidVersion::<4>::try_check(&v5), Some(Err(_))));
}
