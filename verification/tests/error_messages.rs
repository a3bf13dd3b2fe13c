use platypus::error::{DomainError, DomainErrorKind};

#[test]
fn empty_displays_correctly() {
    let kind = DomainErrorKind::Empty;
    assert_eq!(kind.to_string(), "cannot be empty");
}

#[test]
fn too_long_displays_correctly() {
    let kind = DomainErrorKind::TooLong {
        max: 100,
        actual: 150,
    };
    assert_eq!(kind.to_string(), "too long (150 chars, max 100)");
}

#[test]
fn too_short_displays_correctly() {
    let kind = DomainErrorKind::TooShort { min: 5, actual: 3 };
    assert_eq!(kind.to_string(), "too short (3 chars, min 5)");
}

#[test]
fn invalid_format_displays_correctly() {
    let kind = DomainErrorKind::InvalidFormat {
        expected: "local@domain",
    };
    assert_eq!(kind.to_string(), "invalid format, expected local@domain");
}

#[test]
fn invalid_character_displays_correctly() {
    let kind = DomainErrorKind::InvalidCharacter {
        char: '@',
        position: 5,
    };
    assert_eq!(kind.to_string(), "invalid character '@' at position 5");
}

#[test]
fn invalid_checksum_displays_correctly() {
    let kind = DomainErrorKind::InvalidChecksum;
    assert_eq!(kind.to_string(), "checksum validation failed");
}

#[test]
fn invalid_component_displays_correctly() {
    let kind = DomainErrorKind::InvalidComponent {
        component: "scheme",
        reason: "expected https".to_string(),
    };
    assert_eq!(kind.to_string(), "invalid scheme: expected https");
}

#[test]
fn domain_error_displays_correctly() {
    let error = DomainError {
        format_name: "email address",
        value: "bad".to_string(),
        reason: DomainErrorKind::InvalidFormat {
            expected: "local@domain",
        },
        example: "user@example.com",
    };
    assert_eq!(
        error.to_string(),
        "invalid email address: invalid format, expected local@domain (example: user@example.com)"
    );
}

#[test]
fn domain_error_is_clone_and_eq() {
    let error1 = DomainError {
        format_name: "email",
        value: "test".to_string(),
        reason: DomainErrorKind::Empty,
        example: "user@example.com",
    };
    let error2 = error1.clone();
    assert_eq!(error1, error2);
}

#[test]
fn domain_error_works_with_vec_for_accumulation() {
    let errors: Vec<DomainError> = vec![
        DomainError {
            format_name: "email",
            value: "".to_string(),
            reason: DomainErrorKind::Empty,
            example: "user@example.com",
        },
        DomainError {
            format_name: "phone",
            value: "abc".to_string(),
            reason: DomainErrorKind::InvalidFormat {
                expected: "digits only",
            },
            example: "+1-555-555-5555",
        },
    ];
    assert_eq!(errors.len(), 2);
    assert_eq!(errors[0].format_name, "email");
    assert_eq!(errors[1].format_name, "phone");
}

/// The library's error carries its own message; wrapped in a type that
/// renders that message, it is usable wherever `std::error::Error` is
/// expected.
#[derive(Debug)]
struct ReportedError(DomainError);

impl std::fmt::Display for ReportedError {
    fn fmt(&self, f: &mut std::fmt::Formatter<'_>) -> std::fmt::Result {
        f.write_str(&self.0.to_string())
    }
}

impl std::error::Error for ReportedError {}

#[test]
fn domain_error_is_error_trait() {
    fn accepts_error<E: std::error::Error>(_: E) {}
    let error = DomainError {
        format_name: "test",
        value: "val".to_string(),
        reason: DomainErrorKind::Empty,
        example: "example",
    };
    accepts_error(ReportedError(error));
}

#[test]
fn numbers_render_in_decimal() {
    assert_eq!(platypus::text::decimal_string(0), "0");
    assert_eq!(platypus::text::decimal_string(7), "7");
    assert_eq!(platypus::text::decimal_string(10), "10");
    assert_eq!(platypus::text::decimal_string(65535), "65535");
    assert_eq!(
        platypus::text::decimal_string(u64::MAX),
        "18446744073709551615"
    );
}

#[test]
fn error_display_with_all_reasons() {
    let error = DomainError {
        format_name: "slug",
        value: "Hello".to_string(),
        reason: DomainErrorKind::InvalidCharacter {
            char: 'H',
            position: 0,
        },
        example: "my-first-post",
    };
    assert_eq!(
        error.to_string(),
        "invalid slug: invalid character 'H' at position 0 (example: my-first-post)"
    );
}
