use platypus::error::DomainErrorKind;
use platypus::identifiers::{slug_candidate, ValidSlug};

fn slug(s: &str) -> Result<(), platypus::DomainError> {
    ValidSlug::check(&s.to_string())
}

#[test]
fn single_letter() {
    assert!(slug("a").is_ok());
}

#[test]
fn single_digit() {
    assert!(slug("1").is_ok());
}

#[test]
fn simple_word() {
    assert!(slug("hello").is_ok());
}

#[test]
fn hyphenated() {
    assert!(slug("hello-world").is_ok());
}

#[test]
fn with_numbers() {
    assert!(slug("post-123").is_ok());
}

#[test]
fn multiple_segments() {
    assert!(slug("a1-b2-c3").is_ok());
}

#[test]
fn starts_with_digit() {
    assert!(slug("123-numbers-first").is_ok());
}

#[test]
fn ends_with_digit() {
    assert!(slug("chapter-1").is_ok());
}

#[test]
fn max_length() {
    assert!(ValidSlug::check(&"a".repeat(128)).is_ok());
}

#[test]
fn mixed_alphanumeric_segments() {
    assert!(slug("v1-alpha-2-beta").is_ok());
}

#[test]
fn empty() {
    let err = slug("").unwrap_err();
    assert!(matches!(err.reason, DomainErrorKind::Empty));
}

#[test]
fn uppercase() {
    let err = slug("Hello").unwrap_err();
    assert!(matches!(
        err.reason,
        DomainErrorKind::InvalidCharacter {
            char: 'H',
            position: 0
        }
    ));
}

#[test]
fn all_uppercase() {
    assert!(slug("HELLO").is_err());
}

#[test]
fn spaces() {
    let err = slug("hello world").unwrap_err();
    assert!(matches!(
        err.reason,
        DomainErrorKind::InvalidCharacter {
            char: ' ',
            position: 5
        }
    ));
}

#[test]
fn special_characters() {
    let err = slug("hello@world").unwrap_err();
    assert!(matches!(
        err.reason,
        DomainErrorKind::InvalidCharacter {
            char: '@',
            position: 5
        }
    ));
}

#[test]
fn dot() {
    assert!(slug("hello.world").is_err());
}

#[test]
fn consecutive_hyphens() {
    let err = slug("hello--world").unwrap_err();
    assert!(matches!(
        err.reason,
        DomainErrorKind::InvalidFormat {
            expected: "no consecutive hyphens"
        }
    ));
}

#[test]
fn triple_hyphens() {
    assert!(slug("a---b").is_err());
}

#[test]
fn leading_hyphen() {
    let err = slug("-hello").unwrap_err();
    assert!(matches!(
        err.reason,
        DomainErrorKind::InvalidCharacter {
            char: '-',
            position: 0
        }
    ));
}

#[test]
fn trailing_hyphen() {
    let err = slug("hello-").unwrap_err();
    let len = "hello-".len() - 1;
    assert!(matches!(
        err.reason,
        DomainErrorKind::InvalidCharacter { char: '-', position: p } if p == len
    ));
}

#[test]
fn too_long() {
    let err = ValidSlug::check(&"a".repeat(129)).unwrap_err();
    assert!(matches!(
        err.reason,
        DomainErrorKind::TooLong {
            max: 128,
            actual: 129
        }
    ));
    assert_eq!(err.value, format!("{}...", "a".repeat(32)));
}

#[test]
fn underscore() {
    assert!(slug("hello_world").is_err());
}

fn title(t: &str) -> String {
    ValidSlug::from_title(t).unwrap()
}

#[test]
fn simple_title() {
    assert_eq!(title("My First Post"), "my-first-post");
}

#[test]
fn with_extra_spaces() {
    assert_eq!(title("  Spaces  Everywhere  "), "spaces-everywhere");
}

#[test]
fn with_special_characters() {
    assert_eq!(title("Special!@#Characters"), "special-characters");
}

#[test]
fn already_a_slug() {
    assert_eq!(title("already-a-slug"), "already-a-slug");
}

#[test]
fn mixed_case_slug() {
    assert_eq!(title("Already-A-Slug"), "already-a-slug");
}

#[test]
fn numbers_first() {
    assert_eq!(title("123 Numbers First"), "123-numbers-first");
}

#[test]
fn with_apostrophe() {
    assert_eq!(title("It's a Test"), "it-s-a-test");
}

#[test]
fn with_punctuation() {
    assert_eq!(
        title("Hello, World! How's it going?"),
        "hello-world-how-s-it-going"
    );
}

#[test]
fn empty_result_error() {
    let err = ValidSlug::from_title("!@#$%^&*()").unwrap_err();
    assert!(matches!(err.reason, DomainErrorKind::Empty));
    assert_eq!(err.value, "!@#$%^&*()");
}

#[test]
fn empty_input() {
    assert!(ValidSlug::from_title("").is_err());
}

#[test]
fn only_spaces() {
    assert!(ValidSlug::from_title("   ").is_err());
}

#[test]
fn underscores_converted() {
    assert_eq!(title("snake_case_title"), "snake-case-title");
}

#[test]
fn tabs_and_newlines() {
    assert_eq!(title("tabs\tand\nnewlines"), "tabs-and-newlines");
}

#[test]
fn unicode_removed() {
    assert_eq!(title("Café Résumé"), "caf-r-sum");
}

#[test]
fn emoji_removed() {
    assert_eq!(title("Hello 🎉 World"), "hello-world");
}

#[test]
fn identifiers_error_includes_format_name() {
    let err = slug("Invalid Slug").unwrap_err();
    assert_eq!(err.format_name, "slug");
}

#[test]
fn identifiers_error_includes_example() {
    let err = slug("Invalid").unwrap_err();
    assert_eq!(err.example, "my-first-post");
}

#[test]
fn error_display_format() {
    let err = slug("Hello World").unwrap_err();
    let msg = err.to_string();
    assert!(msg.contains("slug"));
    assert!(msg.contains("my-first-post"));
}

#[test]
fn identifiers_description_returns_expected() {
    assert_eq!(
        ValidSlug::description(),
        "URL-safe slug (lowercase alphanumeric with hyphens)"
    );
}

#[test]
fn single_char_slug() {
    assert!(slug("a").is_ok());
    assert!(slug("1").is_ok());
    assert!(slug("-").is_err());
}

#[test]
fn two_char_slug_with_hyphen() {
    assert!(slug("a-").is_err());
    assert!(slug("-a").is_err());
}

#[test]
fn three_char_slug_with_hyphen() {
    assert!(slug("a-b").is_ok());
}

#[test]
fn boundary_length_127() {
    assert!(ValidSlug::check(&"a".repeat(127)).is_ok());
}

#[test]
fn boundary_length_128() {
    assert!(ValidSlug::check(&"a".repeat(128)).is_ok());
}

#[test]
fn boundary_length_129() {
    assert!(ValidSlug::check(&"a".repeat(129)).is_err());
}

#[test]
fn too_long_title_is_rejected() {
    let long_title = "word ".repeat(40);
    let err = ValidSlug::from_title(&long_title).unwrap_err();
    assert!(matches!(err.reason, DomainErrorKind::TooLong { max: 128, .. }));
}

#[test]
fn title_slugs_pass_the_check() {
    for t in ["A  B", "--x--", "Hello, World!", "12 34", "ÀÉÎ ok"] {
        let s = ValidSlug::from_title(t).unwrap();
        assert!(ValidSlug::check(&s).is_ok());
    }
}

#[test]
fn slugging_a_slug_returns_it() {
    for s in ["a", "my-first-post", "123-go", "x1-y2-z3"] {
        assert!(slug(s).is_ok());
        assert_eq!(ValidSlug::from_title(s).unwrap(), s);
    }
}

#[test]
fn slug_candidate_of_lowercased_text() {
    assert_eq!(slug_candidate("  spaces  everywhere  "), "spaces-everywhere");
    assert_eq!(slug_candidate("it's a test"), "it-s-a-test");
    assert_eq!(slug_candidate("ABC def"), "ABC-def");
    assert_eq!(slug_candidate("!!!"), "");
}

#[test]
fn from_title_twice_is_from_title_once() {
    for t in ["My First Post", "  Spaces  Everywhere  ", "Hello, World! How's it going?"] {
        let once = ValidSlug::from_title(t).unwrap();
        assert_eq!(ValidSlug::from_title(&once).unwrap(), once);
    }
}

#[test]
fn over_long_slug_is_cut_between_characters() {
    let s = format!("a{}", "é".repeat(130));
    let err = ValidSlug::check(&s).unwrap_err();
    assert_eq!(err.format_name, "slug");
    assert!(matches!(err.reason, DomainErrorKind::TooLong { max: 128, actual: 261 }));
    // 1 + 15 * 2 = 31 bytes fit in 32.
    assert_eq!(err.value, format!("a{}...", "é".repeat(15)));
}
