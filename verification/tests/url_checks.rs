use platypus::error::DomainErrorKind;
use platypus::url::{HttpScheme, HttpsOnly, ValidUrl};

fn url(s: &str) -> Result<(), platypus::DomainError> {
    ValidUrl::check(&s.to_string())
}

/// The composition `HttpUrl`: a URL whose scheme is http or https.
fn http_url(s: &str) -> (bool, bool) {
    let v = s.to_string();
    (ValidUrl::check(&v).is_ok(), HttpScheme::check(&v).is_ok())
}

#[test]
fn valid_https_url() {
    assert!(url("https://example.com").is_ok());
}

#[test]
fn valid_http_url() {
    assert!(url("http://example.com").is_ok());
}

#[test]
fn valid_with_path() {
    assert!(url("https://example.com/path/to/resource").is_ok());
}

#[test]
fn valid_with_query() {
    assert!(url("https://example.com?foo=bar&baz=qux").is_ok());
}

#[test]
fn valid_with_fragment() {
    assert!(url("https://example.com#section").is_ok());
}

#[test]
fn valid_with_port() {
    assert!(url("https://example.com:8080").is_ok());
}

#[test]
fn valid_ftp_url() {
    assert!(url("ftp://files.example.com").is_ok());
}

#[test]
fn invalid_missing_scheme() {
    assert!(url("example.com").is_err());
}

#[test]
fn invalid_malformed() {
    assert!(url("not a url at all").is_err());
}

#[test]
fn valid_url_description() {
    assert_eq!(ValidUrl::description(), "RFC 3986 URL");
}

#[test]
fn http_url_accepts_http() {
    assert_eq!(http_url("http://example.com"), (true, true));
}

#[test]
fn http_url_accepts_https() {
    assert_eq!(http_url("https://example.com"), (true, true));
}

#[test]
fn url_http_url_rejects_ftp() {
    let (first, second) = http_url("ftp://example.com");
    assert!(first);
    assert!(!second);
    let err = HttpScheme::check(&"ftp://example.com".to_string()).unwrap_err();
    assert!(matches!(err.reason, DomainErrorKind::InvalidComponent { .. }));
}

#[test]
fn http_url_rejects_file() {
    assert!(!http_url("file:///path/to/file").1);
}

#[test]
fn http_scheme_description() {
    assert_eq!(HttpScheme::description(), "HTTP or HTTPS scheme");
}

#[test]
fn secure_url_accepts_https() {
    let v = "https://example.com".to_string();
    assert!(ValidUrl::check(&v).is_ok());
    assert!(HttpsOnly::check(&v).is_ok());
}

#[test]
fn url_secure_url_rejects_http() {
    let v = "http://example.com".to_string();
    assert!(ValidUrl::check(&v).is_ok());
    let err = HttpsOnly::check(&v).unwrap_err();
    assert!(matches!(err.reason, DomainErrorKind::InvalidComponent { .. }));
}

#[test]
fn https_only_description() {
    assert_eq!(HttpsOnly::description(), "HTTPS scheme only");
}

#[test]
fn and_combinator_validates_both_predicates() {
    assert!(!http_url("not a url").0);
    assert!(!http_url("ftp://example.com").1);
    assert_eq!(http_url("https://example.com"), (true, true));
}

#[test]
fn invalid_url_error_includes_format_name() {
    let err = url("invalid").unwrap_err();
    assert_eq!(err.format_name, "URL");
}

#[test]
fn invalid_url_error_includes_example() {
    let err = url("invalid").unwrap_err();
    assert_eq!(err.example, "https://example.com");
}

#[test]
fn scheme_error_is_invalid_component() {
    let err = HttpsOnly::check(&"http://example.com".to_string()).unwrap_err();
    match err.reason {
        DomainErrorKind::InvalidComponent { component, reason } => {
            assert_eq!(component, "scheme");
            assert!(reason.contains("https"));
        }
        _ => panic!("Expected InvalidComponent error"),
    }
}

#[test]
fn scheme_error_names_the_scheme() {
    let err = HttpScheme::check(&"ftp://example.com".to_string()).unwrap_err();
    assert_eq!(err.format_name, "HTTP URL");
    match err.reason {
        DomainErrorKind::InvalidComponent { reason, .. } => {
            assert_eq!(reason, "expected http or https, got ftp");
        }
        _ => panic!("Expected InvalidComponent error"),
    }
    let err = HttpsOnly::check(&"not a url".to_string()).unwrap_err();
    assert_eq!(err.format_name, "HTTPS URL");
    assert!(matches!(
        err.reason,
        DomainErrorKind::InvalidFormat { expected: "valid URL" }
    ));
}

#[test]
fn url_decisions_on_given_scheme() {
    let v = "x".to_string();
    assert!(HttpScheme::decide(&v, Some("https".to_string())).is_ok());
    assert!(HttpsOnly::decide(&v, Some("http".to_string())).is_err());
    assert!(ValidUrl::decide(&v, Some("gopher".to_string())).is_ok());
    assert!(ValidUrl::decide(&v, None).is_err());
}
