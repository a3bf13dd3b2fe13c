//! URL validation (WHATWG URL Standard via the `url` crate): any URL, HTTP
//! or HTTPS URLs, and HTTPS-only URLs.

use vstd::prelude::*;
use crate::error::{DomainError, DomainErrorKind, DomainErrorKindView, DomainErrorView};
use crate::text::str_eq;

verus! {

/// The scheme of the URL that `url::Url::parse` makes of `s`, or `None`
/// when it rejects `s`.
pub uninterp spec fn spec_url_scheme(s: Seq<char>) -> Option<Seq<char>>;

/// Parses `s` with `url::Url::parse` and gives the parsed URL's scheme.
#[verifier::external_body]
fn url_scheme(s: &str) -> (r: Option<String>)
    ensures
        match r {
            Some(sc) => spec_url_scheme(s@) == Some(sc@),
            None => spec_url_scheme(s@) is None,
        },
{
    match ::url::Url::parse(s) {
        Ok(u) => Some(u.scheme().to_string()),
        Err(_) => None,
    }
}

/// The characters of an optional scheme.
pub open spec fn scheme_view(scheme: Option<String>) -> Option<Seq<char>> {
    match scheme {
        Some(sc) => Some(sc@),
        None => None,
    }
}

/// Any valid URL.
#[derive(Debug, Clone, Copy, Default)]
pub struct ValidUrl;

/// URL scheme must be http or https.
#[derive(Debug, Clone, Copy, Default)]
pub struct HttpScheme;

/// URL scheme must be https.
#[derive(Debug, Clone, Copy, Default)]
pub struct HttpsOnly;

/// A URL error named `format_name` for `value`.
pub open spec fn url_error(
    format_name: Seq<char>,
    value: Seq<char>,
    reason: DomainErrorKindView,
) -> DomainErrorView {
    DomainErrorView {
        format_name: format_name,
        value: value,
        reason: reason,
        example: "https://example.com"@,
    }
}

/// What `ValidUrl::check` reports for `s`, given the parsed scheme.
pub open spec fn url_outcome_given(s: Seq<char>, scheme: Option<Seq<char>>) -> Option<
    DomainErrorView,
> {
    match scheme {
        Some(_) => None,
        None => Some(
            url_error(
                "URL"@,
                s,
                DomainErrorKindView::InvalidFormat { expected: "scheme://host/path"@ },
            ),
        ),
    }
}

/// What `HttpScheme::check` reports for `s`, given the parsed scheme.
pub open spec fn http_outcome_given(s: Seq<char>, scheme: Option<Seq<char>>) -> Option<
    DomainErrorView,
> {
    match scheme {
        None => Some(
            url_error(
                "HTTP URL"@,
                s,
                DomainErrorKindView::InvalidFormat { expected: "valid URL"@ },
            ),
        ),
        Some(sc) => if sc == "http"@ || sc == "https"@ {
            None
        } else {
            Some(
                url_error(
                    "HTTP URL"@,
                    s,
                    DomainErrorKindView::InvalidComponent {
                        component: "scheme"@,
                        reason: "expected http or https, got "@ + sc,
                    },
                ),
            )
        },
    }
}

/// What `HttpsOnly::check` reports for `s`, given the parsed scheme.
pub open spec fn https_outcome_given(s: Seq<char>, scheme: Option<Seq<char>>) -> Option<
    DomainErrorView,
> {
    match scheme {
        None => Some(
            url_error(
                "HTTPS URL"@,
                s,
                DomainErrorKindView::InvalidFormat { expected: "valid URL"@ },
            ),
        ),
        Some(sc) => if sc == "https"@ {
            None
        } else {
            Some(
                url_error(
                    "HTTPS URL"@,
                    s,
                    DomainErrorKindView::InvalidComponent {
                        component: "scheme"@,
                        reason: "expected https, got "@ + sc,
                    },
                ),
            )
        },
    }
}

impl ValidUrl {
    /// The verdict on `value` given the scheme its parse gave (`None`: the
    /// parse failed).
    pub fn decide(value: &String, scheme: Option<String>) -> (r: Result<(), DomainError>)
        ensures
            match r {
                Ok(_) => url_outcome_given(value@, scheme_view(scheme)) is None,
                Err(e) => url_outcome_given(value@, scheme_view(scheme)) == Some(e@),
            },
    {
        match scheme {
            Some(_) => Ok(()),
            None => Err(
                DomainError {
                    format_name: "URL",
                    value: value.clone(),
                    reason: DomainErrorKind::InvalidFormat { expected: "scheme://host/path" },
                    example: "https://example.com",
                },
            ),
        }
    }

    /// Checks that `value` is a URL.
    pub fn check(value: &String) -> (r: Result<(), DomainError>)
        ensures
            match r {
                Ok(_) => url_outcome_given(value@, spec_url_scheme(value@)) is None,
                Err(e) => url_outcome_given(value@, spec_url_scheme(value@)) == Some(e@),
            },
    {
        let scheme = url_scheme(value.as_str());
        Self::decide(value, scheme)
    }

    /// What this predicate checks.
    pub fn description() -> (r: &'static str)
        ensures
            r@ == "RFC 3986 URL"@,
    {
        "RFC 3986 URL"
    }
}

impl HttpScheme {
    /// The verdict on `value` given the scheme its parse gave (`None`: the
    /// parse failed).
    pub fn decide(value: &String, scheme: Option<String>) -> (r: Result<(), DomainError>)
        ensures
            match r {
                Ok(_) => http_outcome_given(value@, scheme_view(scheme)) is None,
                Err(e) => http_outcome_given(value@, scheme_view(scheme)) == Some(e@),
            },
    {
        match scheme {
            None => Err(
                DomainError {
                    format_name: "HTTP URL",
                    value: value.clone(),
                    reason: DomainErrorKind::InvalidFormat { expected: "valid URL" },
                    example: "https://example.com",
                },
            ),
            Some(sc) => {
                if str_eq(sc.as_str(), "http") || str_eq(sc.as_str(), "https") {
                    Ok(())
                } else {
                    let mut why = String::from_str("expected http or https, got ");
                    why.append(sc.as_str());
                    Err(
                        DomainError {
                            format_name: "HTTP URL",
                            value: value.clone(),
                            reason: DomainErrorKind::InvalidComponent {
                                component: "scheme",
                                reason: why,
                            },
                            example: "https://example.com",
                        },
                    )
                }
            },
        }
    }

    /// Checks that `value` is a URL with scheme `http` or `https`.
    pub fn check(value: &String) -> (r: Result<(), DomainError>)
        ensures
            match r {
                Ok(_) => http_outcome_given(value@, spec_url_scheme(value@)) is None,
                Err(e) => http_outcome_given(value@, spec_url_scheme(value@)) == Some(e@),
            },
    {
        let scheme = url_scheme(value.as_str());
        Self::decide(value, scheme)
    }

    /// What this predicate checks.
    pub fn description() -> (r: &'static str)
        ensures
            r@ == "HTTP or HTTPS scheme"@,
    {
        "HTTP or HTTPS scheme"
    }
}

impl HttpsOnly {
    /// The verdict on `value` given the scheme its parse gave (`None`: the
    /// parse failed).
    pub fn decide(value: &String, scheme: Option<String>) -> (r: Result<(), DomainError>)
        ensures
            match r {
                Ok(_) => https_outcome_given(value@, scheme_view(scheme)) is None,
                Err(e) => https_outcome_given(value@, scheme_view(scheme)) == Some(e@),
            },
    {
        match scheme {
            None => Err(
                DomainError {
                    format_name: "HTTPS URL",
                    value: value.clone(),
                    reason: DomainErrorKind::InvalidFormat { expected: "valid URL" },
                    example: "https://example.com",
                },
            ),
            Some(sc) => {
                if str_eq(sc.as_str(), "https") {
                    Ok(())
                } else {
                    let mut why = String::from_str("expected https, got ");
                    why.append(sc.as_str());
                    Err(
                        DomainError {
                            format_name: "HTTPS URL",
                            value: value.clone(),
                            reason: DomainErrorKind::InvalidComponent {
                                component: "scheme",
                                reason: why,
                            },
                            example: "https://example.com",
                        },
                    )
                }
            },
        }
    }

    /// Checks that `value` is a URL with scheme `https`.
    pub fn check(value: &String) -> (r: Result<(), DomainError>)
        ensures
            match r {
                Ok(_) => https_outcome_given(value@, spec_url_scheme(value@)) is None,
                Err(e) => https_outcome_given(value@, spec_url_scheme(value@)) == Some(e@),
            },
    {
        let scheme = url_scheme(value.as_str());
        Self::decide(value, scheme)
    }

    /// What this predicate checks.
    pub fn description() -> (r: &'static str)
        ensures
            r@ == "HTTPS scheme only"@,
    {
        "HTTPS scheme only"
    }
}

/// Every URL that passes the HTTPS-only check also passes the HTTP(S)
/// scheme check and the plain URL check.
pub proof fn lemma_https_implies_http(s: Seq<char>)
    requires
        https_outcome_given(s, spec_url_scheme(s)) is None,
    ensures
        http_outcome_given(s, spec_url_scheme(s)) is None,
        url_outcome_given(s, spec_url_scheme(s)) is None,
{
}

} // verus!
