//! E-mail address validation (RFC 5321), delegated to the `email_address`
//! crate.

use vstd::prelude::*;
use crate::error::{DomainError, DomainErrorKind, DomainErrorKindView, DomainErrorView};

verus! {

/// Whether `email_address::EmailAddress::is_valid` accepts `s`.
pub uninterp spec fn spec_email_is_valid(s: Seq<char>) -> bool;

/// Asks `email_address::EmailAddress::is_valid` about `s`. An address it
/// accepts holds an `@` (it splits the address at its last `@` and rejects
/// one without).
#[verifier::external_body]
fn email_is_valid(s: &str) -> (b: bool)
    ensures
        b == spec_email_is_valid(s@),
        b ==> s@.contains('@'),
{
    email_address::EmailAddress::is_valid(s)
}

/// RFC 5321 compliant email address predicate.
#[derive(Debug, Clone, Copy, Default)]
pub struct ValidEmail;

/// An e-mail error for `value` with the given reason.
pub open spec fn email_error(value: Seq<char>, reason: DomainErrorKindView) -> DomainErrorView {
    DomainErrorView {
        format_name: "email address"@,
        value: value,
        reason: reason,
        example: "user@example.com"@,
    }
}

/// What `ValidEmail::check` reports for `s`, given the RFC verdict on it.
pub open spec fn email_outcome_given(s: Seq<char>, valid: bool) -> Option<DomainErrorView> {
    if s.len() == 0 {
        Some(email_error(s, DomainErrorKindView::Empty))
    } else if valid {
        None
    } else {
        Some(email_error(s, DomainErrorKindView::InvalidFormat { expected: "local@domain"@ }))
    }
}

/// Why `s` is not an e-mail address, as `ValidEmail::check` reports it.
pub open spec fn email_outcome(s: Seq<char>) -> Option<DomainErrorView> {
    email_outcome_given(s, spec_email_is_valid(s))
}

impl ValidEmail {
    /// The verdict on `value` once the RFC check has said whether it is an
    /// address: empty values are rejected as empty, others by that check.
    pub fn decide(value: &String, valid: bool) -> (r: Result<(), DomainError>)
        ensures
            match r {
                Ok(_) => email_outcome_given(value@, valid) is None,
                Err(e) => email_outcome_given(value@, valid) == Some(e@),
            },
    {
        if value.as_str().is_empty() {
            return Err(
                DomainError {
                    format_name: "email address",
                    value: value.clone(),
                    reason: DomainErrorKind::Empty,
                    example: "user@example.com",
                },
            );
        }
        if valid {
            Ok(())
        } else {
            Err(
                DomainError {
                    format_name: "email address",
                    value: value.clone(),
                    reason: DomainErrorKind::InvalidFormat { expected: "local@domain" },
                    example: "user@example.com",
                },
            )
        }
    }

    /// Checks that `value` is an e-mail address; an accepted address
    /// holds an `@`.
    pub fn check(value: &String) -> (r: Result<(), DomainError>)
        ensures
            match r {
                Ok(_) => email_outcome(value@) is None,
                Err(e) => email_outcome(value@) == Some(e@),
            },
            r is Ok ==> value@.contains('@'),
    {
        if value.as_str().is_empty() {
            return Self::decide(value, false);
        }
        let valid = email_is_valid(value.as_str());
        Self::decide(value, valid)
    }

    /// What this predicate checks.
    pub fn description() -> (r: &'static str)
        ensures
            r@ == "RFC 5321 email address"@,
    {
        "RFC 5321 email address"
    }
}

} // verus!
