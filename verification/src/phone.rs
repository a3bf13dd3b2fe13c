//! Phone number validation (E.164) via the `phonenumber` crate (Google's
//! libphonenumber metadata).

use vstd::prelude::*;
use crate::error::{DomainError, DomainErrorKind, DomainErrorKindView, DomainErrorView};

verus! {

/// Whether the number that `phonenumber::parse(None, s)` reads from `s` is
/// valid for its region (`phonenumber::is_valid`); `None` when the parse
/// fails.
pub uninterp spec fn spec_phone_validity(s: Seq<char>) -> Option<bool>;

/// The E.164 rendering of the number that `phonenumber::parse(None, s)`
/// reads from `s`; `None` when the parse fails.
pub uninterp spec fn spec_phone_e164(s: Seq<char>) -> Option<Seq<char>>;

/// The country calling code of the number that `phonenumber::parse(None, s)`
/// reads from `s`; `None` when the parse fails.
pub uninterp spec fn spec_phone_country_code(s: Seq<char>) -> Option<u16>;

/// Parses `s` with `phonenumber::parse` (no default region) and asks
/// `phonenumber::is_valid` about the result.
#[verifier::external_body]
fn phone_validity(s: &str) -> (r: Option<bool>)
    ensures
        r == spec_phone_validity(s@),
{
    match phonenumber::parse(None, s) {
        Ok(p) => Some(phonenumber::is_valid(&p)),
        Err(_) => None,
    }
}

/// Parses `s` with `phonenumber::parse` (no default region) and formats the
/// result in E.164 mode.
#[verifier::external_body]
fn phone_e164(s: &str) -> (r: Option<String>)
    ensures
        r is Some <==> spec_phone_validity(s@) is Some,
        match r {
            Some(e) => spec_phone_e164(s@) == Some(e@),
            None => spec_phone_e164(s@) is None,
        },
{
    match phonenumber::parse(None, s) {
        Ok(p) => Some(p.format().mode(phonenumber::Mode::E164).to_string()),
        Err(_) => None,
    }
}

/// Parses `s` with `phonenumber::parse` (no default region) and gives the
/// country calling code of the result.
#[verifier::external_body]
fn phone_country_code(s: &str) -> (r: Option<u16>)
    ensures
        r is Some <==> spec_phone_validity(s@) is Some,
        r == spec_phone_country_code(s@),
{
    match phonenumber::parse(None, s) {
        Ok(p) => Some(p.code().value()),
        Err(_) => None,
    }
}

/// E.164 international phone number predicate.
#[derive(Debug, Clone, Copy, Default)]
pub struct ValidPhoneNumber;

/// A phone error for `value` with the given reason.
pub open spec fn phone_error(value: Seq<char>, reason: DomainErrorKindView) -> DomainErrorView {
    DomainErrorView {
        format_name: "phone number"@,
        value: value,
        reason: reason,
        example: "+14155551234"@,
    }
}

/// What `ValidPhoneNumber::check` reports for `s`, given the parse verdict
/// (`None`: no number could be read; `Some(valid)`: whether the number is
/// valid for its region).
pub open spec fn phone_outcome_given(s: Seq<char>, validity: Option<bool>) -> Option<
    DomainErrorView,
> {
    if s.len() == 0 {
        Some(phone_error(s, DomainErrorKindView::Empty))
    } else {
        match validity {
            None => Some(
                phone_error(
                    s,
                    DomainErrorKindView::InvalidFormat {
                        expected: "E.164 format (+[country][number])"@,
                    },
                ),
            ),
            Some(true) => None,
            Some(false) => Some(
                phone_error(
                    s,
                    DomainErrorKindView::InvalidFormat {
                        expected: "valid phone number for region"@,
                    },
                ),
            ),
        }
    }
}

/// Why `s` is not a phone number, as `ValidPhoneNumber::check` reports it.
pub open spec fn phone_outcome(s: Seq<char>) -> Option<DomainErrorView> {
    phone_outcome_given(s, spec_phone_validity(s))
}

impl ValidPhoneNumber {
    /// The verdict on `value` given what the phone-number parser made of it.
    pub fn decide(value: &String, validity: Option<bool>) -> (r: Result<(), DomainError>)
        ensures
            match r {
                Ok(_) => phone_outcome_given(value@, validity) is None,
                Err(e) => phone_outcome_given(value@, validity) == Some(e@),
            },
    {
        if value.as_str().is_empty() {
            return Err(
                DomainError {
                    format_name: "phone number",
                    value: value.clone(),
                    reason: DomainErrorKind::Empty,
                    example: "+14155551234",
                },
            );
        }
        match validity {
            None => Err(
                DomainError {
                    format_name: "phone number",
                    value: value.clone(),
                    reason: DomainErrorKind::InvalidFormat {
                        expected: "E.164 format (+[country][number])",
                    },
                    example: "+14155551234",
                },
            ),
            Some(true) => Ok(()),
            Some(false) => Err(
                DomainError {
                    format_name: "phone number",
                    value: value.clone(),
                    reason: DomainErrorKind::InvalidFormat {
                        expected: "valid phone number for region",
                    },
                    example: "+14155551234",
                },
            ),
        }
    }

    /// Checks that `value` is a valid phone number in international form.
    pub fn check(value: &String) -> (r: Result<(), DomainError>)
        ensures
            match r {
                Ok(_) => phone_outcome(value@) is None,
                Err(e) => phone_outcome(value@) == Some(e@),
            },
    {
        if value.as_str().is_empty() {
            return Self::decide(value, None);
        }
        let validity = phone_validity(value.as_str());
        Self::decide(value, validity)
    }

    /// What this predicate checks.
    pub fn description() -> (r: &'static str)
        ensures
            r@ == "E.164 phone number"@,
    {
        "E.164 phone number"
    }
}

/// The E.164 form of a phone number (`+` and digits only), for storage and
/// comparison; `None` when no number can be read from `value`.
pub fn phone_to_e164(value: &str) -> (r: Option<String>)
    ensures
        r is Some <==> spec_phone_validity(value@) is Some,
        match r {
            Some(e) => spec_phone_e164(value@) == Some(e@),
            None => spec_phone_e164(value@) is None,
        },
{
    phone_e164(value)
}

/// The country calling code of a phone number (1 for the US, 44 for the
/// UK); `None` when no number can be read from `value`.
pub fn phone_country_code_of(value: &str) -> (r: Option<u16>)
    ensures
        r is Some <==> spec_phone_validity(value@) is Some,
        r == spec_phone_country_code(value@),
{
    phone_country_code(value)
}

} // verus!
