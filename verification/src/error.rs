//! Error types for domain validation.
//!
//! Each error says what format was being validated, the offending value
//! (masked for sensitive data), why it failed, and an example of a valid
//! value. The rendered message is
//! `invalid <format>: <reason> (example: <example>)`.

use vstd::prelude::*;
use crate::text::{decimal, push_char, push_decimal};

verus! {

/// Rich error for domain validation failures.
#[derive(Debug, Clone, PartialEq, Eq)]
pub struct DomainError {
    /// What we were validating ("email address", "phone number")
    pub format_name: &'static str,
    /// The invalid value (may be masked for sensitive data)
    pub value: String,
    /// Why it failed
    pub reason: DomainErrorKind,
    /// Example of valid format
    pub example: &'static str,
}

/// Specific reason for domain validation failure.
#[derive(Debug, Clone, PartialEq, Eq)]
pub enum DomainErrorKind {
    /// Value cannot be empty
    Empty,
    /// Value exceeds maximum length
    TooLong {
        /// Maximum allowed length
        max: usize,
        /// Actual length
        actual: usize,
    },
    /// Value below minimum length
    TooShort {
        /// Minimum required length
        min: usize,
        /// Actual length
        actual: usize,
    },
    /// Wrong format pattern
    InvalidFormat {
        /// Expected format description
        expected: &'static str,
    },
    /// Invalid character at position
    InvalidCharacter {
        /// The invalid character
        char: char,
        /// Position in string (0-indexed)
        position: usize,
    },
    /// Checksum validation failed
    InvalidChecksum,
    /// Specific component is invalid
    InvalidComponent {
        /// Component name ("scheme", "domain", etc.)
        component: &'static str,
        /// Why the component is invalid
        reason: String,
    },
}

/// The mathematical content of a [`DomainErrorKind`]: texts as character
/// sequences.
pub enum DomainErrorKindView {
    Empty,
    TooLong { max: usize, actual: usize },
    TooShort { min: usize, actual: usize },
    InvalidFormat { expected: Seq<char> },
    InvalidCharacter { char: char, position: usize },
    InvalidChecksum,
    InvalidComponent { component: Seq<char>, reason: Seq<char> },
}

/// The mathematical content of a [`DomainError`].
pub struct DomainErrorView {
    pub format_name: Seq<char>,
    pub value: Seq<char>,
    pub reason: DomainErrorKindView,
    pub example: Seq<char>,
}

impl View for DomainErrorKind {
    type V = DomainErrorKindView;

    open spec fn view(&self) -> DomainErrorKindView {
        match self {
            DomainErrorKind::Empty => DomainErrorKindView::Empty,
            DomainErrorKind::TooLong { max, actual } => DomainErrorKindView::TooLong {
                max: *max,
                actual: *actual,
            },
            DomainErrorKind::TooShort { min, actual } => DomainErrorKindView::TooShort {
                min: *min,
                actual: *actual,
            },
            DomainErrorKind::InvalidFormat { expected } => DomainErrorKindView::InvalidFormat {
                expected: expected@,
            },
            DomainErrorKind::InvalidCharacter { char, position } =>
                DomainErrorKindView::InvalidCharacter { char: *char, position: *position },
            DomainErrorKind::InvalidChecksum => DomainErrorKindView::InvalidChecksum,
            DomainErrorKind::InvalidComponent { component, reason } =>
                DomainErrorKindView::InvalidComponent { component: component@, reason: reason@ },
        }
    }
}

impl View for DomainError {
    type V = DomainErrorView;

    open spec fn view(&self) -> DomainErrorView {
        DomainErrorView {
            format_name: self.format_name@,
            value: self.value@,
            reason: self.reason@,
            example: self.example@,
        }
    }
}

/// The human-readable message of an error reason.
pub open spec fn kind_message(k: DomainErrorKindView) -> Seq<char> {
    match k {
        DomainErrorKindView::Empty => "cannot be empty"@,
        DomainErrorKindView::TooLong { max, actual } => "too long ("@ + decimal(actual as nat)
            + " chars, max "@ + decimal(max as nat) + ")"@,
        DomainErrorKindView::TooShort { min, actual } => "too short ("@ + decimal(actual as nat)
            + " chars, min "@ + decimal(min as nat) + ")"@,
        DomainErrorKindView::InvalidFormat { expected } => "invalid format, expected "@ + expected,
        DomainErrorKindView::InvalidCharacter { char, position } => "invalid character '"@
            + seq![char] + "' at position "@ + decimal(position as nat),
        DomainErrorKindView::InvalidChecksum => "checksum validation failed"@,
        DomainErrorKindView::InvalidComponent { component, reason } => "invalid "@ + component
            + ": "@ + reason,
    }
}

/// The human-readable message of an error:
/// `invalid <format>: <reason> (example: <example>)`.
pub open spec fn error_message(e: DomainErrorView) -> Seq<char> {
    "invalid "@ + e.format_name + ": "@ + kind_message(e.reason) + " (example: "@ + e.example
        + ")"@
}

impl DomainErrorKind {
    /// Renders the reason as a human-readable message.
    pub fn to_string(&self) -> (r: String)
        ensures
            r@ == kind_message(self@),
    {
        match self {
            DomainErrorKind::Empty => String::from_str("cannot be empty"),
            DomainErrorKind::TooLong { max, actual } => {
                let mut s = String::from_str("too long (");
                push_decimal(&mut s, *actual as u64);
                s.append(" chars, max ");
                push_decimal(&mut s, *max as u64);
                s.append(")");
                s
            },
            DomainErrorKind::TooShort { min, actual } => {
                let mut s = String::from_str("too short (");
                push_decimal(&mut s, *actual as u64);
                s.append(" chars, min ");
                push_decimal(&mut s, *min as u64);
                s.append(")");
                s
            },
            DomainErrorKind::InvalidFormat { expected } => {
                let mut s = String::from_str("invalid format, expected ");
                s.append(expected);
                s
            },
            DomainErrorKind::InvalidCharacter { char, position } => {
                let mut s = String::from_str("invalid character '");
                push_char(&mut s, *char);
                s.append("' at position ");
                push_decimal(&mut s, *position as u64);
                s
            },
            DomainErrorKind::InvalidChecksum => String::from_str("checksum validation failed"),
            DomainErrorKind::InvalidComponent { component, reason } => {
                let mut s = String::from_str("invalid ");
                s.append(component);
                s.append(": ");
                s.append(reason.as_str());
                s
            },
        }
    }
}

impl DomainError {
    /// Renders the error as a human-readable message.
    pub fn to_string(&self) -> (r: String)
        ensures
            r@ == error_message(self@),
    {
        let mut s = String::from_str("invalid ");
        s.append(self.format_name);
        s.append(": ");
        let reason = self.reason.to_string();
        s.append(reason.as_str());
        s.append(" (example: ");
        s.append(self.example);
        s.append(")");
        s
    }
}

} // verus!
