//! UUID validation (RFC 4122) via the `uuid` crate: any UUID, or a UUID of
//! a given version (4 or 7).

use vstd::prelude::*;
use crate::error::{DomainError, DomainErrorKind, DomainErrorKindView, DomainErrorView};
use crate::text::{decimal, push_decimal};

verus! {

/// The 128-bit value (big-endian) of the UUID that `uuid::Uuid::parse_str`
/// reads from `s`, or `None` when it rejects `s`.
pub uninterp spec fn spec_uuid_parse(s: Seq<char>) -> Option<u128>;

/// Parses `s` with `uuid::Uuid::parse_str` and gives its 128-bit value.
#[verifier::external_body]
fn uuid_parse(s: &str) -> (r: Option<u128>)
    ensures
        r == spec_uuid_parse(s@),
{
    match ::uuid::Uuid::parse_str(s) {
        Ok(u) => Some(u.as_u128()),
        Err(_) => None,
    }
}

/// The version number of a UUID: the high nibble of its byte 6, which is
/// bits 76 to 79 of its big-endian 128-bit value.
pub open spec fn uuid_version_of(v: u128) -> nat {
    (v as nat / 0x1000_0000_0000_0000_0000) % 16
}

/// The 128-bit value (big-endian) of the UUID written in `value`, or `None`
/// when `uuid::Uuid::parse_str` rejects it.
pub fn uuid_value(value: &str) -> (r: Option<u128>)
    ensures
        r == spec_uuid_parse(value@),
{
    uuid_parse(value)
}

/// The version number of the UUID with value `v` (what
/// `uuid::Uuid::get_version_num` gives): bits 76 to 79.
fn uuid_version_num(v: u128) -> (r: usize)
    ensures
        r == uuid_version_of(v),
{
    let n: u128 = (v >> 76u128) & 0xfu128;
    assert((v >> 76u128) & 0xfu128 == (v / 0x1000_0000_0000_0000_0000u128) % 16) by (bit_vector);
    assert(v as nat / 0x1000_0000_0000_0000_0000 == (v / 0x1000_0000_0000_0000_0000u128) as nat);
    n as usize
}

/// Any valid UUID (any version).
#[derive(Debug, Clone, Copy, Default)]
pub struct ValidUuid;

/// UUID must be version `V`; the predicate's error names and examples
/// exist for versions 4 and 7.
#[derive(Debug, Clone, Copy, Default)]
pub struct UuidVersion<const V: usize>;

/// A malformed-UUID error for `value`.
pub open spec fn uuid_format_error(value: Seq<char>) -> DomainErrorView {
    DomainErrorView {
        format_name: "UUID"@,
        value: value,
        reason: DomainErrorKindView::InvalidFormat {
            expected: "xxxxxxxx-xxxx-xxxx-xxxx-xxxxxxxxxxxx"@,
        },
        example: "550e8400-e29b-41d4-a716-446655440000"@,
    }
}

/// What `ValidUuid::check` reports for `s`, given its parse.
pub open spec fn uuid_outcome_given(s: Seq<char>, parsed: Option<u128>) -> Option<DomainErrorView> {
    match parsed {
        Some(_) => None,
        None => Some(uuid_format_error(s)),
    }
}

/// The format name of a version-specific UUID.
pub open spec fn version_name(v: nat) -> Seq<char> {
    if v == 4 {
        "UUID v4"@
    } else {
        "UUID v7"@
    }
}

/// The example of a version-specific UUID.
pub open spec fn version_example(v: nat) -> Seq<char> {
    if v == 4 {
        "550e8400-e29b-41d4-a716-446655440000"@
    } else {
        "018f6b8e-e4a0-7000-8000-000000000000"@
    }
}

/// Whether `UuidVersion::<v>` can report on a value with parse `parsed`
/// without panicking: a version mismatch is reported only for versions 4
/// and 7, which have an error name and an example.
pub open spec fn version_reportable(v: nat, parsed: Option<u128>) -> bool {
    v == 4 || v == 7 || (parsed matches Some(u) ==> uuid_version_of(u) == v)
}

/// What `UuidVersion::<v>::check` reports for `s`, given its parse.
pub open spec fn version_outcome_given(s: Seq<char>, v: nat, parsed: Option<u128>) -> Option<
    DomainErrorView,
> {
    match parsed {
        None => Some(uuid_format_error(s)),
        Some(u) => if uuid_version_of(u) == v {
            None
        } else {
            Some(
                DomainErrorView {
                    format_name: version_name(v),
                    value: s,
                    reason: DomainErrorKindView::InvalidComponent {
                        component: "version"@,
                        reason: "expected v"@ + decimal(v) + ", got v"@ + decimal(
                            uuid_version_of(u),
                        ),
                    },
                    example: version_example(v),
                },
            )
        },
    }
}

impl ValidUuid {
    /// The verdict on `value` given its parse (`None`: the parse failed).
    pub fn decide(value: &String, parsed: Option<u128>) -> (r: Result<(), DomainError>)
        ensures
            match r {
                Ok(_) => uuid_outcome_given(value@, parsed) is None,
                Err(e) => uuid_outcome_given(value@, parsed) == Some(e@),
            },
    {
        match parsed {
            Some(_) => Ok(()),
            None => Err(
                DomainError {
                    format_name: "UUID",
                    value: value.clone(),
                    reason: DomainErrorKind::InvalidFormat {
                        expected: "xxxxxxxx-xxxx-xxxx-xxxx-xxxxxxxxxxxx",
                    },
                    example: "550e8400-e29b-41d4-a716-446655440000",
                },
            ),
        }
    }

    /// Checks that `value` is a UUID.
    pub fn check(value: &String) -> (r: Result<(), DomainError>)
        ensures
            match r {
                Ok(_) => uuid_outcome_given(value@, spec_uuid_parse(value@)) is None,
                Err(e) => uuid_outcome_given(value@, spec_uuid_parse(value@)) == Some(e@),
            },
    {
        let parsed = uuid_parse(value.as_str());
        Self::decide(value, parsed)
    }

    /// What this predicate checks.
    pub fn description() -> (r: &'static str)
        ensures
            r@ == "UUID"@,
    {
        "UUID"
    }
}

/// The format name for UUID version `V`; only versions 4 and 7 exist.
pub fn uuid_version_name<const V: usize>() -> (r: &'static str)
    requires
        V == 4 || V == 7,
    ensures
        r@ == version_name(V as nat),
{
    if V == 4 {
        "UUID v4"
    } else {
        "UUID v7"
    }
}

/// The example for UUID version `V`; only versions 4 and 7 exist.
pub fn uuid_version_example<const V: usize>() -> (r: &'static str)
    requires
        V == 4 || V == 7,
    ensures
        r@ == version_example(V as nat),
{
    if V == 4 {
        "550e8400-e29b-41d4-a716-446655440000"
    } else {
        "018f6b8e-e4a0-7000-8000-000000000000"
    }
}

impl<const V: usize> UuidVersion<V> {
    /// The verdict on `value` given its parse (`None`: the parse failed).
    pub fn decide(value: &String, parsed: Option<u128>) -> (r: Result<(), DomainError>)
        requires
            version_reportable(V as nat, parsed),
        ensures
            match r {
                Ok(_) => version_outcome_given(value@, V as nat, parsed) is None,
                Err(e) => version_outcome_given(value@, V as nat, parsed) == Some(e@),
            },
    {
        match parsed {
            None => Err(
                DomainError {
                    format_name: "UUID",
                    value: value.clone(),
                    reason: DomainErrorKind::InvalidFormat {
                        expected: "xxxxxxxx-xxxx-xxxx-xxxx-xxxxxxxxxxxx",
                    },
                    example: "550e8400-e29b-41d4-a716-446655440000",
                },
            ),
            Some(u) => {
                let actual = uuid_version_num(u);
                if actual == V {
                    Ok(())
                } else {
                    let mut why = String::from_str("expected v");
                    push_decimal(&mut why, V as u64);
                    why.append(", got v");
                    push_decimal(&mut why, actual as u64);
                    Err(
                        DomainError {
                            format_name: uuid_version_name::<V>(),
                            value: value.clone(),
                            reason: DomainErrorKind::InvalidComponent {
                                component: "version",
                                reason: why,
                            },
                            example: uuid_version_example::<V>(),
                        },
                    )
                }
            },
        }
    }

    /// Checks that `value` is a UUID of version `V`.
    pub fn check(value: &String) -> (r: Result<(), DomainError>)
        requires
            version_reportable(V as nat, spec_uuid_parse(value@)),
        ensures
            match r {
                Ok(_) => version_outcome_given(value@, V as nat, spec_uuid_parse(value@)) is None,
                Err(e) => version_outcome_given(value@, V as nat, spec_uuid_parse(value@)) == Some(
                    e@,
                ),
            },
    {
        let parsed = uuid_parse(value.as_str());
        Self::decide(value, parsed)
    }

    /// Checks `value` like `check` where that does not panic; `None` for a
    /// UUID of another version when `V` is neither 4 nor 7.
    pub fn try_check(value: &String) -> (r: Option<Result<(), DomainError>>)
        ensures
            r is None <==> !version_reportable(V as nat, spec_uuid_parse(value@)),
            r matches Some(res) ==> match res {
                Ok(_) => version_outcome_given(value@, V as nat, spec_uuid_parse(value@)) is None,
                Err(e) => version_outcome_given(value@, V as nat, spec_uuid_parse(value@)) == Some(
                    e@,
                ),
            },
    {
        if V != 4 && V != 7 {
            if let Some(u) = uuid_parse(value.as_str()) {
                if uuid_version_num(u) != V {
                    return None;
                }
            }
        }
        Some(Self::check(value))
    }

    /// What this predicate checks.
    pub fn description() -> (r: &'static str)
        ensures
            r@ == "UUID with specific version"@,
    {
        "UUID with specific version"
    }
}

/// A UUID that passes a version check passes the plain UUID check.
pub proof fn lemma_version_implies_uuid(s: Seq<char>, v: nat, parsed: Option<u128>)
    requires
        version_outcome_given(s, v, parsed) is None,
    ensures
        uuid_outcome_given(s, parsed) is None,
{
}

} // verus!
