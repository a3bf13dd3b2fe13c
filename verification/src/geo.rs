//! Geographic coordinates: latitude (-90 to 90 degrees) and longitude
//! (-180 to 180 degrees).
//!
//! Coordinates are floating-point values; the range checks and the
//! degrees-minutes-seconds arithmetic on them live outside this verified
//! library. This module holds the predicates' identities and the checks on
//! the integer and character parts of a degrees-minutes-seconds coordinate.

use vstd::prelude::*;
use crate::error::{DomainError, DomainErrorKind, DomainErrorKindView, DomainErrorView};
use crate::text::{ascii_upper, decimal, push_char, push_decimal};

verus! {

/// Predicate for valid latitude values (-90 to 90 degrees, finite).
#[derive(Debug, Clone, Copy, Default)]
pub struct ValidLatitude;

/// Predicate for valid longitude values (-180 to 180 degrees, finite).
#[derive(Debug, Clone, Copy, Default)]
pub struct ValidLongitude;

impl ValidLatitude {
    /// What this predicate checks.
    pub fn description() -> (r: &'static str)
        ensures
            r@ == "latitude (-90 to 90 degrees)"@,
    {
        "latitude (-90 to 90 degrees)"
    }
}

impl ValidLongitude {
    /// What this predicate checks.
    pub fn description() -> (r: &'static str)
        ensures
            r@ == "longitude (-180 to 180 degrees)"@,
    {
        "longitude (-180 to 180 degrees)"
    }
}

/// A degrees-minutes-seconds coordinate error about `component`.
pub open spec fn dms_error(
    format_name: Seq<char>,
    value: Seq<char>,
    component: Seq<char>,
    reason: Seq<char>,
    example: Seq<char>,
) -> DomainErrorView {
    DomainErrorView {
        format_name: format_name,
        value: value,
        reason: DomainErrorKindView::InvalidComponent { component: component, reason: reason },
        example: example,
    }
}

/// What converting a degrees-minutes-seconds coordinate reports, checking in
/// turn the degrees (at most `max`), the minutes (below 60), the seconds
/// (`seconds_ok`: within [0, 60)) and the hemisphere (`pos` or `neg`, in
/// either case). `Ok(true)` stands for the negative hemisphere, `Ok(false)`
/// for the positive one. `shown` is how the coordinate prints without its
/// hemisphere and `seconds_text` how its seconds print.
pub open spec fn dms_outcome(
    format_name: Seq<char>,
    example: Seq<char>,
    max: nat,
    pos: char,
    neg: char,
    degrees: nat,
    minutes: nat,
    seconds_ok: bool,
    seconds_text: Seq<char>,
    shown: Seq<char>,
    hemisphere: char,
) -> Result<bool, DomainErrorView> {
    if degrees > max {
        Err(
            dms_error(
                format_name,
                shown,
                "degrees"@,
                "must be between 0 and "@ + decimal(max) + ", got "@ + decimal(degrees),
                example,
            ),
        )
    } else if minutes >= 60 {
        Err(
            dms_error(
                format_name,
                shown,
                "minutes"@,
                "must be between 0 and 59, got "@ + decimal(minutes),
                example,
            ),
        )
    } else if !seconds_ok {
        Err(
            dms_error(
                format_name,
                shown,
                "seconds"@,
                "must be between 0 and 60, got "@ + seconds_text,
                example,
            ),
        )
    } else if ascii_upper(hemisphere) == pos {
        Ok(false)
    } else if ascii_upper(hemisphere) == neg {
        Ok(true)
    } else {
        Err(
            dms_error(
                format_name,
                shown.push(hemisphere),
                "hemisphere"@,
                "must be '"@ + seq![pos] + "' or '"@ + seq![neg] + "', got '"@ + seq![hemisphere]
                    + "'"@,
                example,
            ),
        )
    }
}

/// What checking the parts of a latitude reports: at most 90 degrees,
/// hemisphere N or S.
pub open spec fn latitude_dms_outcome(
    degrees: nat,
    minutes: nat,
    seconds_ok: bool,
    seconds_text: Seq<char>,
    shown: Seq<char>,
    hemisphere: char,
) -> Result<bool, DomainErrorView> {
    dms_outcome(
        "latitude"@,
        "37\u{b0}46'29.64\"N"@,
        90,
        'N',
        'S',
        degrees,
        minutes,
        seconds_ok,
        seconds_text,
        shown,
        hemisphere,
    )
}

/// What checking the parts of a longitude reports: at most 180 degrees,
/// hemisphere E or W.
pub open spec fn longitude_dms_outcome(
    degrees: nat,
    minutes: nat,
    seconds_ok: bool,
    seconds_text: Seq<char>,
    shown: Seq<char>,
    hemisphere: char,
) -> Result<bool, DomainErrorView> {
    dms_outcome(
        "longitude"@,
        "122\u{b0}25'9.84\"W"@,
        180,
        'E',
        'W',
        degrees,
        minutes,
        seconds_ok,
        seconds_text,
        shown,
        hemisphere,
    )
}

/// A degrees-minutes-seconds verdict with its error taken by its view.
pub open spec fn dms_result_view(r: Result<bool, DomainError>) -> Result<bool, DomainErrorView> {
    match r {
        Ok(b) => Ok(b),
        Err(e) => Err(e@),
    }
}

/// Whether `c` is the ASCII letter `upper`, in either case.
fn same_letter(c: char, upper: char, lower: char) -> (b: bool)
    requires
        'A' <= upper <= 'Z',
        lower as int == upper as int + 32,
    ensures
        b == (ascii_upper(c) == upper),
{
    c == upper || c == lower
}

fn dms_component_error(
    format_name: &'static str,
    value: String,
    component: &'static str,
    reason: String,
    example: &'static str,
) -> (e: DomainError)
    ensures
        e@ == dms_error(format_name@, value@, component@, reason@, example@),
{
    DomainError {
        format_name: format_name,
        value: value,
        reason: DomainErrorKind::InvalidComponent { component: component, reason: reason },
        example: example,
    }
}

fn dms_verdict(
    format_name: &'static str,
    example: &'static str,
    max: u32,
    pos: (char, char),
    neg: (char, char),
    degrees: u32,
    minutes: u32,
    seconds_ok: bool,
    seconds_text: &str,
    shown: &str,
    hemisphere: char,
) -> (r: Result<bool, DomainError>)
    requires
        'A' <= pos.0 <= 'Z',
        pos.1 as int == pos.0 as int + 32,
        'A' <= neg.0 <= 'Z',
        neg.1 as int == neg.0 as int + 32,
    ensures
        dms_result_view(r) == dms_outcome(
            format_name@,
            example@,
            max as nat,
            pos.0,
            neg.0,
            degrees as nat,
            minutes as nat,
            seconds_ok,
            seconds_text@,
            shown@,
            hemisphere,
        ),
{
    if degrees > max {
        let mut why = String::from_str("must be between 0 and ");
        push_decimal(&mut why, max as u64);
        why.append(", got ");
        push_decimal(&mut why, degrees as u64);
        return Err(dms_component_error(format_name, shown.to_owned(), "degrees", why, example));
    }
    if minutes >= 60 {
        let mut why = String::from_str("must be between 0 and 59, got ");
        push_decimal(&mut why, minutes as u64);
        return Err(dms_component_error(format_name, shown.to_owned(), "minutes", why, example));
    }
    if !seconds_ok {
        let mut why = String::from_str("must be between 0 and 60, got ");
        why.append(seconds_text);
        return Err(dms_component_error(format_name, shown.to_owned(), "seconds", why, example));
    }
    if same_letter(hemisphere, pos.0, pos.1) {
        return Ok(false);
    }
    if same_letter(hemisphere, neg.0, neg.1) {
        return Ok(true);
    }
    let mut value = shown.to_owned();
    push_char(&mut value, hemisphere);
    let mut why = String::from_str("must be '");
    push_char(&mut why, pos.0);
    why.append("' or '");
    push_char(&mut why, neg.0);
    why.append("', got '");
    push_char(&mut why, hemisphere);
    why.append("'");
    assert(why@ =~= "must be '"@ + seq![pos.0] + "' or '"@ + seq![neg.0] + "', got '"@
        + seq![hemisphere] + "'"@);
    Err(dms_component_error(format_name, value, "hemisphere", why, example))
}

/// Checks the parts of a latitude given in degrees, minutes and seconds:
/// degrees up to 90, minutes below 60, seconds within [0, 60)
/// (`seconds_ok`) and hemisphere `N` or `S` in either case. `Ok(true)` for
/// the southern hemisphere. Errors report `shown` (the coordinate as
/// printed without its hemisphere) and `seconds_text` (its seconds as
/// printed).
pub fn latitude_dms_verdict(
    degrees: u32,
    minutes: u32,
    seconds_ok: bool,
    seconds_text: &str,
    shown: &str,
    hemisphere: char,
) -> (r: Result<bool, DomainError>)
    ensures
        dms_result_view(r) == latitude_dms_outcome(
            degrees as nat,
            minutes as nat,
            seconds_ok,
            seconds_text@,
            shown@,
            hemisphere,
        ),
{
    dms_verdict(
        "latitude",
        "37\u{b0}46'29.64\"N",
        90,
        ('N', 'n'),
        ('S', 's'),
        degrees,
        minutes,
        seconds_ok,
        seconds_text,
        shown,
        hemisphere,
    )
}

/// Checks the parts of a longitude given in degrees, minutes and seconds:
/// degrees up to 180, minutes below 60, seconds within [0, 60)
/// (`seconds_ok`) and hemisphere `E` or `W` in either case. `Ok(true)` for
/// the western hemisphere. Errors report `shown` and `seconds_text` as for
/// latitudes.
pub fn longitude_dms_verdict(
    degrees: u32,
    minutes: u32,
    seconds_ok: bool,
    seconds_text: &str,
    shown: &str,
    hemisphere: char,
) -> (r: Result<bool, DomainError>)
    ensures
        dms_result_view(r) == longitude_dms_outcome(
            degrees as nat,
            minutes as nat,
            seconds_ok,
            seconds_text@,
            shown@,
            hemisphere,
        ),
{
    dms_verdict(
        "longitude",
        "122\u{b0}25'9.84\"W",
        180,
        ('E', 'e'),
        ('W', 'w'),
        degrees,
        minutes,
        seconds_ok,
        seconds_text,
        shown,
        hemisphere,
    )
}

} // verus!
