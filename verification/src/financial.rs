//! Financial validation: IBANs and credit card numbers.
//!
//! Financial identifiers are sensitive: errors carry a masked value. An
//! IBAN shows its first and last 4 bytes (`DE89****3000`), a card number
//! only its last 4 digits (`****1111`).

use vstd::prelude::*;
use vstd::utf8::is_ascii_chars;
use crate::error::{DomainError, DomainErrorKind, DomainErrorKindView, DomainErrorView};
use crate::text::{
    ascii_upper, chars_of, digit, is_digit, push_char, upper_form, uppercase,
};

verus! {

/// The ASCII digits of `s`, in order.
pub open spec fn digits_of(s: Seq<char>) -> Seq<char>
    decreases s.len(),
{
    if s.len() == 0 {
        seq![]
    } else if is_digit(s.last()) {
        digits_of(s.drop_last()).push(s.last())
    } else {
        digits_of(s.drop_last())
    }
}

/// A card number masked down to its last 4 digits: `****` followed by the
/// last 4 of its ASCII digits, or just `****` when it has fewer than 4.
pub open spec fn masked_card(s: Seq<char>) -> Seq<char> {
    let d = digits_of(s);
    if d.len() >= 4 {
        "****"@ + d.subrange(d.len() - 4, d.len() as int)
    } else {
        "****"@
    }
}

/// An IBAN masked down to its first and last 4 characters, or `****` when
/// it has at most 8 characters.
pub open spec fn masked_iban(s: Seq<char>) -> Seq<char> {
    if s.len() > 8 {
        s.take(4) + "****"@ + s.skip(s.len() - 4)
    } else {
        "****"@
    }
}

/// The ASCII digits of `s`.
pub fn ascii_digits(s: &str) -> (r: String)
    ensures
        r@ == digits_of(s@),
{
    let chars = chars_of(s);
    let mut r = String::new();
    let mut i: usize = 0;
    while i < chars.len()
        invariant
            chars@ == s@,
            0 <= i <= chars@.len(),
            r@ == digits_of(s@.take(i as int)),
        decreases chars.len() - i,
    {
        assert(s@.take(i + 1).drop_last() =~= s@.take(i as int));
        if digit(chars[i]) {
            push_char(&mut r, chars[i]);
        }
        i = i + 1;
    }
    assert(s@.take(chars.len() as int) =~= s@);
    r
}

proof fn lemma_digits_of_ascii(s: Seq<char>)
    ensures
        forall|i: int| 0 <= i < digits_of(s).len() ==> is_digit(#[trigger] digits_of(s)[i]),
    decreases s.len(),
{
    if s.len() > 0 {
        let p = s.drop_last();
        lemma_digits_of_ascii(p);
        assert forall|i: int| 0 <= i < digits_of(s).len() implies is_digit(
            #[trigger] digits_of(s)[i],
        ) by {
            if i < digits_of(p).len() {
                assert(digits_of(s)[i] == digits_of(p)[i]);
            }
        }
    }
}

/// `s` without its spaces and dashes.
pub fn without_separators(s: &str) -> (r: String)
    ensures
        r@ == strip_separators(s@),
{
    let chars = chars_of(s);
    let mut r = String::new();
    let mut i: usize = 0;
    while i < chars.len()
        invariant
            chars@ == s@,
            0 <= i <= chars@.len(),
            r@ == strip_separators(s@.take(i as int)),
        decreases chars.len() - i,
    {
        assert(s@.take(i + 1).drop_last() =~= s@.take(i as int));
        if chars[i] != ' ' && chars[i] != '-' {
            push_char(&mut r, chars[i]);
        }
        i = i + 1;
    }
    assert(s@.take(chars.len() as int) =~= s@);
    r
}

/// Masks a credit card number, showing only its last 4 digits.
pub fn mask_card(card: &str) -> (r: String)
    ensures
        r@ == masked_card(card@),
{
    let digits = ascii_digits(card);
    let d = chars_of(digits.as_str());
    let mut r = String::from_str("****");
    if d.len() >= 4 {
        let n = d.len();
        push_char(&mut r, d[n - 4]);
        push_char(&mut r, d[n - 3]);
        push_char(&mut r, d[n - 2]);
        push_char(&mut r, d[n - 1]);
        assert(r@ =~= "****"@ + d@.subrange(n - 4, n as int));
    }
    r
}

/// Masks an IBAN, showing its first 4 and last 4 characters (only `****`
/// when it has at most 8).
pub fn mask_iban(iban: &str) -> (r: String)
    ensures
        r@ == masked_iban(iban@),
{
    let c = chars_of(iban);
    let n = c.len();
    let mut r = String::from_str("****");
    if n > 8 {
        let mut head = String::new();
        push_char(&mut head, c[0]);
        push_char(&mut head, c[1]);
        push_char(&mut head, c[2]);
        push_char(&mut head, c[3]);
        head.append(r.as_str());
        push_char(&mut head, c[n - 4]);
        push_char(&mut head, c[n - 3]);
        push_char(&mut head, c[n - 2]);
        push_char(&mut head, c[n - 1]);
        proof {
            reveal_strlit("****");
        }
        assert(head@ =~= iban@.take(4) + "****"@ + iban@.skip(n - 4));
        r = head;
    }
    r
}

// ----------------------------------------------------------------------------
// IBAN
// ----------------------------------------------------------------------------

/// Whether the `iban` crate parses `s` as a valid IBAN (ISO 13616 format,
/// country-specific BBAN format, check digits).
pub uninterp spec fn spec_iban_parses(s: Seq<char>) -> bool;

/// Parses `s` with `iban::Iban`'s `FromStr` and tells whether it succeeded.
#[verifier::external_body]
fn iban_parses(s: &str) -> (b: bool)
    ensures
        b == spec_iban_parses(s@),
{
    s.parse::<::iban::Iban>().is_ok()
}

/// Valid IBAN (International Bank Account Number), case-insensitive.
#[derive(Debug, Clone, Copy, Default)]
pub struct ValidIban;

/// An IBAN error carrying the (masked) `value`.
pub open spec fn iban_error(value: Seq<char>, reason: DomainErrorKindView) -> DomainErrorView {
    DomainErrorView {
        format_name: "IBAN"@,
        value: value,
        reason: reason,
        example: "DE89370400440532013000"@,
    }
}

/// What `ValidIban::check` reports for `s`, given whether the uppercased
/// `s` parses as an IBAN.
pub open spec fn iban_outcome_given(s: Seq<char>, parses: bool) -> Option<DomainErrorView> {
    if s.len() == 0 {
        Some(iban_error("****"@, DomainErrorKindView::Empty))
    } else if parses {
        None
    } else {
        Some(iban_error(masked_iban(s), DomainErrorKindView::InvalidChecksum))
    }
}

/// Why `s` is not an IBAN, as `ValidIban::check` reports it.
pub open spec fn iban_outcome(s: Seq<char>) -> Option<DomainErrorView> {
    iban_outcome_given(s, spec_iban_parses(upper_form(s)))
}

impl ValidIban {
    /// The verdict on `value` once it is known whether its uppercase form
    /// parses as an IBAN: empty values and values that do not parse are
    /// rejected, the latter reported masked.
    pub fn decide(value: &String, parses: bool) -> (r: Result<(), DomainError>)
        ensures
            match r {
                Ok(_) => iban_outcome_given(value@, parses) is None,
                Err(e) => iban_outcome_given(value@, parses) == Some(e@),
            },
    {
        if value.as_str().is_empty() {
            return Err(
                DomainError {
                    format_name: "IBAN",
                    value: String::from_str("****"),
                    reason: DomainErrorKind::Empty,
                    example: "DE89370400440532013000",
                },
            );
        }
        if parses {
            Ok(())
        } else {
            Err(
                DomainError {
                    format_name: "IBAN",
                    value: mask_iban(value.as_str()),
                    reason: DomainErrorKind::InvalidChecksum,
                    example: "DE89370400440532013000",
                },
            )
        }
    }

    /// Checks that `value` is an IBAN; the check ignores letter case.
    pub fn check(value: &String) -> (r: Result<(), DomainError>)
        ensures
            match r {
                Ok(_) => iban_outcome(value@) is None,
                Err(e) => iban_outcome(value@) == Some(e@),
            },
    {
        if value.as_str().is_empty() {
            return Self::decide(value, false);
        }
        let normalized = uppercase(value.as_str());
        let parses = iban_parses(normalized.as_str());
        Self::decide(value, parses)
    }

    /// What this predicate checks.
    pub fn description() -> (r: &'static str)
        ensures
            r@ == "IBAN"@,
    {
        "IBAN"
    }
}

/// IBAN checks ignore letter case: an ASCII value passes exactly when its
/// uppercase form does.
pub proof fn lemma_iban_check_ignores_case(s: Seq<char>)
    requires
        is_ascii_chars(s),
    ensures
        (iban_outcome(s) is None) == (iban_outcome(upper_form(s)) is None),
{
    let u = s.map_values(|c: char| ascii_upper(c));
    assert forall|i: int| 0 <= i < u.len() implies '\0' <= #[trigger] u[i] <= '\u{7f}' by {
        assert(u[i] == ascii_upper(s[i]));
        assert('\0' <= s[i] <= '\u{7f}');
    }
    assert(is_ascii_chars(u));
    let uu = u.map_values(|c: char| ascii_upper(c));
    assert forall|i: int| 0 <= i < u.len() implies #[trigger] uu[i] == u[i] by {
        assert(u[i] == ascii_upper(s[i]));
    }
    assert(uu =~= u);
}

/// The country code of an IBAN: its first 2 characters.
pub fn iban_country_code(iban: &str) -> (r: &str)
    requires
        iban@.len() >= 2,
    ensures
        r@ == iban@.take(2),
{
    let r = iban.substring_char(0, 2);
    assert(r@ =~= iban@.take(2));
    r
}

/// The masked representation of an IBAN, for display.
pub fn iban_masked(iban: &str) -> (r: String)
    ensures
        r@ == masked_iban(iban@),
{
    mask_iban(iban)
}

// ----------------------------------------------------------------------------
// Credit card
// ----------------------------------------------------------------------------

/// Whether the `creditcard` crate parses the digit string `s` as a card
/// number (known issuer, valid length for it, Luhn checksum).
pub uninterp spec fn spec_card_parses(s: Seq<char>) -> bool;

/// Parses a string of ASCII digits with `creditcard::CreditCard`'s
/// `FromStr` and tells whether it succeeded. It rejects numbers of fewer
/// than 12 digits.
#[verifier::external_body]
fn card_parses(s: &str) -> (b: bool)
    requires
        all_digits(s@),
    ensures
        b == spec_card_parses(s@),
        b ==> s@.len() >= 12,
{
    s.parse::<::creditcard::CreditCard>().is_ok()
}

/// Valid credit card number (Luhn validated); spaces and dashes are
/// ignored, any other character that is not a digit makes it invalid.
#[derive(Debug, Clone, Copy, Default)]
pub struct ValidCreditCard;

/// A card error carrying the (masked) `value`.
pub open spec fn card_error(value: Seq<char>, reason: DomainErrorKindView) -> DomainErrorView {
    DomainErrorView {
        format_name: "credit card number"@,
        value: value,
        reason: reason,
        example: "4111111111111111"@,
    }
}

/// What `ValidCreditCard::check` reports for `s`, given whether `s` without
/// its separators is accepted as a card number.
pub open spec fn card_outcome_given(s: Seq<char>, parses: bool) -> Option<DomainErrorView> {
    if s.len() == 0 {
        Some(card_error("****"@, DomainErrorKindView::Empty))
    } else if parses {
        None
    } else {
        Some(card_error(masked_card(s), DomainErrorKindView::InvalidChecksum))
    }
}

/// Whether `s` is made of ASCII digits only.
pub open spec fn all_digits(s: Seq<char>) -> bool {
    forall|i: int| 0 <= i < s.len() ==> is_digit(#[trigger] s[i])
}

/// A card-number separator: a space or a dash.
pub open spec fn is_card_separator(c: char) -> bool {
    c == ' ' || c == '-'
}

/// `s` without its spaces and dashes.
pub open spec fn strip_separators(s: Seq<char>) -> Seq<char>
    decreases s.len(),
{
    if s.len() == 0 {
        seq![]
    } else if is_card_separator(s.last()) {
        strip_separators(s.drop_last())
    } else {
        strip_separators(s.drop_last()).push(s.last())
    }
}

/// Whether `d` (a number without separators) is a card number: only ASCII
/// digits, and accepted by the `creditcard` crate (which needs at least 12).
pub open spec fn card_accepts(d: Seq<char>) -> bool {
    all_digits(d) && d.len() >= 12 && spec_card_parses(d)
}

/// Why `s` is not a card number, as `ValidCreditCard::check` reports it.
pub open spec fn card_outcome(s: Seq<char>) -> Option<DomainErrorView> {
    card_outcome_given(s, card_accepts(strip_separators(s)))
}

impl ValidCreditCard {
    /// The verdict on `value` once it is known whether it is accepted as a
    /// card number without its separators.
    pub fn decide(value: &String, parses: bool) -> (r: Result<(), DomainError>)
        ensures
            match r {
                Ok(_) => card_outcome_given(value@, parses) is None,
                Err(e) => card_outcome_given(value@, parses) == Some(e@),
            },
    {
        if value.as_str().is_empty() {
            return Err(
                DomainError {
                    format_name: "credit card number",
                    value: String::from_str("****"),
                    reason: DomainErrorKind::Empty,
                    example: "4111111111111111",
                },
            );
        }
        if parses {
            Ok(())
        } else {
            Err(
                DomainError {
                    format_name: "credit card number",
                    value: mask_card(value.as_str()),
                    reason: DomainErrorKind::InvalidChecksum,
                    example: "4111111111111111",
                },
            )
        }
    }

    /// Checks that `value` is a credit card number.
    pub fn check(value: &String) -> (r: Result<(), DomainError>)
        ensures
            match r {
                Ok(_) => card_outcome(value@) is None,
                Err(e) => card_outcome(value@) == Some(e@),
            },
    {
        if value.as_str().is_empty() {
            return Self::decide(value, false);
        }
        let cleaned = without_separators(value.as_str());
        let c = chars_of(cleaned.as_str());
        let mut i: usize = 0;
        while i < c.len()
            invariant
                c@ == cleaned@,
                cleaned@ == strip_separators(value@),
                0 <= i <= c@.len(),
                forall|j: int| 0 <= j < i ==> is_digit(#[trigger] c@[j]),
            decreases c.len() - i,
        {
            if !digit(c[i]) {
                assert(!is_digit(cleaned@[i as int]));
                return Self::decide(value, false);
            }
            i = i + 1;
        }
        let parses = card_parses(cleaned.as_str());
        Self::decide(value, parses)
    }

    /// What this predicate checks.
    pub fn description() -> (r: &'static str)
        ensures
            r@ == "credit card number"@,
    {
        "credit card number"
    }
}

/// The digits of a concatenation are the digits of each part, in order.
proof fn lemma_digits_of_concat(a: Seq<char>, b: Seq<char>)
    ensures
        digits_of(a + b) == digits_of(a) + digits_of(b),
    decreases b.len(),
{
    if b.len() == 0 {
        assert(a + b =~= a);
        assert(digits_of(a) + digits_of(b) =~= digits_of(a));
    } else {
        lemma_digits_of_concat(a, b.drop_last());
        assert((a + b).drop_last() =~= a + b.drop_last());
        assert((a + b).last() == b.last());
        if is_digit(b.last()) {
            assert(digits_of(a) + digits_of(b.drop_last()).push(b.last()) =~= (digits_of(a)
                + digits_of(b.drop_last())).push(b.last()));
        }
    }
}

/// A string of ASCII digits is its own digit string.
proof fn lemma_digits_of_digits(s: Seq<char>)
    requires
        forall|i: int| 0 <= i < s.len() ==> is_digit(#[trigger] s[i]),
    ensures
        digits_of(s) == s,
    decreases s.len(),
{
    if s.len() > 0 {
        let p = s.drop_last();
        assert forall|i: int| 0 <= i < p.len() implies is_digit(#[trigger] p[i]) by {
            assert(p[i] == s[i]);
        }
        lemma_digits_of_digits(p);
        assert(is_digit(s[s.len() - 1]));
        assert(p.push(s.last()) =~= s);
    }
}

/// A string without ASCII digits has an empty digit string.
proof fn lemma_digits_of_none(s: Seq<char>)
    requires
        forall|i: int| 0 <= i < s.len() ==> !is_digit(#[trigger] s[i]),
    ensures
        digits_of(s) == Seq::<char>::empty(),
    decreases s.len(),
{
    if s.len() > 0 {
        let p = s.drop_last();
        assert forall|i: int| 0 <= i < p.len() implies !is_digit(#[trigger] p[i]) by {
            assert(p[i] == s[i]);
        }
        lemma_digits_of_none(p);
        assert(!is_digit(s[s.len() - 1]));
    }
}

/// The mask prefix holds no digit.
proof fn lemma_digits_of_stars()
    ensures
        digits_of("****"@) == Seq::<char>::empty(),
{
    reveal_strlit("****");
    let s = "****"@;
    assert forall|i: int| 0 <= i < s.len() implies !is_digit(#[trigger] s[i]) by {
        assert(s[i] == '*');
    }
    lemma_digits_of_none(s);
}

/// The digits a masked card number keeps: its last 4 digits, or none when
/// it has fewer than 4.
proof fn lemma_masked_card_digits(s: Seq<char>)
    ensures
        digits_of(masked_card(s)) == (if digits_of(s).len() >= 4 {
            digits_of(s).subrange(digits_of(s).len() - 4, digits_of(s).len() as int)
        } else {
            Seq::<char>::empty()
        }),
{
    let d = digits_of(s);
    lemma_digits_of_stars();
    if d.len() >= 4 {
        let t = d.subrange(d.len() - 4, d.len() as int);
        lemma_digits_of_ascii(s);
        assert forall|i: int| 0 <= i < t.len() implies is_digit(#[trigger] t[i]) by {
            assert(t[i] == d[d.len() - 4 + i]);
        }
        lemma_digits_of_digits(t);
        lemma_digits_of_concat("****"@, t);
        assert(Seq::<char>::empty() + t =~= t);
    }
}

/// A rejected card number is never shown in full: the value of every
/// card error holds at most 4 digits, and they are the last digits of the
/// number, in order.
pub proof fn lemma_card_error_shows_last_four(s: Seq<char>)
    requires
        card_outcome(s) is Some,
    ensures
        ({
            let shown = digits_of(card_outcome(s).unwrap().value);
            let d = digits_of(s);
            &&& shown.len() <= 4
            &&& shown.len() <= d.len()
            &&& shown == d.subrange(d.len() - shown.len(), d.len() as int)
        }),
{
    lemma_masked_card_digits(s);
    lemma_digits_of_stars();
}

/// Masking a card number twice is the same as masking it once.
pub proof fn lemma_mask_card_idempotent(s: Seq<char>)
    ensures
        masked_card(masked_card(s)) == masked_card(s),
{
    lemma_masked_card_digits(s);
    let d = digits_of(s);
    if d.len() >= 4 {
        let t = d.subrange(d.len() - 4, d.len() as int);
        assert(t.subrange(0, 4) =~= t);
    }
}

/// Stripping separators from a concatenation strips each part.
proof fn lemma_strip_concat(a: Seq<char>, b: Seq<char>)
    ensures
        strip_separators(a + b) == strip_separators(a) + strip_separators(b),
    decreases b.len(),
{
    if b.len() == 0 {
        assert(a + b =~= a);
        assert(strip_separators(a) + strip_separators(b) =~= strip_separators(a));
    } else {
        lemma_strip_concat(a, b.drop_last());
        assert((a + b).drop_last() =~= a + b.drop_last());
        assert((a + b).last() == b.last());
        if !is_card_separator(b.last()) {
            assert(strip_separators(a) + strip_separators(b.drop_last()).push(b.last()) =~= (
            strip_separators(a) + strip_separators(b.drop_last())).push(b.last()));
        }
    }
}

/// A run of separators strips to nothing.
proof fn lemma_strip_separators_only(m: Seq<char>)
    requires
        forall|i: int| 0 <= i < m.len() ==> is_card_separator(#[trigger] m[i]),
    ensures
        strip_separators(m) == Seq::<char>::empty(),
    decreases m.len(),
{
    if m.len() > 0 {
        let p = m.drop_last();
        assert forall|i: int| 0 <= i < p.len() implies is_card_separator(#[trigger] p[i]) by {
            assert(p[i] == m[i]);
        }
        lemma_strip_separators_only(p);
        assert(is_card_separator(m[m.len() - 1]));
    }
}

/// Inserting spaces and dashes anywhere into a value leaves it the same once
/// its separators are stripped.
pub proof fn lemma_insert_separators(a: Seq<char>, m: Seq<char>, b: Seq<char>)
    requires
        forall|i: int| 0 <= i < m.len() ==> is_card_separator(#[trigger] m[i]),
    ensures
        strip_separators(a + m + b) == strip_separators(a + b),
{
    lemma_strip_separators_only(m);
    lemma_strip_concat(a, m);
    lemma_strip_concat(a + m, b);
    lemma_strip_concat(a, b);
    assert(strip_separators(a) + Seq::<char>::empty() =~= strip_separators(a));
}

/// Separators do not matter to the card check: two values that are the same
/// once their spaces and dashes are stripped (so in particular a value and
/// the value with any number of spaces and dashes inserted anywhere) both
/// pass or both fail.
pub proof fn lemma_card_check_ignores_separators(s: Seq<char>, t: Seq<char>)
    requires
        strip_separators(s) == strip_separators(t),
    ensures
        (card_outcome(s) is None) == (card_outcome(t) is None),
{
}

/// The masked representation of a card number (last 4 digits), for display.
pub fn card_masked(card: &str) -> (r: String)
    ensures
        r@ == masked_card(card@),
{
    mask_card(card)
}

/// The last 4 digits of a card number, or all its digits when it has
/// fewer than 4.
pub fn card_last_four(card: &str) -> (r: String)
    ensures
        r@ == ({
            let d = digits_of(card@);
            if d.len() >= 4 {
                d.subrange(d.len() - 4, d.len() as int)
            } else {
                d
            }
        }),
{
    let digits = ascii_digits(card);
    let d = chars_of(digits.as_str());
    if d.len() >= 4 {
        let n = d.len();
        let mut r = String::new();
        push_char(&mut r, d[n - 4]);
        push_char(&mut r, d[n - 3]);
        push_char(&mut r, d[n - 2]);
        push_char(&mut r, d[n - 1]);
        assert(r@ =~= d@.subrange(n - 4, n as int));
        r
    } else {
        digits
    }
}

} // verus!
