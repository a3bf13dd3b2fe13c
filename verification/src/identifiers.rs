//! Identifier validation: URL slugs.
//!
//! A slug matches `^[a-z0-9]+(-[a-z0-9]+)*$` and is 1 to 128 bytes long.
//! [`ValidSlug::from_title`] turns prose into a slug.

use vstd::prelude::*;
use vstd::utf8::*;
use crate::error::{DomainError, DomainErrorKind, DomainErrorKindView, DomainErrorView};
use crate::text::{no_ascii_upper, floor_boundary, floor_char_boundary, ascii_alnum, ascii_lower, is_ascii_alnum, lower_form, lowercase, push_char, byte_len, byte_prefix, chars_of, is_lower_alnum, lower_alnum, split_at_byte, str_byte_len};

verus! {

/// Maximum length for a slug, in bytes.
pub const MAX_SLUG_LENGTH: usize = 128;

/// Predicate for valid URL slugs.
#[derive(Debug, Clone, Copy, Default)]
pub struct ValidSlug;

/// A slug error for `value` with the given reason.
pub open spec fn slug_error(value: Seq<char>, reason: DomainErrorKindView) -> DomainErrorView {
    DomainErrorView {
        format_name: "slug"@,
        value: value,
        reason: reason,
        example: "my-first-post"@,
    }
}

/// The first rule broken by the characters of `s` from position `i` on:
/// a hyphen right after a hyphen, or a character that is neither a
/// lowercase ASCII letter, an ASCII digit nor a hyphen.
pub open spec fn slug_scan(s: Seq<char>, i: int) -> Option<DomainErrorKindView>
    decreases s.len() - i,
{
    if i < 0 || i >= s.len() {
        None
    } else if s[i] == '-' && i > 0 && s[i - 1] == '-' {
        Some(DomainErrorKindView::InvalidFormat { expected: "no consecutive hyphens"@ })
    } else if s[i] != '-' && !is_lower_alnum(s[i]) {
        Some(DomainErrorKindView::InvalidCharacter { char: s[i], position: i as usize })
    } else {
        slug_scan(s, i + 1)
    }
}

/// Why `s` is not a slug, as `ValidSlug::check` reports it (`None`: it is one).
pub open spec fn slug_outcome(s: Seq<char>) -> Option<DomainErrorView> {
    if s.len() == 0 {
        Some(slug_error(s, DomainErrorKindView::Empty))
    } else if byte_len(s) > MAX_SLUG_LENGTH {
        Some(
            DomainErrorView {
                format_name: "slug"@,
                value: byte_prefix(s, floor_boundary(s, 32) as int) + "..."@,
                reason: DomainErrorKindView::TooLong {
                    max: MAX_SLUG_LENGTH,
                    actual: byte_len(s) as usize,
                },
                example: "my-first-post"@,
            },
        )
    } else if !is_lower_alnum(s[0]) {
        Some(slug_error(s, DomainErrorKindView::InvalidCharacter { char: s[0], position: 0 }))
    } else if !is_lower_alnum(s.last()) {
        Some(
            slug_error(
                s,
                DomainErrorKindView::InvalidCharacter {
                    char: s.last(),
                    position: (s.len() - 1) as usize,
                },
            ),
        )
    } else {
        match slug_scan(s, 0) {
            Some(k) => Some(slug_error(s, k)),
            None => None,
        }
    }
}

/// The slug format: 1 to 128 bytes, only lowercase ASCII letters, ASCII
/// digits and hyphens, starting and ending with a letter or digit, and no
/// two hyphens in a row.
pub open spec fn is_slug(s: Seq<char>) -> bool {
    &&& 0 < s.len()
    &&& byte_len(s) <= MAX_SLUG_LENGTH
    &&& is_lower_alnum(s[0])
    &&& is_lower_alnum(s.last())
    &&& forall|i: int| 0 <= i < s.len() ==> #[trigger] s[i] == '-' || is_lower_alnum(s[i])
    &&& forall|i: int| 0 < i < s.len() && #[trigger] s[i] == '-' ==> s[i - 1] != '-'
}

/// `slug_scan` finds nothing from `i` on exactly when no later position
/// breaks a rule.
proof fn lemma_slug_scan(s: Seq<char>, i: int)
    requires
        0 <= i <= s.len(),
    ensures
        slug_scan(s, i) is None <==> (forall|j: int|
            i <= j < s.len() ==> (#[trigger] s[j] == '-' || is_lower_alnum(s[j])) && !(s[j] == '-'
                && j > 0 && s[j - 1] == '-')),
    decreases s.len() - i,
{
    if i < s.len() {
        lemma_slug_scan(s, i + 1);
    }
}

/// A string passes the slug check exactly when it has the slug format.
pub proof fn lemma_slug_check_iff_format(s: Seq<char>)
    ensures
        slug_outcome(s) is None <==> is_slug(s),
{
    lemma_slug_scan(s, 0);
    if slug_outcome(s) is None {
        assert forall|i: int| 0 < i < s.len() && #[trigger] s[i] == '-' implies s[i - 1] != '-' by {
            assert(s[i] == '-' || is_lower_alnum(s[i]));
        }
    }
    if is_slug(s) {
        assert forall|j: int| 0 <= j < s.len() implies (#[trigger] s[j] == '-' || is_lower_alnum(
            s[j],
        )) && !(s[j] == '-' && j > 0 && s[j - 1] == '-') by {
            assert(s[j] == '-' || is_lower_alnum(s[j]));
        }
    }
}

/// `c` itself when it is an ASCII letter or digit, otherwise a hyphen.
pub open spec fn hyphenate(c: char) -> char {
    if is_ascii_alnum(c) {
        c
    } else {
        '-'
    }
}

/// `m` with its hyphens squeezed: every hyphen is dropped, except that two
/// non-hyphen characters that had one or more hyphens between them are
/// kept apart by exactly one hyphen. (This is joining the non-empty
/// hyphen-separated pieces of `m` with single hyphens.)
pub open spec fn squeeze_hyphens(m: Seq<char>) -> Seq<char>
    decreases m.len(),
{
    if m.len() == 0 {
        seq![]
    } else {
        let r = squeeze_hyphens(m.drop_last());
        let c = m.last();
        if c == '-' {
            r
        } else if m.len() >= 2 && m[m.len() - 2] == '-' && r.len() > 0 {
            r.push('-').push(c)
        } else {
            r.push(c)
        }
    }
}

/// The slug candidate built from a title: lowercase it, turn every
/// character that is not an ASCII letter or digit into a hyphen, then
/// squeeze the hyphens.
pub open spec fn title_slug(title: Seq<char>) -> Seq<char> {
    squeeze_hyphens(lower_form(title).map_values(|c: char| hyphenate(c)))
}

/// Squeezing leaves no hyphen at either end and no two hyphens in a row,
/// and every other character of the result is a character of the input.
pub proof fn lemma_squeeze_shape(m: Seq<char>)
    ensures
        ({
            let r = squeeze_hyphens(m);
            &&& r.len() > 0 ==> r[0] != '-' && r.last() != '-'
            &&& forall|i: int| 0 < i < r.len() && #[trigger] r[i] == '-' ==> r[i - 1] != '-'
            &&& forall|i: int|
                0 <= i < r.len() && #[trigger] r[i] != '-' ==> exists|j: int|
                    0 <= j < m.len() && m[j] == r[i]
        }),
    decreases m.len(),
{
    if m.len() > 0 {
        let p = m.drop_last();
        lemma_squeeze_shape(p);
        let r0 = squeeze_hyphens(p);
        let r = squeeze_hyphens(m);
        assert forall|i: int| 0 <= i < r.len() && #[trigger] r[i] != '-' implies exists|j: int|
            0 <= j < m.len() && m[j] == r[i] by {
            if i < r0.len() {
                assert(r[i] == r0[i]);
                let j = choose|j: int| 0 <= j < p.len() && p[j] == r0[i];
                assert(m[j] == p[j]);
            } else {
                assert(m[m.len() - 1] == r[i]);
            }
        }
        assert forall|i: int| 0 < i < r.len() && #[trigger] r[i] == '-' implies r[i - 1] != '-' by {
            if i < r0.len() {
                assert(r[i] == r0[i] && r[i - 1] == r0[i - 1]);
            }
        }
    }
}

/// A title slug consists of ASCII letters, ASCII digits and hyphens.
pub proof fn lemma_title_slug_ascii(title: Seq<char>)
    ensures
        forall|i: int|
            0 <= i < title_slug(title).len() ==> #[trigger] title_slug(title)[i] == '-'
                || is_ascii_alnum(title_slug(title)[i]),
        is_ascii_chars(title_slug(title)),
{
    let m = lower_form(title).map_values(|c: char| hyphenate(c));
    lemma_squeeze_shape(m);
    let r = title_slug(title);
    assert forall|i: int| 0 <= i < r.len() implies #[trigger] r[i] == '-' || is_ascii_alnum(r[i]) by {
        if r[i] != '-' {
            let j = choose|j: int| 0 <= j < m.len() && m[j] == r[i];
            assert(m[j] == hyphenate(lower_form(title)[j]));
        }
    }
    assert forall|i: int| 0 <= i < r.len() implies '\0' <= #[trigger] r[i] <= '\u{7f}' by {
        assert(r[i] == '-' || is_ascii_alnum(r[i]));
    }
}

/// Squeezing a string that starts with a letter or digit, holds only
/// ASCII letters, digits and hyphens and never two hyphens in a row only
/// drops a trailing hyphen.
proof fn lemma_squeeze_hyphen_free(m: Seq<char>)
    requires
        m.len() > 0 ==> m[0] != '-',
        forall|i: int| 0 <= i < m.len() ==> #[trigger] m[i] == '-' || is_ascii_alnum(m[i]),
        forall|i: int| 0 < i < m.len() && #[trigger] m[i] == '-' ==> m[i - 1] != '-',
    ensures
        squeeze_hyphens(m) == (if m.len() > 0 && m.last() == '-' {
            m.drop_last()
        } else {
            m
        }),
    decreases m.len(),
{
    if m.len() > 0 {
        let p = m.drop_last();
        assert forall|i: int| 0 <= i < p.len() implies #[trigger] p[i] == '-' || is_ascii_alnum(
            p[i],
        ) by {
            assert(p[i] == m[i]);
        }
        assert forall|i: int| 0 < i < p.len() && #[trigger] p[i] == '-' implies p[i - 1] != '-' by {
            assert(p[i] == m[i] && p[i - 1] == m[i - 1]);
        }
        if p.len() > 0 {
            assert(p[0] == m[0]);
        }
        lemma_squeeze_hyphen_free(p);
        if m.last() == '-' {
            if p.len() > 0 {
                assert(m[m.len() - 1] == '-');
                assert(p.last() == m[m.len() - 2]);
            }
        } else if m.len() >= 2 && m[m.len() - 2] == '-' {
            assert(p.last() == '-');
            assert(p.len() >= 2);
            assert(p.drop_last().push('-') =~= p);
            assert(p.push(m.last()) =~= m);
        } else {
            assert(p.push(m.last()) =~= m);
        }
    }
}

/// A slug is left unchanged by the steps of `from_title` that follow the
/// lowercasing: turning non-alphanumerics into hyphens and squeezing them.
pub proof fn lemma_slug_fixed_by_slugging(s: Seq<char>)
    requires
        is_slug(s),
    ensures
        squeeze_hyphens(s.map_values(|c: char| hyphenate(c))) == s,
{
    let m = s.map_values(|c: char| hyphenate(c));
    assert forall|i: int| 0 <= i < s.len() implies #[trigger] m[i] == s[i] by {
        assert(s[i] == '-' || is_lower_alnum(s[i]));
    }
    assert(m =~= s);
    assert forall|i: int| 0 <= i < s.len() implies #[trigger] s[i] == '-' || is_ascii_alnum(s[i]) by {
        assert(s[i] == '-' || is_lower_alnum(s[i]));
    }
    lemma_squeeze_hyphen_free(s);
}

/// The slug candidate of text without ASCII uppercase letters has the slug
/// format whenever it is non-empty and at most 128 bytes long.
pub proof fn lemma_candidate_is_slug(m: Seq<char>)
    requires
        no_ascii_upper(m),
    ensures
        ({
            let r = squeeze_hyphens(m.map_values(|c: char| hyphenate(c)));
            r.len() > 0 && byte_len(r) <= MAX_SLUG_LENGTH ==> is_slug(r)
        }),
{
    let mm = m.map_values(|c: char| hyphenate(c));
    let r = squeeze_hyphens(mm);
    lemma_squeeze_shape(mm);
    assert forall|i: int| 0 <= i < r.len() implies #[trigger] r[i] == '-' || is_lower_alnum(r[i]) by {
        if r[i] != '-' {
            let j = choose|j: int| 0 <= j < mm.len() && mm[j] == r[i];
            assert(mm[j] == hyphenate(m[j]));
            assert(!('A' <= m[j] && m[j] <= 'Z'));
        }
    }
    if r.len() > 0 {
        assert(r[0] == '-' || is_lower_alnum(r[0]));
        assert(r[r.len() - 1] == '-' || is_lower_alnum(r[r.len() - 1]));
    }
}

/// A slug is its own slug: `from_title` gives a slug back unchanged.
pub proof fn lemma_slug_maps_to_itself(s: Seq<char>)
    requires
        is_slug(s),
    ensures
        title_slug(s) == s,
{
    assert forall|i: int| 0 <= i < s.len() implies '\0' <= #[trigger] s[i] <= '\u{7f}' by {
        assert(s[i] == '-' || is_lower_alnum(s[i]));
    }
    assert(is_ascii_chars(s));
    let l = s.map_values(|c: char| ascii_lower(c));
    assert forall|i: int| 0 <= i < s.len() implies #[trigger] l[i] == s[i] by {
        assert(s[i] == '-' || is_lower_alnum(s[i]));
    }
    assert(l =~= s);
    lemma_slug_fixed_by_slugging(s);
}

/// Turning a title into a slug is idempotent: when `from_title` succeeds on
/// a title, it gives its result back when applied to that result.
pub proof fn lemma_from_title_idempotent(title: Seq<char>)
    requires
        title_slug(title).len() > 0,
        slug_outcome(title_slug(title)) is None,
    ensures
        title_slug(title_slug(title)) == title_slug(title),
{
    lemma_slug_check_iff_format(title_slug(title));
    lemma_slug_maps_to_itself(title_slug(title));
}

/// The slug candidate of already-lowercased text: every character that is
/// not an ASCII letter or digit becomes a hyphen, then runs of hyphens are
/// squeezed to one and hyphens at both ends dropped.
pub fn slug_candidate(lowered: &str) -> (r: String)
    ensures
        r@ == squeeze_hyphens(lowered@.map_values(|c: char| hyphenate(c))),
{
    let chars = chars_of(lowered);
    let ghost m = lowered@.map_values(|c: char| hyphenate(c));
    let mut out = String::new();
    let mut out_nonempty = false;
    let mut prev_hyphen = false;
    let mut i: usize = 0;
    while i < chars.len()
        invariant
            chars@ == lowered@,
            m == lowered@.map_values(|c: char| hyphenate(c)),
            0 <= i <= chars@.len(),
            out@ == squeeze_hyphens(m.take(i as int)),
            out_nonempty == (out@.len() > 0),
            prev_hyphen == (i > 0 && m[i - 1] == '-'),
        decreases chars.len() - i,
    {
        let c = chars[i];
        let ghost before = m.take(i as int);
        assert(m.take(i + 1).drop_last() =~= before);
        if ascii_alnum(c) {
            if prev_hyphen && out_nonempty {
                push_char(&mut out, '-');
            }
            push_char(&mut out, c);
            out_nonempty = true;
            prev_hyphen = false;
        } else {
            prev_hyphen = true;
        }
        i = i + 1;
    }
    assert(m.take(chars.len() as int) =~= m);
    out
}

impl ValidSlug {
    /// Checks that `value` is a URL slug.
    ///
    /// A value longer than 128 bytes is reported with only its first 32
    /// bytes, cut back to the last character that ends within them.
    pub fn check(value: &String) -> (r: Result<(), DomainError>)
        ensures
            match r {
                Ok(_) => slug_outcome(value@) is None,
                Err(e) => slug_outcome(value@) == Some(e@),
            },
    {
        let s = value.as_str();
        if s.is_empty() {
            return Err(
                DomainError {
                    format_name: "slug",
                    value: value.clone(),
                    reason: DomainErrorKind::Empty,
                    example: "my-first-post",
                },
            );
        }
        let len = str_byte_len(s);
        if len > MAX_SLUG_LENGTH {
            let cut = floor_char_boundary(s, 32);
            let (head, _) = split_at_byte(s, cut);
            let mut shown = head.to_owned();
            shown.append("...");
            return Err(
                DomainError {
                    format_name: "slug",
                    value: shown,
                    reason: DomainErrorKind::TooLong { max: MAX_SLUG_LENGTH, actual: len },
                    example: "my-first-post",
                },
            );
        }
        let chars = chars_of(s);
        if !lower_alnum(chars[0]) {
            return Err(
                DomainError {
                    format_name: "slug",
                    value: value.clone(),
                    reason: DomainErrorKind::InvalidCharacter { char: chars[0], position: 0 },
                    example: "my-first-post",
                },
            );
        }
        let last = chars.len() - 1;
        if !lower_alnum(chars[last]) {
            return Err(
                DomainError {
                    format_name: "slug",
                    value: value.clone(),
                    reason: DomainErrorKind::InvalidCharacter { char: chars[last], position: last },
                    example: "my-first-post",
                },
            );
        }
        let mut prev_hyphen = false;
        let mut i: usize = 0;
        while i < chars.len()
            invariant
                chars@ == value@,
                0 <= i <= chars@.len(),
                value@.len() > 0,
                byte_len(value@) <= MAX_SLUG_LENGTH,
                is_lower_alnum(value@[0]),
                is_lower_alnum(value@.last()),
                prev_hyphen == (i > 0 && chars@[i - 1] == '-'),
                slug_scan(value@, 0) == slug_scan(value@, i as int),
            decreases chars.len() - i,
        {
            let c = chars[i];
            if c == '-' {
                if prev_hyphen {
                    return Err(
                        DomainError {
                            format_name: "slug",
                            value: value.clone(),
                            reason: DomainErrorKind::InvalidFormat {
                                expected: "no consecutive hyphens",
                            },
                            example: "my-first-post",
                        },
                    );
                }
                prev_hyphen = true;
            } else if lower_alnum(c) {
                prev_hyphen = false;
            } else {
                return Err(
                    DomainError {
                        format_name: "slug",
                        value: value.clone(),
                        reason: DomainErrorKind::InvalidCharacter { char: c, position: i },
                        example: "my-first-post",
                    },
                );
            }
            i = i + 1;
        }
        Ok(())
    }

    /// Converts a title or prose string into a slug: lowercases it, replaces
    /// every character that is not an ASCII letter or digit by a hyphen,
    /// collapses runs of hyphens into one and trims hyphens at both ends,
    /// then checks the result as a slug.
    ///
    /// Fails with `Empty` (reporting the title) when nothing is left.
    pub fn from_title(title: &str) -> (r: Result<String, DomainError>)
        ensures
            title_slug(title@).len() == 0 ==> (r matches Err(e) && e@ == slug_error(
                title@,
                DomainErrorKindView::Empty,
            )),
            title_slug(title@).len() > 0 ==> match r {
                Ok(s) => s@ == title_slug(title@) && slug_outcome(s@) is None,
                Err(e) => slug_outcome(title_slug(title@)) == Some(e@),
            },
            title_slug(title@).len() > 0 && byte_len(title_slug(title@)) <= MAX_SLUG_LENGTH
                ==> r is Ok,
    {
        let lower = lowercase(title);
        let out = slug_candidate(lower.as_str());
        if out.as_str().is_empty() {
            return Err(
                DomainError {
                    format_name: "slug",
                    value: title.to_owned(),
                    reason: DomainErrorKind::Empty,
                    example: "my-first-post",
                },
            );
        }
        proof {
            lemma_candidate_is_slug(lower@);
            lemma_slug_check_iff_format(out@);
        }
        match ValidSlug::check(&out) {
            Ok(()) => Ok(out),
            Err(e) => Err(e),
        }
    }

    /// What this predicate checks.
    pub fn description() -> (r: &'static str)
        ensures
            r@ == "URL-safe slug (lowercase alphanumeric with hyphens)"@,
    {
        "URL-safe slug (lowercase alphanumeric with hyphens)"
    }
}

} // verus!
