//! Small text-building helpers shared by the validators: decimal rendering
//! of integers and character-level classification.

use vstd::prelude::*;
use vstd::utf8::*;

verus! {

/// The character of a decimal digit `d` (`0 <= d < 10`).
pub open spec fn digit_char(d: nat) -> char {
    if d == 0 {
        '0'
    } else if d == 1 {
        '1'
    } else if d == 2 {
        '2'
    } else if d == 3 {
        '3'
    } else if d == 4 {
        '4'
    } else if d == 5 {
        '5'
    } else if d == 6 {
        '6'
    } else if d == 7 {
        '7'
    } else if d == 8 {
        '8'
    } else {
        '9'
    }
}

/// The decimal representation of `n`: most significant digit first, no
/// leading zeros (so `0` is the single digit `"0"`).
pub open spec fn decimal(n: nat) -> Seq<char>
    decreases n,
{
    if n < 10 {
        seq![digit_char(n)]
    } else {
        decimal(n / 10).push(digit_char(n % 10))
    }
}

/// Appends one character to a string.
#[verifier::external_body]
pub(crate) fn push_char(s: &mut String, c: char)
    ensures
        final(s)@ == old(s)@.push(c),
{
    s.push(c);
}

fn digit_to_char(d: u64) -> (c: char)
    requires
        d < 10,
    ensures
        c == digit_char(d as nat),
{
    if d == 0 {
        '0'
    } else if d == 1 {
        '1'
    } else if d == 2 {
        '2'
    } else if d == 3 {
        '3'
    } else if d == 4 {
        '4'
    } else if d == 5 {
        '5'
    } else if d == 6 {
        '6'
    } else if d == 7 {
        '7'
    } else if d == 8 {
        '8'
    } else {
        '9'
    }
}

/// Appends the decimal representation of `n` to `s`.
pub fn push_decimal(s: &mut String, n: u64)
    ensures
        final(s)@ == old(s)@ + decimal(n as nat),
    decreases n,
{
    if n >= 10 {
        push_decimal(s, n / 10);
    }
    push_char(s, digit_to_char(n % 10));
    assert(s@ =~= old(s)@ + decimal(n as nat));
}

/// The decimal representation of `n` as a new string.
pub fn decimal_string(n: u64) -> (r: String)
    ensures
        r@ == decimal(n as nat),
{
    let mut s = String::new();
    push_decimal(&mut s, n);
    assert(s@ =~= decimal(n as nat));
    s
}

/// The characters of `s`, in order.
pub fn chars_of(s: &str) -> (v: Vec<char>)
    ensures
        v@ == s@,
{
    let mut v: Vec<char> = Vec::new();
    for c in it: s.chars()
        invariant
            v@ == it.seq().take(it.index() as int),
    {
        v.push(c);
    }
    v
}

/// The length in bytes of the UTF-8 encoding of `s` (what `str::len` returns).
pub open spec fn byte_len(s: Seq<char>) -> nat {
    encode_utf8(s).len()
}

/// Whether byte offset `n` of the UTF-8 encoding of `s` falls between two
/// characters (so that slicing there does not panic).
pub open spec fn is_byte_boundary(s: Seq<char>, n: int) -> bool {
    is_char_boundary(encode_utf8(s), n)
}

/// The characters encoded by the first `n` bytes of `s`.
pub open spec fn byte_prefix(s: Seq<char>, n: int) -> Seq<char> {
    decode_utf8(encode_utf8(s).subrange(0, n))
}

/// The characters encoded from byte `n` of `s` to its end.
pub open spec fn byte_suffix(s: Seq<char>, n: int) -> Seq<char> {
    decode_utf8(encode_utf8(s).subrange(n, byte_len(s) as int))
}

/// The length in bytes of `s`.
pub fn str_byte_len(s: &str) -> (n: usize)
    ensures
        n as nat == byte_len(s@),
{
    s.as_bytes().len()
}

/// Splits `s` at byte offset `mid`, which must fall between two characters.
pub fn split_at_byte(s: &str, mid: usize) -> (r: (&str, &str))
    requires
        is_byte_boundary(s@, mid as int),
    ensures
        r.0@ == byte_prefix(s@, mid as int),
        r.1@ == byte_suffix(s@, mid as int),
{
    broadcast use group_utf8_lib;

    let r = s.split_at(mid);
    assert(encode_utf8(r.0@) =~= encode_utf8(s@).subrange(0, mid as int));
    assert(encode_utf8(r.1@) =~= encode_utf8(s@).subrange(mid as int, byte_len(s@) as int));
    r
}

/// The largest byte offset of `s` that is at most `n` and falls between two
/// characters (offset 0 always does).
pub open spec fn floor_boundary(s: Seq<char>, n: nat) -> nat
    decreases n,
{
    if n == 0 || is_byte_boundary(s, n as int) {
        n
    } else {
        floor_boundary(s, (n - 1) as nat)
    }
}

/// The largest byte offset of `s` that is at most `n` and falls between two
/// characters.
pub fn floor_char_boundary(s: &str, n: usize) -> (k: usize)
    ensures
        k == floor_boundary(s@, n as nat),
        is_byte_boundary(s@, k as int),
        k <= n,
{
    broadcast use group_utf8_lib;

    let mut k = n;
    loop
        invariant
            k <= n,
            floor_boundary(s@, k as nat) == floor_boundary(s@, n as nat),
        decreases k,
    {
        if k == 0 {
            proof {
                encode_utf8_valid_utf8(s@);
            }
            assert(is_byte_boundary(s@, 0));
            return k;
        }
        if s.is_char_boundary(k) {
            return k;
        }
        k = k - 1;
    }
}

/// What `str::to_lowercase` returns for a string: its lowercase equivalent
/// under the Unicode `Lowercase` property, character by character (which
/// may change the number of characters).
pub uninterp spec fn spec_to_lowercase(s: Seq<char>) -> Seq<char>;

/// What `str::to_uppercase` returns for a string: its uppercase equivalent
/// under the Unicode `Uppercase` property.
pub uninterp spec fn spec_to_uppercase(s: Seq<char>) -> Seq<char>;

/// `c` with an ASCII uppercase letter turned to lowercase.
pub open spec fn ascii_lower(c: char) -> char {
    if 'A' <= c && c <= 'Z' {
        ((c as int) + 32) as char
    } else {
        c
    }
}

/// `c` with an ASCII lowercase letter turned to uppercase.
pub open spec fn ascii_upper(c: char) -> char {
    if 'a' <= c && c <= 'z' {
        ((c as int) - 32) as char
    } else {
        c
    }
}

/// The lowercase form of `s`: ASCII lowercasing character by character
/// when `s` is ASCII, otherwise what `str::to_lowercase` gives.
pub open spec fn lower_form(s: Seq<char>) -> Seq<char> {
    if is_ascii_chars(s) {
        s.map_values(|c: char| ascii_lower(c))
    } else {
        spec_to_lowercase(s)
    }
}

/// The uppercase form of `s`: ASCII uppercasing character by character
/// when `s` is ASCII, otherwise what `str::to_uppercase` gives.
pub open spec fn upper_form(s: Seq<char>) -> Seq<char> {
    if is_ascii_chars(s) {
        s.map_values(|c: char| ascii_upper(c))
    } else {
        spec_to_uppercase(s)
    }
}

/// Whether `s` holds no ASCII uppercase letter.
pub open spec fn no_ascii_upper(s: Seq<char>) -> bool {
    forall|i: int| 0 <= i < s.len() ==> !('A' <= #[trigger] s[i] && s[i] <= 'Z')
}

/// Returns the lowercase equivalent of `s` (std's `str::to_lowercase`).
/// The result holds no ASCII uppercase letter, and on ASCII text the
/// Unicode lowercase mapping is the ASCII one: `A`-`Z` become `a`-`z` and
/// every other ASCII character stays.
#[verifier::external_body]
pub(crate) fn str_to_lowercase(s: &str) -> (r: String)
    ensures
        r@ == spec_to_lowercase(s@),
        no_ascii_upper(r@),
        is_ascii_chars(s@) ==> r@ == s@.map_values(|c: char| ascii_lower(c)),
{
    s.to_lowercase()
}

/// Returns the uppercase equivalent of `s` (std's `str::to_uppercase`).
/// On ASCII text the Unicode uppercase mapping is the ASCII one: `a`-`z`
/// become `A`-`Z` and every other ASCII character stays.
#[verifier::external_body]
pub(crate) fn str_to_uppercase(s: &str) -> (r: String)
    ensures
        r@ == spec_to_uppercase(s@),
        is_ascii_chars(s@) ==> r@ == s@.map_values(|c: char| ascii_upper(c)),
{
    s.to_uppercase()
}

/// The lowercase form of `s` (std's `str::to_lowercase`).
pub(crate) fn lowercase(s: &str) -> (r: String)
    ensures
        r@ == lower_form(s@),
        no_ascii_upper(r@),
{
    str_to_lowercase(s)
}

/// The uppercase form of `s` (std's `str::to_uppercase`).
pub(crate) fn uppercase(s: &str) -> (r: String)
    ensures
        r@ == upper_form(s@),
{
    str_to_uppercase(s)
}

/// An ASCII lowercase letter or ASCII digit.
pub open spec fn is_lower_alnum(c: char) -> bool {
    ('a' <= c && c <= 'z') || ('0' <= c && c <= '9')
}

/// An ASCII letter (either case) or ASCII digit.
pub open spec fn is_ascii_alnum(c: char) -> bool {
    ('a' <= c && c <= 'z') || ('A' <= c && c <= 'Z') || ('0' <= c && c <= '9')
}

/// An ASCII digit.
pub open spec fn is_digit(c: char) -> bool {
    '0' <= c && c <= '9'
}

pub fn lower_alnum(c: char) -> (b: bool)
    ensures
        b == is_lower_alnum(c),
{
    ('a' <= c && c <= 'z') || ('0' <= c && c <= '9')
}

pub fn ascii_alnum(c: char) -> (b: bool)
    ensures
        b == is_ascii_alnum(c),
{
    ('a' <= c && c <= 'z') || ('A' <= c && c <= 'Z') || ('0' <= c && c <= '9')
}

pub fn digit(c: char) -> (b: bool)
    ensures
        b == is_digit(c),
{
    '0' <= c && c <= '9'
}

/// Whether two strings have the same characters.
pub fn str_eq(a: &str, b: &str) -> (r: bool)
    ensures
        r == (a@ == b@),
{
    let x = chars_of(a);
    let y = chars_of(b);
    if x.len() != y.len() {
        return false;
    }
    let mut i: usize = 0;
    while i < x.len()
        invariant
            x@ == a@,
            y@ == b@,
            x@.len() == y@.len(),
            0 <= i <= x@.len(),
            forall|t: int| 0 <= t < i ==> x@[t] == y@[t],
        decreases x.len() - i,
    {
        if x[i] != y[i] {
            assert(a@[i as int] != b@[i as int]);
            return false;
        }
        i = i + 1;
    }
    assert(a@ =~= b@);
    true
}

} // verus!
