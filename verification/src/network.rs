//! Network validation: IPv4 and IPv6 addresses, DNS domain names and
//! port numbers.

use vstd::prelude::*;
use crate::error::{DomainError, DomainErrorKind, DomainErrorKindView, DomainErrorView};
use crate::ipaddr::{parse_ipv4, parse_ipv6, parse_ipv6_at, read_ipv4_at};
use crate::text::{
    ascii_alnum, byte_len, chars_of, decimal, decimal_string, is_ascii_alnum, push_decimal,
    lower_form, str_byte_len, lowercase,
};

verus! {

// ----------------------------------------------------------------------------
// IPv4
// ----------------------------------------------------------------------------

/// Predicate for valid IPv4 addresses in dotted-decimal notation.
#[derive(Debug, Clone, Copy, Default)]
pub struct ValidIpv4;

/// An IPv4 error for `value` with the given reason.
pub open spec fn ipv4_error(value: Seq<char>, reason: DomainErrorKindView) -> DomainErrorView {
    DomainErrorView {
        format_name: "IPv4 address"@,
        value: value,
        reason: reason,
        example: "192.168.1.1"@,
    }
}

/// Why `s` is not an IPv4 address, as `ValidIpv4::check` reports it.
pub open spec fn ipv4_outcome(s: Seq<char>) -> Option<DomainErrorView> {
    if s.len() == 0 {
        Some(ipv4_error(s, DomainErrorKindView::Empty))
    } else if parse_ipv4(s) is None {
        Some(
            ipv4_error(
                s,
                DomainErrorKindView::InvalidFormat {
                    expected: "dotted decimal (A.B.C.D where 0 <= each <= 255)"@,
                },
            ),
        )
    } else {
        None
    }
}

/// Parses a whole string as an IPv4 address.
pub fn parse_ipv4_str(value: &str) -> (r: Option<[u8; 4]>)
    ensures
        match r {
            Some(o) => parse_ipv4(value@) == Some(o@),
            None => parse_ipv4(value@) is None,
        },
{
    let chars = chars_of(value);
    match read_ipv4_at(&chars, 0) {
        Some((o, e)) => if e == chars.len() {
            Some(o)
        } else {
            None
        },
        None => None,
    }
}

impl ValidIpv4 {
    /// Checks that `value` is an IPv4 address.
    pub fn check(value: &String) -> (r: Result<(), DomainError>)
        ensures
            match r {
                Ok(_) => ipv4_outcome(value@) is None,
                Err(e) => ipv4_outcome(value@) == Some(e@),
            },
    {
        if value.as_str().is_empty() {
            return Err(
                DomainError {
                    format_name: "IPv4 address",
                    value: value.clone(),
                    reason: DomainErrorKind::Empty,
                    example: "192.168.1.1",
                },
            );
        }
        match parse_ipv4_str(value.as_str()) {
            Some(_) => Ok(()),
            None => Err(
                DomainError {
                    format_name: "IPv4 address",
                    value: value.clone(),
                    reason: DomainErrorKind::InvalidFormat {
                        expected: "dotted decimal (A.B.C.D where 0 <= each <= 255)",
                    },
                    example: "192.168.1.1",
                },
            ),
        }
    }

    /// What this predicate checks.
    pub fn description() -> (r: &'static str)
        ensures
            r@ == "RFC 791 IPv4 address"@,
    {
        "RFC 791 IPv4 address"
    }
}

/// The octets of an IPv4 address.
pub open spec fn ipv4_of(s: Seq<char>) -> Seq<u8> {
    parse_ipv4(s).unwrap()
}

/// The four octets of a valid IPv4 address.
pub fn ipv4_octets(value: &str) -> (r: [u8; 4])
    requires
        parse_ipv4(value@) is Some,
    ensures
        r@ == ipv4_of(value@),
{
    match parse_ipv4_str(value) {
        Some(o) => o,
        None => [0u8; 4],
    }
}

/// Loopback addresses: 127.0.0.0/8.
pub fn ipv4_is_loopback(value: &str) -> (b: bool)
    requires
        parse_ipv4(value@) is Some,
    ensures
        b == (ipv4_of(value@)[0] == 127),
{
    let o = ipv4_octets(value);
    o[0] == 127
}

/// Private addresses (RFC 1918): 10.0.0.0/8, 172.16.0.0/12, 192.168.0.0/16.
pub fn ipv4_is_private(value: &str) -> (b: bool)
    requires
        parse_ipv4(value@) is Some,
    ensures
        b == ({
            let o = ipv4_of(value@);
            o[0] == 10 || (o[0] == 172 && 16 <= o[1] <= 31) || (o[0] == 192 && o[1] == 168)
        }),
{
    let o = ipv4_octets(value);
    o[0] == 10 || (o[0] == 172 && 16 <= o[1] && o[1] <= 31) || (o[0] == 192 && o[1] == 168)
}

/// Link-local addresses: 169.254.0.0/16.
pub fn ipv4_is_link_local(value: &str) -> (b: bool)
    requires
        parse_ipv4(value@) is Some,
    ensures
        b == (ipv4_of(value@)[0] == 169 && ipv4_of(value@)[1] == 254),
{
    let o = ipv4_octets(value);
    o[0] == 169 && o[1] == 254
}

/// The broadcast address 255.255.255.255.
pub fn ipv4_is_broadcast(value: &str) -> (b: bool)
    requires
        parse_ipv4(value@) is Some,
    ensures
        b == (ipv4_of(value@) == seq![255u8, 255u8, 255u8, 255u8]),
{
    let o = ipv4_octets(value);
    let b = o[0] == 255 && o[1] == 255 && o[2] == 255 && o[3] == 255;
    proof {
        if b {
            assert(ipv4_of(value@) =~= seq![255u8, 255u8, 255u8, 255u8]);
        }
    }
    b
}

/// The unspecified address 0.0.0.0.
pub fn ipv4_is_unspecified(value: &str) -> (b: bool)
    requires
        parse_ipv4(value@) is Some,
    ensures
        b == (ipv4_of(value@) == seq![0u8, 0u8, 0u8, 0u8]),
{
    let o = ipv4_octets(value);
    let b = o[0] == 0 && o[1] == 0 && o[2] == 0 && o[3] == 0;
    proof {
        if b {
            assert(ipv4_of(value@) =~= seq![0u8, 0u8, 0u8, 0u8]);
        }
    }
    b
}

// ----------------------------------------------------------------------------
// IPv6
// ----------------------------------------------------------------------------

/// Predicate for valid IPv6 addresses (full, compressed and mixed notation).
#[derive(Debug, Clone, Copy, Default)]
pub struct ValidIpv6;

/// Why `s` is not an IPv6 address, as `ValidIpv6::check` reports it.
pub open spec fn ipv6_outcome(s: Seq<char>) -> Option<DomainErrorView> {
    if s.len() == 0 {
        Some(
            DomainErrorView {
                format_name: "IPv6 address"@,
                value: s,
                reason: DomainErrorKindView::Empty,
                example: "::1"@,
            },
        )
    } else if parse_ipv6(s) is None {
        Some(
            DomainErrorView {
                format_name: "IPv6 address"@,
                value: s,
                reason: DomainErrorKindView::InvalidFormat {
                    expected: "hex groups separated by colons (supports :: compression)"@,
                },
                example: "2001:db8::1"@,
            },
        )
    } else {
        None
    }
}

/// Parses a whole string as an IPv6 address.
pub fn parse_ipv6_str(value: &str) -> (r: Option<[u16; 8]>)
    ensures
        match r {
            Some(g) => parse_ipv6(value@) == Some(g@),
            None => parse_ipv6(value@) is None,
        },
{
    let chars = chars_of(value);
    parse_ipv6_at(&chars)
}

impl ValidIpv6 {
    /// Checks that `value` is an IPv6 address.
    pub fn check(value: &String) -> (r: Result<(), DomainError>)
        ensures
            match r {
                Ok(_) => ipv6_outcome(value@) is None,
                Err(e) => ipv6_outcome(value@) == Some(e@),
            },
    {
        if value.as_str().is_empty() {
            return Err(
                DomainError {
                    format_name: "IPv6 address",
                    value: value.clone(),
                    reason: DomainErrorKind::Empty,
                    example: "::1",
                },
            );
        }
        match parse_ipv6_str(value.as_str()) {
            Some(_) => Ok(()),
            None => Err(
                DomainError {
                    format_name: "IPv6 address",
                    value: value.clone(),
                    reason: DomainErrorKind::InvalidFormat {
                        expected: "hex groups separated by colons (supports :: compression)",
                    },
                    example: "2001:db8::1",
                },
            ),
        }
    }

    /// What this predicate checks.
    pub fn description() -> (r: &'static str)
        ensures
            r@ == "RFC 4291 IPv6 address"@,
    {
        "RFC 4291 IPv6 address"
    }
}

/// The eight 16-bit groups of an IPv6 address.
pub open spec fn ipv6_of(s: Seq<char>) -> Seq<u16> {
    parse_ipv6(s).unwrap()
}

/// The eight 16-bit segments of a valid IPv6 address.
pub fn ipv6_segments(value: &str) -> (r: [u16; 8])
    requires
        parse_ipv6(value@) is Some,
    ensures
        r@ == ipv6_of(value@),
{
    match parse_ipv6_str(value) {
        Some(g) => g,
        None => [0u16; 8],
    }
}

/// The sixteen bytes of a valid IPv6 address, most significant first.
pub fn ipv6_octets(value: &str) -> (r: [u8; 16])
    requires
        parse_ipv6(value@) is Some,
    ensures
        forall|k: int|
            0 <= k < 8 ==> r@[2 * k] == ipv6_of(value@)[k] / 256 && r@[2 * k + 1] == ipv6_of(
                value@,
            )[k] % 256,
{
    let g = ipv6_segments(value);
    let mut r = [0u8; 16];
    let mut k: usize = 0;
    while k < 8
        invariant
            g@ == ipv6_of(value@),
            g@.len() == 8,
            r@.len() == 16,
            0 <= k <= 8,
            forall|t: int|
                0 <= t < k ==> r@[2 * t] == g@[t] / 256 && r@[2 * t + 1] == g@[t] % 256,
        decreases 8 - k,
    {
        r[2 * k] = (g[k] / 256) as u8;
        r[2 * k + 1] = (g[k] % 256) as u8;
        k = k + 1;
    }
    r
}

/// The loopback address `::1`.
pub fn ipv6_is_loopback(value: &str) -> (b: bool)
    requires
        parse_ipv6(value@) is Some,
    ensures
        b == (ipv6_of(value@) == seq![0u16, 0u16, 0u16, 0u16, 0u16, 0u16, 0u16, 1u16]),
{
    let g = ipv6_segments(value);
    let b = g[0] == 0 && g[1] == 0 && g[2] == 0 && g[3] == 0 && g[4] == 0 && g[5] == 0 && g[6]
        == 0 && g[7] == 1;
    proof {
        if b {
            assert(g@ =~= seq![0u16, 0u16, 0u16, 0u16, 0u16, 0u16, 0u16, 1u16]);
        }
    }
    b
}

/// The unspecified address `::`.
pub fn ipv6_is_unspecified(value: &str) -> (b: bool)
    requires
        parse_ipv6(value@) is Some,
    ensures
        b == (ipv6_of(value@) == seq![0u16, 0u16, 0u16, 0u16, 0u16, 0u16, 0u16, 0u16]),
{
    let g = ipv6_segments(value);
    let b = g[0] == 0 && g[1] == 0 && g[2] == 0 && g[3] == 0 && g[4] == 0 && g[5] == 0 && g[6]
        == 0 && g[7] == 0;
    proof {
        if b {
            assert(g@ =~= seq![0u16, 0u16, 0u16, 0u16, 0u16, 0u16, 0u16, 0u16]);
        }
    }
    b
}

/// IPv4-mapped addresses `::ffff:a.b.c.d`: five zero groups, then `ffff`.
pub fn ipv6_is_ipv4_mapped(value: &str) -> (b: bool)
    requires
        parse_ipv6(value@) is Some,
    ensures
        b == ({
            let g = ipv6_of(value@);
            g[0] == 0 && g[1] == 0 && g[2] == 0 && g[3] == 0 && g[4] == 0 && g[5] == 0xffff
        }),
{
    let g = ipv6_segments(value);
    g[0] == 0 && g[1] == 0 && g[2] == 0 && g[3] == 0 && g[4] == 0 && g[5] == 0xffff
}

// ----------------------------------------------------------------------------
// Domain name
// ----------------------------------------------------------------------------

/// Predicate for valid DNS domain names (RFC 1035).
#[derive(Debug, Clone, Copy, Default)]
pub struct ValidDomainName;

/// `s` without one trailing dot (fully qualified notation).
pub open spec fn strip_dot(s: Seq<char>) -> Seq<char> {
    if s.len() > 0 && s.last() == '.' {
        s.drop_last()
    } else {
        s
    }
}

/// The pieces of `s` between dots, in order, empty pieces included (what
/// `str::split('.')` yields); there is always at least one.
pub open spec fn split_dots(s: Seq<char>) -> Seq<Seq<char>>
    decreases s.len(),
{
    if s.len() == 0 {
        seq![seq![]]
    } else {
        let p = split_dots(s.drop_last());
        if s.last() == '.' {
            p.push(seq![])
        } else {
            p.update(p.len() - 1, p.last().push(s.last()))
        }
    }
}

/// A domain-name error for `value` with the given reason.
pub open spec fn domain_error(value: Seq<char>, reason: DomainErrorKindView) -> DomainErrorView {
    DomainErrorView {
        format_name: "domain name"@,
        value: value,
        reason: reason,
        example: "example.com"@,
    }
}

/// A label error for domain `full`.
pub open spec fn label_error(full: Seq<char>, reason: Seq<char>) -> DomainErrorView {
    domain_error(
        full,
        DomainErrorKindView::InvalidComponent { component: "label"@, reason: reason },
    )
}

/// The first character of `l`, from position `i` on, that is neither an
/// ASCII letter, an ASCII digit nor a hyphen, with its position.
pub open spec fn label_scan(l: Seq<char>, i: int) -> Option<(char, int)>
    decreases l.len() - i,
{
    if i < 0 || i >= l.len() {
        None
    } else if !is_ascii_alnum(l[i]) && l[i] != '-' {
        Some((l[i], i))
    } else {
        label_scan(l, i + 1)
    }
}

/// Whether the third and fourth characters of `l` are both hyphens, a
/// form reserved for internationalized labels.
pub open spec fn idn_reserved(l: Seq<char>) -> bool {
    l.len() >= 4 && l[2] == '-' && l[3] == '-'
}

/// Why `l` is not a valid label of domain `full`, as
/// `validate_domain_label` reports it.
pub open spec fn label_outcome(l: Seq<char>, full: Seq<char>) -> Option<DomainErrorView> {
    if l.len() == 0 {
        Some(label_error(full, "cannot be empty"@))
    } else if byte_len(l) > 63 {
        Some(
            label_error(
                full,
                "'"@ + l + "' exceeds 63 characters (has "@ + decimal(byte_len(l)) + ")"@,
            ),
        )
    } else if !is_ascii_alnum(l[0]) {
        Some(label_error(full, "'"@ + l + "' must start with letter or digit"@))
    } else if l.last() == '-' {
        Some(label_error(full, "'"@ + l + "' cannot end with hyphen"@))
    } else {
        match label_scan(l, 0) {
            Some((c, i)) => Some(
                domain_error(
                    full,
                    DomainErrorKindView::InvalidCharacter { char: c, position: i as usize },
                ),
            ),
            None => if idn_reserved(l) {
                Some(
                    label_error(
                        full,
                        "'"@ + l + "' cannot have hyphens in positions 3-4 (reserved for IDN)"@,
                    ),
                )
            } else {
                None
            },
        }
    }
}

/// The first error among the labels `ls[i..]` of domain `full`.
pub open spec fn labels_outcome(ls: Seq<Seq<char>>, i: int, full: Seq<char>) -> Option<
    DomainErrorView,
>
    decreases ls.len() - i,
{
    if i < 0 || i >= ls.len() {
        None
    } else {
        match label_outcome(ls[i], full) {
            Some(e) => Some(e),
            None => labels_outcome(ls, i + 1, full),
        }
    }
}

/// Why `s` is not a domain name, as `ValidDomainName::check` reports it.
pub open spec fn domain_outcome(s: Seq<char>) -> Option<DomainErrorView> {
    if s.len() == 0 {
        Some(domain_error(s, DomainErrorKindView::Empty))
    } else if byte_len(s) > 253 {
        Some(
            domain_error(
                s,
                DomainErrorKindView::TooLong { max: 253, actual: byte_len(s) as usize },
            ),
        )
    } else {
        labels_outcome(split_dots(strip_dot(s)), 0, s)
    }
}

proof fn lemma_split_dots_len(s: Seq<char>)
    ensures
        split_dots(s).len() >= 1,
    decreases s.len(),
{
    if s.len() > 0 {
        lemma_split_dots_len(s.drop_last());
    }
}

/// The labels of a domain name: the dot-separated pieces of `value`, with
/// one trailing dot ignored.
pub fn domain_labels(value: &str) -> (r: Vec<&str>)
    ensures
        r@.map_values(|l: &str| l@) == split_dots(strip_dot(value@)),
{
    let n = value.unicode_len();
    let chars = chars_of(value);
    let d_len = if n > 0 && chars[n - 1] == '.' {
        n - 1
    } else {
        n
    };
    let ghost d = strip_dot(value@);
    assert(d =~= value@.subrange(0, d_len as int));
    let mut r: Vec<&str> = Vec::new();
    let mut start: usize = 0;
    let mut j: usize = 0;
    assert(d.take(0) =~= Seq::<char>::empty());
    assert(d.subrange(0, 0) =~= Seq::<char>::empty());
    assert(r@.map_values(|l: &str| l@).push(d.subrange(0, 0)) =~= split_dots(d.take(0)));
    while j < d_len
        invariant
            chars@ == value@,
            d == value@.subrange(0, d_len as int),
            d_len <= value@.len(),
            0 <= start <= j <= d_len,
            r@.map_values(|l: &str| l@).push(d.subrange(start as int, j as int)) == split_dots(
                d.take(j as int),
            ),
        decreases d_len - j,
    {
        let ghost rm = r@.map_values(|l: &str| l@);
        let ghost cur = d.subrange(start as int, j as int);
        let ghost pp = split_dots(d.take(j as int));
        proof {
            assert(d.take(j + 1).drop_last() =~= d.take(j as int));
            assert(d.take(j + 1).last() == d[j as int]);
            assert(pp == rm.push(cur));
        }
        if chars[j] == '.' {
            let piece = value.substring_char(start, j);
            r.push(piece);
            start = j + 1;
            proof {
                assert(piece@ == cur);
                assert(r@.map_values(|l: &str| l@) =~= rm.push(cur));
                assert(split_dots(d.take(j + 1)) == pp.push(seq![]));
                assert(d.subrange(start as int, j + 1) =~= Seq::<char>::empty());
            }
        } else {
            proof {
                let cur2 = d.subrange(start as int, j + 1);
                assert(cur2 =~= cur.push(d[j as int]));
                assert(split_dots(d.take(j + 1)) == pp.update(pp.len() - 1, pp.last().push(
                    d[j as int],
                )));
                assert(rm.push(cur2) =~= pp.update(pp.len() - 1, pp.last().push(d[j as int])));
            }
        }
        j = j + 1;
    }
    let last = value.substring_char(start, d_len);
    let ghost rm = r@.map_values(|l: &str| l@);
    r.push(last);
    proof {
        assert(d.take(d_len as int) =~= d);
        assert(last@ =~= d.subrange(start as int, d_len as int));
        assert(r@.map_values(|l: &str| l@) =~= rm.push(last@));
    }
    r
}

/// The top-level domain: the last label.
pub fn domain_tld(value: &str) -> (r: Option<&str>)
    ensures
        r matches Some(t) && t@ == split_dots(strip_dot(value@)).last(),
{
    let labels = domain_labels(value);
    proof {
        lemma_split_dots_len(strip_dot(value@));
    }
    let n = labels.len();
    let t = labels[n - 1];
    assert(labels@.map_values(|l: &str| l@)[n - 1] == t@);
    Some(t)
}

/// Validates a single domain label (RFC 1035): non-empty, at most 63
/// bytes, starting with an ASCII letter or digit, not ending with a hyphen,
/// made of ASCII letters, digits and hyphens only, and without hyphens at
/// both positions 3 and 4 (reserved for IDN). Errors report the whole
/// domain `full_domain`.
pub fn validate_domain_label(label: &str, full_domain: &str) -> (r: Result<(), DomainError>)
    ensures
        match r {
            Ok(_) => label_outcome(label@, full_domain@) is None,
            Err(e) => label_outcome(label@, full_domain@) == Some(e@),
        },
{
    if label.is_empty() {
        return Err(
            DomainError {
                format_name: "domain name",
                value: full_domain.to_owned(),
                reason: DomainErrorKind::InvalidComponent {
                    component: "label",
                    reason: String::from_str("cannot be empty"),
                },
                example: "example.com",
            },
        );
    }
    let blen = str_byte_len(label);
    if blen > 63 {
        let mut why = String::from_str("'");
        why.append(label);
        why.append("' exceeds 63 characters (has ");
        push_decimal(&mut why, blen as u64);
        why.append(")");
        return Err(
            DomainError {
                format_name: "domain name",
                value: full_domain.to_owned(),
                reason: DomainErrorKind::InvalidComponent { component: "label", reason: why },
                example: "example.com",
            },
        );
    }
    let chars = chars_of(label);
    if !ascii_alnum(chars[0]) {
        let mut why = String::from_str("'");
        why.append(label);
        why.append("' must start with letter or digit");
        return Err(
            DomainError {
                format_name: "domain name",
                value: full_domain.to_owned(),
                reason: DomainErrorKind::InvalidComponent { component: "label", reason: why },
                example: "example.com",
            },
        );
    }
    if chars[chars.len() - 1] == '-' {
        let mut why = String::from_str("'");
        why.append(label);
        why.append("' cannot end with hyphen");
        return Err(
            DomainError {
                format_name: "domain name",
                value: full_domain.to_owned(),
                reason: DomainErrorKind::InvalidComponent { component: "label", reason: why },
                example: "example.com",
            },
        );
    }
    let mut i: usize = 0;
    while i < chars.len()
        invariant
            chars@ == label@,
            0 <= i <= chars@.len(),
            label@.len() > 0,
            byte_len(label@) <= 63,
            is_ascii_alnum(label@[0]),
            label@.last() != '-',
            label_scan(label@, 0) == label_scan(label@, i as int),
        decreases chars.len() - i,
    {
        let c = chars[i];
        if !ascii_alnum(c) && c != '-' {
            return Err(
                DomainError {
                    format_name: "domain name",
                    value: full_domain.to_owned(),
                    reason: DomainErrorKind::InvalidCharacter { char: c, position: i },
                    example: "example.com",
                },
            );
        }
        i = i + 1;
    }
    if chars.len() >= 4 && chars[2] == '-' && chars[3] == '-' {
        let mut why = String::from_str("'");
        why.append(label);
        why.append("' cannot have hyphens in positions 3-4 (reserved for IDN)");
        return Err(
            DomainError {
                format_name: "domain name",
                value: full_domain.to_owned(),
                reason: DomainErrorKind::InvalidComponent { component: "label", reason: why },
                example: "example.com",
            },
        );
    }
    Ok(())
}

/// The label format (RFC 1035): 1 to 63 bytes of ASCII letters, digits
/// and hyphens, starting with a letter or digit, not ending with a hyphen,
/// and without hyphens at both positions 3 and 4 (reserved for IDN).
pub open spec fn is_label(l: Seq<char>) -> bool {
    &&& 0 < l.len()
    &&& byte_len(l) <= 63
    &&& is_ascii_alnum(l[0])
    &&& l.last() != '-'
    &&& forall|i: int| 0 <= i < l.len() ==> is_ascii_alnum(#[trigger] l[i]) || l[i] == '-'
    &&& !idn_reserved(l)
}

/// The domain-name format: 1 to 253 bytes and, without one trailing dot,
/// every dot-separated label in the label format.
pub open spec fn is_domain_name(s: Seq<char>) -> bool {
    &&& 0 < s.len()
    &&& byte_len(s) <= 253
    &&& forall|i: int|
        0 <= i < split_dots(strip_dot(s)).len() ==> is_label(#[trigger] split_dots(strip_dot(s))[i])
}

/// `label_scan` finds nothing from `i` on exactly when every later
/// character is an ASCII letter, digit or hyphen.
proof fn lemma_label_scan(l: Seq<char>, i: int)
    requires
        0 <= i <= l.len(),
    ensures
        label_scan(l, i) is None <==> (forall|j: int|
            i <= j < l.len() ==> is_ascii_alnum(#[trigger] l[j]) || l[j] == '-'),
    decreases l.len() - i,
{
    if i < l.len() {
        lemma_label_scan(l, i + 1);
    }
}

/// `labels_outcome` finds nothing from `i` on exactly when every later
/// label passes.
proof fn lemma_labels_outcome(ls: Seq<Seq<char>>, i: int, full: Seq<char>)
    requires
        0 <= i <= ls.len(),
    ensures
        labels_outcome(ls, i, full) is None <==> (forall|j: int|
            i <= j < ls.len() ==> (#[trigger] label_outcome(ls[j], full)) is None),
    decreases ls.len() - i,
{
    if i < ls.len() {
        lemma_labels_outcome(ls, i + 1, full);
    }
}

/// A label passes `validate_domain_label` exactly when it has the label
/// format.
pub proof fn lemma_label_check_iff_format(l: Seq<char>, full: Seq<char>)
    ensures
        label_outcome(l, full) is None <==> is_label(l),
{
    lemma_label_scan(l, 0);
}

/// A string passes the domain-name check exactly when it has the
/// domain-name format.
pub proof fn lemma_domain_check_iff_format(s: Seq<char>)
    ensures
        domain_outcome(s) is None <==> is_domain_name(s),
{
    let ls = split_dots(strip_dot(s));
    lemma_labels_outcome(ls, 0, s);
    assert forall|i: int| 0 <= i < ls.len() implies (label_outcome(ls[i], s) is None <==> is_label(
        #[trigger] ls[i],
    )) by {
        lemma_label_check_iff_format(ls[i], s);
    }
}

/// The labels joined back with dots.
pub open spec fn join_dots(ls: Seq<Seq<char>>) -> Seq<char>
    decreases ls.len(),
{
    if ls.len() == 0 {
        seq![]
    } else if ls.len() == 1 {
        ls[0]
    } else {
        join_dots(ls.drop_last()) + seq!['.'] + ls.last()
    }
}

/// Splitting at the dots loses nothing: joining the pieces with dots gives
/// the string back, and no piece holds a dot.
pub proof fn lemma_split_dots_join(s: Seq<char>)
    ensures
        join_dots(split_dots(s)) == s,
        forall|i: int, k: int|
            0 <= i < split_dots(s).len() && 0 <= k < split_dots(s)[i].len() ==> #[trigger] split_dots(
                s,
            )[i][k] != '.',
    decreases s.len(),
{
    if s.len() > 0 {
        let t = s.drop_last();
        let c = s.last();
        let p = split_dots(t);
        lemma_split_dots_join(t);
        lemma_split_dots_len(t);
        let n = p.len();
        if c == '.' {
            let q = p.push(seq![]);
            assert(q.drop_last() =~= p);
            assert(join_dots(q) =~= t + seq!['.'] + Seq::<char>::empty());
            assert(t + seq!['.'] =~= s);
            assert forall|i: int, k: int| 0 <= i < q.len() && 0 <= k < q[i].len() implies #[trigger] q[i][k]
                != '.' by {
                assert(q[i] == p[i]);
            }
        } else {
            let q = p.update(n - 1, p.last().push(c));
            if n == 1 {
                assert(join_dots(q) == q[0]);
                assert(q[0] =~= t.push(c));
            } else {
                assert(q.drop_last() =~= p.drop_last());
                assert(join_dots(q) == join_dots(p.drop_last()) + seq!['.'] + p.last().push(c));
                assert(join_dots(p.drop_last()) + seq!['.'] + p.last().push(c) =~= (join_dots(
                    p.drop_last(),
                ) + seq!['.'] + p.last()).push(c));
            }
            assert(t.push(c) =~= s);
            assert forall|i: int, k: int| 0 <= i < q.len() && 0 <= k < q[i].len() implies #[trigger] q[i][k]
                != '.' by {
                if i < n - 1 {
                    assert(q[i] == p[i]);
                } else if k < p.last().len() {
                    assert(q[i][k] == p[n - 1][k]);
                }
            }
        }
    }
}

impl ValidDomainName {
    /// Checks that `value` is a domain name: non-empty, at most 253 bytes,
    /// and every dot-separated label (one trailing dot allowed) valid.
    pub fn check(value: &String) -> (r: Result<(), DomainError>)
        ensures
            match r {
                Ok(_) => domain_outcome(value@) is None,
                Err(e) => domain_outcome(value@) == Some(e@),
            },
    {
        let s = value.as_str();
        if s.is_empty() {
            return Err(
                DomainError {
                    format_name: "domain name",
                    value: value.clone(),
                    reason: DomainErrorKind::Empty,
                    example: "example.com",
                },
            );
        }
        let len = str_byte_len(s);
        if len > 253 {
            return Err(
                DomainError {
                    format_name: "domain name",
                    value: value.clone(),
                    reason: DomainErrorKind::TooLong { max: 253, actual: len },
                    example: "example.com",
                },
            );
        }
        let labels = domain_labels(s);
        let ghost ls = split_dots(strip_dot(value@));
        let mut i: usize = 0;
        while i < labels.len()
            invariant
                labels@.map_values(|l: &str| l@) == ls,
                ls == split_dots(strip_dot(value@)),
                s@ == value@,
                value@.len() > 0,
                byte_len(value@) <= 253,
                0 <= i <= labels@.len(),
                labels_outcome(ls, 0, value@) == labels_outcome(ls, i as int, value@),
            decreases labels.len() - i,
        {
            assert(ls[i as int] == labels@[i as int]@);
            match validate_domain_label(labels[i], s) {
                Ok(()) => {},
                Err(e) => {
                    return Err(e);
                },
            }
            i = i + 1;
        }
        Ok(())
    }

    /// What this predicate checks.
    pub fn description() -> (r: &'static str)
        ensures
            r@ == "RFC 1035 domain name"@,
    {
        "RFC 1035 domain name"
    }
}

/// Whether `a` ends with a dot followed by `p`.
pub open spec fn ends_with_dot_then(a: Seq<char>, p: Seq<char>) -> bool {
    let q = seq!['.'] + p;
    q.len() <= a.len() && a.subrange(a.len() - q.len(), a.len() as int) == q
}

/// Whether `value` is a subdomain of `parent`, ignoring case: the
/// lowercased domain ends with a dot followed by the lowercased parent.
pub open spec fn is_subdomain(value: Seq<char>, parent: Seq<char>) -> bool {
    ends_with_dot_then(lower_form(value), lower_form(parent))
}

/// No domain is a subdomain of itself.
pub proof fn lemma_not_own_subdomain(s: Seq<char>)
    ensures
        !is_subdomain(s, s),
{
}

/// Whether `a` ends with a dot followed by `p`.
pub fn ends_with_dot_suffix(a: &str, p: &str) -> (b: bool)
    ensures
        b == ends_with_dot_then(a@, p@),
{
    let ac = chars_of(a);
    let pc = chars_of(p);
    let ghost q = seq!['.'] + pc@;
    if pc.len() >= ac.len() {
        return false;
    }
    let off = ac.len() - pc.len();
    let ghost tail = ac@.subrange(ac@.len() - q.len(), ac@.len() as int);
    assert(tail.len() == q.len());
    if ac[off - 1] != '.' {
        assert(tail[0] != q[0]);
        return false;
    }
    let mut k: usize = 0;
    while k < pc.len()
        invariant
            off + pc@.len() == ac@.len(),
            off + pc.len() == ac.len(),
            off >= 1,
            0 <= k <= pc@.len(),
            q == seq!['.'] + pc@,
            ac@ == a@,
            pc@ == p@,
            tail == ac@.subrange(ac@.len() - q.len(), ac@.len() as int),
            forall|t: int| 0 <= t <= k ==> tail[t] == q[t],
        decreases pc.len() - k,
    {
        if ac[off + k] != pc[k] {
            assert(tail[k + 1] != q[k + 1]);
            return false;
        }
        k = k + 1;
    }
    assert(tail =~= q);
    true
}

/// Whether `value` is a subdomain of `parent`, ignoring case: the
/// lowercased domain ends with a dot followed by the lowercased parent.
pub fn domain_is_subdomain_of(value: &str, parent: &str) -> (b: bool)
    ensures
        b == is_subdomain(value@, parent@),
{
    let a = lowercase(value);
    let p = lowercase(parent);
    ends_with_dot_suffix(a.as_str(), p.as_str())
}

// ----------------------------------------------------------------------------
// Port
// ----------------------------------------------------------------------------

/// Predicate for valid port numbers: 1 to 65535 (0 is the wildcard).
#[derive(Debug, Clone, Copy, Default)]
pub struct ValidPort;

/// Why `p` is not a port number, as `ValidPort::check` reports it.
pub open spec fn port_outcome(p: u16) -> Option<DomainErrorView> {
    if p == 0 {
        Some(
            DomainErrorView {
                format_name: "port"@,
                value: decimal(p as nat),
                reason: DomainErrorKindView::InvalidFormat {
                    expected: "number 1-65535 (port 0 is reserved)"@,
                },
                example: "8080"@,
            },
        )
    } else {
        None
    }
}

impl ValidPort {
    /// Checks that `value` is a usable port number (not 0).
    pub fn check(value: &u16) -> (r: Result<(), DomainError>)
        ensures
            match r {
                Ok(_) => port_outcome(*value) is None,
                Err(e) => port_outcome(*value) == Some(e@),
            },
    {
        if *value == 0 {
            return Err(
                DomainError {
                    format_name: "port",
                    value: decimal_string(*value as u64),
                    reason: DomainErrorKind::InvalidFormat {
                        expected: "number 1-65535 (port 0 is reserved)",
                    },
                    example: "8080",
                },
            );
        }
        Ok(())
    }

    /// What this predicate checks.
    pub fn description() -> (r: &'static str)
        ensures
            r@ == "TCP/UDP port number (1-65535)"@,
    {
        "TCP/UDP port number (1-65535)"
    }
}

/// Privileged (well-known) ports: 1 to 1023.
pub fn port_is_privileged(port: u16) -> (b: bool)
    ensures
        b == (1 <= port <= 1023),
{
    port >= 1 && port <= 1023
}

/// Well-known ports: the same range as the privileged ones, 1 to 1023.
pub fn port_is_well_known(port: u16) -> (b: bool)
    ensures
        b == (1 <= port <= 1023),
{
    port_is_privileged(port)
}

/// Registered ports: 1024 to 49151.
pub fn port_is_registered(port: u16) -> (b: bool)
    ensures
        b == (1024 <= port <= 49151),
{
    port >= 1024 && port <= 49151
}

/// Dynamic (private, ephemeral) ports: 49152 to 65535.
pub fn port_is_dynamic(port: u16) -> (b: bool)
    ensures
        b == (port >= 49152),
{
    port >= 49152
}

/// Ephemeral ports: the same range as the dynamic ones.
pub fn port_is_ephemeral(port: u16) -> (b: bool)
    ensures
        b == (port >= 49152),
{
    port_is_dynamic(port)
}

/// Every valid port falls in exactly one of the IANA ranges: privileged,
/// registered or dynamic.
pub proof fn lemma_port_ranges_partition(port: u16)
    requires
        port_outcome(port) is None,
    ensures
        (1 <= port <= 1023) || (1024 <= port <= 49151) || (port >= 49152),
        !((1 <= port <= 1023) && (1024 <= port <= 49151)),
        !((1024 <= port <= 49151) && (port >= 49152)),
        !((1 <= port <= 1023) && (port >= 49152)),
{
}

} // verus!
