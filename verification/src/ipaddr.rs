//! The textual grammar of IP addresses.
//!
//! IPv4: four decimal octets separated by dots; an octet has one to three
//! ASCII digits, no leading zero (other than the octet `0` itself) and a
//! value of at most 255.
//!
//! IPv6: up to eight colon-separated groups of one to four hex digits; one
//! `::` may stand for one or more zero groups; the last two groups may be
//! written as an embedded IPv4 address (which may not come before `::`).

use vstd::prelude::*;
use crate::text::{ascii_lower, decimal, digit_char};

verus! {

/// The value of the hex digit `c` (ASCII `0-9`, `a-f`, `A-F`).
pub open spec fn hex_value(c: char) -> nat {
    if '0' <= c && c <= '9' {
        (c as nat - '0' as nat) as nat
    } else if 'a' <= c && c <= 'f' {
        (c as nat - 'a' as nat + 10) as nat
    } else {
        (c as nat - 'A' as nat + 10) as nat
    }
}

/// Whether `c` is a digit in the given radix (10 or 16).
pub open spec fn is_radix_digit(c: char, radix: nat) -> bool {
    if radix == 16 {
        ('0' <= c && c <= '9') || ('a' <= c && c <= 'f') || ('A' <= c && c <= 'F')
    } else {
        '0' <= c && c <= '9'
    }
}

/// The end of the run of radix digits of `s` that starts at `i`.
pub open spec fn run_end(s: Seq<char>, i: int, radix: nat) -> int
    decreases s.len() - i,
{
    if 0 <= i < s.len() && is_radix_digit(s[i], radix) {
        run_end(s, i + 1, radix)
    } else {
        i
    }
}

/// The number written by the digits `s[i..k]` in the given radix.
pub open spec fn digits_value(s: Seq<char>, i: int, k: int, radix: nat) -> nat
    decreases k - i,
{
    if k <= i {
        0
    } else {
        digits_value(s, i, k - 1, radix) * radix + hex_value(s[k - 1])
    }
}

/// Reads a decimal octet at `i`: the longest run of digits there must have
/// one to three digits, no leading zero unless it is a single `0`, and a
/// value below 256. Gives the octet and the position after it.
pub open spec fn read_octet(s: Seq<char>, i: int) -> Option<(u8, int)> {
    let k = run_end(s, i, 10);
    if k == i || k - i > 3 {
        None
    } else if s[i] == '0' && k - i > 1 {
        None
    } else if digits_value(s, i, k, 10) > 255 {
        None
    } else {
        Some((digits_value(s, i, k, 10) as u8, k))
    }
}

/// Reads `.` at `i` when `first` is false, then an octet.
pub open spec fn read_dotted_octet(s: Seq<char>, i: int, first: bool) -> Option<(u8, int)> {
    if first {
        read_octet(s, i)
    } else if 0 <= i < s.len() && s[i] == '.' {
        read_octet(s, i + 1)
    } else {
        None
    }
}

/// Reads a dotted-decimal IPv4 address at `i`: its four octets and the
/// position after it.
pub open spec fn read_ipv4(s: Seq<char>, i: int) -> Option<(Seq<u8>, int)> {
    match read_dotted_octet(s, i, true) {
        None => None,
        Some((a, i1)) => match read_dotted_octet(s, i1, false) {
            None => None,
            Some((b, i2)) => match read_dotted_octet(s, i2, false) {
                None => None,
                Some((c, i3)) => match read_dotted_octet(s, i3, false) {
                    None => None,
                    Some((d, i4)) => Some((seq![a, b, c, d], i4)),
                },
            },
        },
    }
}

/// The octets of `s` when the whole of `s` is an IPv4 address.
pub open spec fn parse_ipv4(s: Seq<char>) -> Option<Seq<u8>> {
    match read_ipv4(s, 0) {
        Some((o, e)) => if e == s.len() {
            Some(o)
        } else {
            None
        },
        None => None,
    }
}

proof fn lemma_run_end(s: Seq<char>, i: int, radix: nat)
    requires
        0 <= i <= s.len(),
    ensures
        i <= run_end(s, i, radix) <= s.len(),
        forall|j: int| i <= j < run_end(s, i, radix) ==> is_radix_digit(#[trigger] s[j], radix),
        run_end(s, i, radix) < s.len() ==> !is_radix_digit(s[run_end(s, i, radix)], radix),
    decreases s.len() - i,
{
    if i < s.len() && is_radix_digit(s[i], radix) {
        lemma_run_end(s, i + 1, radix);
    }
}

proof fn lemma_run_end_step(s: Seq<char>, i: int, j: int, radix: nat)
    requires
        0 <= i <= j <= s.len(),
        forall|t: int| i <= t < j ==> is_radix_digit(#[trigger] s[t], radix),
    ensures
        run_end(s, i, radix) == run_end(s, j, radix),
    decreases j - i,
{
    if i < j {
        lemma_run_end_step(s, i + 1, j, radix);
    }
}

fn radix_digit(c: char, radix: u32) -> (r: Option<u32>)
    requires
        radix == 10 || radix == 16,
    ensures
        r is Some <==> is_radix_digit(c, radix as nat),
        r matches Some(v) ==> v == hex_value(c) && v < radix,
{
    if '0' <= c && c <= '9' {
        Some((c as u32) - ('0' as u32))
    } else if radix == 16 && 'a' <= c && c <= 'f' {
        Some((c as u32) - ('a' as u32) + 10)
    } else if radix == 16 && 'A' <= c && c <= 'F' {
        Some((c as u32) - ('A' as u32) + 10)
    } else {
        None
    }
}

/// Reads the run of at most `max_digits + 1` radix digits at `i`. Returns
/// its end and value; the run found is the whole run when it is at most
/// `max_digits` long.
fn read_digits(s: &Vec<char>, i: usize, radix: u32, max_digits: usize) -> (r: (usize, u32))
    requires
        radix == 10 || radix == 16,
        1 <= max_digits <= 4,
        i <= s@.len(),
    ensures
        i <= r.0 <= s@.len(),
        r.0 - i <= max_digits ==> r.0 == run_end(s@, i as int, radix as nat),
        r.0 - i > max_digits ==> run_end(s@, i as int, radix as nat) - i > max_digits,
        r.0 - i <= max_digits ==> r.1 == digits_value(s@, i as int, r.0 as int, radix as nat),
{
    let mut j = i;
    let mut v: u32 = 0;
    let mut stop = false;
    proof {
        lemma_run_end(s@, i as int, radix as nat);
    }
    while !stop && j < s.len() && j - i <= max_digits
        invariant
            stop ==> j < s@.len() && !is_radix_digit(s@[j as int], radix as nat),
            i <= j <= s@.len(),
            j - i <= max_digits + 1,
            forall|t: int| i <= t < j ==> is_radix_digit(#[trigger] s@[t], radix as nat),
            v == digits_value(s@, i as int, j as int, radix as nat),
            v < pow_bound(radix as nat, (j - i) as nat),
            radix == 10 || radix == 16,
            1 <= max_digits <= 4,
        decreases s@.len() - j + (if stop { 0int } else { 1int }),
    {
        match radix_digit(s[j], radix) {
            Some(d) => {
                proof {
                    lemma_pow_bound_step(radix as nat, (j - i) as nat, v as nat, d as nat);
                }
                v = v * radix + d;
                j = j + 1;
            },
            None => {
                stop = true;
            },
        }
    }
    proof {
        lemma_run_end_step(s@, i as int, j as int, radix as nat);
        lemma_run_end(s@, j as int, radix as nat);
    }
    (j, v)
}

/// `radix^n`, for the digit counts used here (at most 5).
pub open spec fn pow_bound(radix: nat, n: nat) -> nat
    decreases n,
{
    if n == 0 {
        1
    } else {
        radix * pow_bound(radix, (n - 1) as nat)
    }
}

proof fn lemma_pow_bound_step(radix: nat, n: nat, v: nat, d: nat)
    requires
        radix == 10 || radix == 16,
        n <= 4,
        v < pow_bound(radix, n),
        d < radix,
    ensures
        v * radix + d < pow_bound(radix, n + 1),
        pow_bound(radix, n + 1) <= 1048576,
{
    reveal_with_fuel(pow_bound, 6);
    assert(v * radix + d < pow_bound(radix, n) * radix) by (nonlinear_arith)
        requires
            v < pow_bound(radix, n),
            d < radix,
    ;
}

fn read_octet_at(s: &Vec<char>, i: usize) -> (r: Option<(u8, usize)>)
    requires
        i <= s@.len(),
    ensures
        match r {
            Some((o, e)) => read_octet(s@, i as int) == Some((o, e as int)) && i < e <= s@.len(),
            None => read_octet(s@, i as int) is None,
        },
{
    let (e, v) = read_digits(s, i, 10, 3);
    if e == i || e - i > 3 {
        return None;
    }
    if s[i] == '0' && e - i > 1 {
        return None;
    }
    if v > 255 {
        return None;
    }
    Some((v as u8, e))
}

fn read_dotted_octet_at(s: &Vec<char>, i: usize, first: bool) -> (r: Option<(u8, usize)>)
    requires
        i <= s@.len(),
    ensures
        match r {
            Some((o, e)) => read_dotted_octet(s@, i as int, first) == Some((o, e as int)) && i < e
                <= s@.len(),
            None => read_dotted_octet(s@, i as int, first) is None,
        },
{
    if first {
        read_octet_at(s, i)
    } else if i < s.len() && s[i] == '.' {
        read_octet_at(s, i + 1)
    } else {
        None
    }
}

/// Reads a dotted-decimal IPv4 address starting at `i`.
pub fn read_ipv4_at(s: &Vec<char>, i: usize) -> (r: Option<([u8; 4], usize)>)
    requires
        i <= s@.len(),
    ensures
        match r {
            Some((o, e)) => read_ipv4(s@, i as int) == Some((o@, e as int)) && i < e <= s@.len(),
            None => read_ipv4(s@, i as int) is None,
        },
{
    let (a, i1) = match read_dotted_octet_at(s, i, true) {
        Some(x) => x,
        None => return None,
    };
    let (b, i2) = match read_dotted_octet_at(s, i1, false) {
        Some(x) => x,
        None => return None,
    };
    let (c, i3) = match read_dotted_octet_at(s, i2, false) {
        Some(x) => x,
        None => return None,
    };
    let (d, i4) = match read_dotted_octet_at(s, i3, false) {
        Some(x) => x,
        None => return None,
    };
    let o = [a, b, c, d];
    assert(o@ =~= seq![a, b, c, d]);
    Some((o, i4))
}

/// Reads a hex group at `i`: the longest run of hex digits there must have
/// one to four digits. Gives the group and the position after it.
pub open spec fn read_hex_group(s: Seq<char>, i: int) -> Option<(u16, int)> {
    let k = run_end(s, i, 16);
    if k == i || k - i > 4 {
        None
    } else {
        Some((digits_value(s, i, k, 16) as u16, k))
    }
}

/// Where the next group starts: at `i` for the first group, after a `:`
/// at `i` otherwise.
pub open spec fn after_colon(s: Seq<char>, i: int, first: bool) -> Option<int> {
    if first {
        Some(i)
    } else if 0 <= i < s.len() && s[i] == ':' {
        Some(i + 1)
    } else {
        None
    }
}

/// The two groups that an embedded IPv4 address stands for.
pub open spec fn ipv4_groups(o: Seq<u8>) -> Seq<u16> {
    seq![(o[0] as int * 256 + o[1] as int) as u16, (o[2] as int * 256 + o[3] as int) as u16]
}

/// Reads colon-separated IPv6 groups from `i`, where `acc` holds the `idx`
/// groups already read and at most `limit` may be read in all. While at
/// least two slots are left, an embedded IPv4 address is tried first and
/// ends the run. Gives the groups, whether an IPv4 address ended them, and
/// the position after the last one.
pub open spec fn read_groups(s: Seq<char>, i: int, idx: nat, limit: nat, acc: Seq<u16>) -> (
    Seq<u16>,
    bool,
    int,
)
    decreases limit - idx,
{
    if idx >= limit {
        (acc, false, i)
    } else {
        let v4 = if idx + 1 < limit {
            match after_colon(s, i, idx == 0) {
                Some(p) => read_ipv4(s, p),
                None => None,
            }
        } else {
            None
        };
        match v4 {
            Some((o, e)) => (acc + ipv4_groups(o), true, e),
            None => match after_colon(s, i, idx == 0) {
                Some(p) => match read_hex_group(s, p) {
                    Some((g, e)) => read_groups(s, e, idx + 1, limit, acc.push(g)),
                    None => (acc, false, i),
                },
                None => (acc, false, i),
            },
        }
    }
}

/// The eight groups of `s` when the whole of `s` is an IPv6 address.
pub open spec fn parse_ipv6(s: Seq<char>) -> Option<Seq<u16>> {
    let (head, head_v4, p) = read_groups(s, 0, 0, 8, seq![]);
    if head.len() == 8 {
        if p == s.len() {
            Some(head)
        } else {
            None
        }
    } else if head_v4 {
        None
    } else if 0 <= p && p + 1 < s.len() && s[p] == ':' && s[p + 1] == ':' {
        let (tail, _, q) = read_groups(s, p + 2, 0, (8 - (head.len() + 1)) as nat, seq![]);
        if q == s.len() {
            Some(head + Seq::new((8 - head.len() - tail.len()) as nat, |k: int| 0u16) + tail)
        } else {
            None
        }
    } else {
        None
    }
}

proof fn lemma_read_octet(s: Seq<char>, i: int)
    requires
        0 <= i <= s.len(),
    ensures
        read_octet(s, i) matches Some((o, e)) ==> i < e <= s.len(),
{
    lemma_run_end(s, i, 10);
}

proof fn lemma_read_dotted_octet(s: Seq<char>, i: int, first: bool)
    requires
        0 <= i <= s.len(),
    ensures
        read_dotted_octet(s, i, first) matches Some((o, e)) ==> i < e <= s.len(),
{
    lemma_read_octet(s, i);
    if i < s.len() {
        lemma_read_octet(s, i + 1);
    }
}

proof fn lemma_read_ipv4(s: Seq<char>, i: int)
    requires
        0 <= i <= s.len(),
    ensures
        read_ipv4(s, i) matches Some((o, e)) ==> i < e <= s.len() && o.len() == 4,
{
    lemma_read_dotted_octet(s, i, true);
    if let Some((a, i1)) = read_dotted_octet(s, i, true) {
        lemma_read_dotted_octet(s, i1, false);
        if let Some((b, i2)) = read_dotted_octet(s, i1, false) {
            lemma_read_dotted_octet(s, i2, false);
            if let Some((c, i3)) = read_dotted_octet(s, i2, false) {
                lemma_read_dotted_octet(s, i3, false);
            }
        }
    }
}

proof fn lemma_read_groups(s: Seq<char>, i: int, idx: nat, limit: nat, acc: Seq<u16>)
    requires
        acc.len() == idx,
        idx <= limit,
        0 <= i <= s.len(),
    ensures
        ({
            let (g, v4, e) = read_groups(s, i, idx, limit, acc);
            &&& idx <= g.len() <= limit
            &&& i <= e <= s.len()
        }),
    decreases limit - idx,
{
    if idx < limit {
        match after_colon(s, i, idx == 0) {
            Some(p) => {
                if p <= s.len() {
                    if idx + 1 < limit {
                        lemma_read_ipv4(s, p);
                    }
                    match read_hex_group(s, p) {
                        Some((g, e)) => {
                            lemma_run_end(s, p, 16);
                            lemma_read_groups(s, e, idx + 1, limit, acc.push(g));
                        },
                        None => {},
                    }
                }
            },
            None => {},
        }
    }
}

fn read_hex_group_at(s: &Vec<char>, i: usize) -> (r: Option<(u16, usize)>)
    requires
        i <= s@.len(),
    ensures
        match r {
            Some((g, e)) => read_hex_group(s@, i as int) == Some((g, e as int)) && i < e <= s@.len(),
            None => read_hex_group(s@, i as int) is None,
        },
{
    let (e, v) = read_digits(s, i, 16, 4);
    if e == i || e - i > 4 {
        return None;
    }
    proof {
        lemma_pow_bound_4_16(e - i);
    }
    Some((v as u16, e))
}

proof fn lemma_pow_bound_4_16(n: int)
    requires
        0 <= n <= 4,
    ensures
        pow_bound(16, n as nat) <= 65536,
{
    reveal_with_fuel(pow_bound, 5);
}

fn after_colon_at(s: &Vec<char>, i: usize, first: bool) -> (r: Option<usize>)
    requires
        i <= s@.len(),
    ensures
        match r {
            Some(p) => after_colon(s@, i as int, first) == Some(p as int) && p <= s@.len(),
            None => after_colon(s@, i as int, first) is None,
        },
{
    if first {
        Some(i)
    } else if i < s.len() && s[i] == ':' {
        Some(i + 1)
    } else {
        None
    }
}

/// Reads up to `limit` colon-separated IPv6 groups starting at `start`.
fn read_groups_at(s: &Vec<char>, start: usize, limit: usize) -> (r: (Vec<u16>, bool, usize))
    requires
        start <= s@.len(),
        limit <= 8,
    ensures
        read_groups(s@, start as int, 0, limit as nat, seq![]) == (r.0@, r.1, r.2 as int),
        r.0@.len() <= limit,
        start <= r.2 <= s@.len(),
{
    let mut acc: Vec<u16> = Vec::new();
    let mut pos = start;
    let mut idx: usize = 0;
    proof {
        lemma_read_groups(s@, start as int, 0, limit as nat, seq![]);
    }
    while idx < limit
        invariant
            idx <= limit <= 8,
            acc@.len() == idx,
            start <= pos <= s@.len(),
            read_groups(s@, start as int, 0, limit as nat, seq![]) == read_groups(
                s@,
                pos as int,
                idx as nat,
                limit as nat,
                acc@,
            ),
        decreases limit - idx,
    {
        if idx + 1 < limit {
            if let Some(p) = after_colon_at(s, pos, idx == 0) {
                if let Some((o, e)) = read_ipv4_at(s, p) {
                    let g1: u16 = (o[0] as u16) * 256 + (o[1] as u16);
                    let g2: u16 = (o[2] as u16) * 256 + (o[3] as u16);
                    acc.push(g1);
                    acc.push(g2);
                    assert(acc@ =~= read_groups(s@, start as int, 0, limit as nat, seq![]).0);
                    return (acc, true, e);
                }
            }
        }
        match after_colon_at(s, pos, idx == 0) {
            Some(p) => match read_hex_group_at(s, p) {
                Some((g, e)) => {
                    acc.push(g);
                    pos = e;
                    idx = idx + 1;
                },
                None => {
                    return (acc, false, pos);
                },
            },
            None => {
                return (acc, false, pos);
            },
        }
    }
    (acc, false, pos)
}

/// Parses a whole string as an IPv6 address.
pub fn parse_ipv6_at(s: &Vec<char>) -> (r: Option<[u16; 8]>)
    ensures
        match r {
            Some(g) => parse_ipv6(s@) == Some(g@),
            None => parse_ipv6(s@) is None,
        },
{
    let (head, head_v4, p) = read_groups_at(s, 0, 8);
    if head.len() == 8 {
        if p == s.len() {
            let g = [head[0], head[1], head[2], head[3], head[4], head[5], head[6], head[7]];
            assert(g@ =~= head@);
            return Some(g);
        } else {
            return None;
        }
    }
    if head_v4 {
        return None;
    }
    if !(p < s.len() && p + 1 < s.len() && s[p] == ':' && s[p + 1] == ':') {
        return None;
    }
    let limit = 8 - (head.len() + 1);
    let (tail, _, q) = read_groups_at(s, p + 2, limit);
    if q != s.len() {
        return None;
    }
    let mut g: [u16; 8] = [0u16; 8];
    let mut k: usize = 0;
    while k < head.len()
        invariant
            head@.len() + 1 + limit == 8,
            tail@.len() <= limit,
            0 <= k <= head@.len(),
            forall|t: int| 0 <= t < k ==> g@[t] == head@[t],
            forall|t: int| k <= t < 8 ==> g@[t] == 0,
            g@.len() == 8,
        decreases head@.len() - k,
    {
        g[k] = head[k];
        k = k + 1;
    }
    let off = 8 - tail.len();
    let mut t: usize = 0;
    while t < tail.len()
        invariant
            head@.len() + 1 + limit == 8,
            tail@.len() <= limit,
            off == 8 - tail@.len(),
            0 <= t <= tail@.len(),
            forall|u: int| 0 <= u < head@.len() ==> g@[u] == head@[u],
            forall|u: int| head@.len() <= u < off ==> g@[u] == 0,
            forall|u: int| 0 <= u < t ==> g@[off + u] == tail@[u],
            forall|u: int| off + t <= u < 8 ==> g@[u] == 0,
            g@.len() == 8,
        decreases tail@.len() - t,
    {
        g[off + t] = tail[t];
        t = t + 1;
    }
    assert(g@ =~= head@ + Seq::new((8 - head@.len() - tail@.len()) as nat, |k: int| 0u16)
        + tail@);
    Some(g)
}


// ----------------------------------------------------------------------------
// Laws: what the readers accept and what they read
// ----------------------------------------------------------------------------

/// The dotted-decimal text of four octets: each written in decimal without
/// leading zeros, separated by dots.
pub open spec fn ipv4_text(o: Seq<u8>) -> Seq<char> {
    decimal(o[0] as nat) + seq!['.'] + decimal(o[1] as nat) + seq!['.'] + decimal(o[2] as nat)
        + seq!['.'] + decimal(o[3] as nat)
}

proof fn lemma_digit_char(d: nat)
    requires
        d < 10,
    ensures
        is_radix_digit(digit_char(d), 10),
        is_radix_digit(digit_char(d), 16),
        hex_value(digit_char(d)) == d,
        (digit_char(d) == '0') == (d == 0),
{
}

proof fn lemma_char_of_digit(c: char)
    requires
        is_radix_digit(c, 10),
    ensures
        hex_value(c) < 10,
        digit_char(hex_value(c)) == c,
        (c == '0') == (hex_value(c) == 0),
{
}

proof fn lemma_decimal_digits(n: nat)
    ensures
        decimal(n).len() >= 1,
        forall|j: int| 0 <= j < decimal(n).len() ==> is_radix_digit(#[trigger] decimal(n)[j], 10),
        n > 0 ==> decimal(n)[0] != '0',
        n < 1000 ==> decimal(n).len() <= 3,
        n < 10 ==> decimal(n).len() == 1,
    decreases n,
{
    if n < 10 {
        lemma_digit_char(n);
    } else {
        let m = n / 10;
        lemma_decimal_digits(m);
        lemma_digit_char(n % 10);
        assert forall|j: int| 0 <= j < decimal(n).len() implies is_radix_digit(
            #[trigger] decimal(n)[j],
            10,
        ) by {
            if j < decimal(m).len() {
                assert(decimal(n)[j] == decimal(m)[j]);
            }
        }
        assert(decimal(n)[0] == decimal(m)[0]);
        if n < 1000 {
            lemma_decimal_digits(m / 10);
        }
    }
}

/// The digits of a decimal numeral have its value.
proof fn lemma_decimal_value(s: Seq<char>, i: int, n: nat)
    requires
        0 <= i,
        i + decimal(n).len() <= s.len(),
        s.subrange(i, i + decimal(n).len()) == decimal(n),
    ensures
        digits_value(s, i, i + decimal(n).len(), 10) == n,
    decreases n,
{
    if n < 10 {
        assert(s[i] == s.subrange(i, i + 1)[0]);
        lemma_digit_char(n);
        assert(digits_value(s, i, i, 10) == 0);
    } else {
        let m = n / 10;
        let lm = decimal(m).len() as int;
        assert(s.subrange(i, i + lm) =~= decimal(m)) by {
            assert forall|j: int| 0 <= j < lm implies s.subrange(i, i + lm)[j] == decimal(m)[j] by {
                assert(s.subrange(i, i + lm)[j] == s.subrange(i, i + decimal(n).len())[j]);
                assert(decimal(n)[j] == decimal(m)[j]);
            }
        }
        lemma_decimal_value(s, i, m);
        assert(s[i + lm] == s.subrange(i, i + decimal(n).len())[lm]);
        lemma_digit_char(n % 10);
    }
}

proof fn lemma_digits_value_pos(s: Seq<char>, i: int, k: int)
    requires
        0 <= i < k <= s.len(),
        forall|j: int| i <= j < k ==> is_radix_digit(#[trigger] s[j], 10),
        s[i] != '0',
    ensures
        digits_value(s, i, k, 10) >= 1,
    decreases k - i,
{
    if k - i > 1 {
        lemma_digits_value_pos(s, i, k - 1);
    } else {
        lemma_char_of_digit(s[i]);
    }
}

/// A run of decimal digits without a leading zero is the decimal numeral of
/// its value.
proof fn lemma_decimal_of_digits(s: Seq<char>, i: int, k: int)
    requires
        0 <= i < k <= s.len(),
        forall|j: int| i <= j < k ==> is_radix_digit(#[trigger] s[j], 10),
        k - i == 1 || s[i] != '0',
    ensures
        decimal(digits_value(s, i, k, 10)) == s.subrange(i, k),
    decreases k - i,
{
    lemma_char_of_digit(s[k - 1]);
    if k - i == 1 {
        assert(digits_value(s, i, i, 10) == 0);
        assert(s.subrange(i, k) =~= seq![s[i]]);
    } else {
        lemma_decimal_of_digits(s, i, k - 1);
        lemma_digits_value_pos(s, i, k - 1);
        let w = digits_value(s, i, k - 1, 10);
        let v = digits_value(s, i, k, 10);
        assert(v == w * 10 + hex_value(s[k - 1]));
        assert(v / 10 == w);
        assert(v % 10 == hex_value(s[k - 1]));
        assert(s.subrange(i, k) =~= s.subrange(i, k - 1).push(s[k - 1]));
    }
}

/// A digit run ends where a character that is not a digit stands.
proof fn lemma_run_end_at(s: Seq<char>, i: int, k: int, radix: nat)
    requires
        0 <= i <= k <= s.len(),
        forall|j: int| i <= j < k ==> is_radix_digit(#[trigger] s[j], radix),
        k == s.len() || !is_radix_digit(s[k], radix),
    ensures
        run_end(s, i, radix) == k,
{
    lemma_run_end_step(s, i, k, radix);
}

/// An octet written in decimal is read back as itself.
proof fn lemma_read_octet_text(s: Seq<char>, i: int, n: nat)
    requires
        n <= 255,
        0 <= i,
        i + decimal(n).len() <= s.len(),
        s.subrange(i, i + decimal(n).len()) == decimal(n),
        i + decimal(n).len() == s.len() || !is_radix_digit(s[i + decimal(n).len()], 10),
    ensures
        read_octet(s, i) == Some((n as u8, i + decimal(n).len())),
{
    let l = decimal(n).len() as int;
    lemma_decimal_digits(n);
    assert forall|j: int| i <= j < i + l implies is_radix_digit(#[trigger] s[j], 10) by {
        assert(s[j] == s.subrange(i, i + l)[j - i]);
    }
    lemma_run_end_at(s, i, i + l, 10);
    lemma_decimal_value(s, i, n);
    assert(s[i] == s.subrange(i, i + l)[0]);
}

/// An octet that is read is written in decimal in the text.
proof fn lemma_read_octet_sound(s: Seq<char>, i: int)
    requires
        0 <= i <= s.len(),
    ensures
        read_octet(s, i) matches Some((o, e)) ==> i < e <= s.len() && s.subrange(i, e) == decimal(
            o as nat,
        ),
{
    lemma_run_end(s, i, 10);
    if let Some((o, e)) = read_octet(s, i) {
        lemma_decimal_of_digits(s, i, e);
    }
}

/// Splits the dotted-decimal text at its first octet.
proof fn lemma_ipv4_text_parts(o: Seq<u8>)
    requires
        o.len() == 4,
    ensures
        ipv4_text(o) == decimal(o[0] as nat) + seq!['.'] + decimal(o[1] as nat) + seq!['.']
            + decimal(o[2] as nat) + seq!['.'] + decimal(o[3] as nat),
{
}

/// Four octets written in dotted decimal at `p`, followed by a character
/// that is not a digit (or the end), are read back as themselves.
proof fn lemma_read_ipv4_text(s: Seq<char>, p: int, o: Seq<u8>)
    requires
        o.len() == 4,
        0 <= p,
        p + ipv4_text(o).len() <= s.len(),
        s.subrange(p, p + ipv4_text(o).len()) == ipv4_text(o),
        p + ipv4_text(o).len() == s.len() || !is_radix_digit(s[p + ipv4_text(o).len()], 10),
    ensures
        read_ipv4(s, p) == Some((o, p + ipv4_text(o).len())),
{
    let t = ipv4_text(o);
    let d0 = decimal(o[0] as nat);
    let d1 = decimal(o[1] as nat);
    let d2 = decimal(o[2] as nat);
    let d3 = decimal(o[3] as nat);
    let e1 = p + d0.len();
    let e2 = e1 + 1 + d1.len();
    let e3 = e2 + 1 + d2.len();
    let e4 = e3 + 1 + d3.len();
    assert(t.len() == e4 - p);
    assert forall|j: int| p <= j < e4 implies #[trigger] s[j] == t[j - p] by {
        assert(s[j] == s.subrange(p, e4)[j - p]);
    }
    assert(s.subrange(p, e1) =~= d0);
    assert(s[e1] == '.');
    assert(s.subrange(e1 + 1, e2) =~= d1);
    assert(s[e2] == '.');
    assert(s.subrange(e2 + 1, e3) =~= d2);
    assert(s[e3] == '.');
    assert(s.subrange(e3 + 1, e4) =~= d3);
    lemma_read_octet_text(s, p, o[0] as nat);
    lemma_read_octet_text(s, e1 + 1, o[1] as nat);
    lemma_read_octet_text(s, e2 + 1, o[2] as nat);
    lemma_read_octet_text(s, e3 + 1, o[3] as nat);
    assert(seq![o[0], o[1], o[2], o[3]] =~= o);
}

proof fn lemma_subrange_split(s: Seq<char>, a: int, b: int, c: int)
    requires
        0 <= a <= b <= c <= s.len(),
    ensures
        s.subrange(a, c) == s.subrange(a, b) + s.subrange(b, c),
{
    assert(s.subrange(a, c) =~= s.subrange(a, b) + s.subrange(b, c));
}

/// An octet read after a dot is written, with its dot, in the text.
proof fn lemma_read_dotted_sound(s: Seq<char>, i: int)
    requires
        0 <= i <= s.len(),
    ensures
        read_dotted_octet(s, i, false) matches Some((o, e)) ==> i < e <= s.len() && s.subrange(i, e)
            == seq!['.'] + decimal(o as nat),
{
    if i < s.len() {
        lemma_read_octet_sound(s, i + 1);
        if let Some((o, e)) = read_dotted_octet(s, i, false) {
            lemma_subrange_split(s, i, i + 1, e);
            assert(s.subrange(i, i + 1) =~= seq!['.']);
        }
    }
}

/// What is read as an IPv4 address at `p` is the dotted-decimal text of the
/// octets read.
proof fn lemma_read_ipv4_sound(s: Seq<char>, p: int)
    requires
        0 <= p <= s.len(),
    ensures
        read_ipv4(s, p) matches Some((o, e)) ==> o.len() == 4 && p < e <= s.len() && s.subrange(
            p,
            e,
        ) == ipv4_text(o),
{
    lemma_read_octet_sound(s, p);
    if let Some((a, i1)) = read_dotted_octet(s, p, true) {
        lemma_read_dotted_sound(s, i1);
        if let Some((b, i2)) = read_dotted_octet(s, i1, false) {
            lemma_read_dotted_sound(s, i2);
            if let Some((c, i3)) = read_dotted_octet(s, i2, false) {
                lemma_read_dotted_sound(s, i3);
                if let Some((d, i4)) = read_dotted_octet(s, i3, false) {
                    let o = seq![a, b, c, d];
                    lemma_subrange_split(s, p, i1, i2);
                    lemma_subrange_split(s, p, i2, i3);
                    lemma_subrange_split(s, p, i3, i4);
                    let d0 = decimal(a as nat);
                    let d1 = seq!['.'] + decimal(b as nat);
                    let d2 = seq!['.'] + decimal(c as nat);
                    let d3 = seq!['.'] + decimal(d as nat);
                    assert(s.subrange(p, i4) == d0 + d1 + d2 + d3);
                    assert(d0 + d1 + d2 + d3 =~= ipv4_text(o));
                }
            }
        }
    }
}

/// The IPv4 reader reads exactly the dotted-decimal texts: four octets
/// written in decimal without leading zeros and separated by dots are
/// read back as those octets, in order.
pub proof fn lemma_ipv4_text_parses(o: Seq<u8>)
    requires
        o.len() == 4,
    ensures
        parse_ipv4(ipv4_text(o)) == Some(o),
{
    let s = ipv4_text(o);
    assert(s.subrange(0, s.len() as int) =~= s);
    lemma_read_ipv4_text(s, 0, o);
}

/// Only dotted-decimal texts are accepted as IPv4 addresses: an accepted
/// string is four dot-separated decimal numerals without leading zeros,
/// each at most 255, and the octets read are those numbers, in order.
pub proof fn lemma_ipv4_parse_sound(s: Seq<char>)
    ensures
        parse_ipv4(s) matches Some(o) ==> o.len() == 4 && s == ipv4_text(o),
{
    lemma_read_ipv4_sound(s, 0);
    if let Some(o) = parse_ipv4(s) {
        assert(s.subrange(0, s.len() as int) =~= s);
    }
}

/// The lowercase hex digit of `d` (`0 <= d < 16`).
pub open spec fn hex_char(d: nat) -> char {
    if d < 10 {
        digit_char(d)
    } else if d == 10 {
        'a'
    } else if d == 11 {
        'b'
    } else if d == 12 {
        'c'
    } else if d == 13 {
        'd'
    } else if d == 14 {
        'e'
    } else {
        'f'
    }
}

/// The hex numeral of `n`: lowercase, most significant digit first, no
/// leading zeros.
pub open spec fn hex_text(n: nat) -> Seq<char>
    decreases n,
{
    if n < 16 {
        seq![hex_char(n)]
    } else {
        hex_text(n / 16).push(hex_char(n % 16))
    }
}

/// Groups written in hex, each followed by a colon: `g1:g2:...:gk:`.
pub open spec fn groups_colon(t: Seq<u16>) -> Seq<char>
    decreases t.len(),
{
    if t.len() == 0 {
        seq![]
    } else {
        hex_text(t[0] as nat) + seq![':'] + groups_colon(t.drop_first())
    }
}

/// An IPv6 address written with `::` and an embedded IPv4 address: the
/// groups `h` (each followed by a colon, or a lone colon when there are
/// none), a colon, the groups `t` (each followed by a colon), then the
/// dotted-decimal text of `o`.
pub open spec fn compressed_ipv4_text(h: Seq<u16>, t: Seq<u16>, o: Seq<u8>) -> Seq<char> {
    (if h.len() == 0 {
        seq![':']
    } else {
        groups_colon(h)
    }) + seq![':'] + groups_colon(t) + ipv4_text(o)
}

proof fn lemma_hex_char(d: nat)
    requires
        d < 16,
    ensures
        is_radix_digit(hex_char(d), 16),
        hex_value(hex_char(d)) == d,
        hex_char(d) != ':',
        hex_char(d) != '.',
{
    if d < 10 {
        lemma_digit_char(d);
    }
}

proof fn lemma_hex_digits(n: nat)
    ensures
        hex_text(n).len() >= 1,
        forall|j: int| 0 <= j < hex_text(n).len() ==> is_radix_digit(#[trigger] hex_text(n)[j], 16),
        n < 65536 ==> hex_text(n).len() <= 4,
    decreases n,
{
    if n < 16 {
        lemma_hex_char(n);
    } else {
        let m = n / 16;
        lemma_hex_digits(m);
        lemma_hex_char(n % 16);
        assert forall|j: int| 0 <= j < hex_text(n).len() implies is_radix_digit(
            #[trigger] hex_text(n)[j],
            16,
        ) by {
            if j < hex_text(m).len() {
                assert(hex_text(n)[j] == hex_text(m)[j]);
            }
        }
        if n < 65536 {
            lemma_hex_digits(m / 16);
            if m / 16 >= 16 {
                lemma_hex_digits(m / 256);
            }
        }
    }
}

/// The digits of a hex numeral have its value.
proof fn lemma_hex_value(s: Seq<char>, i: int, n: nat)
    requires
        0 <= i,
        i + hex_text(n).len() <= s.len(),
        s.subrange(i, i + hex_text(n).len()) == hex_text(n),
    ensures
        digits_value(s, i, i + hex_text(n).len(), 16) == n,
    decreases n,
{
    if n < 16 {
        assert(s[i] == s.subrange(i, i + 1)[0]);
        lemma_hex_char(n);
        assert(digits_value(s, i, i, 16) == 0);
    } else {
        let m = n / 16;
        let lm = hex_text(m).len() as int;
        assert(s.subrange(i, i + lm) =~= hex_text(m)) by {
            assert forall|j: int| 0 <= j < lm implies s.subrange(i, i + lm)[j] == hex_text(m)[j] by {
                assert(s.subrange(i, i + lm)[j] == s.subrange(i, i + hex_text(n).len())[j]);
                assert(hex_text(n)[j] == hex_text(m)[j]);
            }
        }
        lemma_hex_value(s, i, m);
        assert(s[i + lm] == s.subrange(i, i + hex_text(n).len())[lm]);
        lemma_hex_char(n % 16);
    }
}

/// A group written in hex, followed by a character that is not a hex
/// digit, is read back as itself.
proof fn lemma_read_hex_group_text(s: Seq<char>, p: int, g: u16)
    requires
        0 <= p,
        p + hex_text(g as nat).len() <= s.len(),
        s.subrange(p, p + hex_text(g as nat).len()) == hex_text(g as nat),
        p + hex_text(g as nat).len() == s.len() || !is_radix_digit(
            s[p + hex_text(g as nat).len()],
            16,
        ),
    ensures
        read_hex_group(s, p) == Some((g, p + hex_text(g as nat).len())),
        forall|j: int|
            p <= j < p + hex_text(g as nat).len() ==> is_radix_digit(#[trigger] s[j], 16),
{
    let l = hex_text(g as nat).len() as int;
    lemma_hex_digits(g as nat);
    assert forall|j: int| p <= j < p + l implies is_radix_digit(#[trigger] s[j], 16) by {
        assert(s[j] == s.subrange(p, p + l)[j - p]);
    }
    lemma_run_end_at(s, p, p + l, 16);
    lemma_hex_value(s, p, g as nat);
}

/// A decimal digit run never reaches past the hex digit run at the same
/// place.
proof fn lemma_run_end_10_16(s: Seq<char>, i: int)
    requires
        0 <= i <= s.len(),
    ensures
        run_end(s, i, 10) <= run_end(s, i, 16),
    decreases s.len() - i,
{
    lemma_run_end(s, i, 16);
    if i < s.len() && is_radix_digit(s[i], 10) {
        assert(is_radix_digit(s[i], 16));
        lemma_run_end_10_16(s, i + 1);
    }
}

/// No IPv4 address starts at a hex group that a colon ends.
proof fn lemma_no_ipv4_at_group(s: Seq<char>, p: int, k: int)
    requires
        0 <= p < k < s.len(),
        forall|j: int| p <= j < k ==> is_radix_digit(#[trigger] s[j], 16),
        s[k] == ':',
    ensures
        read_ipv4(s, p) is None,
{
    lemma_run_end_at(s, p, k, 16);
    lemma_run_end_10_16(s, p);
    lemma_run_end(s, p, 10);
    let e = run_end(s, p, 10);
    assert(s[e] != '.') by {
        if e < k {
            assert(is_radix_digit(s[e], 16));
        }
    }
}

/// One hex group followed by a colon is read, and reading goes on at the
/// colon.
proof fn lemma_group_step(
    s: Seq<char>,
    i: int,
    idx: nat,
    limit: nat,
    acc: Seq<u16>,
    p: int,
    g: u16,
)
    requires
        idx < limit,
        after_colon(s, i, idx == 0) == Some(p),
        0 <= p,
        p + hex_text(g as nat).len() < s.len(),
        s.subrange(p, p + hex_text(g as nat).len()) == hex_text(g as nat),
        s[p + hex_text(g as nat).len()] == ':',
    ensures
        read_groups(s, i, idx, limit, acc) == read_groups(
            s,
            p + hex_text(g as nat).len(),
            idx + 1,
            limit,
            acc.push(g),
        ),
{
    lemma_read_hex_group_text(s, p, g);
    lemma_hex_digits(g as nat);
    lemma_no_ipv4_at_group(s, p, p + hex_text(g as nat).len());
}

proof fn lemma_groups_colon_shape(t: Seq<u16>)
    requires
        t.len() >= 1,
    ensures
        groups_colon(t).len() >= 2,
        groups_colon(t).last() == ':',
    decreases t.len(),
{
    lemma_hex_digits(t[0] as nat);
    let u = hex_text(t[0] as nat) + seq![':'];
    assert(groups_colon(t) == u + groups_colon(t.drop_first()));
    if t.len() > 1 {
        lemma_groups_colon_shape(t.drop_first());
    } else {
        assert(groups_colon(t.drop_first()) =~= Seq::<char>::empty());
        assert(groups_colon(t) =~= u);
    }
}

/// Groups each followed by a colon are read in order; reading goes on at
/// the last colon.
proof fn lemma_groups_colon_read(
    s: Seq<char>,
    i: int,
    idx: nat,
    limit: nat,
    acc: Seq<u16>,
    p: int,
    t: Seq<u16>,
)
    requires
        t.len() >= 1,
        idx + t.len() <= limit,
        after_colon(s, i, idx == 0) == Some(p),
        0 <= p,
        p + groups_colon(t).len() <= s.len(),
        s.subrange(p, p + groups_colon(t).len()) == groups_colon(t),
    ensures
        read_groups(s, i, idx, limit, acc) == read_groups(
            s,
            p + groups_colon(t).len() - 1,
            idx + t.len(),
            limit,
            acc + t,
        ),
    decreases t.len(),
{
    let g = t[0];
    let hx = hex_text(g as nat);
    let l = hx.len() as int;
    let rest = t.drop_first();
    let x = groups_colon(t).len() as int;
    assert(groups_colon(t) == hx + seq![':'] + groups_colon(rest));
    assert(s.subrange(p, p + l) =~= hx) by {
        assert forall|j: int| 0 <= j < l implies s.subrange(p, p + l)[j] == hx[j] by {
            assert(s.subrange(p, p + l)[j] == s.subrange(p, p + x)[j]);
        }
    }
    assert(s[p + l] == s.subrange(p, p + x)[l]);
    lemma_group_step(s, i, idx, limit, acc, p, g);
    if t.len() == 1 {
        assert(acc.push(g) =~= acc + t);
    } else {
        lemma_groups_colon_shape(rest);
        let y = groups_colon(rest).len() as int;
        assert(s.subrange(p + l + 1, p + l + 1 + y) =~= groups_colon(rest)) by {
            assert forall|j: int| 0 <= j < y implies s.subrange(p + l + 1, p + l + 1 + y)[j]
                == groups_colon(rest)[j] by {
                assert(s.subrange(p + l + 1, p + l + 1 + y)[j] == s.subrange(p, p + x)[l + 1 + j]);
            }
        }
        lemma_groups_colon_read(s, p + l, idx + 1, limit, acc.push(g), p + l + 1, rest);
        assert(acc.push(g) + rest =~= acc + t);
    }
}

/// Reading stops, with nothing more read, where the next group would start
/// at a colon.
proof fn lemma_groups_stop(s: Seq<char>, i: int, idx: nat, limit: nat, acc: Seq<u16>, q: int)
    requires
        idx < limit,
        after_colon(s, i, idx == 0) == Some(q),
        0 <= q < s.len(),
        s[q] == ':',
    ensures
        read_groups(s, i, idx, limit, acc) == (acc, false, i),
{
    lemma_run_end_at(s, q, q, 10);
    lemma_run_end_at(s, q, q, 16);
}

/// Reading ends with an embedded IPv4 address that fills the rest of the
/// text.
proof fn lemma_groups_ipv4_end(
    s: Seq<char>,
    i: int,
    idx: nat,
    limit: nat,
    acc: Seq<u16>,
    q: int,
    o: Seq<u8>,
)
    requires
        o.len() == 4,
        idx + 1 < limit,
        after_colon(s, i, idx == 0) == Some(q),
        0 <= q,
        q + ipv4_text(o).len() == s.len(),
        s.subrange(q, s.len() as int) == ipv4_text(o),
    ensures
        read_groups(s, i, idx, limit, acc) == (acc + ipv4_groups(o), true, s.len() as int),
{
    lemma_read_ipv4_text(s, q, o);
}

/// The groups before `::` are read, and reading stops at the first colon
/// of `::`.
proof fn lemma_compressed_head(s: Seq<char>, h: Seq<u16>)
    requires
        h.len() <= 5,
        ({
            let a = if h.len() == 0 {
                seq![':']
            } else {
                groups_colon(h)
            };
            &&& a.len() + 1 < s.len()
            &&& s.subrange(0, a.len() as int) == a
            &&& s[a.len() as int] == ':'
        }),
    ensures
        read_groups(s, 0, 0, 8, seq![]) == (h, false, (if h.len() == 0 {
            seq![':']
        } else {
            groups_colon(h)
        }).len() - 1),
{
    let a = if h.len() == 0 {
        seq![':']
    } else {
        groups_colon(h)
    };
    let x = a.len() as int;
    if h.len() > 0 {
        lemma_groups_colon_shape(h);
        lemma_groups_colon_read(s, 0, 0, 8, seq![], 0, h);
        assert(Seq::<u16>::empty() + h =~= h);
        assert(s[x - 1] == s.subrange(0, x)[x - 1]);
        lemma_groups_stop(s, x - 1, h.len(), 8, h, x);
    } else {
        assert(s[0] == s.subrange(0, x)[0]);
        lemma_groups_stop(s, 0, 0, 8, seq![], 0);
        assert(h =~= Seq::<u16>::empty());
    }
}

/// The groups after `::` are read, then the embedded IPv4 address that ends
/// the text.
proof fn lemma_compressed_tail(s: Seq<char>, b: int, limit: nat, t: Seq<u16>, o: Seq<u8>)
    requires
        o.len() == 4,
        t.len() + 1 < limit,
        0 <= b,
        b + groups_colon(t).len() + ipv4_text(o).len() == s.len(),
        s.subrange(b, b + groups_colon(t).len()) == groups_colon(t),
        s.subrange(b + groups_colon(t).len(), s.len() as int) == ipv4_text(o),
    ensures
        read_groups(s, b, 0, limit, seq![]) == (t + ipv4_groups(o), true, s.len() as int),
{
    let y = groups_colon(t).len() as int;
    if t.len() > 0 {
        lemma_groups_colon_shape(t);
        lemma_groups_colon_read(s, b, 0, limit, seq![], b, t);
        assert(Seq::<u16>::empty() + t =~= t);
        assert(s[b + y - 1] == s.subrange(b, b + y)[y - 1]);
        lemma_groups_ipv4_end(s, b + y - 1, t.len(), limit, t, b + y, o);
    } else {
        assert(t =~= Seq::<u16>::empty());
        lemma_groups_ipv4_end(s, b, 0, limit, seq![], b, o);
        assert(Seq::<u16>::empty() + ipv4_groups(o) =~= t + ipv4_groups(o));
    }
}

/// An IPv6 address written with `::` and ending in an embedded IPv4
/// address `a.b.c.d` (at most five other groups, so that `::` stands for at
/// least one zero group) reads as: the groups before `::`, zeros, the
/// groups after it, then `a*256+b` and `c*256+d`. This holds whatever
/// groups come before `::`.
pub proof fn lemma_ipv6_compressed_ipv4_tail(h: Seq<u16>, t: Seq<u16>, o: Seq<u8>)
    requires
        o.len() == 4,
        h.len() + t.len() <= 5,
    ensures
        parse_ipv6(compressed_ipv4_text(h, t, o)) == Some(
            h + Seq::new((6 - h.len() - t.len()) as nat, |k: int| 0u16) + t + seq![
                (o[0] as int * 256 + o[1] as int) as u16,
                (o[2] as int * 256 + o[3] as int) as u16,
            ],
        ),
{
    let s = compressed_ipv4_text(h, t, o);
    let a = if h.len() == 0 {
        seq![':']
    } else {
        groups_colon(h)
    };
    let gt = groups_colon(t);
    let t4 = ipv4_text(o);
    let x = a.len() as int;
    let y = gt.len() as int;
    let m = h.len();
    let n = t.len();
    assert(s == a + seq![':'] + gt + t4);
    assert(s.subrange(0, x) =~= a);
    assert(s[x] == ':');
    lemma_ipv4_text_parts(o);
    assert(t4.len() >= 7);
    lemma_compressed_head(s, h);
    let limit = (8 - (m + 1)) as nat;
    assert(s.subrange(x + 1, x + 1 + y) =~= gt);
    assert(s.subrange(x + 1 + y, s.len() as int) =~= t4);
    lemma_compressed_tail(s, x + 1, limit, t, o);
    if m > 0 {
        lemma_groups_colon_shape(h);
    }
    assert(s[x - 1] == a[x - 1]);
    assert(s[x - 1] == ':');
    let (head, head_v4, p) = read_groups(s, 0, 0, 8, seq![]);
    assert(head == h && !head_v4 && p == x - 1);
    assert(p + 2 == x + 1);
    let (tail, tv4, q) = read_groups(s, p + 2, 0, (8 - (head.len() + 1)) as nat, seq![]);
    assert(tail == t + ipv4_groups(o) && q == s.len());
    let v4 = seq![(o[0] as int * 256 + o[1] as int) as u16, (o[2] as int * 256 + o[3] as int) as u16];
    assert(ipv4_groups(o) == v4);
    assert(h + Seq::new((8 - m - (t + v4).len()) as nat, |k: int| 0u16) + (t + v4) =~= h
        + Seq::new((6 - m - n) as nat, |k: int| 0u16) + t + v4);
}

/// Two characters the address readers treat alike: the same kind of digit
/// with the same value, or the same separator.
spec fn same_to_reader(a: char, b: char) -> bool {
    &&& is_radix_digit(a, 10) == is_radix_digit(b, 10)
    &&& is_radix_digit(a, 16) == is_radix_digit(b, 16)
    &&& (is_radix_digit(a, 16) ==> hex_value(a) == hex_value(b))
    &&& (a == ':') == (b == ':')
    &&& (a == '.') == (b == '.')
    &&& (a == '0') == (b == '0')
}

/// Two texts the address readers treat alike, character by character.
spec fn agree(s: Seq<char>, t: Seq<char>) -> bool {
    &&& s.len() == t.len()
    &&& forall|j: int| 0 <= j < s.len() ==> same_to_reader(#[trigger] s[j], t[j])
}

proof fn lemma_agree_run_end(s: Seq<char>, t: Seq<char>, i: int, radix: nat)
    requires
        agree(s, t),
        0 <= i <= s.len(),
        radix == 10 || radix == 16,
    ensures
        run_end(s, i, radix) == run_end(t, i, radix),
    decreases s.len() - i,
{
    if i < s.len() {
        assert(same_to_reader(s[i], t[i]));
        lemma_agree_run_end(s, t, i + 1, radix);
    }
}

proof fn lemma_agree_digits_value(s: Seq<char>, t: Seq<char>, i: int, k: int, radix: nat)
    requires
        agree(s, t),
        0 <= i <= k <= s.len(),
        radix == 10 || radix == 16,
        forall|j: int| i <= j < k ==> is_radix_digit(#[trigger] s[j], radix),
    ensures
        digits_value(s, i, k, radix) == digits_value(t, i, k, radix),
    decreases k - i,
{
    if i < k {
        lemma_agree_digits_value(s, t, i, k - 1, radix);
        assert(same_to_reader(s[k - 1], t[k - 1]));
        assert(is_radix_digit(s[k - 1], radix));
        assert(is_radix_digit(s[k - 1], 16));
    }
}

proof fn lemma_agree_octet(s: Seq<char>, t: Seq<char>, i: int)
    requires
        agree(s, t),
        0 <= i <= s.len(),
    ensures
        read_octet(s, i) == read_octet(t, i),
{
    lemma_agree_run_end(s, t, i, 10);
    lemma_run_end(s, i, 10);
    let k = run_end(s, i, 10);
    lemma_agree_digits_value(s, t, i, k, 10);
    if i < s.len() {
        assert(same_to_reader(s[i], t[i]));
    }
}

proof fn lemma_agree_dotted(s: Seq<char>, t: Seq<char>, i: int, first: bool)
    requires
        agree(s, t),
        0 <= i <= s.len(),
    ensures
        read_dotted_octet(s, i, first) == read_dotted_octet(t, i, first),
{
    lemma_agree_octet(s, t, i);
    if i < s.len() {
        assert(same_to_reader(s[i], t[i]));
        lemma_agree_octet(s, t, i + 1);
    }
}

proof fn lemma_agree_ipv4(s: Seq<char>, t: Seq<char>, p: int)
    requires
        agree(s, t),
        0 <= p <= s.len(),
    ensures
        read_ipv4(s, p) == read_ipv4(t, p),
{
    lemma_agree_dotted(s, t, p, true);
    lemma_read_dotted_octet(s, p, true);
    if let Some((a, i1)) = read_dotted_octet(s, p, true) {
        lemma_agree_dotted(s, t, i1, false);
        lemma_read_dotted_octet(s, i1, false);
        if let Some((b, i2)) = read_dotted_octet(s, i1, false) {
            lemma_agree_dotted(s, t, i2, false);
            lemma_read_dotted_octet(s, i2, false);
            if let Some((c, i3)) = read_dotted_octet(s, i2, false) {
                lemma_agree_dotted(s, t, i3, false);
            }
        }
    }
}

proof fn lemma_agree_hex_group(s: Seq<char>, t: Seq<char>, p: int)
    requires
        agree(s, t),
        0 <= p <= s.len(),
    ensures
        read_hex_group(s, p) == read_hex_group(t, p),
{
    lemma_agree_run_end(s, t, p, 16);
    lemma_run_end(s, p, 16);
    lemma_agree_digits_value(s, t, p, run_end(s, p, 16), 16);
}

proof fn lemma_agree_after_colon(s: Seq<char>, t: Seq<char>, i: int, first: bool)
    requires
        agree(s, t),
        0 <= i <= s.len(),
    ensures
        after_colon(s, i, first) == after_colon(t, i, first),
{
    if i < s.len() {
        assert(same_to_reader(s[i], t[i]));
    }
}

proof fn lemma_agree_groups(
    s: Seq<char>,
    t: Seq<char>,
    i: int,
    idx: nat,
    limit: nat,
    acc: Seq<u16>,
)
    requires
        agree(s, t),
        0 <= i <= s.len(),
    ensures
        read_groups(s, i, idx, limit, acc) == read_groups(t, i, idx, limit, acc),
    decreases limit - idx,
{
    if idx < limit {
        lemma_agree_after_colon(s, t, i, idx == 0);
        if let Some(p) = after_colon(s, i, idx == 0) {
            assert(p <= s.len());
            lemma_agree_ipv4(s, t, p);
            lemma_agree_hex_group(s, t, p);
            if let Some((g, e)) = read_hex_group(s, p) {
                lemma_run_end(s, p, 16);
                lemma_agree_groups(s, t, e, idx + 1, limit, acc.push(g));
            }
        }
    }
}

proof fn lemma_lower_agrees(s: Seq<char>)
    ensures
        agree(s, s.map_values(|c: char| ascii_lower(c))),
{
    let t = s.map_values(|c: char| ascii_lower(c));
    assert forall|j: int| 0 <= j < s.len() implies same_to_reader(#[trigger] s[j], t[j]) by {
        assert(t[j] == ascii_lower(s[j]));
    }
}

/// IPv6 reading ignores letter case: a text and its ASCII-lowercased form
/// read as the same groups, or are both rejected. So an uppercase hex digit
/// has the value of its lowercase form.
pub proof fn lemma_ipv6_ignores_case(s: Seq<char>)
    ensures
        parse_ipv6(s) == parse_ipv6(s.map_values(|c: char| ascii_lower(c))),
{
    let t = s.map_values(|c: char| ascii_lower(c));
    lemma_lower_agrees(s);
    lemma_agree_groups(s, t, 0, 0, 8, seq![]);
    lemma_read_groups(s, 0, 0, 8, seq![]);
    let (head, head_v4, p) = read_groups(s, 0, 0, 8, seq![]);
    if 0 <= p && p + 1 < s.len() {
        assert(same_to_reader(s[p], t[p]));
        assert(same_to_reader(s[p + 1], t[p + 1]));
        lemma_agree_groups(s, t, p + 2, 0, (8 - (head.len() + 1)) as nat, seq![]);
    }
}

} // verus!
