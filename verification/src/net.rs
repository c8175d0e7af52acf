//! IP addresses as plain numbers, and their text forms.

use vstd::prelude::*;
use crate::text::{decimal_text, hex_digit, hex_digit_spec, u64_text, hex_value, hex_digit_value, chars_of};

verus! {

/// An IPv4 address by its four octets, or an IPv6 address by its eight 16-bit segments.
#[derive(Debug, Clone, Copy, PartialEq, Eq, Hash, Structural)]
pub enum IpAddress {
    V4(u8, u8, u8, u8),
    V6(u16, u16, u16, u16, u16, u16, u16, u16),
}

/// The high and low octet of a 16-bit segment.
pub open spec fn hi(s: u16) -> u8 {
    (s / 256) as u8
}

pub open spec fn lo(s: u16) -> u8 {
    (s % 256) as u8
}

/// A 16-bit segment from its two octets, big-endian.
pub open spec fn seg(h: u8, l: u8) -> u16 {
    (h as int * 256 + l as int) as u16
}

impl IpAddress {
    /// The address's octets, network order: four for IPv4, sixteen for IPv6.
    pub open spec fn octets(self) -> Seq<u8> {
        match self {
            IpAddress::V4(a, b, c, d) => seq![a, b, c, d],
            IpAddress::V6(s0, s1, s2, s3, s4, s5, s6, s7) => seq![
                hi(s0), lo(s0), hi(s1), lo(s1), hi(s2), lo(s2), hi(s3), lo(s3),
                hi(s4), lo(s4), hi(s5), lo(s5), hi(s6), lo(s6), hi(s7), lo(s7),
            ],
        }
    }

    /// The eight segments of an IPv6 address.
    pub open spec fn segments(self) -> Seq<u16> {
        match self {
            IpAddress::V4(..) => Seq::empty(),
            IpAddress::V6(s0, s1, s2, s3, s4, s5, s6, s7) => seq![s0, s1, s2, s3, s4, s5, s6, s7],
        }
    }
}

// ---------------------------------------------------------------------------------------------
// Text form
// ---------------------------------------------------------------------------------------------

/// `n` in lower-case hexadecimal with no leading zeros, as `{:x}` writes it.
pub open spec fn hex_text(n: nat) -> Seq<char>
    decreases n,
{
    if n < 16 {
        seq![hex_digit_spec(n as u8, false)]
    } else {
        hex_text(n / 16).push(hex_digit_spec((n % 16) as u8, false))
    }
}

/// Segments in hexadecimal, joined by `:`.
pub open spec fn segments_text(s: Seq<u16>) -> Seq<char>
    decreases s.len(),
{
    if s.len() == 0 {
        Seq::empty()
    } else if s.len() == 1 {
        hex_text(s[0] as nat)
    } else {
        segments_text(s.drop_last()).push(':') + hex_text(s.last() as nat)
    }
}

/// How many zero segments follow one another from index `i` on.
pub open spec fn zero_run(s: Seq<u16>, i: int) -> nat
    decreases s.len() - i,
{
    if 0 <= i < s.len() && s[i] == 0 {
        1 + zero_run(s, i + 1)
    } else {
        0
    }
}

/// The longest run of zero segments that starts at `i` or later.
pub open spec fn longest_run_from(s: Seq<u16>, i: int) -> nat
    decreases s.len() - i,
{
    if i < 0 || i >= s.len() {
        0
    } else if zero_run(s, i) >= longest_run_from(s, i + 1) {
        zero_run(s, i)
    } else {
        longest_run_from(s, i + 1)
    }
}

/// The first index at `i` or later where a run of `len` zero segments starts.
pub open spec fn first_run_of(s: Seq<u16>, i: int, len: nat) -> int
    decreases s.len() - i,
{
    if i < 0 || i >= s.len() {
        s.len() as int
    } else if zero_run(s, i) == len {
        i
    } else {
        first_run_of(s, i + 1, len)
    }
}

/// Dotted-decimal IPv4.
pub open spec fn ipv4_text(a: u8, b: u8, c: u8, d: u8) -> Seq<char> {
    decimal_text(a as nat) + seq!['.'] + decimal_text(b as nat) + seq!['.'] + decimal_text(
        c as nat,
    ) + seq!['.'] + decimal_text(d as nat)
}

/// Whether the segments are an IPv4-mapped IPv6 address, `::ffff:a.b.c.d`.
pub open spec fn is_v4_mapped(s: Seq<u16>) -> bool {
    s.len() == 8 && s[0] == 0 && s[1] == 0 && s[2] == 0 && s[3] == 0 && s[4] == 0 && s[5]
        == 0xffff
}

/// IPv6 text as `Display` writes it: an IPv4-mapped address in its dotted form, otherwise
/// lower-case segments with the first longest run of two or more zero segments written `::`.
pub open spec fn ipv6_text(s: Seq<u16>) -> Seq<char> {
    if is_v4_mapped(s) {
        seq![':', ':', 'f', 'f', 'f', 'f', ':'] + ipv4_text(hi(s[6]), lo(s[6]), hi(s[7]), lo(s[7]))
    } else {
        let len = longest_run_from(s, 0);
        if len > 1 {
            let start = first_run_of(s, 0, len);
            segments_text(s.subrange(0, start)) + seq![':', ':'] + segments_text(
                s.subrange(start + len, s.len() as int),
            )
        } else {
            segments_text(s)
        }
    }
}

/// The text of an address.
pub open spec fn ip_text(a: IpAddress) -> Seq<char> {
    match a {
        IpAddress::V4(p, q, r, t) => ipv4_text(p, q, r, t),
        IpAddress::V6(..) => ipv6_text(a.segments()),
    }
}

fn u16_hex_text(n: u16) -> (r: Vec<char>)
    ensures
        r@ == hex_text(n as nat),
    decreases n,
{
    if n < 16 {
        let mut v: Vec<char> = Vec::new();
        v.push(hex_digit(n as u8, false));
        assert(v@ =~= hex_text(n as nat));
        v
    } else {
        let mut v = u16_hex_text(n / 16);
        v.push(hex_digit((n % 16) as u8, false));
        v
    }
}

fn append_chars(out: &mut Vec<char>, more: &Vec<char>)
    ensures
        final(out)@ == old(out)@ + more@,
{
    let mut i: usize = 0;
    while i < more.len()
        invariant
            i <= more@.len(),
            out@ == old(out)@ + more@.subrange(0, i as int),
        decreases more.len() - i,
    {
        out.push(more[i]);
        i = i + 1;
        assert(out@ =~= old(out)@ + more@.subrange(0, i as int));
    }
    assert(more@.subrange(0, more@.len() as int) =~= more@);
}

/// Appends `segments_text(s[lo..hi])`.
fn push_segments(out: &mut Vec<char>, s: &Vec<u16>, lo: usize, hi: usize)
    requires
        lo <= hi <= s@.len(),
    ensures
        final(out)@ == old(out)@ + segments_text(s@.subrange(lo as int, hi as int)),
{
    let mut i: usize = lo;
    while i < hi
        invariant
            lo <= i <= hi <= s@.len(),
            out@ == old(out)@ + segments_text(s@.subrange(lo as int, i as int)),
        decreases hi - i,
    {
        let ghost before = out@;
        let ghost prefix = s@.subrange(lo as int, i as int);
        let ghost next = s@.subrange(lo as int, i + 1);
        assert(next.drop_last() =~= prefix);
        if i > lo {
            out.push(':');
        }
        let digits = u16_hex_text(s[i]);
        append_chars(out, &digits);
        proof {
            if i == lo {
                assert(prefix =~= Seq::<u16>::empty());
                assert(segments_text(prefix) =~= Seq::<char>::empty());
                assert(next.len() == 1);
                assert(out@ =~= old(out)@ + segments_text(next));
            } else {
                assert(next.len() >= 2);
                assert(segments_text(next) == segments_text(prefix).push(':') + hex_text(
                    s@[i as int] as nat,
                ));
                assert(out@ =~= old(out)@ + segments_text(next));
            }
        }
        i = i + 1;
    }
}

fn zero_run_at(s: &Vec<u16>, i: usize) -> (r: usize)
    requires
        i <= s@.len(),
    ensures
        r == zero_run(s@, i as int),
        r <= s@.len() - i,
    decreases s@.len() - i,
{
    if i < s.len() && s[i] == 0 {
        1 + zero_run_at(s, i + 1)
    } else {
        0
    }
}

fn longest_run_at(s: &Vec<u16>, i: usize) -> (r: usize)
    requires
        i <= s@.len(),
    ensures
        r == longest_run_from(s@, i as int),
        r <= s@.len() - i,
    decreases s@.len() - i,
{
    if i >= s.len() {
        0
    } else {
        let here = zero_run_at(s, i);
        let later = longest_run_at(s, i + 1);
        if here >= later {
            here
        } else {
            later
        }
    }
}

fn first_run_at(s: &Vec<u16>, i: usize, len: usize) -> (r: usize)
    requires
        i <= s@.len(),
    ensures
        r == first_run_of(s@, i as int, len as nat),
        i <= r <= s@.len(),
    decreases s@.len() - i,
{
    if i >= s.len() {
        s.len()
    } else if zero_run_at(s, i) == len {
        i
    } else {
        first_run_at(s, i + 1, len)
    }
}

proof fn lemma_first_run_fits(s: Seq<u16>, i: int, len: nat)
    requires
        0 <= i <= s.len(),
        len <= longest_run_from(s, i),
        exists|j: int| i <= j < s.len() && zero_run(s, j) == len,
    ensures
        first_run_of(s, i, len) + len <= s.len(),
        i <= first_run_of(s, i, len) < s.len(),
    decreases s.len() - i,
{
    lemma_zero_run_fits(s, i);
    if zero_run(s, i) != len {
        let j = choose|j: int| i <= j < s.len() && zero_run(s, j) == len;
        assert(j != i);
        lemma_first_run_fits_step(s, i, len);
        lemma_first_run_fits(s, i + 1, len);
    }
}

proof fn lemma_first_run_fits_step(s: Seq<u16>, i: int, len: nat)
    requires
        0 <= i < s.len(),
        zero_run(s, i) != len,
        exists|j: int| i <= j < s.len() && zero_run(s, j) == len,
    ensures
        len <= longest_run_from(s, i + 1),
{
    let j = choose|j: int| i <= j < s.len() && zero_run(s, j) == len;
    lemma_longest_bounds(s, i + 1, j);
}

proof fn lemma_longest_bounds(s: Seq<u16>, i: int, j: int)
    requires
        0 <= i <= j < s.len(),
    ensures
        zero_run(s, j) <= longest_run_from(s, i),
    decreases j - i,
{
    if i < j {
        lemma_longest_bounds(s, i + 1, j);
    }
}

proof fn lemma_zero_run_fits(s: Seq<u16>, i: int)
    requires
        0 <= i <= s.len(),
    ensures
        i + zero_run(s, i) <= s.len(),
    decreases s.len() - i,
{
    if i < s.len() {
        lemma_zero_run_fits(s, i + 1);
    }
}

proof fn lemma_longest_is_attained(s: Seq<u16>, i: int)
    requires
        0 <= i < s.len(),
    ensures
        exists|j: int| i <= j < s.len() && zero_run(s, j) == longest_run_from(s, i),
    decreases s.len() - i,
{
    if zero_run(s, i) >= longest_run_from(s, i + 1) {
        assert(zero_run(s, i) == longest_run_from(s, i));
    } else {
        lemma_longest_is_attained(s, i + 1);
    }
}

fn push_decimal(out: &mut Vec<char>, n: u8)
    ensures
        final(out)@ == old(out)@ + decimal_text(n as nat),
{
    let digits = u64_text(n as u64);
    append_chars(out, &digits);
}

fn push_ipv4(out: &mut Vec<char>, a: u8, b: u8, c: u8, d: u8)
    ensures
        final(out)@ == old(out)@ + ipv4_text(a, b, c, d),
{
    push_decimal(out, a);
    out.push('.');
    push_decimal(out, b);
    out.push('.');
    push_decimal(out, c);
    out.push('.');
    push_decimal(out, d);
    assert(out@ =~= old(out)@ + ipv4_text(a, b, c, d));
}

fn segment_hi(s: u16) -> (r: u8)
    ensures
        r == hi(s),
{
    (s / 256) as u8
}

fn segment_lo(s: u16) -> (r: u8)
    ensures
        r == lo(s),
{
    (s % 256) as u8
}

impl IpAddress {
    /// The address written as text: dotted decimal for IPv4, RFC 5952 form for IPv6.
    pub fn text(&self) -> (r: Vec<char>)
        ensures
            r@ == ip_text(*self),
    {
        let mut out: Vec<char> = Vec::new();
        match *self {
            IpAddress::V4(a, b, c, d) => {
                push_ipv4(&mut out, a, b, c, d);
                assert(out@ =~= ip_text(*self));
            },
            IpAddress::V6(s0, s1, s2, s3, s4, s5, s6, s7) => {
                let segs: Vec<u16> = vec![s0, s1, s2, s3, s4, s5, s6, s7];
                assert(segs@ =~= self.segments());
                if s0 == 0 && s1 == 0 && s2 == 0 && s3 == 0 && s4 == 0 && s5 == 0xffff {
                    out.push(':');
                    out.push(':');
                    out.push('f');
                    out.push('f');
                    out.push('f');
                    out.push('f');
                    out.push(':');
                    push_ipv4(&mut out, segment_hi(s6), segment_lo(s6), segment_hi(s7), segment_lo(s7));
                    assert(out@ =~= ip_text(*self));
                } else {
                    let len = longest_run_at(&segs, 0);
                    if len > 1 {
                        proof {
                            lemma_longest_is_attained(segs@, 0);
                            lemma_first_run_fits(segs@, 0, len as nat);
                        }
                        let start = first_run_at(&segs, 0, len);
                        push_segments(&mut out, &segs, 0, start);
                        out.push(':');
                        out.push(':');
                        push_segments(&mut out, &segs, start + len, 8);
                        assert(out@ =~= ip_text(*self));
                    } else {
                        push_segments(&mut out, &segs, 0, 8);
                        assert(segs@.subrange(0, 8) =~= segs@);
                        assert(out@ =~= ip_text(*self));
                    }
                }
            },
        }
        out
    }
}

// ---------------------------------------------------------------------------------------------
// Reading an address from text
// ---------------------------------------------------------------------------------------------

/// A digit's value, in decimal or hexadecimal.
pub open spec fn digit_of(c: char, hex: bool) -> Option<u32> {
    if hex {
        match hex_value(c) {
            Some(v) => Some(v as u32),
            None => None,
        }
    } else if '0' <= c && c <= '9' {
        Some((c as u32 - 48) as u32)
    } else {
        None
    }
}

/// How many digits follow one another from `pos` on.
pub open spec fn digit_run(s: Seq<char>, pos: int, hex: bool) -> nat
    decreases s.len() - pos,
{
    if 0 <= pos < s.len() && digit_of(s[pos], hex) is Some {
        1 + digit_run(s, pos + 1, hex)
    } else {
        0
    }
}

/// The value of the `n` digits from `pos`.
pub open spec fn run_value(s: Seq<char>, pos: int, n: nat, hex: bool) -> int
    decreases n,
{
    if n == 0 {
        0
    } else {
        run_value(s, pos, (n - 1) as nat, hex) * (if hex {
            16int
        } else {
            10int
        }) + match digit_of(s[pos + n - 1], hex) {
            Some(d) => d as int,
            None => 0,
        }
    }
}

/// A number at `pos`: the whole run of digits, at most `max_digits` of them, no leading zero
/// unless allowed (a lone `0` always is), and at most `max_value`. Its value and where it ends.
pub open spec fn read_number_spec(
    s: Seq<char>,
    pos: int,
    hex: bool,
    max_digits: nat,
    allow_zero_prefix: bool,
    max_value: int,
) -> Option<(int, int)> {
    let n = digit_run(s, pos, hex);
    if n == 0 || n > max_digits || (!allow_zero_prefix && s[pos] == '0' && n > 1) || run_value(
        s,
        pos,
        n,
        hex,
    ) > max_value {
        None
    } else {
        Some((run_value(s, pos, n, hex), pos + n))
    }
}

/// A decimal octet at `pos`: one to three digits, no leading zero, at most 255.
pub open spec fn read_octet(s: Seq<char>, pos: int) -> Option<(int, int)> {
    read_number_spec(s, pos, false, 3, false, 255)
}

/// `c` at `pos`.
pub open spec fn char_at(s: Seq<char>, pos: int, c: char) -> bool {
    0 <= pos < s.len() && s[pos] == c
}

/// A dotted-quad IPv4 address at `pos`, and where it ends.
pub open spec fn read_ipv4_spec(s: Seq<char>, pos: int) -> Option<((u8, u8, u8, u8), int)> {
    match read_octet(s, pos) {
        Some((a, p1)) => if char_at(s, p1, '.') {
            match read_octet(s, p1 + 1) {
                Some((b, p2)) => if char_at(s, p2, '.') {
                    match read_octet(s, p2 + 1) {
                        Some((c, p3)) => if char_at(s, p3, '.') {
                            match read_octet(s, p3 + 1) {
                                Some((d, p4)) => Some(((a as u8, b as u8, c as u8, d as u8), p4)),
                                None => None,
                            }
                        } else {
                            None
                        },
                        None => None,
                    }
                } else {
                    None
                },
                None => None,
            }
        } else {
            None
        },
        None => None,
    }
}

/// Colon-separated IPv6 groups from `pos`, the `i`-th onward of at most `limit`: each one to four
/// hex digits, and, where two groups are still free, possibly an embedded IPv4 address that
/// ends the run. The groups, whether an IPv4 address ended them, and where the run ends.
pub open spec fn read_groups_spec(s: Seq<char>, pos: int, i: nat, limit: nat) -> (Seq<u16>, bool, int)
    decreases limit - i,
{
    if i >= limit {
        (Seq::empty(), false, pos)
    } else {
        let start = if i > 0 {
            if char_at(s, pos, ':') {
                Some(pos + 1)
            } else {
                None
            }
        } else {
            Some(pos)
        };
        let v4 = if i + 1 < limit && start is Some {
            read_ipv4_spec(s, start->0)
        } else {
            None
        };
        match v4 {
            Some(((a, b, c, d), p)) => (seq![seg(a, b), seg(c, d)], true, p),
            None => match start {
                Some(st) => match read_number_spec(s, st, true, 4, true, 0xffff) {
                    Some((g, p)) => {
                        let rest = read_groups_spec(s, p, i + 1, limit);
                        (seq![g as u16] + rest.0, rest.1, rest.2)
                    },
                    None => (Seq::empty(), false, pos),
                },
                None => (Seq::empty(), false, pos),
            },
        }
    }
}

/// An IPv6 address at `pos`: eight groups, or the groups before and after one `::` (standing
/// for at least one zero group), an embedded IPv4 address allowed only at the end. Its
/// segments and where it ends.
pub open spec fn read_ipv6_spec(s: Seq<char>, pos: int) -> Option<(Seq<u16>, int)> {
    let head = read_groups_spec(s, pos, 0, 8);
    if head.0.len() == 8 {
        Some((head.0, head.2))
    } else if head.1 {
        None
    } else if char_at(s, head.2, ':') && char_at(s, head.2 + 1, ':') {
        let limit = (8 - (head.0.len() + 1)) as nat;
        let tail = read_groups_spec(s, head.2 + 2, 0, limit);
        Some((head.0 + Seq::new((8 - head.0.len() - tail.0.len()) as nat, |k: int| 0u16) + tail.0, tail.2))
    } else {
        None
    }
}

/// What `str::parse::<IpAddr>` reads from `s`: the whole text as an IPv4 address, else the
/// whole text as an IPv6 address.
pub open spec fn parse_ip_spec(s: Seq<char>) -> Option<IpAddress> {
    match read_ipv4_spec(s, 0) {
        Some(((a, b, c, d), p)) => if p == s.len() {
            Some(IpAddress::V4(a, b, c, d))
        } else {
            None
        },
        None => match read_ipv6_spec(s, 0) {
            Some((g, p)) => if p == s.len() && g.len() == 8 {
                Some(IpAddress::V6(g[0], g[1], g[2], g[3], g[4], g[5], g[6], g[7]))
            } else {
                None
            },
            None => None,
        },
    }
}

fn digit_at(c: char, hex: bool) -> (r: Option<u32>)
    ensures
        r == digit_of(c, hex),
{
    if hex {
        match hex_digit_value(c) {
            Some(v) => Some(v as u32),
            None => None,
        }
    } else if '0' <= c && c <= '9' {
        Some((c as u32) - 48)
    } else {
        None
    }
}

/// `radix` to the power `n`.
pub open spec fn radix_pow(n: nat, hex: bool) -> int
    decreases n,
{
    if n == 0 {
        1
    } else {
        radix_pow((n - 1) as nat, hex) * (if hex {
            16int
        } else {
            10int
        })
    }
}

proof fn lemma_in_run(s: Seq<char>, pos: int, k: int, hex: bool)
    requires
        0 <= k < digit_run(s, pos, hex),
    ensures
        0 <= pos + k < s.len(),
        digit_of(s[pos + k], hex) is Some,
    decreases k,
{
    if k > 0 {
        lemma_in_run(s, pos + 1, k - 1, hex);
    }
}

proof fn lemma_run_fits(s: Seq<char>, pos: int, hex: bool)
    requires
        0 <= pos <= s.len(),
    ensures
        pos + digit_run(s, pos, hex) <= s.len(),
    decreases s.len() - pos,
{
    if pos < s.len() {
        lemma_run_fits(s, pos + 1, hex);
    }
}

fn count_digits(s: &Vec<char>, pos: usize, hex: bool) -> (r: usize)
    requires
        pos <= s@.len(),
    ensures
        r == digit_run(s@, pos as int, hex),
        pos + r <= s@.len(),
    decreases s@.len() - pos,
{
    if pos < s.len() && digit_at(s[pos], hex).is_some() {
        1 + count_digits(s, pos + 1, hex)
    } else {
        0
    }
}

fn read_number(
    s: &Vec<char>,
    pos: usize,
    hex: bool,
    max_digits: usize,
    allow_zero_prefix: bool,
    max_value: u32,
) -> (r: Option<(u32, usize)>)
    requires
        pos <= s@.len(),
        1 <= max_digits <= 4,
    ensures
        match r {
            Some((v, p)) => read_number_spec(s@, pos as int, hex, max_digits as nat, allow_zero_prefix, max_value as int)
                == Some((v as int, p as int)) && p <= s@.len(),
            None => read_number_spec(s@, pos as int, hex, max_digits as nat, allow_zero_prefix, max_value as int) is None,
        },
{
    let n = count_digits(s, pos, hex);
    if n == 0 || n > max_digits {
        return None;
    }
    if !allow_zero_prefix && s[pos] == '0' && n > 1 {
        return None;
    }
    let radix: u32 = if hex { 16 } else { 10 };
    let mut value: u32 = 0;
    let mut k: usize = 0;
    let len = s.len();
    proof {
        lemma_radix_pow_mono(0, hex);
    }
    while k < n
        invariant
            k <= n <= max_digits <= 4,
            n == digit_run(s@, pos as int, hex),
            len == s@.len(),
            pos + n <= len,
            radix == (if hex { 16u32 } else { 10u32 }),
            value as int == run_value(s@, pos as int, k as nat, hex),
            (value as int) < radix_pow(k as nat, hex),
            radix_pow(k as nat, hex) <= radix_pow(4, hex),
        decreases n - k,
    {
        proof {
            lemma_in_run(s@, pos as int, k as int, hex);
        }
        let d = match digit_at(s[pos + k], hex) {
            Some(d) => d,
            None => 0,
        };
        proof {
            if hex {
                assert(hex_value(s@[pos + k as int]) is Some);
            }
            assert(d < radix);
            let b = radix_pow(k as nat, hex);
            assert(radix_pow((k + 1) as nat, hex) == b * (radix as int));
            assert((value as int) * (radix as int) + (d as int) < b * (radix as int)) by (nonlinear_arith)
                requires (value as int) < b, (d as int) < (radix as int), 0 <= (value as int), 0 <= (d as int);
            assert(radix_pow(4, hex) <= 65536) by {
                reveal_with_fuel(radix_pow, 5);
            }
            if k + 1 < 4 {
                lemma_radix_pow_mono((k + 1) as nat, hex);
            }
        }
        value = value * radix + d;
        k = k + 1;
    }
    if value > max_value {
        return None;
    }
    assert(pos + n <= len);
    Some((value, pos + n))
}

proof fn lemma_radix_pow_mono(k: nat, hex: bool)
    requires
        k <= 4,
    ensures
        radix_pow(k, hex) <= radix_pow(4, hex),
        radix_pow(k, hex) >= 1,
    decreases 4 - k,
{
    reveal_with_fuel(radix_pow, 5);
    if k < 4 {
        lemma_radix_pow_mono(k + 1, hex);
    }
}

fn is_char_at(s: &Vec<char>, pos: usize, c: char) -> (r: bool)
    ensures
        r == char_at(s@, pos as int, c),
{
    pos < s.len() && s[pos] == c
}

fn read_ipv4(s: &Vec<char>, pos: usize) -> (r: Option<((u8, u8, u8, u8), usize)>)
    requires
        pos <= s@.len(),
    ensures
        match r {
            Some((q, p)) => read_ipv4_spec(s@, pos as int) == Some((q, p as int)) && p <= s@.len(),
            None => read_ipv4_spec(s@, pos as int) is None,
        },
{
    let len = s.len();
    let (a, p1) = match read_number(s, pos, false, 3, false, 255) {
        Some(x) => x,
        None => return None,
    };
    if !is_char_at(s, p1, '.') {
        return None;
    }
    let (b, p2) = match read_number(s, p1 + 1, false, 3, false, 255) {
        Some(x) => x,
        None => return None,
    };
    if !is_char_at(s, p2, '.') {
        return None;
    }
    let (c, p3) = match read_number(s, p2 + 1, false, 3, false, 255) {
        Some(x) => x,
        None => return None,
    };
    if !is_char_at(s, p3, '.') {
        return None;
    }
    let (d, p4) = match read_number(s, p3 + 1, false, 3, false, 255) {
        Some(x) => x,
        None => return None,
    };
    Some(((a as u8, b as u8, c as u8, d as u8), p4))
}

fn make_segment(h: u8, l: u8) -> (r: u16)
    ensures
        r == seg(h, l),
{
    (h as u16) * 256 + (l as u16)
}

fn read_groups(s: &Vec<char>, pos: usize, i: usize, limit: usize) -> (r: (Vec<u16>, bool, usize))
    requires
        pos <= s@.len(),
        i <= limit <= 8,
    ensures
        (r.0@, r.1, r.2 as int) == read_groups_spec(s@, pos as int, i as nat, limit as nat),
        r.2 <= s@.len(),
        r.0@.len() <= limit - i,
    decreases limit - i,
{
    if i >= limit {
        return (Vec::new(), false, pos);
    }
    let len = s.len();
    let start: Option<usize> = if i > 0 {
        if is_char_at(s, pos, ':') {
            Some(pos + 1)
        } else {
            None
        }
    } else {
        Some(pos)
    };
    let v4 = if i + 1 < limit {
        match start {
            Some(st) => read_ipv4(s, st),
            None => None,
        }
    } else {
        None
    };
    match v4 {
        Some(((a, b, c, d), p)) => {
            let mut out: Vec<u16> = Vec::new();
            out.push(make_segment(a, b));
            out.push(make_segment(c, d));
            assert(out@ =~= seq![seg(a, b), seg(c, d)]);
            (out, true, p)
        },
        None => match start {
            Some(st) => match read_number(s, st, true, 4, true, 0xffff) {
                Some((g, p)) => {
                    let (rest, flag, end) = read_groups(s, p, i + 1, limit);
                    let mut out: Vec<u16> = Vec::new();
                    out.push(g as u16);
                    let mut k: usize = 0;
                    while k < rest.len()
                        invariant
                            k <= rest@.len(),
                            out@ == seq![g as u16] + rest@.subrange(0, k as int),
                        decreases rest.len() - k,
                    {
                        out.push(rest[k]);
                        k = k + 1;
                        assert(out@ =~= seq![g as u16] + rest@.subrange(0, k as int));
                    }
                    assert(rest@.subrange(0, rest@.len() as int) =~= rest@);
                    (out, flag, end)
                },
                None => (Vec::new(), false, pos),
            },
            None => (Vec::new(), false, pos),
        },
    }
}

fn read_ipv6(s: &Vec<char>, pos: usize) -> (r: Option<(Vec<u16>, usize)>)
    requires
        pos <= s@.len(),
    ensures
        match r {
            Some((g, p)) => read_ipv6_spec(s@, pos as int) == Some((g@, p as int)),
            None => read_ipv6_spec(s@, pos as int) is None,
        },
{
    let len = s.len();
    let (head, head_v4, p) = read_groups(s, pos, 0, 8);
    if head.len() == 8 {
        return Some((head, p));
    }
    if head_v4 {
        return None;
    }
    if !is_char_at(s, p, ':') {
        return None;
    }
    if !is_char_at(s, p + 1, ':') {
        return None;
    }
    let limit = 8 - (head.len() + 1);
    let (tail, _, q) = read_groups(s, p + 2, 0, limit);
    let mut out: Vec<u16> = Vec::new();
    let mut k: usize = 0;
    while k < head.len()
        invariant
            k <= head@.len(),
            out@ == head@.subrange(0, k as int),
        decreases head.len() - k,
    {
        out.push(head[k]);
        k = k + 1;
        assert(out@ =~= head@.subrange(0, k as int));
    }
    let zeros = 8 - head.len() - tail.len();
    let mut z: usize = 0;
    while z < zeros
        invariant
            z <= zeros,
            out@ == head@ + Seq::new(z as nat, |k: int| 0u16),
        decreases zeros - z,
    {
        out.push(0);
        z = z + 1;
        assert(out@ =~= head@ + Seq::new(z as nat, |k: int| 0u16));
    }
    let ghost mid = out@;
    let mut t: usize = 0;
    while t < tail.len()
        invariant
            t <= tail@.len(),
            out@ == mid + tail@.subrange(0, t as int),
        decreases tail.len() - t,
    {
        out.push(tail[t]);
        t = t + 1;
        assert(out@ =~= mid + tail@.subrange(0, t as int));
    }
    assert(head@.subrange(0, head@.len() as int) =~= head@);
    assert(tail@.subrange(0, tail@.len() as int) =~= tail@);
    Some((out, q))
}

/// Read an IP address from text as `str::parse::<IpAddr>` does: dotted-quad IPv4, or IPv6 with
/// at most one `::` and an optional embedded IPv4 tail.
pub fn parse_ip(text: &str) -> (r: Option<IpAddress>)
    ensures
        r == parse_ip_spec(text@),
{
    let s = chars_of(text);
    match read_ipv4(&s, 0) {
        Some(((a, b, c, d), p)) => {
            if p == s.len() {
                Some(IpAddress::V4(a, b, c, d))
            } else {
                None
            }
        },
        None => match read_ipv6(&s, 0) {
            Some((g, p)) => {
                if p == s.len() && g.len() == 8 {
                    Some(IpAddress::V6(g[0], g[1], g[2], g[3], g[4], g[5], g[6], g[7]))
                } else {
                    None
                }
            },
            None => None,
        },
    }
}

} // verus!
