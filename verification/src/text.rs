//! Character classes, trimming, hex rendering and the number parsing the identifiers need.

use vstd::prelude::*;

verus! {

broadcast use vstd::string::group_string_axioms;

// ---------------------------------------------------------------------------------------------
// Character classes
// ---------------------------------------------------------------------------------------------

/// Unicode general category `Cc`: the C0 controls, DEL and the C1 controls.
pub open spec fn is_control_spec(c: char) -> bool {
    (c as u32) < 0x20 || (0x7f <= (c as u32) && (c as u32) <= 0x9f)
}

/// Whether `c` is a control character (Unicode `Cc`), as `char::is_control` answers.
pub fn is_control(c: char) -> (r: bool)
    ensures
        r == is_control_spec(c),
{
    let u = c as u32;
    u < 0x20 || (0x7f <= u && u <= 0x9f)
}

/// The five characters `char::is_ascii_whitespace` accepts: space, tab, line feed, form feed
/// and carriage return. Vertical tab is not among them.
pub open spec fn is_ascii_ws(c: char) -> bool {
    c == ' ' || c == '\t' || c == '\n' || c == '\r' || c == '\x0C'
}

pub fn is_ascii_whitespace(c: char) -> (r: bool)
    ensures
        r == is_ascii_ws(c),
{
    c == ' ' || c == '\t' || c == '\n' || c == '\r' || c == '\x0C'
}

/// The Unicode `White_Space` property, which is what `str::trim` strips.
pub open spec fn is_unicode_ws(c: char) -> bool {
    let u = c as u32;
    (0x9 <= u && u <= 0xd) || u == 0x20 || u == 0x85 || u == 0xa0 || u == 0x1680 || (0x2000 <= u
        && u <= 0x200a) || u == 0x2028 || u == 0x2029 || u == 0x202f || u == 0x205f || u == 0x3000
}

pub fn is_unicode_whitespace(c: char) -> (r: bool)
    ensures
        r == is_unicode_ws(c),
{
    let u = c as u32;
    (0x9 <= u && u <= 0xd) || u == 0x20 || u == 0x85 || u == 0xa0 || u == 0x1680 || (0x2000 <= u
        && u <= 0x200a) || u == 0x2028 || u == 0x2029 || u == 0x202f || u == 0x205f || u == 0x3000
}

/// Padding as one of the two trimming rules reads it: Unicode `White_Space` (`str::trim`), or
/// exactly the ASCII whitespace set (`char::is_ascii_whitespace`).
pub open spec fn is_pad(c: char, unicode: bool) -> bool {
    if unicode {
        is_unicode_ws(c)
    } else {
        is_ascii_ws(c)
    }
}

pub fn is_padding(c: char, unicode: bool) -> (r: bool)
    ensures
        r == is_pad(c, unicode),
{
    if unicode {
        is_unicode_whitespace(c)
    } else {
        is_ascii_whitespace(c)
    }
}

// ---------------------------------------------------------------------------------------------
// Trimming
// ---------------------------------------------------------------------------------------------

/// `s` with its leading padding removed.
pub open spec fn trim_start(s: Seq<char>, unicode: bool) -> Seq<char>
    decreases s.len(),
{
    if s.len() > 0 && is_pad(s[0], unicode) {
        trim_start(s.drop_first(), unicode)
    } else {
        s
    }
}

/// `s` with its trailing padding removed.
pub open spec fn trim_end(s: Seq<char>, unicode: bool) -> Seq<char>
    decreases s.len(),
{
    if s.len() > 0 && is_pad(s.last(), unicode) {
        trim_end(s.drop_last(), unicode)
    } else {
        s
    }
}

/// `s` with padding removed from both ends.
pub open spec fn trimmed(s: Seq<char>, unicode: bool) -> Seq<char> {
    trim_end(trim_start(s, unicode), unicode)
}

/// What `str::trim` returns for `s`.
pub open spec fn trim_spec(s: Seq<char>) -> Seq<char> {
    trimmed(s, true)
}

/// Whether `s` holds nothing but padding.
pub open spec fn all_pad(s: Seq<char>, unicode: bool) -> bool {
    forall|i: int| 0 <= i < s.len() ==> is_pad(#[trigger] s[i], unicode)
}

proof fn lemma_trim_start_skip(s: Seq<char>, a: int, unicode: bool)
    requires
        0 <= a <= s.len(),
        forall|i: int| 0 <= i < a ==> is_pad(#[trigger] s[i], unicode),
    ensures
        trim_start(s, unicode) == trim_start(s.subrange(a, s.len() as int), unicode),
    decreases a,
{
    if a > 0 {
        assert(s.drop_first().subrange(a - 1, s.drop_first().len() as int) =~= s.subrange(
            a,
            s.len() as int,
        ));
        lemma_trim_start_skip(s.drop_first(), a - 1, unicode);
    } else {
        assert(s.subrange(0, s.len() as int) =~= s);
    }
}

proof fn lemma_trim_end_take(s: Seq<char>, b: int, unicode: bool)
    requires
        0 <= b <= s.len(),
        forall|i: int| b <= i < s.len() ==> is_pad(#[trigger] s[i], unicode),
    ensures
        trim_end(s, unicode) == trim_end(s.subrange(0, b), unicode),
    decreases s.len() - b,
{
    if b < s.len() {
        assert(s.drop_last().subrange(0, b) =~= s.subrange(0, b));
        lemma_trim_end_take(s.drop_last(), b, unicode);
    } else {
        assert(s.subrange(0, b) =~= s);
    }
}

proof fn lemma_all_pad_trims_to_empty(s: Seq<char>, unicode: bool)
    requires
        all_pad(s, unicode),
    ensures
        trim_start(s, unicode).len() == 0,
    decreases s.len(),
{
    if s.len() > 0 {
        lemma_all_pad_trims_to_empty(s.drop_first(), unicode);
    }
}

proof fn lemma_trim_start_head(s: Seq<char>, unicode: bool)
    ensures
        trim_start(s, unicode).len() == 0 || !is_pad(trim_start(s, unicode)[0], unicode),
    decreases s.len(),
{
    if s.len() > 0 && is_pad(s[0], unicode) {
        lemma_trim_start_head(s.drop_first(), unicode);
    }
}

proof fn lemma_trim_end_prefix(s: Seq<char>, unicode: bool)
    ensures
        trim_end(s, unicode).len() <= s.len(),
        trim_end(s, unicode) == s.subrange(0, trim_end(s, unicode).len() as int),
        trim_end(s, unicode).len() == 0 || !is_pad(trim_end(s, unicode).last(), unicode),
    decreases s.len(),
{
    if s.len() > 0 && is_pad(s.last(), unicode) {
        lemma_trim_end_prefix(s.drop_last(), unicode);
        assert(s.drop_last().subrange(0, trim_end(s, unicode).len() as int) =~= s.subrange(
            0,
            trim_end(s, unicode).len() as int,
        ));
    } else {
        assert(s.subrange(0, s.len() as int) =~= s);
    }
}

/// Trimming what is already trimmed changes nothing.
pub proof fn lemma_trimmed_idempotent(s: Seq<char>, unicode: bool)
    ensures
        trimmed(trimmed(s, unicode), unicode) == trimmed(s, unicode),
{
    let a = trim_start(s, unicode);
    lemma_trim_start_head(s, unicode);
    let b = trim_end(a, unicode);
    lemma_trim_end_prefix(a, unicode);
    if b.len() > 0 {
        assert(b[0] == a[0]);
    }
    assert(trim_start(b, unicode) == b);
    assert(trim_end(b, unicode) == b);
}

proof fn lemma_trim_start_lacks(s: Seq<char>, unicode: bool, c: char)
    requires
        !s.contains(c),
    ensures
        !trim_start(s, unicode).contains(c),
    decreases s.len(),
{
    if s.len() > 0 && is_pad(s[0], unicode) {
        assert(!s.drop_first().contains(c)) by {
            if s.drop_first().contains(c) {
                let k = choose|k: int| 0 <= k < s.drop_first().len() && s.drop_first()[k] == c;
                assert(s[k + 1] == c);
            }
        }
        lemma_trim_start_lacks(s.drop_first(), unicode, c);
    }
}

/// Trimming adds no character: what the text lacks, its trimmed form lacks.
pub proof fn lemma_trimmed_lacks(s: Seq<char>, unicode: bool, c: char)
    requires
        !s.contains(c),
    ensures
        !trimmed(s, unicode).contains(c),
{
    let a = trim_start(s, unicode);
    lemma_trim_start_lacks(s, unicode, c);
    lemma_trim_end_prefix(a, unicode);
    let b = trim_end(a, unicode);
    if b.contains(c) {
        let k = choose|k: int| 0 <= k < b.len() && b[k] == c;
        assert(a[k] == c);
    }
}

/// `v` with padding removed from both ends.
pub fn trim_chars(v: &[char], unicode: bool) -> (r: Vec<char>)
    ensures
        r@ == trimmed(v@, unicode),
{
    let n = v.len();
    let mut a: usize = 0;
    while a < n && is_padding(v[a], unicode)
        invariant
            n == v@.len(),
            a <= n,
            forall|i: int| 0 <= i < a ==> is_pad(#[trigger] v@[i], unicode),
        decreases n - a,
    {
        a = a + 1;
    }
    proof {
        lemma_trim_start_skip(v@, a as int, unicode);
    }
    let ghost rest = v@.subrange(a as int, n as int);
    if a == n {
        assert(rest.len() == 0);
        return Vec::new();
    }
    assert(!is_pad(rest[0], unicode));
    assert(trim_start(rest, unicode) == rest);
    let mut b: usize = n;
    while b > a && is_padding(v[b - 1], unicode)
        invariant
            n == v@.len(),
            a < n,
            a <= b <= n,
            !is_pad(v@[a as int], unicode),
            forall|i: int| b <= i < n ==> is_pad(#[trigger] v@[i], unicode),
        decreases b,
    {
        b = b - 1;
    }
    proof {
        assert forall|i: int| b - a <= i < rest.len() implies is_pad(#[trigger] rest[i], unicode) by {
            assert(rest[i] == v@[a + i]);
        }
        lemma_trim_end_take(rest, b - a, unicode);
        assert(rest.subrange(0, b - a) =~= v@.subrange(a as int, b as int));
        assert(b > a);
        let t = v@.subrange(a as int, b as int);
        assert(t.last() == v@[b - 1]);
        assert(!is_pad(t.last(), unicode));
        assert(trim_end(t, unicode) == t);
    }
    let mut out: Vec<char> = Vec::new();
    let mut i = a;
    while i < b
        invariant
            n == v@.len(),
            a <= i <= b <= n,
            out@ =~= v@.subrange(a as int, i as int),
        decreases b - i,
    {
        out.push(v[i]);
        i = i + 1;
    }
    out
}

/// What `str::trim` returns, as an owned string.
pub fn trim_str(s: &str) -> (r: String)
    ensures
        r@ == trim_spec(s@),
{
    let v = chars_of(s);
    let t = trim_chars(v.as_slice(), true);
    string_of(t.as_slice())
}

/// Whether `s` is empty once trimmed.
pub fn is_blank(s: &str) -> (r: bool)
    ensures
        r == (trim_spec(s@).len() == 0),
{
    let t = trim_str(s);
    t.as_str().is_empty()
}

// ---------------------------------------------------------------------------------------------
// NUL stripping
// ---------------------------------------------------------------------------------------------

/// `s` with every NUL removed.
pub open spec fn without_nuls(s: Seq<char>) -> Seq<char>
    decreases s.len(),
{
    if s.len() == 0 {
        s
    } else if s.last() == '\0' {
        without_nuls(s.drop_last())
    } else {
        without_nuls(s.drop_last()).push(s.last())
    }
}

/// What is left after removing NULs holds none.
pub proof fn lemma_without_nuls_has_none(s: Seq<char>)
    ensures
        forall|i: int|
            0 <= i < without_nuls(s).len() ==> #[trigger] without_nuls(s)[i] != '\0',
    decreases s.len(),
{
    if s.len() > 0 {
        lemma_without_nuls_has_none(s.drop_last());
        let r = without_nuls(s.drop_last());
        if s.last() != '\0' {
            assert forall|i: int| 0 <= i < r.push(s.last()).len() implies #[trigger] r.push(
                s.last(),
            )[i] != '\0' by {
                if i < r.len() {
                    assert(r.push(s.last())[i] == r[i]);
                }
            }
        }
    }
}

/// Text without NULs is unchanged by removing them.
pub proof fn lemma_without_nuls_identity(s: Seq<char>)
    requires
        forall|i: int| 0 <= i < s.len() ==> #[trigger] s[i] != '\0',
    ensures
        without_nuls(s) == s,
    decreases s.len(),
{
    if s.len() > 0 {
        lemma_without_nuls_identity(s.drop_last());
        assert(s.drop_last().push(s.last()) =~= s);
    }
}

/// Every NUL removed: the storage layer's rule, since a NUL cannot be stored in a JSON column.
pub fn strip_nul_chars(v: &[char]) -> (r: Vec<char>)
    ensures
        r@ == without_nuls(v@),
{
    let mut out: Vec<char> = Vec::new();
    let mut i: usize = 0;
    while i < v.len()
        invariant
            i <= v@.len(),
            out@ == without_nuls(v@.subrange(0, i as int)),
        decreases v.len() - i,
    {
        assert(v@.subrange(0, i + 1).drop_last() =~= v@.subrange(0, i as int));
        if v[i] != '\0' {
            out.push(v[i]);
        }
        i = i + 1;
    }
    assert(v@.subrange(0, v@.len() as int) =~= v@);
    out
}

// ---------------------------------------------------------------------------------------------
// Strings from characters
// ---------------------------------------------------------------------------------------------

/// The characters of `s`, in order.
pub fn chars_of(s: &str) -> (r: Vec<char>)
    ensures
        r@ == s@,
{
    let mut out: Vec<char> = Vec::new();
    for c in it: s.chars()
        invariant
            out@ == it.seq().take(it.index()),
    {
        out.push(c);
    }
    assert(out@ =~= s@);
    out
}

/// `String::push`: the string grows by one character at the end.
#[verifier::external_body]
fn push_char(s: &mut String, c: char)
    ensures
        final(s)@ == old(s)@.push(c),
{
    s.push(c);
}

/// The string holding exactly `v`.
pub fn string_of(v: &[char]) -> (r: String)
    ensures
        r@ == v@,
{
    let mut s = String::new();
    let mut i: usize = 0;
    while i < v.len()
        invariant
            i <= v@.len(),
            s@ =~= v@.subrange(0, i as int),
        decreases v.len() - i,
    {
        push_char(&mut s, v[i]);
        i = i + 1;
    }
    s
}

/// A copy of an optional string.
pub fn copy_text(s: &Option<String>) -> (r: Option<String>)
    ensures
        r == *s,
{
    match s {
        Some(t) => Some(t.clone()),
        None => None,
    }
}

/// Appends every character of `more`.
pub fn extend_chars(out: &mut Vec<char>, more: &[char])
    ensures
        final(out)@ == old(out)@ + more@,
{
    let mut i: usize = 0;
    while i < more.len()
        invariant
            i <= more@.len(),
            out@ == old(out)@ + more@.subrange(0, i as int),
        decreases more.len() - i,
    {
        out.push(more[i]);
        i = i + 1;
        assert(out@ =~= old(out)@ + more@.subrange(0, i as int));
    }
    assert(more@.subrange(0, more@.len() as int) =~= more@);
}

/// Appends every character of `s`.
pub fn extend_str(out: &mut Vec<char>, s: &str)
    ensures
        final(out)@ == old(out)@ + s@,
{
    let v = chars_of(s);
    extend_chars(out, v.as_slice());
}

/// Whether `s` holds a character that is not ASCII whitespace.
pub fn has_non_ascii_ws(s: &str) -> (r: bool)
    ensures
        r == !all_pad(s@, false),
{
    let v = chars_of(s);
    let mut i: usize = 0;
    while i < v.len()
        invariant
            i <= v@.len(),
            v@ == s@,
            forall|j: int| 0 <= j < i ==> is_pad(#[trigger] v@[j], false),
        decreases v.len() - i,
    {
        if !is_padding(v[i], false) {
            return true;
        }
        i = i + 1;
    }
    false
}

/// Whether two strings hold the same characters.
pub fn str_eq(a: &str, b: &str) -> (r: bool)
    ensures
        r == (a@ == b@),
{
    let x = chars_of(a);
    let y = chars_of(b);
    chars_eq(x.as_slice(), y.as_slice())
}

/// Whether two character slices are equal.
pub fn chars_eq(x: &[char], y: &[char]) -> (r: bool)
    ensures
        r == (x@ == y@),
{
    if x.len() != y.len() {
        return false;
    }
    let mut i: usize = 0;
    while i < x.len()
        invariant
            x@.len() == y@.len(),
            i <= x@.len(),
            forall|j: int| 0 <= j < i ==> x@[j] == y@[j],
        decreases x.len() - i,
    {
        if x[i] != y[i] {
            return false;
        }
        i = i + 1;
    }
    assert(x@ =~= y@);
    true
}

// ---------------------------------------------------------------------------------------------
// Hexadecimal
// ---------------------------------------------------------------------------------------------

/// How one octet is written: two lower-case digits, two upper-case digits, or lower-case with
/// no leading zero (`{:02x}`, `{:02X}` and `{:x}`).
#[derive(Debug, Clone, Copy, PartialEq, Eq, Structural)]
pub enum HexStyle {
    Lower,
    Upper,
    Short,
}

/// One hexadecimal digit for `n < 16`.
pub open spec fn hex_digit_spec(n: u8, upper: bool) -> char {
    if n < 10 {
        ((n + 48) as u8) as char
    } else if upper {
        ((n + 55) as u8) as char
    } else {
        ((n + 87) as u8) as char
    }
}

pub fn hex_digit(n: u8, upper: bool) -> (r: char)
    requires
        n < 16,
    ensures
        r == hex_digit_spec(n, upper),
{
    if n < 10 {
        ((n + 48) as u8) as char
    } else if upper {
        ((n + 55) as u8) as char
    } else {
        ((n + 87) as u8) as char
    }
}

/// One octet in the given style.
pub open spec fn octet_text(b: u8, style: HexStyle) -> Seq<char> {
    match style {
        HexStyle::Lower => seq![hex_digit_spec(b / 16, false), hex_digit_spec(b % 16, false)],
        HexStyle::Upper => seq![hex_digit_spec(b / 16, true), hex_digit_spec(b % 16, true)],
        HexStyle::Short => if b < 16 {
            seq![hex_digit_spec(b, false)]
        } else {
            seq![hex_digit_spec(b / 16, false), hex_digit_spec(b % 16, false)]
        },
    }
}

/// Octets in the given style, joined by `sep`.
pub open spec fn hex_join(bytes: Seq<u8>, sep: char, style: HexStyle) -> Seq<char>
    decreases bytes.len(),
{
    if bytes.len() == 0 {
        Seq::empty()
    } else if bytes.len() == 1 {
        octet_text(bytes[0], style)
    } else {
        hex_join(bytes.drop_last(), sep, style).push(sep) + octet_text(bytes.last(), style)
    }
}

fn push_octet(out: &mut Vec<char>, b: u8, style: HexStyle)
    ensures
        final(out)@ == old(out)@ + octet_text(b, style),
{
    let upper = match style {
        HexStyle::Upper => true,
        _ => false,
    };
    let short = match style {
        HexStyle::Short => true,
        _ => false,
    };
    if short && b < 16 {
        out.push(hex_digit(b, false));
        assert(final(out)@ =~= old(out)@ + octet_text(b, style));
    } else {
        out.push(hex_digit(b / 16, upper));
        out.push(hex_digit(b % 16, upper));
        assert(final(out)@ =~= old(out)@ + octet_text(b, style));
    }
}

/// The octets written in `style` and joined by `sep`.
pub fn hex_join_chars(bytes: &[u8], sep: char, style: HexStyle) -> (r: Vec<char>)
    ensures
        r@ == hex_join(bytes@, sep, style),
{
    let mut out: Vec<char> = Vec::new();
    let mut i: usize = 0;
    while i < bytes.len()
        invariant
            i <= bytes@.len(),
            out@ == hex_join(bytes@.subrange(0, i as int), sep, style),
        decreases bytes.len() - i,
    {
        let ghost before = out@;
        assert(bytes@.subrange(0, i + 1).drop_last() =~= bytes@.subrange(0, i as int));
        if i > 0 {
            out.push(sep);
        }
        push_octet(&mut out, bytes[i], style);
        proof {
            if i == 0 {
                assert(bytes@.subrange(0, 1) =~= seq![bytes@[0]]);
                assert(out@ =~= octet_text(bytes@[0], style));
            }
        }
        i = i + 1;
    }
    assert(bytes@.subrange(0, bytes@.len() as int) =~= bytes@);
    out
}

/// The value of one hexadecimal digit, as `u8::from_str_radix(_, 16)` reads it.
pub open spec fn hex_value(c: char) -> Option<u8> {
    if '0' <= c && c <= '9' {
        Some(((c as u32) - 48) as u8)
    } else if 'a' <= c && c <= 'f' {
        Some(((c as u32) - 87) as u8)
    } else if 'A' <= c && c <= 'F' {
        Some(((c as u32) - 55) as u8)
    } else {
        None
    }
}

pub fn hex_digit_value(c: char) -> (r: Option<u8>)
    ensures
        r == hex_value(c),
{
    if '0' <= c && c <= '9' {
        Some(((c as u32) - 48) as u8)
    } else if 'a' <= c && c <= 'f' {
        Some(((c as u32) - 87) as u8)
    } else if 'A' <= c && c <= 'F' {
        Some(((c as u32) - 55) as u8)
    } else {
        None
    }
}

/// A digit as written reads back as the value it was written for.
pub proof fn lemma_hex_digit_value(n: u8, upper: bool)
    requires
        n < 16,
    ensures
        hex_value(hex_digit_spec(n, upper)) == Some(n),
{
    let c = hex_digit_spec(n, upper);
    if n < 10 {
        assert(c as u32 == n + 48);
    } else if upper {
        assert(c as u32 == n + 55);
    } else {
        assert(c as u32 == n + 87);
    }
}

/// The two-digit styles.
pub open spec fn full_style(upper: bool) -> HexStyle {
    if upper {
        HexStyle::Upper
    } else {
        HexStyle::Lower
    }
}

/// Octets written two digits each and joined by `sep`: three characters per octet, less the
/// last separator, each octet's digits at its position.
pub proof fn lemma_hex_join_positions(bytes: Seq<u8>, sep: char, upper: bool)
    requires
        bytes.len() >= 1,
    ensures
        hex_join(bytes, sep, full_style(upper)).len() == 3 * bytes.len() - 1,
        forall|i: int|
            0 <= i < bytes.len() ==> hex_join(bytes, sep, full_style(upper))[3 * i] == hex_digit_spec(
                #[trigger] bytes[i] / 16,
                upper,
            ) && hex_join(bytes, sep, full_style(upper))[3 * i + 1] == hex_digit_spec(bytes[i] % 16, upper),
    decreases bytes.len(),
{
    let style = full_style(upper);
    if bytes.len() > 1 {
        let init = bytes.drop_last();
        lemma_hex_join_positions(init, sep, upper);
        let a = hex_join(init, sep, style).push(sep);
        let o = octet_text(bytes.last(), style);
        let s = hex_join(bytes, sep, style);
        assert(s == a + o);
        assert forall|i: int| 0 <= i < bytes.len() implies s[3 * i] == hex_digit_spec(
            #[trigger] bytes[i] / 16,
            upper,
        ) && s[3 * i + 1] == hex_digit_spec(bytes[i] % 16, upper) by {
            if i < bytes.len() - 1 {
                assert(init[i] == bytes[i]);
                assert(s[3 * i] == a[3 * i]);
                assert(s[3 * i + 1] == a[3 * i + 1]);
            } else {
                assert(s[3 * i] == o[0]);
                assert(s[3 * i + 1] == o[1]);
            }
        }
    }
}

/// Two runs of octets written two digits each, in either case, read the same only when they
/// are the same octets.
pub proof fn lemma_hex_join_injective(a: Seq<u8>, b: Seq<u8>, sep: char, ua: bool, ub: bool)
    requires
        a.len() >= 1,
        b.len() >= 1,
        hex_join(a, sep, full_style(ua)) == hex_join(b, sep, full_style(ub)),
    ensures
        a == b,
{
    lemma_hex_join_positions(a, sep, ua);
    lemma_hex_join_positions(b, sep, ub);
    let s = hex_join(a, sep, full_style(ua));
    assert(a.len() == b.len());
    assert forall|i: int| 0 <= i < a.len() implies a[i] == b[i] by {
        assert(s[3 * i] == hex_digit_spec(a[i] / 16, ua));
        assert(s[3 * i] == hex_digit_spec(b[i] / 16, ub));
        assert(s[3 * i + 1] == hex_digit_spec(a[i] % 16, ua));
        assert(s[3 * i + 1] == hex_digit_spec(b[i] % 16, ub));
        lemma_hex_digit_value(a[i] / 16, ua);
        lemma_hex_digit_value(b[i] / 16, ub);
        lemma_hex_digit_value(a[i] % 16, ua);
        lemma_hex_digit_value(b[i] % 16, ub);
        assert(a[i] / 16 == b[i] / 16);
        assert(a[i] % 16 == b[i] % 16);
    }
    assert(a =~= b);
}

/// `u8::from_str_radix(g, 16)` for a group of one or two characters: an optional leading `+`,
/// then at least one hexadecimal digit.
pub open spec fn hex_octet_spec(g: Seq<char>) -> Option<u8> {
    let digits = if g.len() > 0 && g[0] == '+' {
        g.drop_first()
    } else {
        g
    };
    if digits.len() == 1 {
        hex_value(digits[0])
    } else if digits.len() == 2 {
        match (hex_value(digits[0]), hex_value(digits[1])) {
            (Some(h), Some(l)) => Some((h * 16 + l) as u8),
            _ => None,
        }
    } else {
        None
    }
}

/// Reads a one- or two-character group as `u8::from_str_radix(_, 16)` does.
pub fn parse_hex_group(g: &[char]) -> (r: Option<u8>)
    requires
        1 <= g@.len() <= 2,
    ensures
        r == hex_octet_spec(g@),
{
    let start: usize = if g[0] == '+' {
        1
    } else {
        0
    };
    let ghost digits = if g@[0] == '+' {
        g@.drop_first()
    } else {
        g@
    };
    assert(digits =~= g@.subrange(start as int, g@.len() as int));
    if g.len() - start == 1 {
        hex_digit_value(g[start])
    } else if g.len() - start == 2 {
        match (hex_digit_value(g[start]), hex_digit_value(g[start + 1])) {
            (Some(h), Some(l)) => {
                assert(h < 16 && l < 16);
                Some(h * 16 + l)
            },
            _ => None,
        }
    } else {
        None
    }
}

// ---------------------------------------------------------------------------------------------
// Decimal numbers
// ---------------------------------------------------------------------------------------------

pub open spec fn is_decimal_digit(c: char) -> bool {
    '0' <= c && c <= '9'
}

/// The value of a run of decimal digits.
pub open spec fn decimal_value(s: Seq<char>) -> int
    decreases s.len(),
{
    if s.len() == 0 {
        0
    } else {
        decimal_value(s.drop_last()) * 10 + ((s.last() as u32) - 48)
    }
}

/// What `str::parse` answers for an integer type bounded by `lo..=hi`: an optional sign (`-`
/// only for a signed type), then one or more decimal digits, whose value must fit.
pub open spec fn std_parse_int(s: Seq<char>, signed: bool, lo: int, hi: int) -> Option<int> {
    let negative = signed && s.len() > 0 && s[0] == '-';
    let digits = if s.len() > 0 && (s[0] == '+' || negative) {
        s.drop_first()
    } else {
        s
    };
    if digits.len() == 0 || !(forall|i: int| 0 <= i < digits.len() ==> is_decimal_digit(#[trigger] digits[i])) {
        None
    } else {
        let v = if negative {
            -decimal_value(digits)
        } else {
            decimal_value(digits)
        };
        if lo <= v && v <= hi {
            Some(v)
        } else {
            None
        }
    }
}

/// `s.parse::<i32>().ok()`.
#[verifier::external_body]
pub fn parse_i32(s: &str) -> (r: Option<i32>)
    ensures
        r matches Some(v) ==> std_parse_int(s@, true, i32::MIN as int, i32::MAX as int) == Some(
            v as int,
        ),
        r is None ==> std_parse_int(s@, true, i32::MIN as int, i32::MAX as int) is None,
{
    s.parse::<i32>().ok()
}

/// `s.parse::<i64>().ok()`.
#[verifier::external_body]
pub fn parse_i64(s: &str) -> (r: Option<i64>)
    ensures
        r matches Some(v) ==> std_parse_int(s@, true, i64::MIN as int, i64::MAX as int) == Some(
            v as int,
        ),
        r is None ==> std_parse_int(s@, true, i64::MIN as int, i64::MAX as int) is None,
{
    s.parse::<i64>().ok()
}

/// `s.parse::<u64>().ok()`.
#[verifier::external_body]
pub fn parse_u64(s: &str) -> (r: Option<u64>)
    ensures
        r matches Some(v) ==> std_parse_int(s@, false, 0, u64::MAX as int) == Some(v as int),
        r is None ==> std_parse_int(s@, false, 0, u64::MAX as int) is None,
{
    s.parse::<u64>().ok()
}

/// The decimal digits of `n`, as `Display` writes a non-negative integer.
pub open spec fn decimal_text(n: nat) -> Seq<char>
    decreases n,
{
    if n < 10 {
        seq![((n + 48) as u8) as char]
    } else {
        decimal_text(n / 10).push((((n % 10) + 48) as u8) as char)
    }
}

/// `n` written in decimal.
pub fn u64_text(n: u64) -> (r: Vec<char>)
    ensures
        r@ == decimal_text(n as nat),
    decreases n,
{
    if n < 10 {
        let mut v: Vec<char> = Vec::new();
        v.push(((n as u8) + 48) as char);
        assert(v@ =~= decimal_text(n as nat));
        v
    } else {
        let mut v = u64_text(n / 10);
        v.push((((n % 10) as u8) + 48) as char);
        v
    }
}

/// `n` written in decimal, with a `-` when negative.
pub open spec fn signed_decimal_text(n: int) -> Seq<char> {
    if n < 0 {
        seq!['-'] + decimal_text((-n) as nat)
    } else {
        decimal_text(n as nat)
    }
}

pub fn i64_text(n: i64) -> (r: Vec<char>)
    ensures
        r@ == signed_decimal_text(n as int),
{
    if n < 0 {
        let magnitude: u64 = if n == i64::MIN {
            9223372036854775808u64
        } else {
            (-n) as u64
        };
        let digits = u64_text(magnitude);
        let mut v: Vec<char> = Vec::new();
        v.push('-');
        let mut i: usize = 0;
        while i < digits.len()
            invariant
                i <= digits@.len(),
                v@ =~= seq!['-'] + digits@.subrange(0, i as int),
            decreases digits.len() - i,
        {
            v.push(digits[i]);
            i = i + 1;
        }
        assert(digits@.subrange(0, digits@.len() as int) =~= digits@);
        v
    } else {
        u64_text(n as u64)
    }
}

} // verus!

verus! {

// ---------------------------------------------------------------------------------------------
// UTF-8
// ---------------------------------------------------------------------------------------------

/// The bytes of `s` in UTF-8.
pub fn utf8_bytes(s: &str) -> (r: Vec<u8>)
    ensures
        r@ == vstd::utf8::encode_utf8(s@),
{
    vstd::slice::slice_to_vec(s.as_bytes())
}

/// `std::str::from_utf8`, owned: the text when `bytes` is valid UTF-8, and nothing otherwise.
#[verifier::external_body]
pub fn decode_utf8_strict(bytes: &[u8]) -> (r: Option<String>)
    ensures
        r is Some <==> vstd::utf8::valid_utf8(bytes@),
        r matches Some(s) ==> s@ == vstd::utf8::decode_utf8(bytes@),
{
    std::str::from_utf8(bytes).ok().map(|s| s.to_string())
}

/// What `String::from_utf8_lossy` makes of bytes that are not valid UTF-8: each invalid
/// sequence replaced by U+FFFD.
pub uninterp spec fn utf8_lossy(bytes: Seq<u8>) -> Seq<char>;

/// What `String::from_utf8_lossy` returns: valid UTF-8 decoded unchanged, as its documentation
/// says; anything else as the name gives it.
pub open spec fn lossy_text(bytes: Seq<u8>) -> Seq<char> {
    if vstd::utf8::valid_utf8(bytes) {
        vstd::utf8::decode_utf8(bytes)
    } else {
        utf8_lossy(bytes)
    }
}

/// `String::from_utf8_lossy`, owned.
#[verifier::external_body]
pub fn decode_utf8_lossy(bytes: &[u8]) -> (r: String)
    ensures
        r@ == lossy_text(bytes@),
        !vstd::utf8::valid_utf8(bytes@) ==> r@ == utf8_lossy(bytes@),
{
    String::from_utf8_lossy(bytes).into_owned()
}

/// The UTF-8 bytes of ASCII characters are the characters' own codes.
pub fn ascii_bytes(v: &[char]) -> (r: Vec<u8>)
    requires
        vstd::utf8::is_ascii_chars(v@),
    ensures
        r@ == vstd::utf8::encode_utf8(v@),
{
    proof {
        vstd::utf8::is_ascii_chars_encode_utf8(v@);
    }
    let mut out: Vec<u8> = Vec::new();
    let mut i: usize = 0;
    while i < v.len()
        invariant
            i <= v@.len(),
            vstd::utf8::is_ascii_chars(v@),
            v@.len() == vstd::utf8::encode_utf8(v@).len(),
            forall|j: int| 0 <= j < v@.len() ==> v@[j] as u8 == vstd::utf8::encode_utf8(v@)[j],
            out@ =~= vstd::utf8::encode_utf8(v@).subrange(0, i as int),
        decreases v.len() - i,
    {
        assert('\0' <= v@[i as int] <= '\u{7f}');
        out.push(v[i] as u8);
        i = i + 1;
    }
    assert(out@ =~= vstd::utf8::encode_utf8(v@));
    out
}

} // verus!
